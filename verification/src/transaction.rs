//! The parts of a Hotline transaction that the protocol logic reads and builds.
use vstd::prelude::*;
use vstd::utf8::{decode_utf8, valid_utf8};
use vstd::string::StringSliceAdditionalSpecFns;
use crate::bytes::{be_u16, be_u32, push_u16_be, push_u32_be, u16_be_bytes, u32_be_bytes};

verus! {

/// The field types that the client logic reads or writes; any other wire
/// type is carried as `Other`.
#[derive(PartialEq, Eq, Structural, Clone, Copy, Debug)]
pub enum FieldType {
    Data,
    ErrorText,
    UserId,
    FilePath,
    ChatMediaId,
    ChatMediaType,
    ChatMediaWidth,
    ChatMediaHeight,
    ChatMediaBytes,
    ChatMediaPayload,
    ChatMediaDeclaredType,
    ChatMediaPartCount,
    ChatMediaPartIndex,
    ChatMediaPartFinal,
    ChatMediaUploadToken,
    ChatMediaMaxBytes,
    ChatMediaMaxDimension,
    ChatMediaMaxPixels,
    ChatMediaChunkSize,
    ChatMediaMaxFrames,
    ChatMediaMaxDurationMs,
    GifIconListEntry,
    GifIconData,
    Other(u16),
}

#[derive(PartialEq, Eq, Structural, Clone, Copy, Debug)]
pub enum TransactionType {
    Login,
    ChatMessage,
    UploadMedia,
    DownloadMedia,
    GetGifIconList,
    GetGifIcon,
    SetGifIcon,
    Other(u16),
}

#[derive(Debug)]
pub struct TransactionField {
    pub field_type: FieldType,
    pub data: Vec<u8>,
}

#[derive(Debug)]
pub struct Transaction {
    pub id: u32,
    pub transaction_type: TransactionType,
    pub error_code: u32,
    pub fields: Vec<TransactionField>,
}

/// The integer that a field's bytes encode: two or four bytes, big-endian.
pub open spec fn field_u32(data: Seq<u8>) -> Option<u32> {
    if data.len() == 2 {
        Some(be_u16(data[0], data[1]) as u32)
    } else if data.len() == 4 {
        Some(be_u32(data[0], data[1], data[2], data[3]) as u32)
    } else {
        None
    }
}

/// The 16-bit integer that a two-byte field encodes.
pub open spec fn field_u16(data: Seq<u8>) -> Option<u16> {
    if data.len() == 2 { Some(be_u16(data[0], data[1]) as u16) } else { None }
}

/// The text that a field's bytes encode as UTF-8.
pub open spec fn field_text(data: Seq<u8>) -> Option<Seq<char>> {
    if valid_utf8(data) { Some(decode_utf8(data)) } else { None }
}

/// The index of the first field of type `ft` at or after `from`.
pub open spec fn find_field(fields: Seq<TransactionField>, ft: FieldType, from: int) -> Option<int>
    decreases fields.len() - from,
{
    if from < 0 || from >= fields.len() {
        None
    } else if fields[from].field_type == ft {
        Some(from)
    } else {
        find_field(fields, ft, from + 1)
    }
}

/// The bytes of the first field of type `ft`, if any.
pub open spec fn field_data(fields: Seq<TransactionField>, ft: FieldType) -> Option<Seq<u8>> {
    match find_field(fields, ft, 0) {
        Some(i) => Some(fields[i].data@),
        None => None,
    }
}

/// The integer in the first field of type `ft`, when present and well formed.
pub open spec fn field_int(fields: Seq<TransactionField>, ft: FieldType) -> Option<u32> {
    match field_data(fields, ft) {
        Some(d) => field_u32(d),
        None => None,
    }
}

pub proof fn lemma_find_field_found(fields: Seq<TransactionField>, ft: FieldType, from: int)
    requires
        0 <= from,
    ensures
        find_field(fields, ft, from) matches Some(i) ==> from <= i < fields.len() && fields[i].field_type == ft,
        find_field(fields, ft, from) is None ==> forall|j: int| from <= j < fields.len() ==> fields[j].field_type != ft,
    decreases fields.len() - from,
{
    if from < fields.len() && fields[from].field_type != ft {
        lemma_find_field_found(fields, ft, from + 1);
    }
}

/// Decodes UTF-8 text (`std::str::from_utf8`, copied into a `String`).
#[verifier::external_body]
pub(crate) fn utf8_decode(bytes: &[u8]) -> (r: Option<String>)
    ensures
        r is Some <==> valid_utf8(bytes@),
        r matches Some(s) ==> s@ == decode_utf8(bytes@),
{
    std::str::from_utf8(bytes).ok().map(|s| s.to_string())
}

impl TransactionField {
    pub fn new(field_type: FieldType, data: Vec<u8>) -> (f: Self)
        ensures
            f.field_type == field_type,
            f.data@ == data@,
    {
        TransactionField { field_type, data }
    }

    /// A field holding the UTF-8 bytes of `text`.
    pub fn from_string(field_type: FieldType, text: &str) -> (f: Self)
        ensures
            f.field_type == field_type,
            f.data@ == text.spec_bytes(),
    {
        TransactionField { field_type, data: vstd::slice::slice_to_vec(text.as_bytes()) }
    }

    pub fn from_u32(field_type: FieldType, value: u32) -> (f: Self)
        ensures
            f.field_type == field_type,
            f.data@ == u32_be_bytes(value as int),
    {
        let mut data = Vec::new();
        push_u32_be(&mut data, value);
        TransactionField { field_type, data }
    }

    pub fn from_u16(field_type: FieldType, value: u16) -> (f: Self)
        ensures
            f.field_type == field_type,
            f.data@ == u16_be_bytes(value as int),
    {
        let mut data = Vec::new();
        push_u16_be(&mut data, value);
        TransactionField { field_type, data }
    }

    pub fn from_u8(field_type: FieldType, value: u8) -> (f: Self)
        ensures
            f.field_type == field_type,
            f.data@ == seq![value],
    {
        let mut data = Vec::new();
        data.push(value);
        TransactionField { field_type, data }
    }

    /// The two- or four-byte big-endian integer in this field.
    pub fn to_u32(&self) -> (r: Option<u32>)
        ensures
            r == field_u32(self.data@),
    {
        let d = &self.data;
        if d.len() == 2 {
            Some(crate::bytes::read_u16_be(d[0], d[1]) as u32)
        } else if d.len() == 4 {
            Some(crate::bytes::read_u32_be(d[0], d[1], d[2], d[3]))
        } else {
            None
        }
    }

    /// The two-byte big-endian integer in this field.
    pub fn to_u16(&self) -> (r: Option<u16>)
        ensures
            r == field_u16(self.data@),
    {
        let d = &self.data;
        if d.len() == 2 {
            Some(crate::bytes::read_u16_be(d[0], d[1]))
        } else {
            None
        }
    }

    /// The UTF-8 text in this field.
    pub fn to_text(&self) -> (r: Option<String>)
        ensures
            r is Some <==> field_text(self.data@) is Some,
            r matches Some(s) ==> s@ == field_text(self.data@).unwrap(),
    {
        utf8_decode(self.data.as_slice())
    }
}

impl Transaction {
    pub fn new(id: u32, transaction_type: TransactionType) -> (t: Self)
        ensures
            t.id == id,
            t.transaction_type == transaction_type,
            t.error_code == 0,
            t.fields@.len() == 0,
    {
        Transaction { id, transaction_type, error_code: 0, fields: Vec::new() }
    }

    pub fn add_field(&mut self, field: TransactionField)
        ensures
            final(self).id == old(self).id,
            final(self).transaction_type == old(self).transaction_type,
            final(self).error_code == old(self).error_code,
            final(self).fields@ == old(self).fields@.push(field),
    {
        self.fields.push(field);
    }

    /// The first field of type `field_type`.
    pub fn get_field(&self, field_type: FieldType) -> (r: Option<&TransactionField>)
        ensures
            r is Some <==> find_field(self.fields@, field_type, 0) is Some,
            r matches Some(f) ==> *f == self.fields@[find_field(self.fields@, field_type, 0).unwrap()],
    {
        let mut i: usize = 0;
        while i < self.fields.len()
            invariant
                i <= self.fields@.len(),
                find_field(self.fields@, field_type, i as int) == find_field(self.fields@, field_type, 0),
            decreases self.fields@.len() - i,
        {
            if self.fields[i].field_type == field_type {
                return Some(&self.fields[i]);
            }
            i = i + 1;
        }
        None
    }

    /// The integer in the first field of type `field_type`, when present
    /// and well formed.
    pub fn get_u32(&self, field_type: FieldType) -> (r: Option<u32>)
        ensures
            r == field_int(self.fields@, field_type),
    {
        match self.get_field(field_type) {
            Some(f) => f.to_u32(),
            None => None,
        }
    }
}

} // verus!
