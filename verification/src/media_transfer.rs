//! Decisions of the inline-media upload and download exchanges. The caller
//! sends each request, awaits the reply, and hands it back.
use vstd::prelude::*;
use crate::bytes::{copy_range, extend_bytes, u16_be_bytes};
use crate::media::{
    magic_matches, metadata_matches, has_text_mime, parse_upload_metadata, validate_magic_bytes,
    MediaMetadata, MAX_DOWNLOAD_BYTES,
};
use crate::text::{ascii_lowercase, decimal, owned, push_decimal, push_str};
use crate::transaction::{
    field_data, field_text, field_u16, find_field, FieldType, Transaction, TransactionField,
    TransactionType,
};

verus! {

/// The text of a reply's first field of type `ft`, when present and UTF-8.
pub open spec fn reply_text(reply: Transaction, ft: FieldType) -> Option<Seq<char>> {
    match field_data(reply.fields@, ft) {
        Some(d) => field_text(d),
        None => None,
    }
}

/// The message for a failed reply: the server's error text, else its data
/// text, else the error code.
pub open spec fn reply_error_message(reply: Transaction) -> Seq<char> {
    match reply_text(reply, FieldType::ErrorText) {
        Some(t) => t,
        None => match reply_text(reply, FieldType::Data) {
            Some(t) => t,
            None => "error code "@ + decimal(reply.error_code as nat),
        },
    }
}

fn text_field(reply: &Transaction, ft: FieldType) -> (r: Option<String>)
    ensures
        r is Some <==> reply_text(*reply, ft) is Some,
        r matches Some(s) ==> s@ == reply_text(*reply, ft).unwrap(),
{
    match reply.get_field(ft) {
        Some(f) => f.to_text(),
        None => None,
    }
}

/// A reply with a non-zero error code is an error carrying its message.
pub fn reply_outcome(reply: Transaction) -> (r: Result<Transaction, String>)
    ensures
        reply.error_code == 0 ==> (r matches Ok(t) && t == reply),
        reply.error_code != 0 ==> (r matches Err(e) && e@ == reply_error_message(reply)),
{
    if reply.error_code == 0 {
        return Ok(reply);
    }
    if let Some(t) = text_field(&reply, FieldType::ErrorText) {
        return Err(t);
    }
    if let Some(t) = text_field(&reply, FieldType::Data) {
        return Err(t);
    }
    let mut message = owned("error code ");
    push_decimal(&mut message, reply.error_code as u64);
    Err(message)
}

/// Uploads need server support, the account's permission, and a payload.
pub fn upload_preflight(supported: bool, permitted: bool, len: usize) -> (r: Result<(), String>)
    ensures
        !supported ==> (r matches Err(e) && e@ == "Server does not support inline media"@),
        supported && !permitted ==> (r matches Err(e) && e@ == "Account does not have permission to send media"@),
        supported && permitted && len == 0 ==> (r matches Err(e) && e@ == "Empty payload"@),
        r is Ok <==> supported && permitted && len != 0,
{
    if !supported {
        return Err(owned("Server does not support inline media"));
    }
    if !permitted {
        return Err(owned("Account does not have permission to send media"));
    }
    if len == 0 {
        return Err(owned("Empty payload"));
    }
    Ok(())
}

/// Downloads need server support.
pub fn download_preflight(supported: bool) -> (r: Result<(), String>)
    ensures
        r is Ok <==> supported,
        r matches Err(e) ==> e@ == "Server does not support inline media"@,
{
    if !supported {
        return Err(owned("Server does not support inline media"));
    }
    Ok(())
}

/// Chunk `i` of `bytes` in chunks of `size`.
pub open spec fn chunk(bytes: Seq<u8>, size: int, i: int) -> Seq<u8> {
    let start = i * size;
    let end = if start + size <= bytes.len() { start + size } else { bytes.len() as int };
    bytes.subrange(start, end)
}

/// The number of chunks of `size` that `len` bytes take.
pub open spec fn chunk_count(len: int, size: int) -> int {
    if len % size == 0 { len / size } else { len / size + 1 }
}

/// Chunk `n` of a chunked upload starts inside the payload.
proof fn lemma_offset_in_range(len: int, size: int, n: int, total: int)
    requires
        size > 0,
        len >= 0,
        total == chunk_count(len, size),
        0 <= n < total,
    ensures
        n * size < len,
{
    let q = len / size;
    let r = len % size;
    assert(len == q * size + r && 0 <= r < size) by (nonlinear_arith) requires size > 0, q == len / size, r == len % size;
    if r == 0 {
        assert(n <= q - 1);
        assert(n * size < len) by (nonlinear_arith) requires n <= q - 1, size > 0, len == q * size + r, r == 0;
    } else {
        assert(n <= q);
        assert(n * size < len) by (nonlinear_arith) requires n <= q, size > 0, len == q * size + r, r > 0;
    }
}

/// An upload in progress: one single-shot request when the payload fits in
/// a chunk, otherwise a first chunk that obtains an upload token and the
/// remaining chunks under that token.
pub struct MediaUpload {
    bytes: Vec<u8>,
    mime: String,
    chunk_size: usize,
    single: bool,
    total: usize,
    next: usize,
    offset: usize,
    token: Option<Vec<u8>>,
}

/// The fields of a request, by type and bytes.
pub open spec fn field_views(t: Transaction) -> Seq<(FieldType, Seq<u8>)> {
    t.fields@.map_values(|f: TransactionField| (f.field_type, f.data@))
}

impl MediaUpload {
    pub closed spec fn payload(self) -> Seq<u8> { self.bytes@ }
    pub closed spec fn declared_mime(self) -> Seq<char> { self.mime@ }
    pub closed spec fn size(self) -> int { self.chunk_size as int }
    pub closed spec fn is_single(self) -> bool { self.single }
    pub closed spec fn parts(self) -> int { self.total as int }
    /// Requests answered so far.
    pub closed spec fn sent(self) -> int { self.next as int }
    pub closed spec fn upload_token(self) -> Option<Seq<u8>> {
        match self.token { Some(t) => Some(t@), None => None }
    }

    pub closed spec fn wf(self) -> bool {
        &&& self.single <==> self.bytes@.len() <= self.chunk_size
        &&& self.single ==> self.total == 1
        &&& !self.single ==> self.chunk_size > 0 && self.total >= 2 && self.total == chunk_count(self.bytes@.len() as int, self.chunk_size as int)
        &&& self.total <= 65535
        &&& self.next <= self.total
        &&& !self.single && self.next < self.total ==> self.offset == self.next * self.chunk_size && self.offset < self.bytes@.len()
        &&& (self.token is Some <==> !self.single && self.next >= 1)
    }

    /// Every request has been answered.
    pub closed spec fn finished(self) -> bool {
        self.next >= self.total
    }

    /// The request for the next part, in the order the protocol sends its
    /// fields.
    pub open spec fn request_fields(self) -> Seq<(FieldType, Seq<u8>)> {
        if self.is_single() {
            seq![
                (FieldType::ChatMediaPayload, self.payload()),
                (FieldType::ChatMediaDeclaredType, self.declared_mime_bytes()),
                (FieldType::ChatMediaPartFinal, seq![1u8]),
            ]
        } else if self.sent() == 0 {
            seq![
                (FieldType::ChatMediaPayload, chunk(self.payload(), self.size(), 0)),
                (FieldType::ChatMediaDeclaredType, self.declared_mime_bytes()),
                (FieldType::ChatMediaPartCount, u16_be_bytes(self.parts())),
            ]
        } else {
            seq![
                (FieldType::ChatMediaUploadToken, self.upload_token().unwrap()),
                (FieldType::ChatMediaPayload, chunk(self.payload(), self.size(), self.sent())),
                (FieldType::ChatMediaPartIndex, u16_be_bytes(self.sent())),
            ] + if self.sent() == self.parts() - 1 { seq![(FieldType::ChatMediaPartFinal, seq![1u8])] } else { Seq::empty() }
        }
    }

    pub closed spec fn declared_mime_bytes(self) -> Seq<u8> {
        vstd::utf8::encode_utf8(self.mime@)
    }

    /// Starts an upload of `bytes` (of MIME type `mime`) in chunks of
    /// `chunk_size`; more than 65,535 chunks are refused.
    pub fn start(bytes: Vec<u8>, mime: String, chunk_size: usize) -> (r: Result<Self, String>)
        requires
            bytes@.len() > chunk_size ==> chunk_size > 0,
        ensures
            bytes@.len() > chunk_size && chunk_count(bytes@.len() as int, chunk_size as int) > 65535
                ==> (r matches Err(e) && e@ == "Image too large: "@ + decimal(chunk_count(bytes@.len() as int, chunk_size as int) as nat) + " chunks exceeds u16"@),
            r is Ok <==> (bytes@.len() <= chunk_size || chunk_count(bytes@.len() as int, chunk_size as int) <= 65535),
            r matches Ok(u) ==> {
                &&& u.wf()
                &&& u.payload() == bytes@
                &&& u.declared_mime() == mime@
                &&& u.size() == chunk_size
                &&& u.is_single() == (bytes@.len() <= chunk_size)
                &&& u.parts() == if bytes@.len() <= chunk_size { 1 } else { chunk_count(bytes@.len() as int, chunk_size as int) }
                &&& u.sent() == 0
            },
    {
        let len = bytes.len();
        if len <= chunk_size {
            return Ok(MediaUpload { bytes, mime, chunk_size, single: true, total: 1, next: 0, offset: 0, token: None });
        }
        proof {
            if chunk_size == 1 {
                assert(len % chunk_size == 0);
            } else {
                assert(len / chunk_size < usize::MAX) by (nonlinear_arith) requires chunk_size >= 2, len <= usize::MAX;
            }
        }
        let total = if len % chunk_size == 0 { len / chunk_size } else { len / chunk_size + 1 };
        if total > 65535 {
            let mut message = owned("Image too large: ");
            push_decimal(&mut message, total as u64);
            push_str(&mut message, " chunks exceeds u16");
            return Err(message);
        }
        proof {
            assert(0 * chunk_size == 0);
            assert(len / chunk_size >= 1) by (nonlinear_arith) requires len > chunk_size, chunk_size > 0;
            assert(len % chunk_size == 0 ==> len / chunk_size >= 2) by (nonlinear_arith) requires len > chunk_size, chunk_size > 0;
        }
        Ok(MediaUpload { bytes, mime, chunk_size, single: false, total, next: 0, offset: 0, token: None })
    }

    /// The request for the next part.
    pub fn next_request(&self, id: u32) -> (t: Transaction)
        requires
            self.wf(),
            !self.finished(),
        ensures
            t.id == id,
            t.transaction_type == TransactionType::UploadMedia,
            t.error_code == 0,
            field_views(t) == self.request_fields(),
    {
        let mut t = Transaction::new(id, TransactionType::UploadMedia);
        if self.single {
            t.add_field(TransactionField::new(FieldType::ChatMediaPayload, copy_range(self.bytes.as_slice(), 0, self.bytes.len())));
            t.add_field(TransactionField::from_string(FieldType::ChatMediaDeclaredType, self.mime.as_str()));
            t.add_field(TransactionField::from_u8(FieldType::ChatMediaPartFinal, 1));
            proof { assert(self.bytes@.subrange(0, self.bytes@.len() as int) =~= self.bytes@); }
        } else {
            let end = if self.bytes.len() - self.offset >= self.chunk_size { self.offset + self.chunk_size } else { self.bytes.len() };
            let piece = copy_range(self.bytes.as_slice(), self.offset, end);
            if self.next == 0 {
                t.add_field(TransactionField::new(FieldType::ChatMediaPayload, piece));
                t.add_field(TransactionField::from_string(FieldType::ChatMediaDeclaredType, self.mime.as_str()));
                t.add_field(TransactionField::from_u16(FieldType::ChatMediaPartCount, self.total as u16));
            } else {
                let token = match &self.token {
                    Some(tok) => copy_range(tok.as_slice(), 0, tok.len()),
                    None => Vec::new(),
                };
                proof {
                    let tok = self.token.unwrap();
                    assert(tok@.subrange(0, tok@.len() as int) =~= tok@);
                }
                t.add_field(TransactionField::new(FieldType::ChatMediaUploadToken, token));
                t.add_field(TransactionField::new(FieldType::ChatMediaPayload, piece));
                t.add_field(TransactionField::from_u16(FieldType::ChatMediaPartIndex, self.next as u16));
                if self.next == self.total - 1 {
                    t.add_field(TransactionField::from_u8(FieldType::ChatMediaPartFinal, 1));
                }
            }
        }
        assert(field_views(t) =~= self.request_fields());
        t
    }

    /// Every request has been answered.
    pub fn done(&self) -> (r: bool)
        ensures
            r == self.finished(),
    {
        self.next >= self.total
    }

    /// Takes the (successful) reply to the last request: the metadata once
    /// the final part was accepted, otherwise `None`.
    pub fn on_reply(&mut self, reply: &Transaction) -> (r: Result<Option<MediaMetadata>, String>)
        requires
            old(self).wf(),
            !old(self).finished(),
        ensures
            final(self).wf(),
            final(self).payload() == old(self).payload(),
            final(self).declared_mime() == old(self).declared_mime(),
            final(self).size() == old(self).size(),
            final(self).is_single() == old(self).is_single(),
            final(self).parts() == old(self).parts(),
            ({
                let last = old(self).sent() == old(self).parts() - 1;
                let first_chunk = !old(self).is_single() && old(self).sent() == 0;
                &&& first_chunk && find_field(reply.fields@, FieldType::ChatMediaUploadToken, 0) is None ==> (r matches Err(e)
                    && e@ == "Server did not return an upload token; chunked uploads may be unsupported"@)
                &&& first_chunk && !last && find_field(reply.fields@, FieldType::ChatMediaUploadToken, 0) is Some ==> {
                    &&& r matches Ok(None)
                    &&& final(self).sent() == 1
                    &&& final(self).upload_token() == field_data(reply.fields@, FieldType::ChatMediaUploadToken)
                }
                &&& !first_chunk && !last ==> {
                    &&& r matches Ok(None)
                    &&& final(self).sent() == old(self).sent() + 1
                    &&& final(self).upload_token() == old(self).upload_token()
                }
                &&& !first_chunk && last ==> {
                    &&& final(self).finished()
                    &&& (r is Ok ==> r matches Ok(Some(_)))
                    &&& r is Ok <==> (find_field(reply.fields@, FieldType::ChatMediaId, 0) is Some && has_text_mime(*reply))
                    &&& r matches Ok(Some(m)) ==> metadata_matches(m, *reply)
                    &&& find_field(reply.fields@, FieldType::ChatMediaId, 0) is None ==> (r matches Err(e) && e@ == "Upload reply missing media handle"@)
                }
            }),
    {
        if !self.single && self.next == 0 {
            let token = match reply.get_field(FieldType::ChatMediaUploadToken) {
                Some(f) => copy_range(f.data.as_slice(), 0, f.data.len()),
                None => return Err(owned("Server did not return an upload token; chunked uploads may be unsupported")),
            };
            proof {
                let d = reply.fields@[find_field(reply.fields@, FieldType::ChatMediaUploadToken, 0).unwrap()].data@;
                assert(d.subrange(0, d.len() as int) =~= d);
            }
            self.token = Some(token);
            self.next = 1;
            self.offset = self.offset + self.chunk_size;
            proof {
                assert(self.offset == 1 * self.chunk_size);
                lemma_offset_in_range(self.bytes@.len() as int, self.chunk_size as int, 1, self.total as int);
            }
            return Ok(None);
        }
        let last = self.next == self.total - 1;
        if last {
            self.next = self.total;
            return match parse_upload_metadata(reply) {
                Ok(m) => Ok(Some(m)),
                Err(e) => Err(e),
            };
        }
        proof {
            assert(!self.single);
            assert(self.next + 1 < self.total);
            lemma_offset_in_range(self.bytes@.len() as int, self.chunk_size as int, self.next + 1, self.total as int);
            let n = self.next as int;
            let c = self.chunk_size as int;
            assert((n + 1) * c == n * c + c) by (nonlinear_arith);
            assert(self.offset == n * c);
            assert(self.offset + self.chunk_size < self.bytes@.len());
        }
        let payload_len = self.bytes.len();
        assert(self.offset + self.chunk_size < payload_len);
        let new_offset = self.offset + self.chunk_size;
        self.next = self.next + 1;
        self.offset = new_offset;
        Ok(None)
    }
}

/// Where a download stands after a reply.
#[derive(Clone, Copy, Debug, PartialEq, Eq, Structural)]
pub enum DownloadStep {
    /// Request the next part.
    Continue,
    /// Every part arrived and the bytes match the MIME type's magic.
    Complete,
}

/// The abstract state of a download.
pub struct DownloadState {
    pub handle: Seq<u8>,
    pub mime: Seq<char>,
    pub total: u16,
    pub next: u16,
    pub data: Seq<u8>,
}

/// The next state after a reply, and the step, or why the download fails.
/// The first reply carries the MIME type, the part count (1 when absent)
/// and the first payload; later replies carry one payload each. More than
/// 4 MiB in all is refused. Once every part arrived, the bytes must match
/// the MIME type's magic.
pub open spec fn download_next(st: DownloadState, reply: Transaction) -> Result<(DownloadState, DownloadStep), Seq<char>> {
    let payload = field_data(reply.fields@, FieldType::ChatMediaPayload);
    let after: Result<DownloadState, Seq<char>> = if st.next == 0 {
        match reply_text(reply, FieldType::ChatMediaType) {
            None => Err("Download reply missing MIME"@),
            Some(mime) => match payload {
                None => Err("Download reply missing payload"@),
                Some(p) => if p.len() > MAX_DOWNLOAD_BYTES {
                    Err("Download payload exceeds defensive cap of 4194304 bytes"@)
                } else {
                    let total = match field_data(reply.fields@, FieldType::ChatMediaPartCount) {
                        Some(d) => match field_u16(d) { Some(n) => n, None => 1u16 },
                        None => 1u16,
                    };
                    Ok(DownloadState { mime, total, next: 1, data: p, ..st })
                },
            },
        }
    } else {
        match payload {
            None => Err("Chunk "@ + decimal(st.next as nat) + " missing payload"@),
            Some(p) => if st.data.len() + p.len() > MAX_DOWNLOAD_BYTES {
                Err("Download exceeded defensive cap of 4194304 bytes mid-stream"@)
            } else {
                Ok(DownloadState { next: (st.next + 1) as u16, data: st.data + p, ..st })
            },
        }
    };
    match after {
        Err(e) => Err(e),
        Ok(s2) => if s2.next < s2.total {
            Ok((s2, DownloadStep::Continue))
        } else {
            match magic_matches(s2.data, ascii_lowercase(s2.mime)) {
                None => Err("Unsupported canonical MIME: "@ + s2.mime),
                Some(false) => Err("Magic bytes do not match declared MIME: "@ + s2.mime),
                Some(true) => Ok((s2, DownloadStep::Complete)),
            }
        },
    }
}

/// A download in progress.
pub struct MediaDownload {
    handle: Vec<u8>,
    mime: String,
    total: u16,
    next: u16,
    data: Vec<u8>,
}

impl MediaDownload {
    pub closed spec fn state(self) -> DownloadState {
        DownloadState { handle: self.handle@, mime: self.mime@, total: self.total, next: self.next, data: self.data@ }
    }

    pub closed spec fn wf(self) -> bool {
        &&& self.data@.len() <= MAX_DOWNLOAD_BYTES
        &&& self.next == 0 ==> self.data@.len() == 0
    }

    /// Every part has arrived.
    pub open spec fn finished(self) -> bool {
        self.state().next >= 1 && self.state().next >= self.state().total
    }

    /// A download of the media object `handle`.
    pub fn start(handle: Vec<u8>) -> (r: Self)
        ensures
            r.wf(),
            r.state() == (DownloadState { handle: handle@, mime: Seq::empty(), total: 1, next: 0, data: Seq::empty() }),
    {
        MediaDownload { handle, mime: String::new(), total: 1, next: 0, data: Vec::new() }
    }

    /// Every part has arrived.
    pub fn done(&self) -> (r: bool)
        ensures
            r == self.finished(),
    {
        self.next >= 1 && self.next >= self.total
    }

    /// The request for the next part: the handle, and the part index after
    /// the first.
    pub fn next_request(&self, id: u32) -> (t: Transaction)
        ensures
            t.id == id,
            t.transaction_type == TransactionType::DownloadMedia,
            t.error_code == 0,
            field_views(t) == seq![(FieldType::ChatMediaId, self.state().handle)] + if self.state().next == 0 {
                Seq::empty()
            } else {
                seq![(FieldType::ChatMediaPartIndex, u16_be_bytes(self.state().next as int))]
            },
    {
        let mut t = Transaction::new(id, TransactionType::DownloadMedia);
        t.add_field(TransactionField::new(FieldType::ChatMediaId, copy_range(self.handle.as_slice(), 0, self.handle.len())));
        if self.next != 0 {
            t.add_field(TransactionField::from_u16(FieldType::ChatMediaPartIndex, self.next));
        }
        proof { assert(self.handle@.subrange(0, self.handle@.len() as int) =~= self.handle@); }
        assert(field_views(t) =~= seq![(FieldType::ChatMediaId, self.state().handle)] + if self.state().next == 0 {
            Seq::empty()
        } else {
            seq![(FieldType::ChatMediaPartIndex, u16_be_bytes(self.state().next as int))]
        });
        t
    }

    /// Takes the (successful) reply to the last request.
    pub fn on_reply(&mut self, reply: &Transaction) -> (r: Result<DownloadStep, String>)
        requires
            old(self).wf(),
            !old(self).finished(),
        ensures
            final(self).wf(),
            final(self).state().data.len() <= MAX_DOWNLOAD_BYTES,
            r matches Ok(step) ==> download_next(old(self).state(), *reply) == Ok::<(DownloadState, DownloadStep), Seq<char>>((final(self).state(), step)),
            r matches Err(e) ==> download_next(old(self).state(), *reply) is Err && download_next(old(self).state(), *reply)->Err_0 == e@,
    {
        proof {
            reveal_strlit("Download reply missing MIME");
            reveal_strlit("Download reply missing payload");
            reveal_strlit("Download payload exceeds defensive cap of 4194304 bytes");
            reveal_strlit("Download exceeded defensive cap of 4194304 bytes mid-stream");
        }
        if self.next == 0 {
            let mime = match text_field(reply, FieldType::ChatMediaType) {
                Some(m) => m,
                None => return Err(owned("Download reply missing MIME")),
            };
            let total = match reply.get_field(FieldType::ChatMediaPartCount) {
                Some(f) => match f.to_u16() { Some(n) => n, None => 1 },
                None => 1,
            };
            let payload = match reply.get_field(FieldType::ChatMediaPayload) {
                Some(f) => copy_range(f.data.as_slice(), 0, f.data.len()),
                None => return Err(owned("Download reply missing payload")),
            };
            proof {
                let d = reply.fields@[find_field(reply.fields@, FieldType::ChatMediaPayload, 0).unwrap()].data@;
                assert(d.subrange(0, d.len() as int) =~= d);
            }
            if payload.len() as u64 > MAX_DOWNLOAD_BYTES {
                return Err(owned("Download payload exceeds defensive cap of 4194304 bytes"));
            }
            self.mime = mime;
            self.total = total;
            self.next = 1;
            self.data = payload;
        } else {
            let payload = match reply.get_field(FieldType::ChatMediaPayload) {
                Some(f) => f,
                None => {
                    let mut message = owned("Chunk ");
                    push_decimal(&mut message, self.next as u64);
                    push_str(&mut message, " missing payload");
                    return Err(message);
                },
            };
            if payload.data.len() as u64 > MAX_DOWNLOAD_BYTES - self.data.len() as u64 {
                return Err(owned("Download exceeded defensive cap of 4194304 bytes mid-stream"));
            }
            extend_bytes(&mut self.data, payload.data.as_slice());
            self.next = self.next + 1;
        }
        if self.next < self.total {
            return Ok(DownloadStep::Continue);
        }
        match validate_magic_bytes(self.data.as_slice(), self.mime.as_str()) {
            Ok(()) => Ok(DownloadStep::Complete),
            Err(e) => Err(e),
        }
    }

    /// The downloaded bytes and their MIME type.
    pub fn into_parts(self) -> (r: (Vec<u8>, String))
        ensures
            r.0@ == self.state().data,
            r.1@ == self.state().mime,
    {
        (self.data, self.mime)
    }
}

/// The first `n` chunks of `bytes`, in order.
pub open spec fn chunks_joined(bytes: Seq<u8>, size: int, n: int) -> Seq<u8>
    decreases n,
{
    if n <= 0 { Seq::empty() } else { chunks_joined(bytes, size, n - 1) + chunk(bytes, size, n - 1) }
}

proof fn lemma_chunks_prefix(bytes: Seq<u8>, size: int, n: int)
    requires
        size > 0,
        0 <= n,
        (n - 1) * size < bytes.len() || n == 0,
    ensures
        chunks_joined(bytes, size, n) == bytes.subrange(0, if n * size <= bytes.len() { n * size } else { bytes.len() as int }),
    decreases n,
{
    if n > 0 {
        assert((n - 1) * size + size == n * size) by (nonlinear_arith);
        if n - 1 > 0 {
            assert((n - 2) * size < (n - 1) * size) by (nonlinear_arith) requires size > 0;
        }
        lemma_chunks_prefix(bytes, size, n - 1);
        assert((n - 1) * size >= 0) by (nonlinear_arith) requires n >= 1, size > 0;
        let start = (n - 1) * size;
        let end = if n * size <= bytes.len() { n * size } else { bytes.len() as int };
        assert(bytes.subrange(0, start) + bytes.subrange(start, end) =~= bytes.subrange(0, end));
    } else {
        assert(bytes.subrange(0, 0) =~= Seq::<u8>::empty());
    }
}

/// The chunks of a chunked upload, joined in part order, are exactly the
/// payload.
pub proof fn lemma_chunks_rebuild_payload(bytes: Seq<u8>, size: int)
    requires
        size > 0,
        bytes.len() > size,
    ensures
        chunks_joined(bytes, size, chunk_count(bytes.len() as int, size)) == bytes,
{
    let len = bytes.len() as int;
    let total = chunk_count(len, size);
    let q = len / size;
    let r = len % size;
    assert(len == q * size + r && 0 <= r < size) by (nonlinear_arith) requires size > 0, q == len / size, r == len % size;
    assert(q >= 1) by (nonlinear_arith) requires len > size, size > 0, q == len / size;
    if r == 0 {
        assert((total - 1) * size < len) by (nonlinear_arith) requires total == q, q >= 1, len == q * size, size > 0;
        assert(total * size == len) by (nonlinear_arith) requires total == q, len == q * size + r, r == 0;
    } else {
        assert((total - 1) * size < len) by (nonlinear_arith) requires total == q + 1, len == q * size + r, r > 0, size > 0;
        assert(total * size > len) by (nonlinear_arith) requires total == q + 1, len == q * size + r, r < size;
    }
    lemma_chunks_prefix(bytes, size, total);
    assert(bytes.subrange(0, len) =~= bytes);
}

} // verus!
