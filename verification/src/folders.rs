//! Folder transfer framing and the path components it may carry.
use vstd::prelude::*;
use vstd::utf8::{decode_utf8, valid_utf8};
use crate::bytes::{be_u16, copy_range, extend_bytes, push_u16_be, push_u32_be, read_u16_be, u16_be_bytes, u32_be_bytes};
use crate::text::{chars_of, owned};
use crate::transfer_io::{
    data_tag, filp_tag, fork_compression, fork_result, fork_size, next_fork, transfer_start, ForkAction,
    ForkReader, TransferStart,
};

verus! {

/// The text encoding negotiated for a session.
#[derive(Clone, Copy, Debug, PartialEq, Eq, Structural)]
pub enum TextEncoding {
    MacRoman,
    Utf8,
}

/// The text that MacRoman bytes denote.
pub uninterp spec fn macroman_text(bytes: Seq<u8>) -> Seq<char>;

/// The text that bytes denote as UTF-8, malformed sequences replaced.
pub uninterp spec fn utf8_lossy_text(bytes: Seq<u8>) -> Seq<char>;

/// MacRoman decoding (`encoding_rs::MACINTOSH.decode_without_bom_handling`).
#[verifier::external_body]
fn decode_macroman(bytes: &[u8]) -> (r: String)
    ensures
        r@ == macroman_text(bytes@),
{
    encoding_rs::MACINTOSH.decode_without_bom_handling(bytes).0.into_owned()
}

/// Lossy UTF-8 decoding (`String::from_utf8_lossy`); valid UTF-8 decodes
/// unchanged.
#[verifier::external_body]
pub(crate) fn decode_utf8_lossy(bytes: &[u8]) -> (r: String)
    ensures
        r@ == utf8_lossy_text(bytes@),
        valid_utf8(bytes@) ==> r@ == decode_utf8(bytes@),
{
    String::from_utf8_lossy(bytes).into_owned()
}

/// The text that `bytes` denote in `encoding`.
pub open spec fn decode_text(bytes: Seq<u8>, encoding: TextEncoding) -> Seq<char> {
    match encoding {
        TextEncoding::MacRoman => macroman_text(bytes),
        TextEncoding::Utf8 => utf8_lossy_text(bytes),
    }
}

/// Decodes session text.
pub fn decode_bytes(bytes: &[u8], encoding: TextEncoding) -> (r: String)
    ensures
        r@ == decode_text(bytes@, encoding),
{
    match encoding {
        TextEncoding::MacRoman => decode_macroman(bytes),
        TextEncoding::Utf8 => decode_utf8_lossy(bytes),
    }
}

/// A control character (Unicode general category Cc).
pub open spec fn is_control(c: char) -> bool {
    c <= '\u{1f}' || ('\u{7f}' <= c && c <= '\u{9f}')
}

/// A path component that cannot escape or confuse the destination: not
/// empty, not `.` or `..`, and free of control characters, `/`, `\` and `:`.
pub open spec fn component_ok(name: Seq<char>) -> bool {
    &&& name.len() != 0
    &&& name != seq!['.']
    &&& name != seq!['.', '.']
    &&& forall|i: int| 0 <= i < name.len() ==> {
        let c = #[trigger] name[i];
        !is_control(c) && c != '/' && c != '\\' && c != ':'
    }
}

/// Accepts a folder path component only when `component_ok`.
pub fn validate_component(name: &str) -> (r: Result<(), String>)
    ensures
        r is Ok <==> component_ok(name@),
        r matches Err(e) ==> e@ == "Folder transfer contains an unsafe path"@,
{
    let chars = chars_of(name);
    let n = chars.len();
    proof {
        if n == 1 { assert(chars@ =~= seq!['.'] <==> chars@[0] == '.'); }
        if n == 2 { assert(chars@ =~= seq!['.', '.'] <==> (chars@[0] == '.' && chars@[1] == '.')); }
        if n != 1 { assert(chars@.len() != seq!['.'].len()); }
        if n != 2 { assert(chars@.len() != seq!['.', '.'].len()); }
    }
    if n == 0 || (n == 1 && chars[0] == '.') || (n == 2 && chars[0] == '.' && chars[1] == '.') {
        return Err(owned("Folder transfer contains an unsafe path"));
    }
    let mut i: usize = 0;
    while i < n
        invariant
            n == chars@.len(),
            chars@ == name@,
            i <= n,
            forall|j: int| 0 <= j < i ==> {
                let c = #[trigger] chars@[j];
                !is_control(c) && c != '/' && c != '\\' && c != ':'
            },
        decreases n - i,
    {
        let c = chars[i];
        if c <= '\u{1f}' || ('\u{7f}' <= c && c <= '\u{9f}') || c == '/' || c == '\\' || c == ':' {
            assert(is_control(name@[i as int]) || name@[i as int] == '/' || name@[i as int] == '\\' || name@[i as int] == ':');
            return Err(owned("Folder transfer contains an unsafe path"));
        }
        i = i + 1;
    }
    Ok(())
}

/// Keeps the items already read in front of the rest of a parse.
pub open spec fn prepend(done: Seq<Seq<char>>, rest: Result<(Seq<Seq<char>>, int), Seq<char>>) -> Result<(Seq<Seq<char>>, int), Seq<char>> {
    match rest {
        Ok((names, end)) => Ok((done + names, end)),
        Err(e) => Err(e),
    }
}

/// Parses path items `k..count` starting at byte `offset`: each is two
/// reserved bytes, a one-byte length and the name, which must be a safe
/// component. Yields the names and the offset after the last item.
pub open spec fn path_items(b: Seq<u8>, enc: TextEncoding, offset: int, k: int, count: int) -> Result<(Seq<Seq<char>>, int), Seq<char>>
    decreases count - k,
{
    if k >= count {
        Ok((Seq::empty(), offset))
    } else if offset + 3 > b.len() {
        Err("Truncated folder path"@)
    } else {
        let start = offset + 3;
        let end = start + b[offset + 2];
        if end > b.len() {
            Err("Truncated folder name"@)
        } else {
            let name = decode_text(b.subrange(start, end), enc);
            if !component_ok(name) {
                Err("Folder transfer contains an unsafe path"@)
            } else {
                prepend(seq![name], path_items(b, enc, end, k + 1, count))
            }
        }
    }
}

/// A folder path: a big-endian component count (1 to 128), the items, and
/// nothing after them.
pub open spec fn folder_path(b: Seq<u8>, enc: TextEncoding) -> Result<Seq<Seq<char>>, Seq<char>> {
    if b.len() < 2 {
        Err("Truncated folder path"@)
    } else {
        let count = be_u16(b[0], b[1]);
        if count == 0 || count > 128 {
            Err("Invalid folder path depth"@)
        } else {
            match path_items(b, enc, 2, 0, count) {
                Err(e) => Err(e),
                Ok((names, end)) => if end != b.len() { Err("Unexpected folder path bytes"@) } else { Ok(names) },
            }
        }
    }
}

pub open spec fn texts(v: Seq<String>) -> Seq<Seq<char>> {
    v.map_values(|s: String| s@)
}

/// Decodes a folder path into its components.
pub fn decode_path(bytes: &[u8], encoding: TextEncoding) -> (r: Result<Vec<String>, String>)
    ensures
        r matches Ok(v) ==> folder_path(bytes@, encoding) == Ok::<Seq<Seq<char>>, Seq<char>>(texts(v@)),
        r matches Err(e) ==> folder_path(bytes@, encoding) == Err::<Seq<Seq<char>>, Seq<char>>(e@),
{
    proof {
        reveal_strlit("Truncated folder path");
        reveal_strlit("Invalid folder path depth");
        reveal_strlit("Truncated folder name");
        reveal_strlit("Unexpected folder path bytes");
        reveal_strlit("Folder transfer contains an unsafe path");
    }
    if bytes.len() < 2 {
        return Err(owned("Truncated folder path"));
    }
    let count = read_u16_be(bytes[0], bytes[1]) as usize;
    if count == 0 || count > 128 {
        return Err(owned("Invalid folder path depth"));
    }
    let len = bytes.len();
    let mut offset: usize = 2;
    let mut result: Vec<String> = Vec::new();
    let mut k: usize = 0;
    while k < count
        invariant
            len == bytes@.len(),
            len >= 2,
            count == be_u16(bytes@[0], bytes@[1]),
            k <= count <= 128,
            offset <= len,
            path_items(bytes@, encoding, 2, 0, count as int) == prepend(texts(result@), path_items(bytes@, encoding, offset as int, k as int, count as int)),
        decreases count - k,
    {
        if len - offset < 3 {
            return Err(owned("Truncated folder path"));
        }
        let n = bytes[offset + 2] as usize;
        let start = offset + 3;
        if n > len - start {
            return Err(owned("Truncated folder name"));
        }
        let raw = copy_range(bytes, start, start + n);
        let name = decode_bytes(raw.as_slice(), encoding);
        if validate_component(name.as_str()).is_err() {
            return Err(owned("Folder transfer contains an unsafe path"));
        }
        let ghost before = texts(result@);
        let ghost nm = name@;
        result.push(name);
        proof {
            assert(texts(result@) =~= before + seq![nm]);
            let rest = path_items(bytes@, encoding, (start + n) as int, k + 1, count as int);
            assert(prepend(before, prepend(seq![nm], rest)) == prepend(before + seq![nm], rest)) by {
                match rest {
                    Ok((ns, e)) => { assert(before + (seq![nm] + ns) =~= (before + seq![nm]) + ns); },
                    Err(_) => {},
                }
            }
        }
        offset = start + n;
        k = k + 1;
    }
    if offset != len {
        return Err(owned("Unexpected folder path bytes"));
    }
    proof { assert(texts(result@) + Seq::<Seq<char>>::empty() =~= texts(result@)); }
    Ok(result)
}

// ───── Receiving folders ─────

/// Refuses folder listings with more than 100,000 entries.
pub fn check_folder_count(count: u64) -> (r: Result<(), String>)
    ensures
        r is Ok <==> count <= 100000,
        r matches Err(e) ==> e@ == "Folder has too many entries"@,
{
    if count > 100000 {
        return Err(owned("Folder has too many entries"));
    }
    Ok(())
}

/// One entry of a folder transfer.
pub struct FolderEntry {
    /// A directory to create (otherwise a file to receive).
    pub is_dir: bool,
    /// Its path below the destination, one component each.
    pub parts: Vec<String>,
}

/// An entry header: a big-endian kind (1 for a directory, 0 for a file)
/// followed by the entry's folder path.
pub open spec fn folder_entry(h: Seq<u8>, enc: TextEncoding) -> Result<(bool, Seq<Seq<char>>), Seq<char>> {
    if h.len() < 4 {
        Err("Invalid folder entry header"@)
    } else {
        match folder_path(h.subrange(2, h.len() as int), enc) {
            Err(e) => Err(e),
            Ok(parts) => {
                let kind = be_u16(h[0], h[1]);
                if kind == 1 {
                    Ok((true, parts))
                } else if kind == 0 {
                    Ok((false, parts))
                } else {
                    Err("Unknown folder entry type"@)
                }
            },
        }
    }
}

/// The length of an entry header, read before the header itself: at least
/// four bytes (the kind and the path's component count).
pub fn check_entry_size(size: u16) -> (r: Result<usize, String>)
    ensures
        r is Ok <==> size >= 4,
        r matches Ok(n) ==> n == size,
        r matches Err(e) ==> e@ == "Invalid folder entry header"@,
{
    if size < 4 {
        return Err(owned("Invalid folder entry header"));
    }
    Ok(size as usize)
}

/// Parses a folder entry header.
pub fn parse_folder_entry(header: &[u8], encoding: TextEncoding) -> (r: Result<FolderEntry, String>)
    ensures
        r matches Ok(e) ==> folder_entry(header@, encoding) == Ok::<(bool, Seq<Seq<char>>), Seq<char>>((e.is_dir, texts(e.parts@))),
        r matches Err(e) ==> folder_entry(header@, encoding) == Err::<(bool, Seq<Seq<char>>), Seq<char>>(e@),
        r matches Ok(e) ==> e.parts@.len() >= 1,
{
    proof {
        reveal_strlit("Invalid folder entry header");
        reveal_strlit("Unknown folder entry type");
    }
    if header.len() < 4 {
        return Err(owned("Invalid folder entry header"));
    }
    let rest = copy_range(header, 2, header.len());
    let parts = match decode_path(rest.as_slice(), encoding) {
        Ok(p) => p,
        Err(e) => return Err(e),
    };
    proof { lemma_folder_path_nonempty(rest@, encoding); }
    let kind = read_u16_be(header[0], header[1]);
    if kind == 1 {
        Ok(FolderEntry { is_dir: true, parts })
    } else if kind == 0 {
        Ok(FolderEntry { is_dir: false, parts })
    } else {
        Err(owned("Unknown folder entry type"))
    }
}

proof fn lemma_path_items_len(b: Seq<u8>, enc: TextEncoding, offset: int, k: int, count: int)
    requires
        k <= count,
    ensures
        path_items(b, enc, offset, k, count) matches Ok((names, _)) ==> names.len() == count - k,
    decreases count - k,
{
    if k < count && offset + 3 <= b.len() {
        let end = offset + 3 + b[offset + 2];
        if end <= b.len() {
            lemma_path_items_len(b, enc, end, k + 1, count);
        }
    }
}

/// A decoded folder path has between 1 and 128 components.
pub proof fn lemma_folder_path_nonempty(b: Seq<u8>, enc: TextEncoding)
    ensures
        folder_path(b, enc) matches Ok(names) ==> 1 <= names.len() <= 128,
{
    if b.len() >= 2 {
        lemma_path_items_len(b, enc, 2, 0, be_u16(b[0], b[1]));
    }
}

/// Every component of a decoded folder path is safe to join below the
/// destination.
pub proof fn lemma_folder_path_components_safe(b: Seq<u8>, enc: TextEncoding)
    ensures
        folder_path(b, enc) matches Ok(names) ==> forall|i: int| 0 <= i < names.len() ==> component_ok(#[trigger] names[i]),
{
    if b.len() >= 2 {
        lemma_path_items_safe(b, enc, 2, 0, be_u16(b[0], b[1]));
    }
}

proof fn lemma_path_items_safe(b: Seq<u8>, enc: TextEncoding, offset: int, k: int, count: int)
    ensures
        path_items(b, enc, offset, k, count) matches Ok((names, _)) ==> forall|i: int| 0 <= i < names.len() ==> component_ok(#[trigger] names[i]),
    decreases count - k,
{
    if k < count && offset + 3 <= b.len() {
        let end = offset + 3 + b[offset + 2];
        if end <= b.len() {
            lemma_path_items_safe(b, enc, end, k + 1, count);
            let name = decode_text(b.subrange(offset + 3, end), enc);
            match path_items(b, enc, end, k + 1, count) {
                Ok((rest, _)) => if component_ok(name) {
                    assert forall|i: int| 0 <= i < rest.len() + 1 implies component_ok(#[trigger] (seq![name] + rest)[i]) by {
                        if i > 0 {
                            assert((seq![name] + rest)[i] == rest[i - 1]);
                        }
                    }
                },
                Err(_) => {},
            }
        }
    }
}

// ───── Sending folders ─────

/// The MacRoman byte for a character, when it has one.
pub uninterp spec fn macroman_byte(c: char) -> Option<u8>;

/// Encodes one character as MacRoman (`encoding_rs::MACINTOSH.encode`);
/// `None` when it cannot be represented.
#[verifier::external_body]
fn encode_macroman_char(c: char) -> (r: Option<u8>)
    ensures
        r == macroman_byte(c),
{
    let mut buf = [0u8; 4];
    match encoding_rs::MACINTOSH.encode(c.encode_utf8(&mut buf)) {
        (_, _, true) => None,
        (bytes, _, false) => bytes.first().copied(),
    }
}

/// The bytes of `text` in `encoding`; characters that MacRoman cannot
/// represent become `?`.
pub open spec fn encoded_text(text: Seq<char>, spec_bytes: Seq<u8>, encoding: TextEncoding) -> Seq<u8> {
    match encoding {
        TextEncoding::Utf8 => spec_bytes,
        TextEncoding::MacRoman => text.map_values(|c: char| match macroman_byte(c) { Some(b) => b, None => 63u8 }),
    }
}

/// Encodes session text.
pub fn encode_text(text: &str, encoding: TextEncoding) -> (r: Vec<u8>)
    ensures
        r@ == encoded_text(text@, vstd::string::StringSliceAdditionalSpecFns::spec_bytes(text), encoding),
{
    match encoding {
        TextEncoding::Utf8 => vstd::slice::slice_to_vec(text.as_bytes()),
        TextEncoding::MacRoman => {
            let chars = chars_of(text);
            let mut out: Vec<u8> = Vec::new();
            let mut i: usize = 0;
            while i < chars.len()
                invariant
                    chars@ == text@,
                    i <= chars@.len(),
                    out@ == chars@.subrange(0, i as int).map_values(|c: char| match macroman_byte(c) { Some(b) => b, None => 63u8 }),
                decreases chars@.len() - i,
            {
                let b = match encode_macroman_char(chars[i]) {
                    Some(b) => b,
                    None => 63u8,
                };
                out.push(b);
                i = i + 1;
                assert(out@ =~= chars@.subrange(0, i as int).map_values(|c: char| match macroman_byte(c) { Some(b) => b, None => 63u8 }));
            }
            assert(chars@.subrange(0, i as int) =~= chars@);
            out
        },
    }
}

/// Each encoded component preceded by its big-endian 16-bit length.
pub open spec fn encoded_components(parts: Seq<Seq<u8>>) -> Seq<u8>
    decreases parts.len(),
{
    if parts.len() == 0 {
        Seq::empty()
    } else {
        encoded_components(parts.drop_last()) + u16_be_bytes(parts.last().len() as int) + parts.last()
    }
}

/// The framing of one upload entry: a big-endian kind (1 directory, 0 file),
/// the component count and the components.
pub open spec fn upload_entry_body(parts: Seq<Seq<u8>>, is_dir: bool) -> Seq<u8> {
    u16_be_bytes(if is_dir { 1 } else { 0 }) + u16_be_bytes(parts.len() as int) + encoded_components(parts)
}

/// The kind that an upload entry carries is the one the receiving side
/// reads back: the two bytes after the frame's length are 0 and 1 for a
/// directory, 0 and 0 for a file, so `folder_entry` parses the framed
/// header with the same `is_dir` and never as an unknown kind.
pub proof fn lemma_entry_kind_round_trip(parts: Seq<Seq<u8>>, is_dir: bool, enc: TextEncoding)
    ensures
        ({
            let body = upload_entry_body(parts, is_dir);
            &&& body.len() >= 4
            &&& body[0] == 0
            &&& body[1] == (if is_dir { 1u8 } else { 0u8 })
            &&& folder_entry(body, enc) matches Ok((d, _)) ==> d == is_dir
            &&& folder_entry(body, enc) is Ok <==> folder_path(body.subrange(2, body.len() as int), enc) is Ok
        }),
{
    let body = upload_entry_body(parts, is_dir);
    let kind: int = if is_dir { 1 } else { 0 };
    assert(u16_be_bytes(kind) =~= seq![0u8, (if is_dir { 1u8 } else { 0u8 })]);
    assert(body[0] == u16_be_bytes(kind)[0]);
    assert(body[1] == u16_be_bytes(kind)[1]);
}

/// Builds the header of one upload entry, preceded by its big-endian
/// length. Components and headers longer than 65,535 bytes are refused.
pub fn encode_folder_entry_header(parts: &Vec<Vec<u8>>, is_dir: bool) -> (r: Result<Vec<u8>, String>)
    requires
        parts@.len() <= 65535,
    ensures
        (exists|i: int| 0 <= i < parts@.len() && #[trigger] parts@[i]@.len() > 65535)
            ==> (r matches Err(e) && e@ == "Folder name is too long"@),
        r matches Ok(frame) ==> {
            let body = upload_entry_body(parts@.map_values(|p: Vec<u8>| p@), is_dir);
            &&& body.len() <= 65535
            &&& frame@ == u16_be_bytes(body.len() as int) + body
        },
        r matches Ok(frame) ==> frame@.len() >= 6 && frame@[2] == 0 && frame@[3] == (if is_dir { 1u8 } else { 0u8 }),
        r matches Err(e) ==> e@ == "Folder name is too long"@ || e@ == "Folder path is too long"@,
        (forall|i: int| 0 <= i < parts@.len() ==> #[trigger] parts@[i]@.len() <= 65535)
            && upload_entry_body(parts@.map_values(|p: Vec<u8>| p@), is_dir).len() <= 65535 ==> r is Ok,
{
    let ghost all = parts@.map_values(|p: Vec<u8>| p@);
    let mut header: Vec<u8> = Vec::new();
    push_u16_be(&mut header, if is_dir { 1 } else { 0 });
    push_u16_be(&mut header, parts.len() as u16);
    let ghost head = header@;
    proof { assert(all.subrange(0, 0) =~= Seq::<Seq<u8>>::empty()); assert(header@ =~= head + encoded_components(all.subrange(0, 0))); }
    let mut i: usize = 0;
    while i < parts.len()
        invariant
            parts@.len() <= 65535,
            all == parts@.map_values(|p: Vec<u8>| p@),
            head == u16_be_bytes(if is_dir { 1 } else { 0 }) + u16_be_bytes(parts@.len() as int),
            i <= parts@.len(),
            forall|j: int| 0 <= j < i ==> #[trigger] parts@[j]@.len() <= 65535,
            header@ == head + encoded_components(all.subrange(0, i as int)),
        decreases parts@.len() - i,
    {
        let part = &parts[i];
        if part.len() > 65535 {
            return Err(owned("Folder name is too long"));
        }
        push_u16_be(&mut header, part.len() as u16);
        extend_bytes(&mut header, part.as_slice());
        i = i + 1;
        proof {
            assert(all.subrange(0, i as int).drop_last() =~= all.subrange(0, i - 1));
            assert(header@ =~= head + encoded_components(all.subrange(0, i as int)));
        }
    }
    proof { assert(all.subrange(0, i as int) =~= all); }
    if header.len() > 65535 {
        return Err(owned("Folder path is too long"));
    }
    let mut frame: Vec<u8> = Vec::new();
    push_u16_be(&mut frame, header.len() as u16);
    extend_bytes(&mut frame, header.as_slice());
    proof {
        assert(header@ =~= upload_entry_body(all, is_dir));
        lemma_entry_kind_round_trip(all, is_dir, TextEncoding::Utf8);
        assert(frame@[2] == header@[0] && frame@[3] == header@[1]);
    }
    Ok(frame)
}

/// Before a directory of an upload is listed: at most 128 levels below the
/// uploaded folder, and at most 100,000 entries found so far.
pub fn check_scan_depth(depth: usize, entries: usize) -> (r: Result<(), String>)
    ensures
        r is Ok <==> depth <= 128 && entries <= 100000,
        r matches Err(e) ==> e@ == "Folder is too large or deeply nested"@,
{
    if depth > 128 || entries > 100000 {
        return Err(owned("Folder is too large or deeply nested"));
    }
    Ok(())
}

/// Before another entry is added to an upload: fewer than 100,000 so far.
pub fn check_scan_count(entries: usize) -> (r: Result<(), String>)
    ensures
        r is Ok <==> entries < 100000,
        r matches Err(e) ==> e@ == "Folder has too many entries"@,
{
    if entries >= 100000 {
        return Err(owned("Folder has too many entries"));
    }
    Ok(())
}

/// What a directory entry found while scanning an upload is.
#[derive(Clone, Copy, Debug, PartialEq, Eq, Structural)]
pub enum ScanKind {
    Directory,
    File,
    /// A symbolic link or a special file.
    Other,
}

/// The largest file that folder framing can carry: its 56 framing bytes and
/// contents must fit in 32 bits.
pub const MAX_FOLDER_FILE: u64 = 4294967239;

/// An entry found while scanning may be uploaded: a directory, or a file
/// small enough for folder framing.
pub fn check_scan_entry(kind: ScanKind, len: u64) -> (r: Result<(), String>)
    ensures
        kind == ScanKind::Other ==> (r matches Err(e) && e@ == "Folder uploads cannot include links or special files"@),
        kind == ScanKind::File && len > MAX_FOLDER_FILE
            ==> (r matches Err(e) && e@ == "File is too large for folder framing; upload it individually"@),
        r is Ok <==> kind == ScanKind::Directory || (kind == ScanKind::File && len <= MAX_FOLDER_FILE),
{
    match kind {
        ScanKind::Other => Err(owned("Folder uploads cannot include links or special files")),
        ScanKind::File => if len > MAX_FOLDER_FILE {
            Err(owned("File is too large for folder framing; upload it individually"))
        } else {
            Ok(())
        },
        ScanKind::Directory => Ok(()),
    }
}

/// A file that the scan accepts can always be framed: at every resume
/// offset up to its size, the rest and its framing fit the 32-bit wire size
/// that `folder_upload_sizes` demands.
pub proof fn lemma_scanned_files_fit_framing(len: u64, offset: u64)
    requires
        len <= MAX_FOLDER_FILE,
        offset <= len,
    ensures
        len - offset + 56 <= u32::MAX,
{
}

/// One local entry of a folder upload.
pub struct FolderItem {
    /// Its path below the uploaded folder, each component already encoded.
    pub parts: Vec<Vec<u8>>,
    pub is_dir: bool,
    /// File size in bytes (0 for directories).
    pub size: u64,
}

pub open spec fn part_bytes(item: FolderItem) -> Seq<Seq<u8>> {
    item.parts@.map_values(|p: Vec<u8>| p@)
}

/// Wire bytes one entry adds to a folder upload: its 6 header bytes and
/// path, plus the 60 framing bytes and contents of a file.
pub open spec fn item_wire_size(item: FolderItem) -> int {
    6 + encoded_components(part_bytes(item)).len() + if item.is_dir { 0 } else { 60 + item.size }
}

pub open spec fn upload_wire_size(items: Seq<FolderItem>) -> int
    decreases items.len(),
{
    if items.len() == 0 { 0 } else { upload_wire_size(items.drop_last()) + item_wire_size(items.last()) }
}

proof fn lemma_encoded_components_push(parts: Seq<Seq<u8>>, p: Seq<u8>)
    ensures
        encoded_components(parts.push(p)).len() == encoded_components(parts).len() + 2 + p.len(),
{
    assert(parts.push(p).drop_last() =~= parts);
}

proof fn lemma_upload_wire_size_grows(items: Seq<FolderItem>, i: int)
    requires
        0 <= i <= items.len(),
    ensures
        upload_wire_size(items.subrange(0, i)) <= upload_wire_size(items),
    decreases items.len(),
{
    if i < items.len() {
        assert(items.drop_last().subrange(0, i) =~= items.subrange(0, i));
        lemma_upload_wire_size_grows(items.drop_last(), i);
        lemma_item_wire_size_nonneg(items.last());
    } else {
        assert(items.subrange(0, i) =~= items);
    }
}

proof fn lemma_item_wire_size_nonneg(item: FolderItem)
    ensures
        item_wire_size(item) >= 0,
{
}

fn path_wire_size(parts: &Vec<Vec<u8>>) -> (r: u64)
    requires
        encoded_components(parts@.map_values(|p: Vec<u8>| p@)).len() <= u64::MAX,
    ensures
        r == encoded_components(parts@.map_values(|p: Vec<u8>| p@)).len(),
{
    let ghost all = parts@.map_values(|p: Vec<u8>| p@);
    let mut total: u64 = 0;
    let mut i: usize = 0;
    proof { assert(all.subrange(0, 0) =~= Seq::<Seq<u8>>::empty()); }
    while i < parts.len()
        invariant
            all == parts@.map_values(|p: Vec<u8>| p@),
            encoded_components(all).len() <= u64::MAX,
            i <= parts@.len(),
            total == encoded_components(all.subrange(0, i as int)).len(),
        decreases parts@.len() - i,
    {
        proof {
            assert(all.subrange(0, i + 1) =~= all.subrange(0, i as int).push(all[i as int]));
            lemma_encoded_components_push(all.subrange(0, i as int), all[i as int]);
            lemma_encoded_components_prefix(all, i + 1);
        }
        total = total + 2 + parts[i].len() as u64;
        i = i + 1;
    }
    proof { assert(all.subrange(0, i as int) =~= all); }
    total
}

proof fn lemma_encoded_components_prefix(parts: Seq<Seq<u8>>, i: int)
    requires
        0 <= i <= parts.len(),
    ensures
        encoded_components(parts.subrange(0, i)).len() <= encoded_components(parts).len(),
    decreases parts.len(),
{
    if i < parts.len() {
        assert(parts.drop_last().subrange(0, i) =~= parts.subrange(0, i));
        lemma_encoded_components_prefix(parts.drop_last(), i);
    } else {
        assert(parts.subrange(0, i) =~= parts);
    }
}

/// The total wire size that a folder upload announces.
pub fn folder_upload_total(items: &Vec<FolderItem>) -> (r: Result<u64, String>)
    requires
        forall|i: int| 0 <= i < items@.len() ==> item_wire_size(#[trigger] items@[i]) <= u64::MAX,
    ensures
        r is Ok <==> upload_wire_size(items@) <= u64::MAX,
        r matches Ok(t) ==> t == upload_wire_size(items@),
        r matches Err(e) ==> e@ == "Folder transfer size overflow"@,
{
    let mut sum: u64 = 0;
    let mut i: usize = 0;
    while i < items.len()
        invariant
            forall|j: int| 0 <= j < items@.len() ==> item_wire_size(#[trigger] items@[j]) <= u64::MAX,
            i <= items@.len(),
            sum == upload_wire_size(items@.subrange(0, i as int)),
        decreases items@.len() - i,
    {
        let item = &items[i];
        proof {
            assert(items@[i as int] == *item);
            assert(item_wire_size(*item) <= u64::MAX);
        }
        let path = path_wire_size(&item.parts);
        let step: u64 = if item.is_dir { 6 + path } else { 6 + path + (60 + item.size) };
        proof { assert(items@.subrange(0, i + 1).drop_last() =~= items@.subrange(0, i as int)); }
        sum = match sum.checked_add(step) {
            Some(v) => v,
            None => {
                proof { lemma_upload_wire_size_grows(items@, i + 1); }
                return Err(owned("Folder transfer size overflow"));
            },
        };
        i = i + 1;
    }
    proof { assert(items@.subrange(0, i as int) =~= items@); }
    Ok(sum)
}

/// What the server asks for one uploaded file.
#[derive(Clone, Copy, Debug, PartialEq, Eq, Structural)]
pub enum UploadAction {
    /// Send the whole file.
    Send,
    /// Send the rest after the offset in the resume record that follows.
    Resume,
    /// Skip the file.
    Skip,
}

/// The upload action for a server's action code.
pub fn parse_upload_action(code: u16) -> (r: Result<UploadAction, String>)
    ensures
        code == 1 ==> r == Ok::<UploadAction, String>(UploadAction::Send),
        code == 2 ==> r == Ok::<UploadAction, String>(UploadAction::Resume),
        code == 3 ==> r == Ok::<UploadAction, String>(UploadAction::Skip),
        !(1 <= code <= 3) ==> (r matches Err(e) && e@ == "Unknown folder upload action"@),
{
    if code == 1 {
        Ok(UploadAction::Send)
    } else if code == 2 {
        Ok(UploadAction::Resume)
    } else if code == 3 {
        Ok(UploadAction::Skip)
    } else {
        Err(owned("Unknown folder upload action"))
    }
}

/// The bytes left to send after a resume `offset`, and the wire size of
/// the file object that carries them (a 56-byte FILP header with INFO and
/// DATA forks, which must fit in 32 bits).
pub fn folder_upload_sizes(size: u64, offset: u64) -> (r: Result<(u64, u32), String>)
    requires
        size <= u64::MAX - 56,
    ensures
        offset > size ==> (r matches Err(e) && e@ == "Server resume offset exceeds local file size"@),
        offset <= size && size - offset + 56 > u32::MAX
            ==> (r matches Err(e) && e@ == "File is too large for folder framing; upload it individually"@),
        r matches Ok((remaining, wire)) ==> remaining == size - offset && wire == remaining + 56,
        offset <= size && size - offset + 56 <= u32::MAX ==> r is Ok,
{
    let remaining = match size.checked_sub(offset) {
        Some(r) => r,
        None => return Err(owned("Server resume offset exceeds local file size")),
    };
    let wire = remaining + 56;
    if wire > 0xffff_ffff {
        return Err(owned("File is too large for folder framing; upload it individually"));
    }
    Ok((remaining, wire as u32))
}

/// The FILP header of an uploaded folder file: version 1, two forks, an
/// empty INFO fork and a DATA fork of `remaining` bytes.
pub open spec fn upload_filp_header(remaining: u32) -> Seq<u8> {
    seq![70u8, 73, 76, 80, 0, 1] + crate::transfer_io::zeros(16) + u16_be_bytes(2)
        + seq![73u8, 78, 70, 79] + crate::transfer_io::zeros(12)
        + seq![68u8, 65, 84, 65] + crate::transfer_io::zeros(8) + u32_be_bytes(remaining as int)
}

fn push_zero_bytes(out: &mut Vec<u8>, n: usize)
    ensures
        final(out)@ == old(out)@ + crate::transfer_io::zeros(n as nat),
{
    let ghost start = out@;
    let mut i: usize = 0;
    while i < n
        invariant
            i <= n,
            out@ == start + crate::transfer_io::zeros(i as nat),
        decreases n - i,
    {
        out.push(0);
        i = i + 1;
        assert(out@ =~= start + crate::transfer_io::zeros(i as nat));
    }
}

/// Builds the FILP header for an uploaded folder file.
pub fn folder_filp_header(remaining: u32) -> (r: Vec<u8>)
    ensures
        r@ == upload_filp_header(remaining),
        r@.len() == 56,
{
    let mut filp: Vec<u8> = Vec::new();
    extend_bytes(&mut filp, &[70u8, 73, 76, 80, 0, 1]);
    push_zero_bytes(&mut filp, 16);
    push_u16_be(&mut filp, 2);
    extend_bytes(&mut filp, &[73u8, 78, 70, 79]);
    push_zero_bytes(&mut filp, 12);
    extend_bytes(&mut filp, &[68u8, 65, 84, 65]);
    push_zero_bytes(&mut filp, 8);
    push_u32_be(&mut filp, remaining);
    assert(filp@ =~= upload_filp_header(remaining));
    filp
}

/// The receiving side reads an uploaded folder file whole: the FILP header
/// is recognised, its empty INFO fork is skipped, its DATA fork carries
/// exactly the `remaining` bytes, and the announced wire size
/// (`remaining + 56`) matches what the forks use.
pub open spec fn upload_framing_received(remaining: u32, large: bool) -> bool {
    let h = upload_filp_header(remaining);
    let budget = (remaining + 56) as u64;
    let st0 = ForkReader { large, expected: None, wire_budget: Some(budget), wire_used: 24, found_data: false, total: 0 };
    let st1 = ForkReader { wire_used: 40, ..st0 };
    let st2 = ForkReader { wire_used: budget, found_data: true, total: remaining as u64, ..st0 };
    &&& h.len() == 56
    &&& transfer_start(h.subrange(0, 4), None, false) == Ok::<TransferStart, Seq<char>>(TransferStart::Filp)
    &&& h[4] == 0 && h[5] == 1 && be_u16(h[22], h[23]) == 2
    &&& next_fork(st0, h.subrange(24, 40)) == Ok::<(ForkReader, ForkAction), Seq<char>>((st1, ForkAction { size: 0, is_data: false }))
    &&& next_fork(st1, h.subrange(40, 56)) == Ok::<(ForkReader, ForkAction), Seq<char>>((st2, ForkAction { size: remaining as u64, is_data: true }))
    &&& fork_result(st2) == Ok::<u64, Seq<char>>(remaining as u64)
}

/// A folder file framed for upload is read back whole by the receiving side.
#[verifier::spinoff_prover]
#[verifier::rlimit(50)]
pub proof fn lemma_upload_framing_is_received_whole(remaining: u32, large: bool)
    requires
        remaining + 56 <= u32::MAX,
    ensures
        upload_framing_received(remaining, large),
{
    let h = upload_filp_header(remaining);
    assert(h.subrange(0, 4) =~= filp_tag());
    let f1 = h.subrange(24, 40);
    let f2 = h.subrange(40, 56);
    assert(f1.subrange(0, 4) =~= seq![73u8, 78, 70, 79]);
    assert(f1.subrange(0, 4) != data_tag());
    assert(fork_compression(f1, large) =~= seq![0u8, 0, 0, 0]);
    assert(fork_size(f1, large) == 0);
    assert(f2.subrange(0, 4) =~= data_tag());
    assert(fork_compression(f2, large) =~= seq![0u8, 0, 0, 0]);
    let v = remaining as int;
    assert(f2[12] == (v / 16777216) as u8 && f2[13] == ((v / 65536) % 256) as u8);
    assert(f2[14] == ((v / 256) % 256) as u8 && f2[15] == (v % 256) as u8);
    assert(fork_size(f2, large) == v);
}

} // verus!
