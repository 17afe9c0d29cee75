//! Transfer framing: FILP objects, resume records and upload resume digests.
use vstd::prelude::*;
use crate::bytes::{
    be_u16, be_u32, bytes_at, copy_range, extend_bytes, push_u16_be, push_u32_be, push_u64_be,
    read_u16_be, read_u32_be, u16_be_bytes, u32_be_bytes, u64_be_bytes,
};
use crate::text::owned;

verus! {

pub open spec fn rflt() -> Seq<u8> { seq![82u8, 70, 76, 84] }
pub open spec fn data_tag() -> Seq<u8> { seq![68u8, 65, 84, 65] }
pub open spec fn filp_tag() -> Seq<u8> { seq![70u8, 73, 76, 80] }
pub open spec fn info_tag() -> Seq<u8> { seq![73u8, 78, 70, 79] }
pub open spec fn macr_tag() -> Seq<u8> { seq![77u8, 65, 67, 82] }

pub open spec fn zeros(n: nat) -> Seq<u8> {
    Seq::new(n, |i: int| 0u8)
}

pub open spec fn min_u64(a: u64, b: u64) -> u64 {
    if a <= b { a } else { b }
}

/// The RFLT resume record asking for the DATA fork from `offset` (clamped
/// to 32 bits); the INFO and resource forks are requested anew.
pub open spec fn resume_record(offset: u64) -> Seq<u8> {
    rflt() + u16_be_bytes(1) + zeros(34) + u16_be_bytes(1) + data_tag()
        + u32_be_bytes(min_u64(offset, 0xffff_ffff) as int) + zeros(8)
}

fn push_zeros(out: &mut Vec<u8>, n: usize)
    ensures
        final(out)@ == old(out)@ + zeros(n as nat),
{
    let ghost start = out@;
    let mut i: usize = 0;
    while i < n
        invariant
            i <= n,
            out@ == start + zeros(i as nat),
        decreases n - i,
    {
        out.push(0);
        i = i + 1;
        assert(out@ =~= start + zeros(i as nat));
    }
}

/// The opening of a transfer connection: `HTXF`, the transfer reference, a
/// zero word and the flags word.
pub open spec fn htxf_header(reference: u32, flags: u32) -> Seq<u8> {
    seq![72u8, 84, 88, 70] + u32_be_bytes(reference as int) + u32_be_bytes(0) + u32_be_bytes(flags as int)
}

pub fn transfer_header(reference: u32, flags: u32) -> (r: Vec<u8>)
    ensures
        r@ == htxf_header(reference, flags),
{
    let mut header: Vec<u8> = Vec::new();
    extend_bytes(&mut header, &[72u8, 84, 88, 70]);
    push_u32_be(&mut header, reference);
    push_u32_be(&mut header, 0);
    push_u32_be(&mut header, flags);
    assert(header@ =~= htxf_header(reference, flags));
    header
}

/// Encodes a DATA-fork resume request for `offset`.
pub fn resume_data(offset: u64) -> (data: Vec<u8>)
    ensures
        data@ == resume_record(offset),
        data@.len() == 58,
{
    let mut data: Vec<u8> = Vec::new();
    extend_bytes(&mut data, &[82u8, 70, 76, 84]);
    push_u16_be(&mut data, 1);
    push_zeros(&mut data, 34);
    push_u16_be(&mut data, 1);
    extend_bytes(&mut data, &[68u8, 65, 84, 65]);
    let clamped: u32 = if offset <= 0xffff_ffff { offset as u32 } else { 0xffff_ffff };
    push_u32_be(&mut data, clamped);
    push_zeros(&mut data, 8);
    assert(data@ =~= resume_record(offset));
    data
}

/// Entry `j` of a resume record is a DATA entry.
pub open spec fn is_data_entry(data: Seq<u8>, j: int) -> bool {
    data.subrange(42 + 16 * j, 46 + 16 * j) == data_tag()
}

/// The 32-bit offset of entry `j`.
pub open spec fn entry_offset(data: Seq<u8>, j: int) -> u64 {
    be_u32(data[46 + 16 * j], data[47 + 16 * j], data[48 + 16 * j], data[49 + 16 * j]) as u64
}

pub open spec fn resume_entry_count(data: Seq<u8>) -> int {
    be_u16(data[40], data[41])
}

/// The DATA offset a resume record carries, or why it is refused:
/// a bad header, a length that disagrees with the entry count, or two DATA
/// entries. A record without a DATA entry resumes from 0.
pub open spec fn resume_offset_of(data: Seq<u8>) -> Result<u64, Seq<char>> {
    if data.len() < 42 || data.subrange(0, 6) != rflt() + u16_be_bytes(1) {
        Err("Invalid folder resume data"@)
    } else if data.len() != 42 + resume_entry_count(data) * 16 {
        Err("Truncated folder resume data"@)
    } else if exists|a: int, b: int| 0 <= a < b < resume_entry_count(data) && #[trigger] is_data_entry(data, a) && #[trigger] is_data_entry(data, b) {
        Err("Duplicate DATA resume entry"@)
    } else if exists|a: int| 0 <= a < resume_entry_count(data) && #[trigger] is_data_entry(data, a) {
        Ok(entry_offset(data, choose|a: int| 0 <= a < resume_entry_count(data) && #[trigger] is_data_entry(data, a)))
    } else {
        Ok(0)
    }
}

/// Reads the DATA offset from a legacy folder resume record.
pub fn legacy_resume_offset(data: &[u8]) -> (r: Result<u64, String>)
    ensures
        r matches Ok(v) ==> resume_offset_of(data@) == Ok::<u64, Seq<char>>(v),
        r matches Err(e) ==> resume_offset_of(data@) == Err::<u64, Seq<char>>(e@),
{
    proof {
        reveal_strlit("Invalid folder resume data");
        reveal_strlit("Truncated folder resume data");
        reveal_strlit("Duplicate DATA resume entry");
    }
    if data.len() < 42 || !bytes_at(data, 0, &[82u8, 70, 76, 84, 0, 1]) {
        proof { assert(rflt() + u16_be_bytes(1) =~= seq![82u8, 70, 76, 84, 0, 1]); }
        return Err(owned("Invalid folder resume data"));
    }
    proof { assert(rflt() + u16_be_bytes(1) =~= seq![82u8, 70, 76, 84, 0, 1]); }
    let count = read_u16_be(data[40], data[41]) as usize;
    if data.len() != 42 + count * 16 {
        return Err(owned("Truncated folder resume data"));
    }
    let mut found: Option<usize> = None;
    let mut offset: u64 = 0;
    let mut j: usize = 0;
    while j < count
        invariant
            data@.len() == 42 + count * 16,
            data@.subrange(0, 6) == rflt() + u16_be_bytes(1),
            count == resume_entry_count(data@),
            j <= count,
            found is None ==> offset == 0,
            found is None ==> forall|a: int| 0 <= a < j ==> !#[trigger] is_data_entry(data@, a),
            found matches Some(a) ==> {
                &&& a < j
                &&& is_data_entry(data@, a as int)
                &&& offset == entry_offset(data@, a as int)
                &&& forall|b: int| 0 <= b < j && b != a ==> !#[trigger] is_data_entry(data@, b)
            },
        decreases count - j,
    {
        let base = 42 + 16 * j;
        if bytes_at(data, base, &[68u8, 65, 84, 65]) {
            assert(seq![68u8, 65, 84, 65] =~= data_tag());
            if found.is_some() {
                let ghost a = found.unwrap() as int;
                assert(is_data_entry(data@, a) && is_data_entry(data@, j as int));
                assert(0 <= a < j < resume_entry_count(data@));
                assert(exists|x: int, y: int| 0 <= x < y < resume_entry_count(data@) && #[trigger] is_data_entry(data@, x) && #[trigger] is_data_entry(data@, y));
                return Err(owned("Duplicate DATA resume entry"));
            }
            found = Some(j);
            offset = read_u32_be(data[base + 4], data[base + 5], data[base + 6], data[base + 7]) as u64;
        } else {
            assert(seq![68u8, 65, 84, 65] =~= data_tag());
        }
        j = j + 1;
    }
    proof {
        if found is Some {
            let a = found.unwrap() as int;
            assert forall|x: int, y: int| 0 <= x < y < resume_entry_count(data@) && #[trigger] is_data_entry(data@, x)
                implies !#[trigger] is_data_entry(data@, y) by {
                if x != a {
                    assert(!is_data_entry(data@, x));
                }
            }
            assert(is_data_entry(data@, a));
            let c = choose|x: int| 0 <= x < resume_entry_count(data@) && #[trigger] is_data_entry(data@, x);
            assert(c == a);
            assert(resume_offset_of(data@) == Ok::<u64, Seq<char>>(offset));
        } else {
            assert(!exists|x: int| 0 <= x < resume_entry_count(data@) && #[trigger] is_data_entry(data@, x));
            assert(resume_offset_of(data@) == Ok::<u64, Seq<char>>(offset));
        }
    }
    Ok(offset)
}

/// Reading a resume record written by `resume_data` gives back the offset it
/// was written with, clamped to 32 bits.
pub proof fn lemma_resume_record_roundtrip(offset: u64)
    ensures
        resume_offset_of(resume_record(offset)) == Ok::<u64, Seq<char>>(min_u64(offset, 0xffff_ffff)),
{
    let d = resume_record(offset);
    assert(d.subrange(0, 6) =~= rflt() + u16_be_bytes(1));
    assert(d[40] == 0 && d[41] == 1);
    assert(resume_entry_count(d) == 1);
    assert(d.subrange(42, 46) =~= data_tag());
    assert(is_data_entry(d, 0));
    let c = choose|x: int| 0 <= x < resume_entry_count(d) && #[trigger] is_data_entry(d, x);
    assert(c == 0);
    let v = min_u64(offset, 0xffff_ffff) as int;
    assert(d[46] == (v / 16777216) as u8 && d[47] == ((v / 65536) % 256) as u8);
    assert(d[48] == ((v / 256) % 256) as u8 && d[49] == (v % 256) as u8);
    assert(be_u32(d[46], d[47], d[48], d[49]) == v);
}

// ───── Upload resume digests ─────

/// The SHA-256 digest of `data`.
pub uninterp spec fn sha256_of(data: Seq<u8>) -> Seq<u8>;

/// SHA-256 (`sha2::Sha256::digest`).
#[verifier::external_body]
fn sha256(data: &[u8]) -> (r: Vec<u8>)
    ensures
        r@ == sha256_of(data@),
        r@.len() == 32,
{
    <sha2::Sha256 as sha2::Digest>::digest(data).to_vec()
}

/// The 40 bytes of `digest` as an array.
fn digest_array(digest: &[u8]) -> (r: [u8; 40])
    requires
        digest@.len() == 40,
    ensures
        r@ == digest@,
{
    let mut a = [0u8; 40];
    let mut i: usize = 0;
    while i < 40
        invariant
            digest@.len() == 40,
            i <= 40,
            forall|j: int| 0 <= j < i ==> a@[j] == digest@[j],
        decreases 40 - i,
    {
        a.set(i, digest[i]);
        i = i + 1;
    }
    assert(a@ =~= digest@);
    a
}

pub open spec fn resume_window(offset: u64) -> u64 {
    min_u64(offset, 65536)
}

/// The server's partial-upload digest matches the local file: the first
/// eight bytes give the window length `min(offset, 65536)` and the rest is
/// the SHA-256 of the offset (big-endian) followed by the `window` bytes
/// that end at `offset`.
pub open spec fn upload_resume_verified(data: Seq<u8>, offset: u64, digest: Seq<u8>) -> bool {
    let window = resume_window(offset);
    &&& offset != 0
    &&& offset <= data.len()
    &&& digest.len() == 40
    &&& digest.subrange(0, 8) == u64_be_bytes(window as int)
    &&& sha256_of(u64_be_bytes(offset as int) + data.subrange(offset - window, offset as int)) == digest.subrange(8, 40)
}

/// Validates a server's large-upload digest before allowing append mode;
/// returns the digest to echo back.
pub fn verified_upload_resume(data: &[u8], offset: u64, digest: &[u8]) -> (r: Option<[u8; 40]>)
    ensures
        r is Some <==> upload_resume_verified(data@, offset, digest@),
        r matches Some(d) ==> d@ == digest@,
{
    if offset == 0 || offset > data.len() as u64 || digest.len() != 40 {
        return None;
    }
    let end = offset as usize;
    let window: u64 = if offset <= 65536 { offset } else { 65536 };
    let mut expected_len: Vec<u8> = Vec::new();
    push_u64_be(&mut expected_len, window);
    if !bytes_at(digest, 0, expected_len.as_slice()) {
        return None;
    }
    let mut message: Vec<u8> = Vec::new();
    push_u64_be(&mut message, offset);
    let start = end - window as usize;
    let tail = copy_range(data, start, end);
    extend_bytes(&mut message, tail.as_slice());
    let hash = sha256(message.as_slice());
    if !bytes_at(digest, 8, hash.as_slice()) {
        return None;
    }
    Some(digest_array(digest))
}

// ───── Receiving FILP objects ─────

/// How a transfer stream begins, judged by its first (up to) four bytes.
#[derive(Clone, Copy, Debug, PartialEq, Eq, Structural)]
pub enum TransferStart {
    /// No framing: `size` raw bytes, the first of which were already read.
    Raw { size: u64 },
    /// A FILP header follows the magic.
    Filp,
    /// A single fork header begins with the magic.
    BareFork,
}

/// The start of a transfer whose first bytes are `magic`.
pub open spec fn transfer_start(magic: Seq<u8>, expected: Option<u64>, allow_raw: bool) -> Result<TransferStart, Seq<char>> {
    if magic.len() == 4 && magic == filp_tag() {
        Ok(TransferStart::Filp)
    } else if magic.len() == 4 && (magic == data_tag() || magic == info_tag() || magic == macr_tag()) {
        Ok(TransferStart::BareFork)
    } else {
        match expected {
            Some(size) if allow_raw => if magic.len() > size {
                Err("Raw file exceeds its advertised size"@)
            } else {
                Ok(TransferStart::Raw { size })
            },
            _ => Err("Missing FILP header"@),
        }
    }
}

/// Classifies the start of a transfer from the bytes read before the stream
/// ended or four bytes arrived.
pub fn classify_transfer_start(magic: &[u8], expected: Option<u64>, allow_raw: bool) -> (r: Result<TransferStart, String>)
    requires
        magic@.len() <= 4,
    ensures
        r matches Ok(s) ==> transfer_start(magic@, expected, allow_raw) == Ok::<TransferStart, Seq<char>>(s),
        r matches Err(e) ==> transfer_start(magic@, expected, allow_raw) == Err::<TransferStart, Seq<char>>(e@),
{
    proof {
        reveal_strlit("Raw file exceeds its advertised size");
        reveal_strlit("Missing FILP header");
    }
    if magic.len() == 4 {
        if bytes_at(magic, 0, &[70u8, 73, 76, 80]) {
            assert(magic@.subrange(0, 4) =~= magic@);
            return Ok(TransferStart::Filp);
        }
        if bytes_at(magic, 0, &[68u8, 65, 84, 65]) || bytes_at(magic, 0, &[73u8, 78, 70, 79]) || bytes_at(magic, 0, &[77u8, 65, 67, 82]) {
            assert(magic@.subrange(0, 4) =~= magic@);
            return Ok(TransferStart::BareFork);
        }
        assert(magic@.subrange(0, 4) =~= magic@);
    }
    match expected {
        Some(size) => {
            if !allow_raw {
                return Err(owned("Missing FILP header"));
            }
            if magic.len() as u64 > size {
                return Err(owned("Raw file exceeds its advertised size"));
            }
            Ok(TransferStart::Raw { size })
        },
        None => Err(owned("Missing FILP header")),
    }
}

/// The fork count of a 20-byte FILP header (after the magic), which must be
/// version 1.
pub fn filp_fork_count(header: &[u8]) -> (r: Result<u16, String>)
    requires
        header@.len() == 20,
    ensures
        r is Ok <==> header@[0] == 0 && header@[1] == 1,
        r matches Ok(n) ==> n == be_u16(header@[18], header@[19]),
        r matches Err(e) ==> e@ == "Unsupported FILP version"@,
{
    if header[0] != 0 || header[1] != 1 {
        return Err(owned("Unsupported FILP version"));
    }
    Ok(read_u16_be(header[18], header[19]))
}

/// The declared size of a fork from its 16-byte header: the low 32 bits at
/// offset 12 and, for large-file transfers, the high 32 bits at offset 4.
pub open spec fn fork_size(h: Seq<u8>, large: bool) -> int {
    (if large { be_u32(h[4], h[5], h[6], h[7]) } else { 0 }) * 4294967296 + be_u32(h[12], h[13], h[14], h[15])
}

/// The compression field: offset 8 for large-file transfers, offset 4
/// otherwise.
pub open spec fn fork_compression(h: Seq<u8>, large: bool) -> Seq<u8> {
    if large { h.subrange(8, 12) } else { h.subrange(4, 8) }
}

/// What to do with the body of a fork.
#[derive(Clone, Copy, Debug, PartialEq, Eq, Structural)]
pub struct ForkAction {
    /// Bytes in the fork body.
    pub size: u64,
    /// The body is the DATA fork and goes to the output; otherwise it is
    /// read and discarded.
    pub is_data: bool,
}

/// Decisions while reading the forks of one transfer object.
pub struct ForkReader {
    pub large: bool,
    pub expected: Option<u64>,
    pub wire_budget: Option<u64>,
    /// Wire bytes used by headers and forks so far.
    pub wire_used: u64,
    pub found_data: bool,
    pub total: u64,
}

/// The state after a fork header, or why the transfer is refused.
pub open spec fn next_fork(st: ForkReader, h: Seq<u8>) -> Result<(ForkReader, ForkAction), Seq<char>> {
    let size = fork_size(h, st.large);
    let used = st.wire_used + 16 + size;
    if used > u64::MAX {
        Err("Transfer size overflow"@)
    } else if st.wire_budget matches Some(limit) && used > limit {
        Err("Folder file exceeds its transfer size"@)
    } else if fork_compression(h, st.large) != seq![0u8, 0, 0, 0] {
        Err("Compressed file forks are unsupported"@)
    } else if h.subrange(0, 4) == data_tag() {
        if st.found_data {
            Err("Duplicate DATA fork"@)
        } else if st.expected matches Some(n) && n != size {
            Err("Server sent an unexpected file size; it may not support resume"@)
        } else {
            Ok((ForkReader { wire_used: used as u64, found_data: true, total: size as u64, ..st }, ForkAction { size: size as u64, is_data: true }))
        }
    } else {
        Ok((ForkReader { wire_used: used as u64, ..st }, ForkAction { size: size as u64, is_data: false }))
    }
}

/// The outcome once every fork was read.
pub open spec fn fork_result(st: ForkReader) -> Result<u64, Seq<char>> {
    if st.wire_budget matches Some(limit) && st.wire_used != limit {
        Err("Folder transfer size mismatch"@)
    } else if !st.found_data {
        Err("Transfer has no DATA fork"@)
    } else {
        Ok(st.total)
    }
}

/// The reader after judging the fork headers `hs` in order, or the first
/// refusal.
pub open spec fn read_forks(st: ForkReader, hs: Seq<Seq<u8>>) -> Result<ForkReader, Seq<char>>
    decreases hs.len(),
{
    if hs.len() == 0 {
        Ok(st)
    } else {
        match next_fork(st, hs[0]) {
            Err(e) => Err(e),
            Ok((st2, _)) => read_forks(st2, hs.drop_first()),
        }
    }
}

/// The number of DATA fork headers in `hs`.
pub open spec fn data_headers(hs: Seq<Seq<u8>>) -> nat
    decreases hs.len(),
{
    if hs.len() == 0 {
        0
    } else {
        (if hs[0].subrange(0, 4) == data_tag() { 1nat } else { 0nat }) + data_headers(hs.drop_first())
    }
}

/// The wire bytes that the forks with headers `hs` take: each header's 16
/// bytes and its body.
pub open spec fn forks_wire(hs: Seq<Seq<u8>>, large: bool) -> int
    decreases hs.len(),
{
    if hs.len() == 0 { 0 } else { 16 + fork_size(hs[0], large) + forks_wire(hs.drop_first(), large) }
}

proof fn lemma_read_forks(st: ForkReader, hs: Seq<Seq<u8>>)
    requires
        read_forks(st, hs) is Ok,
    ensures
        ({
            let fin = read_forks(st, hs)->Ok_0;
            &&& fin.found_data == (st.found_data || data_headers(hs) > 0)
            &&& st.found_data ==> data_headers(hs) == 0
            &&& data_headers(hs) <= 1
            &&& fin.wire_used == st.wire_used + forks_wire(hs, st.large)
            &&& fin.wire_budget == st.wire_budget
            &&& fin.large == st.large
        }),
    decreases hs.len(),
{
    if hs.len() > 0 {
        let (st2, _) = next_fork(st, hs[0])->Ok_0;
        lemma_read_forks(st2, hs.drop_first());
    }
}

/// A transfer object is accepted only with exactly one DATA fork; its
/// forks take exactly the wire bytes their headers announce, and for a
/// folder file exactly the wire budget.
pub proof fn lemma_accepted_object_has_one_data_fork(st: ForkReader, hs: Seq<Seq<u8>>)
    requires
        !st.found_data,
        read_forks(st, hs) is Ok,
        fork_result(read_forks(st, hs)->Ok_0) is Ok,
    ensures
        data_headers(hs) == 1,
        read_forks(st, hs)->Ok_0.wire_used == st.wire_used + forks_wire(hs, st.large),
        st.wire_budget matches Some(limit) ==> st.wire_used + forks_wire(hs, st.large) == limit,
{
    lemma_read_forks(st, hs);
}

impl ForkReader {
    /// The state before the first fork header; a FILP header has already
    /// used 24 wire bytes.
    pub fn new(filp: bool, large: bool, expected: Option<u64>, wire_budget: Option<u64>) -> (r: Self)
        ensures
            r == (ForkReader { large, expected, wire_budget, wire_used: if filp { 24 } else { 0 }, found_data: false, total: 0 }),
    {
        ForkReader { large, expected, wire_budget, wire_used: if filp { 24 } else { 0 }, found_data: false, total: 0 }
    }

    /// Judges a 16-byte fork header.
    pub fn on_fork_header(&mut self, header: &[u8]) -> (r: Result<ForkAction, String>)
        requires
            header@.len() == 16,
        ensures
            r matches Ok(a) ==> next_fork(*old(self), header@) == Ok::<(ForkReader, ForkAction), Seq<char>>((*final(self), a)),
            r matches Err(e) ==> next_fork(*old(self), header@) == Err::<(ForkReader, ForkAction), Seq<char>>(e@),
    {
        proof {
            reveal_strlit("Transfer size overflow");
            reveal_strlit("Folder file exceeds its transfer size");
            reveal_strlit("Compressed file forks are unsupported");
            reveal_strlit("Duplicate DATA fork");
            reveal_strlit("Server sent an unexpected file size; it may not support resume");
        }
        let low = read_u32_be(header[12], header[13], header[14], header[15]) as u64;
        let high: u64 = if self.large { read_u32_be(header[4], header[5], header[6], header[7]) as u64 } else { 0 };
        let size: u64 = high * 4294967296 + low;
        let used = match self.wire_used.checked_add(16) {
            Some(n) => match n.checked_add(size) {
                Some(m) => m,
                None => return Err(owned("Transfer size overflow")),
            },
            None => return Err(owned("Transfer size overflow")),
        };
        if let Some(limit) = self.wire_budget {
            if used > limit {
                return Err(owned("Folder file exceeds its transfer size"));
            }
        }
        let c = if self.large { 8 } else { 4 };
        if !bytes_at(header, c, &[0u8, 0, 0, 0]) {
            proof { assert(fork_compression(header@, self.large) == header@.subrange(c as int, c + 4)); }
            return Err(owned("Compressed file forks are unsupported"));
        }
        assert(fork_compression(header@, self.large) == header@.subrange(c as int, c + 4));
        if bytes_at(header, 0, &[68u8, 65, 84, 65]) {
            assert(seq![68u8, 65, 84, 65] =~= data_tag());
            if self.found_data {
                return Err(owned("Duplicate DATA fork"));
            }
            if let Some(n) = self.expected {
                if n != size {
                    return Err(owned("Server sent an unexpected file size; it may not support resume"));
                }
            }
            self.wire_used = used;
            self.found_data = true;
            self.total = size;
            Ok(ForkAction { size, is_data: true })
        } else {
            assert(seq![68u8, 65, 84, 65] =~= data_tag());
            self.wire_used = used;
            Ok(ForkAction { size, is_data: false })
        }
    }

    /// The DATA length once every fork was read.
    pub fn finish(&self) -> (r: Result<u64, String>)
        ensures
            r matches Ok(n) ==> fork_result(*self) == Ok::<u64, Seq<char>>(n),
            r matches Err(e) ==> fork_result(*self) == Err::<u64, Seq<char>>(e@),
    {
        proof {
            reveal_strlit("Folder transfer size mismatch");
            reveal_strlit("Transfer has no DATA fork");
        }
        if let Some(limit) = self.wire_budget {
            if self.wire_used != limit {
                return Err(owned("Folder transfer size mismatch"));
            }
        }
        if !self.found_data {
            return Err(owned("Transfer has no DATA fork"));
        }
        Ok(self.total)
    }
}

} // verus!
