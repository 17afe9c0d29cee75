//! Tracker listings: handshake decisions, credentials, and server records.
use vstd::prelude::*;
use vstd::string::StringSliceAdditionalSpecFns;
use crate::bytes::{be_u16, bytes_at, extend_bytes, push_u16_be, read_u16_be, u16_be_bytes};
use crate::folders::{decode_utf8_lossy, utf8_lossy_text};
use crate::text::{chars_of, decimal, owned, push_char, push_decimal};

verus! {

/// A server listed by a tracker.
#[derive(Debug)]
pub struct TrackerServer {
    pub address: String,
    pub port: u16,
    pub users: u16,
    pub name: Option<String>,
    pub description: Option<String>,
}

pub open spec fn htrk() -> Seq<u8> {
    seq![72u8, 84, 82, 75]
}

/// The client's opening request: `HTRK`, the version, and for version 3 the
/// feature word 5 (IPv6 and authentication; no query flag, so the listing
/// is complete).
pub open spec fn tracker_request_bytes(version: u16) -> Seq<u8> {
    htrk() + u16_be_bytes(version as int) + if version == 3 { u16_be_bytes(5) } else { Seq::empty() }
}

pub fn tracker_request(version: u16) -> (r: Vec<u8>)
    ensures
        r@ == tracker_request_bytes(version),
{
    let mut request: Vec<u8> = Vec::new();
    extend_bytes(&mut request, &[72u8, 84, 82, 75]);
    push_u16_be(&mut request, version);
    if version == 3 {
        push_u16_be(&mut request, 5);
    }
    assert(request@ =~= tracker_request_bytes(version));
    request
}

/// What follows the tracker's handshake reply.
#[derive(Clone, Copy, Debug, PartialEq, Eq, Structural)]
pub enum HandshakeStep {
    /// Version 1: the batched listing follows.
    ReadListing,
    /// The tracker offered version 2 to a version 3 request: reconnect with
    /// an exact version 2 handshake.
    Reconnect,
    /// Version 2: an authentication flag byte follows.
    V2Auth,
    /// Version 3: a feature word follows.
    V3Features,
}

/// The step after a six-byte handshake reply to a request for `version`.
pub open spec fn handshake(version: u16, response: Seq<u8>) -> Result<HandshakeStep, Seq<char>> {
    if response.subrange(0, 4) != htrk() {
        Err("Invalid tracker handshake"@)
    } else {
        let accepted = be_u16(response[4], response[5]);
        if accepted == 1 {
            Ok(HandshakeStep::ReadListing)
        } else if accepted == 2 {
            if version == 3 { Ok(HandshakeStep::Reconnect) } else { Ok(HandshakeStep::V2Auth) }
        } else if accepted == 3 {
            Ok(HandshakeStep::V3Features)
        } else {
            Err("Unsupported tracker protocol version"@)
        }
    }
}

pub fn handshake_step(version: u16, response: &[u8]) -> (r: Result<HandshakeStep, String>)
    requires
        response@.len() == 6,
    ensures
        r matches Ok(s) ==> handshake(version, response@) == Ok::<HandshakeStep, Seq<char>>(s),
        r matches Err(e) ==> handshake(version, response@) == Err::<HandshakeStep, Seq<char>>(e@),
{
    proof {
        reveal_strlit("Invalid tracker handshake");
        reveal_strlit("Unsupported tracker protocol version");
    }
    if !bytes_at(response, 0, &[72u8, 84, 82, 75]) {
        return Err(owned("Invalid tracker handshake"));
    }
    let accepted = read_u16_be(response[4], response[5]);
    if accepted == 1 {
        Ok(HandshakeStep::ReadListing)
    } else if accepted == 2 {
        if version == 3 { Ok(HandshakeStep::Reconnect) } else { Ok(HandshakeStep::V2Auth) }
    } else if accepted == 3 {
        Ok(HandshakeStep::V3Features)
    } else {
        Err(owned("Unsupported tracker protocol version"))
    }
}

/// Version 2 credentials as two Pascal strings.
pub open spec fn v2_auth_bytes(login: Seq<u8>, password: Seq<u8>) -> Seq<u8> {
    seq![login.len() as u8] + login + seq![password.len() as u8] + password
}

/// What to send after a version 2 authentication flag: nothing when the
/// tracker does not require credentials (flag 0), the credentials when it
/// does (flag 1); refused for other flags, for a missing password, and for
/// credentials longer than 31 bytes.
pub fn v2_credentials(required: u8, login: &str, password: &str) -> (r: Result<Option<Vec<u8>>, String>)
    ensures
        required == 0 ==> r matches Ok(None),
        required > 1 ==> (r matches Err(e) && e@ == "Invalid tracker authentication flag"@),
        required == 1 && (login.spec_bytes().len() > 31 || password.spec_bytes().len() > 31)
            ==> (r matches Err(e) && e@ == "Tracker credentials exceed 31 bytes"@),
        required == 1 && login.spec_bytes().len() <= 31 && password.spec_bytes().len() <= 31 && password@.len() == 0
            ==> (r matches Err(e) && e@ == "Tracker requires credentials; edit its bookmark"@),
        required == 1 && login.spec_bytes().len() <= 31 && password.spec_bytes().len() <= 31 && password@.len() != 0
            ==> (r matches Ok(Some(auth)) && auth@ == v2_auth_bytes(login.spec_bytes(), password.spec_bytes())),
{
    if required == 0 {
        return Ok(None);
    }
    if required != 1 {
        return Err(owned("Invalid tracker authentication flag"));
    }
    let login_bytes = login.as_bytes();
    let password_bytes = password.as_bytes();
    if login_bytes.len() > 31 || password_bytes.len() > 31 {
        return Err(owned("Tracker credentials exceed 31 bytes"));
    }
    if password.is_empty() {
        return Err(owned("Tracker requires credentials; edit its bookmark"));
    }
    let mut auth: Vec<u8> = Vec::new();
    auth.push(login_bytes.len() as u8);
    extend_bytes(&mut auth, login_bytes);
    auth.push(password_bytes.len() as u8);
    extend_bytes(&mut auth, password_bytes);
    assert(auth@ =~= v2_auth_bytes(login.spec_bytes(), password.spec_bytes()));
    Ok(Some(auth))
}

/// Version 3 credentials: a field list of two entries, login (0x0820) and
/// password (0x0821), each with a 16-bit length.
pub open spec fn v3_auth_bytes(login: Seq<u8>, password: Seq<u8>) -> Seq<u8> {
    seq![0u8, 1, 0, 2] + u16_be_bytes(0x0820) + u16_be_bytes(login.len() as int) + login
        + u16_be_bytes(0x0821) + u16_be_bytes(password.len() as int) + password
}

/// What to send after a version 3 feature word: the credentials when the
/// tracker requires authentication (bit 4), otherwise nothing.
pub fn v3_credentials(flags: u16, login: &str, password: &str) -> (r: Result<Option<Vec<u8>>, String>)
    ensures
        flags & 4 == 0 ==> r matches Ok(None),
        flags & 4 != 0 && password@.len() == 0 ==> (r matches Err(e) && e@ == "Tracker requires credentials; edit its bookmark"@),
        flags & 4 != 0 && password@.len() != 0 && (login.spec_bytes().len() > 65535 || password.spec_bytes().len() > 65535)
            ==> (r matches Err(e) && e@ == "Tracker credentials are too long"@),
        flags & 4 != 0 && password@.len() != 0 && login.spec_bytes().len() <= 65535 && password.spec_bytes().len() <= 65535
            ==> (r matches Ok(Some(auth)) && auth@ == v3_auth_bytes(login.spec_bytes(), password.spec_bytes())),
{
    if flags & 4 == 0 {
        return Ok(None);
    }
    if password.is_empty() {
        return Err(owned("Tracker requires credentials; edit its bookmark"));
    }
    let login_bytes = login.as_bytes();
    let password_bytes = password.as_bytes();
    let mut auth: Vec<u8> = Vec::new();
    extend_bytes(&mut auth, &[0u8, 1, 0, 2]);
    if login_bytes.len() > 65535 {
        return Err(owned("Tracker credentials are too long"));
    }
    push_u16_be(&mut auth, 0x0820);
    push_u16_be(&mut auth, login_bytes.len() as u16);
    extend_bytes(&mut auth, login_bytes);
    if password_bytes.len() > 65535 {
        return Err(owned("Tracker credentials are too long"));
    }
    push_u16_be(&mut auth, 0x0821);
    push_u16_be(&mut auth, password_bytes.len() as u16);
    extend_bytes(&mut auth, password_bytes);
    assert(auth@ =~= v3_auth_bytes(login.spec_bytes(), password.spec_bytes()));
    Ok(Some(auth))
}

/// An authentication status other than 0 is a denial; it never leads to
/// trying an older protocol version.
pub fn check_auth_status(status: u8) -> (r: Result<(), String>)
    ensures
        r is Ok <==> status == 0,
        r matches Err(e) ==> e@ == "Tracker authentication denied"@,
{
    if status != 0 {
        return Err(owned("Tracker authentication denied"));
    }
    Ok(())
}

/// Metadata field lists may hold at most 1024 fields.
pub fn check_metadata_count(count: u16) -> (r: Result<(), String>)
    ensures
        r is Ok <==> count <= 1024,
        r matches Err(e) ==> e@ == "Too many tracker metadata fields"@,
{
    if count > 1024 {
        return Err(owned("Too many tracker metadata fields"));
    }
    Ok(())
}

// ───── Version 1 and 2 listings ─────

/// Progress through a batched listing.
#[derive(Clone, Copy, Debug, PartialEq, Eq, Structural)]
pub struct BatchCursor {
    /// Batch headers read.
    pub batches: u32,
    /// Entries read.
    pub parsed: u64,
    /// Entries announced by the first batch header that announced any.
    pub expected: u64,
}

/// What follows a batch.
#[derive(Clone, Copy, Debug, PartialEq, Eq, Structural)]
pub enum BatchOutcome {
    Done,
    NextBatch,
}

impl BatchCursor {
    pub fn new() -> (r: Self)
        ensures
            r == (BatchCursor { batches: 0, parsed: 0, expected: 0 }),
    {
        BatchCursor { batches: 0, parsed: 0, expected: 0 }
    }

    /// Takes an 8-byte batch header and returns the number of entries in the
    /// batch (the second count). The first count announces the listing's
    /// size until a header announces a non-zero size.
    pub fn on_header(&mut self, header: &[u8]) -> (n: u16)
        requires
            header@.len() == 8,
            old(self).batches < 100,
        ensures
            n == be_u16(header@[6], header@[7]),
            final(self).batches == old(self).batches + 1,
            final(self).parsed == old(self).parsed,
            final(self).expected == if old(self).expected == 0 { be_u16(header@[4], header@[5]) as u64 } else { old(self).expected },
    {
        self.batches = self.batches + 1;
        if self.expected == 0 {
            self.expected = read_u16_be(header[4], header[5]) as u64;
        }
        read_u16_be(header[6], header[7])
    }

    /// Counts one entry read.
    pub fn on_entry(&mut self)
        requires
            old(self).parsed < u64::MAX,
        ensures
            *final(self) == (BatchCursor { parsed: (old(self).parsed + 1) as u64, ..*old(self) }),
    {
        self.parsed = self.parsed + 1;
    }

    /// After a batch: done once the announced entries were read; refused
    /// after 100 batches.
    pub fn after_batch(&self) -> (r: Result<BatchOutcome, String>)
        ensures
            self.parsed >= self.expected ==> r == Ok::<BatchOutcome, String>(BatchOutcome::Done),
            self.parsed < self.expected && self.batches < 100 ==> r == Ok::<BatchOutcome, String>(BatchOutcome::NextBatch),
            self.parsed < self.expected && self.batches >= 100
                ==> (r matches Err(e) && e@ == "Tracker listing exceeded the batch limit"@),
    {
        if self.parsed >= self.expected {
            return Ok(BatchOutcome::Done);
        }
        if self.batches >= 100 {
            return Err(owned("Tracker listing exceeded the batch limit"));
        }
        Ok(BatchOutcome::NextBatch)
    }
}

/// Dotted-decimal text of an IPv4 address.
pub open spec fn ipv4_text_of(b: Seq<u8>) -> Seq<char> {
    decimal(b[0] as nat) + seq!['.'] + decimal(b[1] as nat) + seq!['.'] + decimal(b[2] as nat) + seq!['.'] + decimal(b[3] as nat)
}

pub fn ipv4_text(b: &[u8]) -> (r: String)
    requires
        b@.len() == 4,
    ensures
        r@ == ipv4_text_of(b@),
{
    let mut text = String::new();
    push_decimal(&mut text, b[0] as u64);
    push_char(&mut text, '.');
    push_decimal(&mut text, b[1] as u64);
    push_char(&mut text, '.');
    push_decimal(&mut text, b[2] as u64);
    push_char(&mut text, '.');
    push_decimal(&mut text, b[3] as u64);
    assert(text@ =~= ipv4_text_of(b@));
    text
}

/// The result of `encoding_rs::MACINTOSH.decode`: the text, and whether
/// malformed input was replaced.
pub uninterp spec fn macroman_sniffed(bytes: Seq<u8>) -> (Seq<char>, bool);

/// MacRoman decoding with BOM sniffing (`encoding_rs::MACINTOSH.decode`).
#[verifier::external_body]
fn decode_macroman_sniffing(bytes: &[u8]) -> (r: (String, bool))
    ensures
        (r.0@, r.1) == macroman_sniffed(bytes@),
{
    let (text, _, had_errors) = encoding_rs::MACINTOSH.decode(bytes);
    (text.into_owned(), had_errors)
}

/// The text of a version 1 name or description: MacRoman (with BOM
/// sniffing), or lossy UTF-8 when MacRoman decoding reported errors.
pub open spec fn listing_text(bytes: Seq<u8>) -> Seq<char> {
    if bytes.len() == 0 {
        Seq::empty()
    } else if macroman_sniffed(bytes).1 {
        utf8_lossy_text(bytes)
    } else {
        macroman_sniffed(bytes).0
    }
}

pub fn pascal_text(bytes: &[u8]) -> (r: String)
    ensures
        r@ == listing_text(bytes@),
{
    if bytes.len() == 0 {
        return String::new();
    }
    let (text, had_errors) = decode_macroman_sniffing(bytes);
    if had_errors {
        decode_utf8_lossy(bytes)
    } else {
        text
    }
}

/// Separator rows: names of more than three characters, all `-`.
pub open spec fn is_separator_name(name: Seq<char>) -> bool {
    name.len() > 3 && forall|i: int| 0 <= i < name.len() ==> #[trigger] name[i] == '-'
}

pub fn is_separator(name: &str) -> (r: bool)
    ensures
        r == is_separator_name(name@),
{
    let chars = chars_of(name);
    if chars.len() <= 3 {
        return false;
    }
    let mut i: usize = 0;
    while i < chars.len()
        invariant
            chars@ == name@,
            i <= chars@.len(),
            forall|j: int| 0 <= j < i ==> #[trigger] chars@[j] == '-',
        decreases chars@.len() - i,
    {
        if chars[i] != '-' {
            return false;
        }
        i = i + 1;
    }
    true
}

pub open spec fn optional_text(t: Seq<char>) -> Option<Seq<char>> {
    if t.len() == 0 { None } else { Some(t) }
}

pub open spec fn text_of(o: Option<String>) -> Option<Seq<char>> {
    match o {
        Some(s) => Some(s@),
        None => None,
    }
}

/// A version 1 entry from its 10 fixed bytes (IPv4 address, port, users,
/// two unused bytes) and its decoded name and description; `None` for a
/// separator row. Empty texts become `None`.
pub fn v1_server(fixed: &[u8], name: String, description: String) -> (r: Option<TrackerServer>)
    requires
        fixed@.len() == 10,
    ensures
        is_separator_name(name@) ==> r is None,
        !is_separator_name(name@) ==> (r matches Some(s) && {
            &&& s.address@ == ipv4_text_of(fixed@.subrange(0, 4))
            &&& s.port == be_u16(fixed@[4], fixed@[5])
            &&& s.users == be_u16(fixed@[6], fixed@[7])
            &&& text_of(s.name) == optional_text(name@)
            &&& text_of(s.description) == optional_text(description@)
        }),
{
    if is_separator(name.as_str()) {
        return None;
    }
    let ip = crate::bytes::copy_range(fixed, 0, 4);
    let address = ipv4_text(ip.as_slice());
    let name_opt = if name.as_str().is_empty() { None } else { Some(name) };
    let description_opt = if description.as_str().is_empty() { None } else { Some(description) };
    Some(TrackerServer {
        address,
        port: read_u16_be(fixed[4], fixed[5]),
        users: read_u16_be(fixed[6], fixed[7]),
        name: name_opt,
        description: description_opt,
    })
}

// ───── Version 3 listings ─────

/// Unicode White_Space.
pub open spec fn is_whitespace(c: char) -> bool {
    ('\u{9}' <= c && c <= '\u{d}') || c == ' ' || c == '\u{85}' || c == '\u{a0}' || c == '\u{1680}'
        || ('\u{2000}' <= c && c <= '\u{200a}') || c == '\u{2028}' || c == '\u{2029}' || c == '\u{202f}'
        || c == '\u{205f}' || c == '\u{3000}'
}

/// A listed address can be used to connect: not empty, and without control
/// characters, white space, `/`, `\` or `@`.
pub open spec fn address_ok(a: Seq<char>) -> bool {
    a.len() != 0 && forall|i: int| 0 <= i < a.len() ==> {
        let c = #[trigger] a[i];
        !crate::folders::is_control(c) && !is_whitespace(c) && c != '/' && c != '\\' && c != '@'
    }
}

pub fn validate_tracker_address(address: &str) -> (r: Result<(), String>)
    ensures
        r is Ok <==> address_ok(address@),
        r matches Err(e) ==> e@ == "Invalid tracker server address"@,
{
    let chars = chars_of(address);
    if chars.len() == 0 {
        return Err(owned("Invalid tracker server address"));
    }
    let mut i: usize = 0;
    while i < chars.len()
        invariant
            chars@ == address@,
            i <= chars@.len(),
            forall|j: int| 0 <= j < i ==> {
                let c = #[trigger] chars@[j];
                !crate::folders::is_control(c) && !is_whitespace(c) && c != '/' && c != '\\' && c != '@'
            },
        decreases chars@.len() - i,
    {
        let c = chars[i];
        let control = c <= '\u{1f}' || ('\u{7f}' <= c && c <= '\u{9f}');
        let space = ('\u{9}' <= c && c <= '\u{d}') || c == ' ' || c == '\u{85}' || c == '\u{a0}' || c == '\u{1680}'
            || ('\u{2000}' <= c && c <= '\u{200a}') || c == '\u{2028}' || c == '\u{2029}' || c == '\u{202f}'
            || c == '\u{205f}' || c == '\u{3000}';
        if control || space || c == '/' || c == '\\' || c == '@' {
            assert(!address_ok(address@)) by {
                assert(address@[i as int] == c);
            }
            return Err(owned("Invalid tracker server address"));
        }
        i = i + 1;
    }
    Ok(())
}

/// A version 3 record's text field (16-bit length prefix), decoded as lossy
/// UTF-8.
pub fn string16_text(bytes: &[u8]) -> (r: String)
    ensures
        r@ == utf8_lossy_text(bytes@),
{
    decode_utf8_lossy(bytes)
}

/// A tracker is only ever re-contacted with an older version when it offers
/// version 2 in answer to a version 3 request; every other answer is
/// followed on the same connection or refused.
pub proof fn lemma_reconnect_only_from_v3(version: u16, response: Seq<u8>)
    ensures
        handshake(version, response) == Ok::<HandshakeStep, Seq<char>>(HandshakeStep::Reconnect)
            ==> version == 3 && be_u16(response[4], response[5]) == 2,
{
}

} // verus!
