//! Inline chat media: advertised limits, the companion-field invariant,
//! metadata extraction and magic-byte checks.
use vstd::prelude::*;
use vstd::string::StringSliceAdditionalSpecFns;
use vstd::utf8::{encode_utf8, is_ascii_chars, is_ascii_chars_encode_utf8};
use crate::bytes::{be_u32, read_u32_be};
use crate::text::{ascii_lowercase, lowercase_equals, owned, push_char, push_decimal, push_str, str_equals, decimal};
use crate::transaction::{
    field_data, field_int, field_text, find_field, FieldType, Transaction,
};

verus! {

/// Largest payload sent in a single upload transaction.
pub const SINGLE_SHOT_THRESHOLD: usize = 61440;

/// Default cache cap in bytes.
pub const DEFAULT_CACHE_CAP_BYTES: u64 = 67108864;

/// Default cap on the number of cached handles.
pub const DEFAULT_CACHE_CAP_ENTRIES: usize = 4096;

/// Per-handle cap on downloaded bytes.
pub const MAX_DOWNLOAD_BYTES: u64 = 4194304;

/// Server-advertised media limits, bounded by local ceilings.
#[derive(Clone, Copy, Debug, PartialEq, Eq, Structural)]
pub struct MediaLimits {
    pub max_bytes: u32,
    pub max_dimension: u32,
    pub max_pixels: u32,
    pub chunk_size: u32,
    pub max_frames: u32,
    pub max_duration_ms: u32,
}

pub open spec fn default_limits() -> MediaLimits {
    MediaLimits {
        max_bytes: 262144,
        max_dimension: 2048,
        max_pixels: 4194304,
        chunk_size: 61440,
        max_frames: 150,
        max_duration_ms: 15000,
    }
}

impl Default for MediaLimits {
    fn default() -> (r: Self)
        ensures
            r == default_limits(),
    {
        MediaLimits {
            max_bytes: 262144,
            max_dimension: 2048,
            max_pixels: 4194304,
            chunk_size: 61440,
            max_frames: 150,
            max_duration_ms: 15000,
        }
    }
}

pub open spec fn min_u32(a: u32, b: u32) -> u32 {
    if a <= b { a } else { b }
}

/// The advertised value of one limit: the integer in field `ft` (or
/// `fallback` when it is absent or malformed), capped at `cap`.
pub open spec fn advertised(reply: Transaction, ft: FieldType, fallback: u32, cap: u32) -> u32 {
    min_u32(
        match field_int(reply.fields@, ft) {
            Some(v) => v,
            None => fallback,
        },
        cap,
    )
}

pub open spec fn limits_from_reply(reply: Transaction) -> MediaLimits {
    let d = default_limits();
    MediaLimits {
        max_bytes: advertised(reply, FieldType::ChatMediaMaxBytes, d.max_bytes, 4194304),
        max_dimension: advertised(reply, FieldType::ChatMediaMaxDimension, d.max_dimension, 4096),
        max_pixels: advertised(reply, FieldType::ChatMediaMaxPixels, d.max_pixels, 16777216),
        chunk_size: {
            let c = advertised(reply, FieldType::ChatMediaChunkSize, d.chunk_size, 61440);
            if c == 0 { 1 } else { c }
        },
        max_frames: advertised(reply, FieldType::ChatMediaMaxFrames, d.max_frames, 150),
        max_duration_ms: advertised(reply, FieldType::ChatMediaMaxDurationMs, d.max_duration_ms, 15000),
    }
}

fn advertised_value(reply: &Transaction, ft: FieldType, fallback: u32, cap: u32) -> (r: u32)
    ensures
        r == advertised(*reply, ft, fallback, cap),
{
    let v = match reply.get_u32(ft) {
        Some(v) => v,
        None => fallback,
    };
    if v <= cap { v } else { cap }
}

impl MediaLimits {
    /// Limits from a login reply: each advertised value, or the protocol
    /// default when absent, bounded by the local ceiling; a zero chunk size
    /// becomes one byte.
    pub fn from_reply(reply: &Transaction) -> (r: Self)
        ensures
            r == limits_from_reply(*reply),
    {
        let d = MediaLimits::default();
        let chunk = advertised_value(reply, FieldType::ChatMediaChunkSize, d.chunk_size, 61440);
        MediaLimits {
            max_bytes: advertised_value(reply, FieldType::ChatMediaMaxBytes, d.max_bytes, 4194304),
            max_dimension: advertised_value(reply, FieldType::ChatMediaMaxDimension, d.max_dimension, 4096),
            max_pixels: advertised_value(reply, FieldType::ChatMediaMaxPixels, d.max_pixels, 16777216),
            chunk_size: if chunk == 0 { 1 } else { chunk },
            max_frames: advertised_value(reply, FieldType::ChatMediaMaxFrames, d.max_frames, 150),
            max_duration_ms: advertised_value(reply, FieldType::ChatMediaMaxDurationMs, d.max_duration_ms, 15000),
        }
    }
}

/// Every limit taken from a reply stays within its local ceiling, and the
/// chunk size is never zero.
pub proof fn lemma_reply_limits_are_bounded(reply: Transaction)
    ensures
        limits_from_reply(reply).max_bytes <= MAX_DOWNLOAD_BYTES,
        limits_from_reply(reply).max_dimension <= 4096,
        limits_from_reply(reply).max_pixels <= 16777216,
        1 <= limits_from_reply(reply).chunk_size <= SINGLE_SHOT_THRESHOLD,
        limits_from_reply(reply).max_frames <= 150,
        limits_from_reply(reply).max_duration_ms <= 15000,
{
}

/// MEDIA_ID and MEDIA_TYPE are both present or both absent.
pub open spec fn media_invariant_holds(tx: Transaction) -> bool {
    (find_field(tx.fields@, FieldType::ChatMediaId, 0) is Some) == (find_field(tx.fields@, FieldType::ChatMediaType, 0) is Some)
}

/// Companion-field check on chat transactions: true when MEDIA_ID and
/// MEDIA_TYPE are both present or both absent.
pub fn validate_media_invariant(tx: &Transaction) -> (r: bool)
    ensures
        r == media_invariant_holds(*tx),
{
    let has_id = tx.get_field(FieldType::ChatMediaId).is_some();
    let has_type = tx.get_field(FieldType::ChatMediaType).is_some();
    has_id == has_type
}

// ───── Hex handles ─────

pub open spec fn hex_digit(d: int) -> char {
    if d < 10 { (48 + d) as char } else { (87 + d) as char }
}

/// The lower-case hex text of `bytes`, two digits per byte.
pub open spec fn hex_lower(bytes: Seq<u8>) -> Seq<char>
    decreases bytes.len(),
{
    if bytes.len() == 0 {
        Seq::empty()
    } else {
        hex_lower(bytes.drop_last()) + seq![hex_digit(bytes.last() as int / 16), hex_digit(bytes.last() as int % 16)]
    }
}

/// The value of one hex digit byte, upper or lower case.
pub open spec fn hex_value(b: u8) -> Option<int> {
    if 48 <= b <= 57 {
        Some(b - 48)
    } else if 97 <= b <= 102 {
        Some(b - 87)
    } else if 65 <= b <= 70 {
        Some(b - 55)
    } else {
        None
    }
}

/// Whether `text` is an even number of hex digits.
pub open spec fn hex_decodable(text: Seq<u8>) -> bool {
    text.len() % 2 == 0 && forall|i: int| 0 <= i < text.len() ==> #[trigger] hex_value(text[i]) is Some
}

/// The bytes that the hex digit pairs of `text` denote.
pub open spec fn hex_decoded(text: Seq<u8>) -> Seq<u8> {
    Seq::new(
        (text.len() / 2) as nat,
        |i: int| (hex_value(text[2 * i]).unwrap() * 16 + hex_value(text[2 * i + 1]).unwrap()) as u8,
    )
}

/// The lower-case hex digit for `d`.
fn hex_digit_char(d: u8) -> (c: char)
    requires
        d < 16,
    ensures
        c == hex_digit(d as int),
{
    if d < 10 { (48u8 + d) as char } else { (87u8 + d) as char }
}

/// The lower-case hex text of `bytes`, two digits per byte.
fn hex_encode(bytes: &[u8]) -> (r: String)
    ensures
        r@ == hex_lower(bytes@),
{
    let mut text = String::new();
    let mut i: usize = 0;
    while i < bytes.len()
        invariant
            i <= bytes@.len(),
            text@ == hex_lower(bytes@.subrange(0, i as int)),
        decreases bytes@.len() - i,
    {
        push_char(&mut text, hex_digit_char(bytes[i] / 16));
        push_char(&mut text, hex_digit_char(bytes[i] % 16));
        proof {
            assert(bytes@.subrange(0, i + 1).drop_last() =~= bytes@.subrange(0, i as int));
        }
        i = i + 1;
    }
    proof { assert(bytes@.subrange(0, i as int) =~= bytes@); }
    text
}

/// Hex decoding (`hex::decode`), its error turned into its display text.
#[verifier::external_body]
fn hex_decode(text: &str) -> (r: Result<Vec<u8>, String>)
    ensures
        r is Ok <==> hex_decodable(text.spec_bytes()),
        r matches Ok(v) ==> v@ == hex_decoded(text.spec_bytes()),
{
    hex::decode(text).map_err(|e| e.to_string())
}

/// Decodes a hex-encoded media handle back to bytes.
pub fn handle_from_hex(hex_str: &str) -> (r: Result<Vec<u8>, String>)
    ensures
        r is Ok <==> hex_decodable(hex_str.spec_bytes()),
        r matches Ok(v) ==> v@ == hex_decoded(hex_str.spec_bytes()),
        r matches Err(e) ==> e@.len() >= 20 && e@.subrange(0, 20) == "Invalid handle hex: "@,
{
    match hex_decode(hex_str) {
        Ok(v) => Ok(v),
        Err(detail) => {
            let mut message = owned("Invalid handle hex: ");
            proof { reveal_strlit("Invalid handle hex: "); }
            let ghost prefix = message@;
            push_str(&mut message, detail.as_str());
            assert(message@.subrange(0, 20) =~= prefix);
            Err(message)
        },
    }
}

proof fn lemma_hex_lower_shape(b: Seq<u8>)
    ensures
        hex_lower(b).len() == 2 * b.len(),
        forall|i: int| #![trigger b[i]] 0 <= i < b.len() ==> hex_lower(b)[2 * i] == hex_digit(b[i] as int / 16)
            && hex_lower(b)[2 * i + 1] == hex_digit(b[i] as int % 16),
    decreases b.len(),
{
    if b.len() > 0 {
        let d = b.drop_last();
        lemma_hex_lower_shape(d);
        assert forall|i: int| #![trigger b[i]] 0 <= i < b.len() implies hex_lower(b)[2 * i] == hex_digit(b[i] as int / 16)
            && hex_lower(b)[2 * i + 1] == hex_digit(b[i] as int % 16) by {
            if i < b.len() - 1 {
                assert(d[i] == b[i]);
            }
        }
    }
}

proof fn lemma_hex_digit_value(d: int)
    requires
        0 <= d < 16,
    ensures
        '\0' <= hex_digit(d) <= '\u{7f}',
        hex_value(hex_digit(d) as u8) == Some(d),
{
}

/// A media handle survives its hex form: the text that metadata carries
/// for a handle (`hex_lower`) decodes back to the same bytes.
pub proof fn lemma_handle_hex_roundtrip(handle: Seq<u8>)
    ensures
        hex_decodable(encode_utf8(hex_lower(handle))),
        hex_decoded(encode_utf8(hex_lower(handle))) == handle,
{
    lemma_hex_lower_shape(handle);
    let t = hex_lower(handle);
    assert forall|j: int| 0 <= j < t.len() implies hex_value(t[j] as u8) is Some && '\0' <= #[trigger] t[j] <= '\u{7f}' by {
        let i = j / 2;
        assert(0 <= i < handle.len());
        lemma_hex_digit_value(handle[i] as int / 16);
        lemma_hex_digit_value(handle[i] as int % 16);
        if j % 2 == 0 {
            assert(j == 2 * i);
        } else {
            assert(j == 2 * i + 1);
        }
    }
    assert(is_ascii_chars(t));
    is_ascii_chars_encode_utf8(t);
    let e = encode_utf8(t);
    assert forall|j: int| 0 <= j < e.len() implies #[trigger] hex_value(e[j]) is Some by {
        assert(e[j] == t[j] as u8);
    }
    assert forall|i: int| 0 <= i < handle.len() implies #[trigger] hex_decoded(e)[i] == handle[i] by {
        let h = handle[i] as int;
        lemma_hex_digit_value(h / 16);
        lemma_hex_digit_value(h % 16);
        assert(e[2 * i] == t[2 * i] as u8);
        assert(e[2 * i + 1] == t[2 * i + 1] as u8);
        assert(t[2 * i] == hex_digit(h / 16));
        assert(t[2 * i + 1] == hex_digit(h % 16));
        assert((h / 16) * 16 + h % 16 == h);
    }
    assert(hex_decoded(e) =~= handle);
}

// ───── Metadata ─────

/// Media metadata for transport across the UI boundary.
#[derive(Debug)]
pub struct MediaMetadata {
    /// Hex-encoded handle.
    pub handle: String,
    pub mime: String,
    pub width: u32,
    pub height: u32,
    pub byte_size: u32,
}

pub open spec fn int_or_zero(fields: Seq<crate::transaction::TransactionField>, ft: FieldType) -> u32 {
    match field_int(fields, ft) {
        Some(v) => v,
        None => 0,
    }
}

/// The metadata a transaction carries: its handle in hex, its UTF-8 MIME
/// type, and its width, height and byte size (zero when absent).
pub open spec fn metadata_matches(m: MediaMetadata, tx: Transaction) -> bool {
    &&& m.handle@ == hex_lower(field_data(tx.fields@, FieldType::ChatMediaId).unwrap())
    &&& m.mime@ == field_text(field_data(tx.fields@, FieldType::ChatMediaType).unwrap()).unwrap()
    &&& m.width == int_or_zero(tx.fields@, FieldType::ChatMediaWidth)
    &&& m.height == int_or_zero(tx.fields@, FieldType::ChatMediaHeight)
    &&& m.byte_size == int_or_zero(tx.fields@, FieldType::ChatMediaBytes)
}

/// Whether the MIME field of `tx` is present and valid UTF-8.
pub open spec fn has_text_mime(tx: Transaction) -> bool {
    match field_data(tx.fields@, FieldType::ChatMediaType) {
        Some(d) => field_text(d) is Some,
        None => false,
    }
}

fn int_field_or_zero(tx: &Transaction, ft: FieldType) -> (r: u32)
    ensures
        r == int_or_zero(tx.fields@, ft),
{
    match tx.get_u32(ft) {
        Some(v) => v,
        None => 0,
    }
}

fn mime_text(tx: &Transaction) -> (r: Option<String>)
    ensures
        r is Some <==> has_text_mime(*tx),
        r matches Some(s) ==> s@ == field_text(field_data(tx.fields@, FieldType::ChatMediaType).unwrap()).unwrap(),
{
    match tx.get_field(FieldType::ChatMediaType) {
        Some(f) => f.to_text(),
        None => None,
    }
}

/// Media metadata of an incoming chat transaction; present only when both
/// MEDIA_ID and a UTF-8 MEDIA_TYPE are.
pub fn extract_chat_media(tx: &Transaction) -> (r: Option<MediaMetadata>)
    ensures
        r is Some <==> (find_field(tx.fields@, FieldType::ChatMediaId, 0) is Some && has_text_mime(*tx)),
        r matches Some(m) ==> metadata_matches(m, *tx),
{
    let handle_field = match tx.get_field(FieldType::ChatMediaId) {
        Some(f) => f,
        None => return None,
    };
    let mime = match mime_text(tx) {
        Some(m) => m,
        None => return None,
    };
    Some(MediaMetadata {
        handle: hex_encode(handle_field.data.as_slice()),
        mime,
        width: int_field_or_zero(tx, FieldType::ChatMediaWidth),
        height: int_field_or_zero(tx, FieldType::ChatMediaHeight),
        byte_size: int_field_or_zero(tx, FieldType::ChatMediaBytes),
    })
}

/// The metadata of an upload reply; the handle and a UTF-8 MIME type are
/// required.
pub fn parse_upload_metadata(reply: &Transaction) -> (r: Result<MediaMetadata, String>)
    ensures
        find_field(reply.fields@, FieldType::ChatMediaId, 0) is None ==> (r matches Err(e) && e@ == "Upload reply missing media handle"@),
        find_field(reply.fields@, FieldType::ChatMediaId, 0) is Some && !has_text_mime(*reply)
            ==> (r matches Err(e) && e@ == "Upload reply missing canonical MIME"@),
        r is Ok <==> (find_field(reply.fields@, FieldType::ChatMediaId, 0) is Some && has_text_mime(*reply)),
        r matches Ok(m) ==> metadata_matches(m, *reply),
{
    let handle_field = match reply.get_field(FieldType::ChatMediaId) {
        Some(f) => f,
        None => return Err(owned("Upload reply missing media handle")),
    };
    let mime = match mime_text(reply) {
        Some(m) => m,
        None => return Err(owned("Upload reply missing canonical MIME")),
    };
    Ok(MediaMetadata {
        handle: hex_encode(handle_field.data.as_slice()),
        mime,
        width: int_field_or_zero(reply, FieldType::ChatMediaWidth),
        height: int_field_or_zero(reply, FieldType::ChatMediaHeight),
        byte_size: int_field_or_zero(reply, FieldType::ChatMediaBytes),
    })
}

// ───── Magic bytes and header dimensions ─────

pub open spec fn jpeg_magic() -> Seq<u8> { seq![0xFFu8, 0xD8, 0xFF] }
pub open spec fn png_magic() -> Seq<u8> { seq![0x89u8, 0x50, 0x4E, 0x47, 0x0D, 0x0A, 0x1A, 0x0A] }
pub open spec fn gif87a() -> Seq<u8> { seq![71u8, 73, 70, 56, 55, 97] }
pub open spec fn gif89a() -> Seq<u8> { seq![71u8, 73, 70, 56, 57, 97] }

pub open spec fn is_jpeg_mime(lower: Seq<char>) -> bool {
    lower == "image/jpeg"@ || lower == "image/jpg"@
}

/// Whether `bytes` plausibly hold an image of MIME type `lower` (already
/// lower-cased); `None` for an unsupported type.
pub open spec fn magic_matches(bytes: Seq<u8>, lower: Seq<char>) -> Option<bool> {
    if is_jpeg_mime(lower) {
        Some(bytes.len() >= 16 && crate::bytes::starts_with(bytes, jpeg_magic()))
    } else if lower == "image/png"@ {
        Some(bytes.len() >= 24 && crate::bytes::starts_with(bytes, png_magic()))
    } else if lower == "image/gif"@ {
        Some(bytes.len() >= 10 && (crate::bytes::starts_with(bytes, gif87a()) || crate::bytes::starts_with(bytes, gif89a())))
    } else {
        None
    }
}

fn prefix_is(bytes: &[u8], expected: &[u8]) -> (r: bool)
    ensures
        r == crate::bytes::starts_with(bytes@, expected@),
{
    if expected.len() > bytes.len() {
        return false;
    }
    crate::bytes::bytes_at(bytes, 0, expected)
}

fn error_with(prefix: &str, detail: &str) -> (r: String)
    ensures
        r@ == prefix@ + detail@,
{
    let mut r = owned(prefix);
    push_str(&mut r, detail);
    r
}

/// Checks that `bytes` start with the magic of the declared MIME type
/// (compared case-insensitively). JPEG needs at least 16 bytes, PNG 24 and
/// GIF 10.
pub fn validate_magic_bytes(bytes: &[u8], mime: &str) -> (r: Result<(), String>)
    ensures
        magic_matches(bytes@, ascii_lowercase(mime@)) is None
            ==> (r matches Err(e) && e@ == "Unsupported canonical MIME: "@ + mime@),
        magic_matches(bytes@, ascii_lowercase(mime@)) == Some(false)
            ==> (r matches Err(e) && e@ == "Magic bytes do not match declared MIME: "@ + mime@),
        r is Ok <==> magic_matches(bytes@, ascii_lowercase(mime@)) == Some(true),
{
    let ok = if lowercase_equals(mime, "image/jpeg") || lowercase_equals(mime, "image/jpg") {
        bytes.len() >= 16 && prefix_is(bytes, &[0xFFu8, 0xD8, 0xFF])
    } else if lowercase_equals(mime, "image/png") {
        bytes.len() >= 24 && prefix_is(bytes, &[0x89u8, 0x50, 0x4E, 0x47, 0x0D, 0x0A, 0x1A, 0x0A])
    } else if lowercase_equals(mime, "image/gif") {
        bytes.len() >= 10 && (prefix_is(bytes, &[71u8, 73, 70, 56, 55, 97]) || prefix_is(bytes, &[71u8, 73, 70, 56, 57, 97]))
    } else {
        return Err(error_with("Unsupported canonical MIME: ", mime));
    };
    if ok {
        Ok(())
    } else {
        Err(error_with("Magic bytes do not match declared MIME: ", mime))
    }
}

pub open spec fn le_u16(b0: u8, b1: u8) -> int {
    b1 as int * 256 + b0 as int
}

/// The dimensions written in an image header: PNG's IHDR width and height
/// (big-endian at offsets 16 and 20), GIF's logical screen size
/// (little-endian at offsets 6 and 8). `None` for other types and short
/// headers.
pub open spec fn header_dimensions(bytes: Seq<u8>, lower: Seq<char>) -> Option<(u32, u32)> {
    if lower == "image/png"@ {
        if bytes.len() < 24 {
            None
        } else {
            Some((be_u32(bytes[16], bytes[17], bytes[18], bytes[19]) as u32, be_u32(bytes[20], bytes[21], bytes[22], bytes[23]) as u32))
        }
    } else if lower == "image/gif"@ {
        if bytes.len() < 10 {
            None
        } else {
            Some((le_u16(bytes[6], bytes[7]) as u32, le_u16(bytes[8], bytes[9]) as u32))
        }
    } else {
        None
    }
}

/// Best-effort intrinsic dimensions from the image header.
pub fn probe_dimensions(bytes: &[u8], mime: &str) -> (r: Option<(u32, u32)>)
    ensures
        r == header_dimensions(bytes@, ascii_lowercase(mime@)),
{
    if lowercase_equals(mime, "image/png") {
        if bytes.len() < 24 {
            return None;
        }
        let width = read_u32_be(bytes[16], bytes[17], bytes[18], bytes[19]);
        let height = read_u32_be(bytes[20], bytes[21], bytes[22], bytes[23]);
        Some((width, height))
    } else if lowercase_equals(mime, "image/gif") {
        if bytes.len() < 10 {
            return None;
        }
        let width = (bytes[7] as u32) * 256 + bytes[6] as u32;
        let height = (bytes[9] as u32) * 256 + bytes[8] as u32;
        Some((width, height))
    } else {
        None
    }
}

/// The image formats that media and avatars accept.
#[derive(Clone, Copy, Debug, PartialEq, Eq, Structural)]
pub enum ImageKind {
    Png,
    Jpeg,
    Gif,
}

/// The format a MIME type selects (exact match).
pub open spec fn image_kind_of(mime: Seq<char>) -> Option<ImageKind> {
    if mime == "image/png"@ {
        Some(ImageKind::Png)
    } else if mime == "image/jpeg"@ || mime == "image/jpg"@ {
        Some(ImageKind::Jpeg)
    } else if mime == "image/gif"@ {
        Some(ImageKind::Gif)
    } else {
        None
    }
}

pub open spec fn exceeds_dimensions(width: u32, height: u32, limits: MediaLimits) -> bool {
    width > limits.max_dimension || height > limits.max_dimension || width * height > limits.max_pixels
}

/// The checks that precede decoding: the byte limit, a supported MIME type,
/// and the dimensions written in the header. (The decoder result is checked
/// again with `check_decoded_pixels`; header dimensions are not trusted.)
pub open spec fn header_check(bytes: Seq<u8>, mime: Seq<char>, limits: MediaLimits) -> Result<ImageKind, Seq<char>> {
    if bytes.len() > limits.max_bytes {
        Err("Image exceeds the server's "@ + decimal((limits.max_bytes / 1024) as nat) + " KB limit"@)
    } else {
        match image_kind_of(mime) {
            None => Err("Choose a PNG, JPEG, or GIF image"@),
            Some(kind) => match header_dimensions(bytes, ascii_lowercase(mime)) {
                Some((w, h)) => if exceeds_dimensions(w, h, limits) {
                    Err("Image exceeds dimension or pixel limits; resize it before attaching"@)
                } else {
                    Ok(kind)
                },
                None => Ok(kind),
            },
        }
    }
}

proof fn lemma_exact_mime_is_lowercase(mime: Seq<char>)
    requires
        image_kind_of(mime) is Some,
    ensures
        ascii_lowercase(mime) == mime,
{
    reveal_strlit("image/png");
    reveal_strlit("image/jpeg");
    reveal_strlit("image/jpg");
    reveal_strlit("image/gif");
    assert(ascii_lowercase(mime) =~= mime);
}

/// The checks on an image before it is decoded.
pub fn validate_image_header(bytes: &[u8], mime: &str, limits: MediaLimits) -> (r: Result<ImageKind, String>)
    ensures
        r matches Ok(k) ==> header_check(bytes@, mime@, limits) == Ok::<ImageKind, Seq<char>>(k),
        r matches Err(e) ==> header_check(bytes@, mime@, limits) == Err::<ImageKind, Seq<char>>(e@),
{
    proof {
        reveal_strlit("Choose a PNG, JPEG, or GIF image");
        reveal_strlit("Image exceeds dimension or pixel limits; resize it before attaching");
    }
    if bytes.len() > limits.max_bytes as usize {
        let mut message = owned("Image exceeds the server's ");
        push_decimal(&mut message, (limits.max_bytes / 1024) as u64);
        push_str(&mut message, " KB limit");
        return Err(message);
    }
    let kind = if str_equals(mime, "image/png") {
        ImageKind::Png
    } else if str_equals(mime, "image/jpeg") || str_equals(mime, "image/jpg") {
        ImageKind::Jpeg
    } else if str_equals(mime, "image/gif") {
        ImageKind::Gif
    } else {
        return Err(owned("Choose a PNG, JPEG, or GIF image"));
    };
    proof { lemma_exact_mime_is_lowercase(mime@); }
    if let Some((width, height)) = probe_dimensions(bytes, mime) {
        if width > limits.max_dimension || height > limits.max_dimension
            || wide_product(width, height) > limits.max_pixels as u64 {
            return Err(owned("Image exceeds dimension or pixel limits; resize it before attaching"));
        }
    }
    Ok(kind)
}

/// `a * b` without overflow.
pub fn wide_product(a: u32, b: u32) -> (r: u64)
    ensures
        r == a * b,
{
    assert(0 <= a * b <= 0xffff_ffffu64 * 0xffff_ffffu64) by (nonlinear_arith);
    (a as u64) * (b as u64)
}

/// Checks the dimensions the decoder reported against the pixel limit.
pub fn check_decoded_pixels(width: u32, height: u32, limits: MediaLimits) -> (r: Result<(), String>)
    ensures
        r is Ok <==> width * height <= limits.max_pixels,
        r matches Err(e) ==> e@ == "Image exceeds the server's pixel limit; resize it before attaching"@,
{
    if wide_product(width, height) > limits.max_pixels as u64 {
        return Err(owned("Image exceeds the server's pixel limit; resize it before attaching"));
    }
    Ok(())
}

// ───── Decoding ─────

/// The allocation limit for decoding an image: 64 MiB.
pub const DECODE_MAX_ALLOC: u64 = 67108864;

/// Where an image stands once everything but its animation frames was
/// checked.
#[derive(Clone, Copy, Debug, PartialEq, Eq, Structural)]
pub enum ImageCheck {
    /// A still image that decoded within the limits, with its decoded
    /// width and height.
    Valid(u32, u32),
    /// A GIF or an animated PNG whose frames are still to be checked
    /// against the frame and duration limits.
    CheckFrames(ImageKind, u32, u32),
}

/// A failed decode: whether the first step (building the decoder) failed,
/// and the decoder's message.
pub struct DecodeError {
    pub at_start: bool,
    pub message: String,
}

pub open spec fn decode_error_view(e: DecodeError) -> (bool, Seq<char>) {
    (e.at_start, e.message@)
}

/// What the `image` decoder reports for `bytes` read as `kind` within the
/// given dimension and allocation limits: the width and height, or the
/// decoder's message.
pub uninterp spec fn decoded_dimensions(bytes: Seq<u8>, kind: ImageKind, max_dimension: u32, max_alloc: u64) -> Result<(u32, u32), Seq<char>>;

/// Decoder dimensions (`image::ImageReader::with_format` with decode
/// limits, `into_decoder`, `ImageDecoder::dimensions`). Building the decoder
/// applies the limits, which refuses a width or height above
/// `max_dimension`, so the dimensions reported are within it.
#[verifier::external_body]
fn decode_dimensions(bytes: &[u8], kind: ImageKind, max_dimension: u32, max_alloc: u64) -> (r: Result<(u32, u32), String>)
    ensures
        r is Ok <==> decoded_dimensions(bytes@, kind, max_dimension, max_alloc) is Ok,
        r matches Ok(d) ==> (decoded_dimensions(bytes@, kind, max_dimension, max_alloc) matches Ok(x) && x == d),
        r matches Ok(d) ==> d.0 <= max_dimension && d.1 <= max_dimension,
        r matches Err(e) ==> (decoded_dimensions(bytes@, kind, max_dimension, max_alloc) matches Err(t) && t == e@),
{
    let format = match kind {
        ImageKind::Png => image::ImageFormat::Png,
        ImageKind::Jpeg => image::ImageFormat::Jpeg,
        ImageKind::Gif => image::ImageFormat::Gif,
    };
    let mut limits = image::Limits::default();
    limits.max_image_width = Some(max_dimension);
    limits.max_image_height = Some(max_dimension);
    limits.max_alloc = Some(max_alloc);
    let mut reader = image::ImageReader::with_format(std::io::Cursor::new(bytes), format);
    reader.limits(limits);
    reader.into_decoder().map(|d| image::ImageDecoder::dimensions(&d)).map_err(|e| e.to_string())
}

/// Whether `bytes` hold an animated PNG, as the `image` PNG decoder reports
/// it within the given limits, or how the decoder failed.
pub uninterp spec fn png_animation(bytes: Seq<u8>, max_dimension: u32, max_alloc: u64) -> Result<bool, (bool, Seq<char>)>;

/// PNG animation probe (`image::codecs::png::PngDecoder::new`,
/// `set_limits`, `is_apng`); a failure of `new` is marked as at the start.
#[verifier::external_body]
fn png_is_animated(bytes: &[u8], max_dimension: u32, max_alloc: u64) -> (r: Result<bool, DecodeError>)
    ensures
        r is Ok <==> png_animation(bytes@, max_dimension, max_alloc) is Ok,
        r matches Ok(b) ==> (png_animation(bytes@, max_dimension, max_alloc) matches Ok(x) && x == b),
        r matches Err(e) ==> (png_animation(bytes@, max_dimension, max_alloc) matches Err(t) && t == decode_error_view(e)),
{
    let mut decoder = image::codecs::png::PngDecoder::new(std::io::Cursor::new(bytes))
        .map_err(|e| DecodeError { at_start: true, message: e.to_string() })?;
    let mut limits = image::Limits::default();
    limits.max_image_width = Some(max_dimension);
    limits.max_image_height = Some(max_dimension);
    limits.max_alloc = Some(max_alloc);
    image::ImageDecoder::set_limits(&mut decoder, limits).map_err(|e| DecodeError { at_start: false, message: e.to_string() })?;
    decoder.is_apng().map_err(|e| DecodeError { at_start: false, message: e.to_string() })
}

/// Whether the `image` PNG decoder decodes the still image in `bytes`
/// within the given limits, or how it failed.
pub uninterp spec fn png_still_decoded(bytes: Seq<u8>, max_dimension: u32, max_alloc: u64) -> Result<(), (bool, Seq<char>)>;

/// Full PNG decode (`image::codecs::png::PngDecoder::new`, `set_limits`,
/// `DynamicImage::from_decoder`); a failure of `new` is marked as at the
/// start.
#[verifier::external_body]
fn decode_png_still(bytes: &[u8], max_dimension: u32, max_alloc: u64) -> (r: Result<(), DecodeError>)
    ensures
        r is Ok <==> png_still_decoded(bytes@, max_dimension, max_alloc) is Ok,
        r matches Err(e) ==> (png_still_decoded(bytes@, max_dimension, max_alloc) matches Err(t) && t == decode_error_view(e)),
{
    let mut decoder = image::codecs::png::PngDecoder::new(std::io::Cursor::new(bytes))
        .map_err(|e| DecodeError { at_start: true, message: e.to_string() })?;
    let mut limits = image::Limits::default();
    limits.max_image_width = Some(max_dimension);
    limits.max_image_height = Some(max_dimension);
    limits.max_alloc = Some(max_alloc);
    image::ImageDecoder::set_limits(&mut decoder, limits).map_err(|e| DecodeError { at_start: false, message: e.to_string() })?;
    image::DynamicImage::from_decoder(decoder).map(|_| ()).map_err(|e| DecodeError { at_start: false, message: e.to_string() })
}

/// Whether the `image` JPEG reader decodes `bytes` within the given
/// limits, or its message.
pub uninterp spec fn jpeg_decoded(bytes: Seq<u8>, max_dimension: u32, max_alloc: u64) -> Result<(), Seq<char>>;

/// Full JPEG decode (`image::ImageReader::with_format` with decode limits,
/// `decode`).
#[verifier::external_body]
fn decode_jpeg(bytes: &[u8], max_dimension: u32, max_alloc: u64) -> (r: Result<(), String>)
    ensures
        r is Ok <==> jpeg_decoded(bytes@, max_dimension, max_alloc) is Ok,
        r matches Err(e) ==> (jpeg_decoded(bytes@, max_dimension, max_alloc) matches Err(t) && t == e@),
{
    let mut limits = image::Limits::default();
    limits.max_image_width = Some(max_dimension);
    limits.max_image_height = Some(max_dimension);
    limits.max_alloc = Some(max_alloc);
    let mut reader = image::ImageReader::with_format(std::io::Cursor::new(bytes), image::ImageFormat::Jpeg);
    reader.limits(limits);
    reader.decode().map(|_| ()).map_err(|e| e.to_string())
}

/// The message for a failed decode step: the decoder's message, behind
/// `prefix` when building the decoder failed.
pub open spec fn failure_text(prefix: Seq<char>, f: (bool, Seq<char>)) -> Seq<char> {
    if f.0 { prefix + f.1 } else { f.1 }
}

/// The message for a failed decode step.
pub fn decode_failure_message(prefix: &str, failure: DecodeError) -> (r: String)
    ensures
        r@ == failure_text(prefix@, decode_error_view(failure)),
{
    if failure.at_start {
        let mut message = owned(prefix);
        push_str(&mut message, failure.message.as_str());
        message
    } else {
        failure.message
    }
}

/// The decoder's dimensions, judged: a decoder failure is an invalid image,
/// and the decoded size must stay within the pixel limit.
pub open spec fn dimensions_check(decoded: Result<(u32, u32), Seq<char>>, limits: MediaLimits) -> Result<(u32, u32), Seq<char>> {
    match decoded {
        Err(t) => Err("Invalid image: "@ + t),
        Ok((w, h)) => if w * h > limits.max_pixels {
            Err("Image exceeds the server's pixel limit; resize it before attaching"@)
        } else {
            Ok((w, h))
        },
    }
}

pub open spec fn result_text<T>(r: Result<T, String>) -> Result<T, Seq<char>> {
    match r {
        Ok(v) => Ok(v),
        Err(e) => Err(e@),
    }
}

/// Judges the dimensions that the decoder reported.
pub fn check_decoded_dimensions(decoded: Result<(u32, u32), String>, limits: MediaLimits) -> (r: Result<(u32, u32), String>)
    ensures
        result_text(r) == dimensions_check(result_text(decoded), limits),
{
    proof { reveal_strlit("Image exceeds the server's pixel limit; resize it before attaching"); }
    match decoded {
        Err(t) => {
            let mut message = owned("Invalid image: ");
            push_str(&mut message, t.as_str());
            Err(message)
        },
        Ok((w, h)) => match check_decoded_pixels(w, h, limits) {
            Err(e) => Err(e),
            Ok(()) => Ok((w, h)),
        },
    }
}

/// Everything the image check finds before the animation frames: the
/// header checks, the decoder's dimensions within the pixel limit, and a
/// full decode of a still image (JPEG, or PNG without animation).
pub open spec fn image_check(bytes: Seq<u8>, mime: Seq<char>, limits: MediaLimits) -> Result<ImageCheck, Seq<char>> {
    match header_check(bytes, mime, limits) {
        Err(e) => Err(e),
        Ok(kind) => match dimensions_check(decoded_dimensions(bytes, kind, limits.max_dimension, DECODE_MAX_ALLOC), limits) {
            Err(e) => Err(e),
            Ok((w, h)) => match kind {
                ImageKind::Gif => Ok(ImageCheck::CheckFrames(ImageKind::Gif, w, h)),
                ImageKind::Png => match png_animation(bytes, limits.max_dimension, DECODE_MAX_ALLOC) {
                    Err(f) => Err(failure_text("Invalid PNG: "@, f)),
                    Ok(true) => Ok(ImageCheck::CheckFrames(ImageKind::Png, w, h)),
                    Ok(false) => match png_still_decoded(bytes, limits.max_dimension, DECODE_MAX_ALLOC) {
                        Err(f) => Err(failure_text("Invalid PNG: "@, f)),
                        Ok(()) => Ok(ImageCheck::Valid(w, h)),
                    },
                },
                ImageKind::Jpeg => match jpeg_decoded(bytes, limits.max_dimension, DECODE_MAX_ALLOC) {
                    Err(t) => Err("Invalid image: "@ + t),
                    Ok(()) => Ok(ImageCheck::Valid(w, h)),
                },
            },
        },
    }
}

/// An animation never gets a final verdict before its frames are checked:
/// a GIF, and a PNG that the decoder reports as animated, are handed on as
/// `CheckFrames` of their own kind for the frame-count and duration limits;
/// only a JPEG, or a PNG that the decoder reports as a still image, can be
/// `Valid`.
pub proof fn lemma_animations_go_to_frame_checks(bytes: Seq<u8>, mime: Seq<char>, limits: MediaLimits)
    ensures
        image_check(bytes, mime, limits) matches Ok(ImageCheck::Valid(_, _)) ==> {
            ||| image_kind_of(mime) == Some(ImageKind::Jpeg)
            ||| image_kind_of(mime) == Some(ImageKind::Png) && png_animation(bytes, limits.max_dimension, DECODE_MAX_ALLOC)
                == Ok::<bool, (bool, Seq<char>)>(false)
        },
        image_check(bytes, mime, limits) matches Ok(ImageCheck::CheckFrames(k, _, _)) ==> {
            &&& image_kind_of(mime) == Some(k)
            &&& k == ImageKind::Gif || png_animation(bytes, limits.max_dimension, DECODE_MAX_ALLOC)
                == Ok::<bool, (bool, Seq<char>)>(true)
        },
        image_kind_of(mime) == Some(ImageKind::Gif) || (image_kind_of(mime) == Some(ImageKind::Png) && png_animation(
            bytes,
            limits.max_dimension,
            DECODE_MAX_ALLOC,
        ) == Ok::<bool, (bool, Seq<char>)>(true)) ==> !(image_check(bytes, mime, limits) matches Ok(ImageCheck::Valid(_, _))),
{
}

/// Checks an image within `limits` up to its animation frames: the byte
/// limit, a supported MIME type, the header's dimensions, the decoder's
/// dimensions and pixel count, and for a still image a full decode. The
/// dimensions returned are the decoder's, not the header's.
pub fn validate_image(bytes: &[u8], mime: &str, limits: MediaLimits) -> (r: Result<ImageCheck, String>)
    ensures
        result_text(r) == image_check(bytes@, mime@, limits),
        r is Ok ==> bytes@.len() <= limits.max_bytes && image_kind_of(mime@) is Some,
        r matches Ok(ImageCheck::Valid(w, h)) ==> w <= limits.max_dimension && h <= limits.max_dimension && w * h <= limits.max_pixels,
        r matches Ok(ImageCheck::CheckFrames(_, w, h)) ==> w <= limits.max_dimension && h <= limits.max_dimension && w * h <= limits.max_pixels,
{
    let kind = match validate_image_header(bytes, mime, limits) {
        Ok(k) => k,
        Err(e) => return Err(e),
    };
    let (w, h) = match check_decoded_dimensions(decode_dimensions(bytes, kind, limits.max_dimension, DECODE_MAX_ALLOC), limits) {
        Ok(d) => d,
        Err(e) => return Err(e),
    };
    match kind {
        ImageKind::Gif => Ok(ImageCheck::CheckFrames(ImageKind::Gif, w, h)),
        ImageKind::Png => match png_is_animated(bytes, limits.max_dimension, DECODE_MAX_ALLOC) {
            Err(f) => Err(decode_failure_message("Invalid PNG: ", f)),
            Ok(true) => Ok(ImageCheck::CheckFrames(ImageKind::Png, w, h)),
            Ok(false) => match decode_png_still(bytes, limits.max_dimension, DECODE_MAX_ALLOC) {
                Err(f) => Err(decode_failure_message("Invalid PNG: ", f)),
                Ok(()) => Ok(ImageCheck::Valid(w, h)),
            },
        },
        ImageKind::Jpeg => match decode_jpeg(bytes, limits.max_dimension, DECODE_MAX_ALLOC) {
            Err(t) => {
                let mut message = owned("Invalid image: ");
                push_str(&mut message, t.as_str());
                Err(message)
            },
            Ok(()) => Ok(ImageCheck::Valid(w, h)),
        },
    }
}

} // verus!
