//! Custom GIF avatars: list framing and data URLs.
use vstd::prelude::*;
use crate::bytes::{be_u16, copy_range, read_u16_be};
use crate::media::MediaLimits;
use crate::text::{owned, push_str};
use crate::transaction::{field_data, field_u16, FieldType, Transaction, TransactionField};

verus! {

/// A user's avatar: a data URL, or `None` when the user has none.
#[derive(Debug)]
pub struct GifIcon {
    pub user_id: u16,
    pub url: Option<String>,
}

/// One framed entry of an avatar list, before its image is checked.
#[derive(Debug)]
pub struct GifIconEntry {
    pub user_id: u16,
    pub data: Vec<u8>,
}

/// The local avatar limits: 32 KiB, 256 × 256 pixels, 60 frames, 15 seconds.
pub open spec fn avatar_limits_spec() -> MediaLimits {
    MediaLimits { max_bytes: 32768, max_dimension: 256, max_pixels: 65536, chunk_size: 32768, max_frames: 60, max_duration_ms: 15000 }
}

pub fn avatar_limits() -> (r: MediaLimits)
    ensures
        r == avatar_limits_spec(),
{
    MediaLimits { max_bytes: 32768, max_dimension: 256, max_pixels: 65536, chunk_size: 32768, max_frames: 60, max_duration_ms: 15000 }
}

/// The base64 alphabet: `A`–`Z`, `a`–`z`, `0`–`9`, `+`, `/`.
pub open spec fn b64_char(v: int) -> char {
    if v < 26 {
        (65 + v) as char
    } else if v < 52 {
        (71 + v) as char
    } else if v < 62 {
        (v - 4) as char
    } else if v == 62 {
        '+'
    } else {
        '/'
    }
}

/// The standard (padded) base64 text of `bytes`: each group of three
/// bytes becomes four characters of six bits each; a final group of one or
/// two bytes is zero-filled and padded with `=`.
pub open spec fn base64_standard(b: Seq<u8>) -> Seq<char>
    decreases b.len(),
{
    let x = if b.len() > 0 { b[0] as int } else { 0 };
    let y = if b.len() > 1 { b[1] as int } else { 0 };
    let z = if b.len() > 2 { b[2] as int } else { 0 };
    if b.len() == 0 {
        Seq::empty()
    } else if b.len() == 1 {
        seq![b64_char(x / 4), b64_char((x % 4) * 16), '=', '=']
    } else if b.len() == 2 {
        seq![b64_char(x / 4), b64_char((x % 4) * 16 + y / 16), b64_char((y % 16) * 4), '=']
    } else {
        seq![b64_char(x / 4), b64_char((x % 4) * 16 + y / 16), b64_char((y % 16) * 4 + z / 64), b64_char(z % 64)]
            + base64_standard(b.subrange(3, b.len() as int))
    }
}

/// Standard base64 encoding (`base64::engine::general_purpose::STANDARD.encode`).
#[verifier::external_body]
fn base64_encode(bytes: &[u8]) -> (r: String)
    ensures
        r@ == base64_standard(bytes@),
{
    base64::Engine::encode(&base64::engine::general_purpose::STANDARD, bytes)
}

/// The `data:` URL of a GIF image.
pub fn gif_data_url(bytes: &[u8]) -> (r: String)
    ensures
        r@ == "data:image/gif;base64,"@ + base64_standard(bytes@),
{
    let mut url = owned("data:image/gif;base64,");
    let encoded = base64_encode(bytes);
    push_str(&mut url, encoded.as_str());
    url
}

/// The avatar URL of `bytes`, given the outcome of validating them as a GIF
/// within `avatar_limits()`: no bytes clear the avatar (`None`); an image
/// that failed validation is refused with the validation's message; any
/// other image becomes its data URL.
pub fn gif_url(bytes: &[u8], validation: Result<(), String>) -> (r: Result<Option<String>, String>)
    ensures
        bytes@.len() == 0 ==> r matches Ok(None),
        bytes@.len() != 0 && validation is Err ==> (r matches Err(e) && e@ == validation->Err_0@),
        bytes@.len() != 0 && validation is Ok ==> (r matches Ok(Some(u)) && u@ == "data:image/gif;base64,"@ + base64_standard(bytes@)),
{
    if bytes.len() == 0 {
        return Ok(None);
    }
    match validation {
        Err(e) => Err(e),
        Ok(()) => Ok(Some(gif_data_url(bytes))),
    }
}

/// Reads avatar-list fields from `fs[i..]`, having read `taken` of them
/// (at most 256 are read) into `done`. Each is a big-endian user id, a
/// big-endian image length, and exactly that many image bytes; other field
/// types are passed over.
pub open spec fn scan_list(fs: Seq<TransactionField>, i: int, taken: int, done: Seq<(u16, Seq<u8>)>) -> Result<Seq<(u16, Seq<u8>)>, Seq<char>>
    decreases fs.len() - i,
{
    if i < 0 || i >= fs.len() || taken >= 256 {
        Ok(done)
    } else if fs[i].field_type != FieldType::GifIconListEntry {
        scan_list(fs, i + 1, taken, done)
    } else {
        let b = fs[i].data@;
        if b.len() < 4 {
            Err("Truncated avatar entry"@)
        } else if b.len() != be_u16(b[2], b[3]) + 4 {
            Err("Invalid avatar entry length"@)
        } else {
            scan_list(fs, i + 1, taken + 1, done.push((be_u16(b[0], b[1]) as u16, b.subrange(4, b.len() as int))))
        }
    }
}

/// The framed entries of an avatar-list reply.
pub open spec fn avatar_list(reply: Transaction) -> Result<Seq<(u16, Seq<u8>)>, Seq<char>> {
    scan_list(reply.fields@, 0, 0, Seq::empty())
}

proof fn lemma_scan_list_capped(fs: Seq<TransactionField>, i: int, taken: int, done: Seq<(u16, Seq<u8>)>)
    requires
        taken == done.len(),
        taken <= 256,
    ensures
        scan_list(fs, i, taken, done) matches Ok(v) ==> v.len() <= 256,
    decreases fs.len() - i,
{
    if !(i < 0 || i >= fs.len() || taken >= 256) {
        if fs[i].field_type != FieldType::GifIconListEntry {
            lemma_scan_list_capped(fs, i + 1, taken, done);
        } else {
            let b = fs[i].data@;
            if b.len() >= 4 && b.len() == be_u16(b[2], b[3]) + 4 {
                lemma_scan_list_capped(fs, i + 1, taken + 1, done.push((be_u16(b[0], b[1]) as u16, b.subrange(4, b.len() as int))));
            }
        }
    }
}

/// An avatar list yields at most 256 entries, however many the reply holds.
pub proof fn lemma_avatar_list_is_capped(reply: Transaction)
    ensures
        avatar_list(reply) matches Ok(v) ==> v.len() <= 256,
{
    lemma_scan_list_capped(reply.fields@, 0, 0, Seq::empty());
}

pub open spec fn entry_views(v: Seq<GifIconEntry>) -> Seq<(u16, Seq<u8>)> {
    v.map_values(|e: GifIconEntry| (e.user_id, e.data@))
}

/// Reads the framed entries of an avatar-list reply.
pub fn parse_list(reply: &Transaction) -> (r: Result<Vec<GifIconEntry>, String>)
    ensures
        r matches Ok(v) ==> avatar_list(*reply) == Ok::<Seq<(u16, Seq<u8>)>, Seq<char>>(entry_views(v@)),
        r matches Err(e) ==> avatar_list(*reply) == Err::<Seq<(u16, Seq<u8>)>, Seq<char>>(e@),
{
    proof {
        reveal_strlit("Truncated avatar entry");
        reveal_strlit("Invalid avatar entry length");
    }
    let ghost fs = reply.fields@;
    let mut icons: Vec<GifIconEntry> = Vec::new();
    let mut taken: usize = 0;
    let mut i: usize = 0;
    proof { assert(entry_views(icons@) =~= Seq::<(u16, Seq<u8>)>::empty()); }
    while i < reply.fields.len() && taken < 256
        invariant
            fs == reply.fields@,
            i <= fs.len(),
            taken <= 256,
            avatar_list(*reply) == scan_list(fs, i as int, taken as int, entry_views(icons@)),
        decreases fs.len() - i,
    {
        let field = &reply.fields[i];
        if field.field_type == FieldType::GifIconListEntry {
            let bytes = &field.data;
            if bytes.len() < 4 {
                return Err(owned("Truncated avatar entry"));
            }
            let user_id = read_u16_be(bytes[0], bytes[1]);
            let length = read_u16_be(bytes[2], bytes[3]) as usize;
            if bytes.len() != length + 4 {
                return Err(owned("Invalid avatar entry length"));
            }
            let data = copy_range(bytes.as_slice(), 4, bytes.len());
            let ghost before = entry_views(icons@);
            icons.push(GifIconEntry { user_id, data });
            taken = taken + 1;
            proof { assert(entry_views(icons@) =~= before.push((user_id, data@))); }
        }
        i = i + 1;
    }
    Ok(icons)
}

/// The avatars whose images passed validation: entry `i` is kept, with the
/// URL in `urls[i]`, exactly when `urls[i]` is `Ok`.
pub fn collect_icons(entries: Vec<GifIconEntry>, urls: Vec<Result<Option<String>, String>>) -> (r: Vec<GifIcon>)
    requires
        entries@.len() == urls@.len(),
    ensures
        r@.len() <= entries@.len(),
        r@.map_values(|g: GifIcon| (g.user_id, g.url)) == kept_icons(entries@, urls@),
{
    let mut out: Vec<GifIcon> = Vec::new();
    let mut i: usize = 0;
    while i < entries.len()
        invariant
            entries@.len() == urls@.len(),
            i <= entries@.len(),
            out@.len() <= i,
            out@.map_values(|g: GifIcon| (g.user_id, g.url)) == kept_icons(entries@.subrange(0, i as int), urls@.subrange(0, i as int)),
        decreases entries@.len() - i,
    {
        let ghost before = out@.map_values(|g: GifIcon| (g.user_id, g.url));
        proof {
            assert(entries@.subrange(0, i + 1).drop_last() =~= entries@.subrange(0, i as int));
            assert(urls@.subrange(0, i + 1).drop_last() =~= urls@.subrange(0, i as int));
        }
        match &urls[i] {
            Ok(url) => {
                out.push(GifIcon { user_id: entries[i].user_id, url: url.clone() });
                proof { assert(out@.map_values(|g: GifIcon| (g.user_id, g.url)) =~= before.push((entries@[i as int].user_id, urls@[i as int]->Ok_0))); }
            },
            Err(_) => {},
        }
        i = i + 1;
    }
    proof {
        assert(entries@.subrange(0, i as int) =~= entries@);
        assert(urls@.subrange(0, i as int) =~= urls@);
    }
    out
}

/// The (user, URL) pairs of the entries whose validation succeeded, in order.
pub open spec fn kept_icons(entries: Seq<GifIconEntry>, urls: Seq<Result<Option<String>, String>>) -> Seq<(u16, Option<String>)>
    decreases entries.len(),
{
    if entries.len() == 0 || urls.len() == 0 {
        Seq::empty()
    } else {
        let rest = kept_icons(entries.drop_last(), urls.drop_last());
        match urls.last() {
            Ok(url) => rest.push((entries.last().user_id, url)),
            Err(_) => rest,
        }
    }
}

/// The image data of a single-avatar reply, which must name the requested
/// user.
pub fn gif_icon_reply_data(reply: &Transaction, user_id: u16) -> (r: Result<Vec<u8>, String>)
    ensures
        ({
            let named = match field_data(reply.fields@, FieldType::UserId) {
                Some(d) => field_u16(d) == Some(user_id),
                None => false,
            };
            &&& !named ==> (r matches Err(e) && e@ == "Avatar reply identifies a different user"@)
            &&& named && field_data(reply.fields@, FieldType::GifIconData) is None
                ==> (r matches Err(e) && e@ == "Missing avatar data"@)
            &&& named && field_data(reply.fields@, FieldType::GifIconData) is Some
                ==> (r matches Ok(d) && d@ == field_data(reply.fields@, FieldType::GifIconData).unwrap())
        }),
{
    let named = match reply.get_field(FieldType::UserId) {
        Some(f) => match f.to_u16() {
            Some(id) => id == user_id,
            None => false,
        },
        None => false,
    };
    if !named {
        return Err(owned("Avatar reply identifies a different user"));
    }
    match reply.get_field(FieldType::GifIconData) {
        Some(f) => Ok(copy_range(f.data.as_slice(), 0, f.data.len())),
        None => Err(owned("Missing avatar data")),
    }
}

} // verus!
