use hotline_protocol::avatars::{
    avatar_limits, collect_icons, gif_data_url, gif_icon_reply_data, gif_url, parse_list, GifIconEntry,
};
use hotline_protocol::transaction::{FieldType, Transaction, TransactionField, TransactionType};

fn list_entry(user: u16, image: &[u8]) -> Vec<u8> {
    let mut entry = user.to_be_bytes().to_vec();
    entry.extend_from_slice(&(image.len() as u16).to_be_bytes());
    entry.extend_from_slice(image);
    entry
}

#[test]
fn avatar_limits_are_the_local_caps() {
    let l = avatar_limits();
    assert_eq!(l.max_bytes, 32768);
    assert_eq!(l.max_dimension, 256);
    assert_eq!(l.max_pixels, 65536);
    assert_eq!(l.max_frames, 60);
    assert_eq!(l.max_duration_ms, 15000);
}

#[test]
fn data_url_is_standard_base64() {
    assert_eq!(gif_data_url(b"GIF89a"), "data:image/gif;base64,R0lGODlh");
    assert_eq!(gif_data_url(b"ab"), "data:image/gif;base64,YWI=");
}

#[test]
fn empty_image_clears_the_avatar() {
    assert_eq!(gif_url(&[], Err("ignored".to_string())).unwrap(), None);
    assert_eq!(gif_url(&[], Ok(())).unwrap(), None);
}

#[test]
fn failed_validation_is_refused_with_its_message() {
    assert_eq!(gif_url(b"GIF89a", Err("Image header is invalid".to_string())).unwrap_err(), "Image header is invalid");
    let url = gif_url(b"GIF89a", Ok(())).unwrap().unwrap();
    assert!(url.starts_with("data:image/gif;base64,"));
}

#[test]
fn list_entries_are_framed_by_length() {
    let mut reply = Transaction::new(1, TransactionType::GetGifIconList);
    reply.add_field(TransactionField::new(FieldType::Data, vec![9, 9]));
    reply.add_field(TransactionField::new(FieldType::GifIconListEntry, list_entry(42, b"GIF89a")));
    reply.add_field(TransactionField::new(FieldType::GifIconListEntry, list_entry(7, b"")));
    let entries = parse_list(&reply).unwrap();
    assert_eq!(entries.len(), 2);
    assert_eq!(entries[0].user_id, 42);
    assert_eq!(entries[0].data, b"GIF89a".to_vec());
    assert_eq!(entries[1].user_id, 7);
    assert!(entries[1].data.is_empty());
}

#[test]
fn truncated_and_mislabelled_entries_are_refused() {
    let mut reply = Transaction::new(1, TransactionType::GetGifIconList);
    reply.add_field(TransactionField::new(FieldType::GifIconListEntry, vec![0, 1, 0]));
    assert_eq!(parse_list(&reply).unwrap_err(), "Truncated avatar entry");

    let mut reply = Transaction::new(1, TransactionType::GetGifIconList);
    reply.add_field(TransactionField::new(FieldType::GifIconListEntry, vec![0, 1, 0, 5, 1, 2]));
    assert_eq!(parse_list(&reply).unwrap_err(), "Invalid avatar entry length");
}

#[test]
fn at_most_256_entries_are_read() {
    let mut reply = Transaction::new(1, TransactionType::GetGifIconList);
    for user in 0..300u16 {
        reply.add_field(TransactionField::new(FieldType::GifIconListEntry, list_entry(user, b"")));
    }
    reply.add_field(TransactionField::new(FieldType::GifIconListEntry, vec![0]));
    let entries = parse_list(&reply).unwrap();
    assert_eq!(entries.len(), 256);
    assert_eq!(entries[255].user_id, 255);
}

#[test]
fn malformed_images_do_not_hide_valid_avatars() {
    let entries = vec![
        GifIconEntry { user_id: 1, data: b"bad".to_vec() },
        GifIconEntry { user_id: 2, data: b"GIF89a".to_vec() },
        GifIconEntry { user_id: 3, data: Vec::new() },
    ];
    let urls = vec![Err("Invalid image".to_string()), Ok(Some("data:x".to_string())), Ok(None)];
    let icons = collect_icons(entries, urls);
    assert_eq!(icons.len(), 2);
    assert_eq!(icons[0].user_id, 2);
    assert_eq!(icons[0].url.as_deref(), Some("data:x"));
    assert_eq!(icons[1].user_id, 3);
    assert_eq!(icons[1].url, None);
}

#[test]
fn single_avatar_reply_must_name_the_user() {
    let mut reply = Transaction::new(1, TransactionType::GetGifIcon);
    reply.add_field(TransactionField::from_u16(FieldType::UserId, 5));
    reply.add_field(TransactionField::new(FieldType::GifIconData, b"GIF89a".to_vec()));
    assert_eq!(gif_icon_reply_data(&reply, 5).unwrap(), b"GIF89a".to_vec());
    assert_eq!(gif_icon_reply_data(&reply, 6).unwrap_err(), "Avatar reply identifies a different user");

    let mut reply = Transaction::new(1, TransactionType::GetGifIcon);
    reply.add_field(TransactionField::from_u16(FieldType::UserId, 5));
    assert_eq!(gif_icon_reply_data(&reply, 5).unwrap_err(), "Missing avatar data");

    let reply = Transaction::new(1, TransactionType::GetGifIcon);
    assert_eq!(gif_icon_reply_data(&reply, 5).unwrap_err(), "Avatar reply identifies a different user");
}

/// The validation result that the avatar limits give `bytes` before their
/// frames are checked.
fn avatar_validation(bytes: &[u8]) -> Result<(), String> {
    hotline_protocol::media::validate_image(bytes, "image/gif", avatar_limits()).map(|_| ())
}

fn checked_url(bytes: &[u8]) -> Result<Option<String>, String> {
    gif_url(bytes, if bytes.is_empty() { Ok(()) } else { avatar_validation(bytes) })
}

#[test]
fn gif_validation_and_clear() {
    assert_eq!(checked_url(&[]).unwrap(), None);
    assert!(checked_url(b"GIF89a").is_err());
    assert!(checked_url(&vec![0; 32769]).is_err());
    let mut bytes = Vec::new();
    image::codecs::gif::GifEncoder::new(&mut bytes).encode(&[255, 0, 0, 255], 1, 1, image::ExtendedColorType::Rgba8).unwrap();
    assert!(checked_url(&bytes).unwrap().unwrap().starts_with("data:image/gif;base64,"));
    let mut reply = Transaction::new(1, TransactionType::GetGifIconList);
    let mut entry = vec![0, 42];
    entry.extend_from_slice(&(bytes.len() as u16).to_be_bytes());
    entry.extend_from_slice(&bytes);
    reply.add_field(TransactionField::new(FieldType::GifIconListEntry, entry));
    let entries = parse_list(&reply).unwrap();
    let urls: Vec<Result<Option<String>, String>> = entries.iter().map(|e| checked_url(&e.data)).collect();
    let icons = collect_icons(entries, urls);
    assert_eq!(icons[0].user_id, 42);
}
