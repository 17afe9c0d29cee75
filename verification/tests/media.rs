use hotline_protocol::media::{check_decoded_dimensions, decode_failure_message, validate_image, DecodeError, ImageCheck};
use hotline_protocol::media::{
    check_decoded_pixels, validate_image_header, ImageKind,
    extract_chat_media, handle_from_hex, probe_dimensions, validate_magic_bytes,
    validate_media_invariant, MediaLimits,
};
use hotline_protocol::media_cache::{MediaCache, MediaEntry};
use hotline_protocol::transaction::{FieldType, Transaction, TransactionField, TransactionType};

const SECOND: u64 = 1_000_000_000;

fn dummy_entry(size: usize, last_accessed: u64) -> MediaEntry {
    MediaEntry {
        bytes: vec![0u8; size],
        mime: "image/jpeg".to_string(),
        width: 100,
        height: 100,
        byte_size: size as u32,
        last_accessed,
    }
}

#[test]
fn cache_inserts_and_retrieves() {
    let mut cache = MediaCache::new(1024, 16);
    let handle: Vec<u8> = vec![1, 2, 3];
    let now = cache.now();
    cache.insert(handle.clone(), dummy_entry(100, now));
    assert_eq!(cache.len(), 1);
    assert_eq!(cache.total_bytes(), 100);
    assert!(cache.get(&handle).is_some());
}

#[test]
fn cache_evicts_oldest_on_cap() {
    let mut cache = MediaCache::new(150, 16);
    // The cache's clock starts at zero; count the entries' ages back from a
    // minute after it started.
    let now = cache.now() + 60 * SECOND;
    cache.insert(vec![1], dummy_entry(80, now - 10 * SECOND));
    cache.insert(vec![2], dummy_entry(80, now - 5 * SECOND));
    // 160 > 150: the first (oldest) entry is evicted.
    assert_eq!(cache.len(), 1);
    assert!(cache.get(&vec![1]).is_none());
    assert!(cache.get(&vec![2]).is_some());
}

#[test]
fn cache_get_updates_last_accessed() {
    let mut cache = MediaCache::new(10_000, 16);
    let handle: Vec<u8> = vec![1];
    // The cache clock starts at zero when the cache is made, so no reading
    // lies a minute back; an earlier reading of the same clock stands in.
    let original_time = cache.now();
    cache.insert(handle.clone(), dummy_entry(100, original_time));
    let _ = cache.get(&handle);
    let updated = cache.get(&handle).unwrap().last_accessed;
    assert!(updated > original_time);
    assert_eq!(cache.len(), 1);
    assert_eq!(cache.total_bytes(), 100);
}

#[test]
fn cache_clear_resets_state() {
    let mut cache = MediaCache::new(10_000, 16);
    let first = cache.now();
    cache.insert(vec![1], dummy_entry(100, first));
    let second = cache.now();
    cache.insert(vec![2], dummy_entry(200, second));
    cache.clear();
    assert_eq!(cache.len(), 0);
    assert_eq!(cache.total_bytes(), 0);
}

#[test]
fn cache_evicts_oldest_on_entry_cap() {
    let mut cache = MediaCache::new(10_000, 2);
    let now = cache.now() + 60 * SECOND;
    cache.insert(vec![1], dummy_entry(10, now - 10 * SECOND));
    cache.insert(vec![2], dummy_entry(10, now - 5 * SECOND));
    cache.insert(vec![3], dummy_entry(10, now));
    assert_eq!(cache.len(), 2);
    assert!(cache.get(&vec![1]).is_none());
    assert!(cache.get(&vec![2]).is_some());
    assert!(cache.get(&vec![3]).is_some());
}

#[test]
fn cache_replacing_a_handle_recounts_its_bytes() {
    let mut cache = MediaCache::new(10_000, 16);
    cache.insert(vec![7], dummy_entry(300, 1));
    cache.insert(vec![7], dummy_entry(50, 2));
    assert_eq!(cache.len(), 1);
    assert_eq!(cache.total_bytes(), 50);
}

#[test]
fn cache_get_at_stamps_the_given_time() {
    let mut cache = MediaCache::new(10_000, 16);
    cache.insert(vec![9], dummy_entry(10, 5));
    assert_eq!(cache.get_at(&[9], 77).unwrap().last_accessed, 77);
    assert!(cache.get_at(&[8], 77).is_none());
}

#[test]
fn cache_entry_larger_than_cap_is_not_kept() {
    let mut cache = MediaCache::new(100, 16);
    cache.insert(vec![1], dummy_entry(101, 1));
    assert_eq!(cache.len(), 0);
    assert_eq!(cache.total_bytes(), 0);
}

#[test]
fn validate_magic_jpeg() {
    let bytes = [0xFF, 0xD8, 0xFF, 0xE0, 0x00, 0x10, 0x4A, 0x46, 0x49, 0x46, 0x00, 0x01, 0x00, 0x00, 0x00, 0x00];
    assert!(validate_magic_bytes(&bytes, "image/jpeg").is_ok());
}

#[test]
fn validate_magic_png() {
    let bytes = [
        0x89, 0x50, 0x4E, 0x47, 0x0D, 0x0A, 0x1A, 0x0A,
        0x00, 0x00, 0x00, 0x0D, 0x49, 0x48, 0x44, 0x52,
        0x00, 0x00, 0x00, 0x01, 0x00, 0x00, 0x00, 0x01,
    ];
    assert!(validate_magic_bytes(&bytes, "image/png").is_ok());
}

#[test]
fn validate_magic_gif87() {
    assert!(validate_magic_bytes(b"GIF87a\x01\x00\x01\x00", "image/gif").is_ok());
}

#[test]
fn validate_magic_gif89() {
    assert!(validate_magic_bytes(b"GIF89a\x01\x00\x01\x00", "image/gif").is_ok());
}

#[test]
fn validate_magic_rejects_tiny_jpeg() {
    assert!(validate_magic_bytes(&[0xFF, 0xD8, 0xFF], "image/jpeg").is_err());
}

#[test]
fn validate_magic_mismatch() {
    // PNG bytes declared as JPEG
    let png_bytes = [0x89, 0x50, 0x4E, 0x47, 0x0D, 0x0A, 0x1A, 0x0A];
    assert!(validate_magic_bytes(&png_bytes, "image/jpeg").is_err());
}

#[test]
fn validate_magic_unsupported_mime() {
    assert!(validate_magic_bytes(b"webp.....", "image/webp").is_err());
}

#[test]
fn validate_magic_is_case_insensitive_and_names_the_type() {
    let bytes = [0xFF, 0xD8, 0xFF, 0xE0, 0x00, 0x10, 0x4A, 0x46, 0x49, 0x46, 0x00, 0x01, 0x00, 0x00, 0x00, 0x00];
    assert!(validate_magic_bytes(&bytes, "IMAGE/JPG").is_ok());
    assert_eq!(validate_magic_bytes(b"webp.....", "image/webp").unwrap_err(), "Unsupported canonical MIME: image/webp");
    assert_eq!(validate_magic_bytes(&bytes, "image/png").unwrap_err(), "Magic bytes do not match declared MIME: image/png");
}

#[test]
fn handle_hex_roundtrip() {
    let bytes: Vec<u8> = vec![0xCA, 0xFE, 0xBA, 0xBE];
    let hex = hex::encode(&bytes);
    assert_eq!(hex, "cafebabe");
    assert_eq!(handle_from_hex(&hex).unwrap(), bytes);
}

#[test]
fn handle_hex_invalid() {
    assert!(handle_from_hex("not-hex").is_err());
}

#[test]
fn handle_hex_accepts_upper_case_and_rejects_odd_length() {
    assert_eq!(handle_from_hex("CAFE").unwrap(), vec![0xCA, 0xFE]);
    assert!(handle_from_hex("abc").unwrap_err().starts_with("Invalid handle hex: "));
}

#[test]
fn probe_png_dimensions() {
    // Minimal PNG with IHDR width=200 height=100
    let mut bytes = vec![0x89, 0x50, 0x4E, 0x47, 0x0D, 0x0A, 0x1A, 0x0A];
    bytes.extend_from_slice(&[0x00, 0x00, 0x00, 0x0D]);
    bytes.extend_from_slice(b"IHDR");
    bytes.extend_from_slice(&200u32.to_be_bytes());
    bytes.extend_from_slice(&100u32.to_be_bytes());
    bytes.extend_from_slice(&[0x08, 0x06, 0x00, 0x00, 0x00]);
    let probed = probe_dimensions(&bytes, "image/png").unwrap();
    assert_eq!(probed, (200, 100));
}

#[test]
fn probe_gif_dimensions() {
    // GIF89a + LE width=320 height=240
    let mut bytes = b"GIF89a".to_vec();
    bytes.extend_from_slice(&320u16.to_le_bytes());
    bytes.extend_from_slice(&240u16.to_le_bytes());
    let probed = probe_dimensions(&bytes, "image/gif").unwrap();
    assert_eq!(probed, (320, 240));
}

#[test]
fn probe_jpeg_and_short_headers_give_nothing() {
    assert_eq!(probe_dimensions(&[0xFF, 0xD8, 0xFF, 0, 0, 0, 0, 0, 0, 0, 0, 0], "image/jpeg"), None);
    assert_eq!(probe_dimensions(b"GIF89a\x01", "image/gif"), None);
}

fn build_chat_with_media(handle: &[u8], mime: &str) -> Transaction {
    let mut tx = Transaction::new(1, TransactionType::ChatMessage);
    tx.add_field(TransactionField::from_string(FieldType::Data, "hi"));
    tx.add_field(TransactionField::new(FieldType::ChatMediaId, handle.to_vec()));
    tx.add_field(TransactionField::from_string(FieldType::ChatMediaType, mime));
    tx
}

#[test]
fn invariant_both_present() {
    let tx = build_chat_with_media(&[1, 2, 3], "image/jpeg");
    assert!(validate_media_invariant(&tx));
}

#[test]
fn invariant_neither_present() {
    let mut tx = Transaction::new(1, TransactionType::ChatMessage);
    tx.add_field(TransactionField::from_string(FieldType::Data, "hi"));
    assert!(validate_media_invariant(&tx));
}

#[test]
fn invariant_only_id() {
    let mut tx = Transaction::new(1, TransactionType::ChatMessage);
    tx.add_field(TransactionField::from_string(FieldType::Data, "hi"));
    tx.add_field(TransactionField::new(FieldType::ChatMediaId, vec![1, 2, 3]));
    assert!(!validate_media_invariant(&tx));
}

#[test]
fn invariant_only_type() {
    let mut tx = Transaction::new(1, TransactionType::ChatMessage);
    tx.add_field(TransactionField::from_string(FieldType::Data, "hi"));
    tx.add_field(TransactionField::from_string(FieldType::ChatMediaType, "image/jpeg"));
    assert!(!validate_media_invariant(&tx));
}

#[test]
fn extract_metadata() {
    let mut tx = build_chat_with_media(&[0xCA, 0xFE], "image/png");
    tx.add_field(TransactionField::from_u32(FieldType::ChatMediaWidth, 1920));
    tx.add_field(TransactionField::from_u32(FieldType::ChatMediaHeight, 1080));
    tx.add_field(TransactionField::from_u32(FieldType::ChatMediaBytes, 12345));
    let meta = extract_chat_media(&tx).unwrap();
    assert_eq!(meta.handle, "cafe");
    assert_eq!(meta.mime, "image/png");
    assert_eq!(meta.width, 1920);
    assert_eq!(meta.height, 1080);
    assert_eq!(meta.byte_size, 12345);
}

#[test]
fn extract_metadata_missing_fields_yields_zeros() {
    let tx = build_chat_with_media(&[0xCA, 0xFE], "image/png");
    let meta = extract_chat_media(&tx).unwrap();
    assert_eq!(meta.width, 0);
    assert_eq!(meta.height, 0);
    assert_eq!(meta.byte_size, 0);
}

#[test]
fn extract_metadata_needs_both_companion_fields() {
    let mut tx = Transaction::new(1, TransactionType::ChatMessage);
    tx.add_field(TransactionField::new(FieldType::ChatMediaId, vec![1]));
    assert!(extract_chat_media(&tx).is_none());
}

#[test]
fn missing_limits_default_and_advertised_limits_are_bounded() {
    let mut reply = Transaction::new(1, TransactionType::Login);
    assert_eq!(MediaLimits::from_reply(&reply).max_bytes, 256 * 1024);
    reply.add_field(TransactionField::from_u32(FieldType::ChatMediaMaxBytes, 1024));
    reply.add_field(TransactionField::from_u32(FieldType::ChatMediaChunkSize, 100));
    reply.add_field(TransactionField::from_u32(FieldType::ChatMediaMaxDimension, u32::MAX));
    let limits = MediaLimits::from_reply(&reply);
    assert_eq!(limits.max_bytes, 1024);
    assert_eq!(limits.chunk_size, 100);
    assert_eq!(limits.max_dimension, 4096);
}

#[test]
fn zero_chunk_size_becomes_one_and_caps_apply() {
    let mut reply = Transaction::new(1, TransactionType::Login);
    reply.add_field(TransactionField::from_u32(FieldType::ChatMediaChunkSize, 0));
    reply.add_field(TransactionField::from_u32(FieldType::ChatMediaMaxFrames, 1000));
    reply.add_field(TransactionField::from_u16(FieldType::ChatMediaMaxDurationMs, 500));
    let limits = MediaLimits::from_reply(&reply);
    assert_eq!(limits.chunk_size, 1);
    assert_eq!(limits.max_frames, 150);
    assert_eq!(limits.max_duration_ms, 500);
    assert_eq!(limits.max_pixels, 2048 * 2048);
}

fn png_header(width: u32, height: u32) -> Vec<u8> {
    let mut bytes = vec![0x89, 0x50, 0x4E, 0x47, 0x0D, 0x0A, 0x1A, 0x0A, 0, 0, 0, 13];
    bytes.extend_from_slice(b"IHDR");
    bytes.extend_from_slice(&width.to_be_bytes());
    bytes.extend_from_slice(&height.to_be_bytes());
    bytes.extend_from_slice(&[8, 6, 0, 0, 0]);
    bytes
}

#[test]
fn image_header_checks_come_before_decoding() {
    let limits = MediaLimits::default();
    assert_eq!(validate_image_header(&png_header(200, 100), "image/png", limits).unwrap(), ImageKind::Png);
    assert_eq!(validate_image_header(b"GIF89a\x01\0\x01\0", "image/gif", limits).unwrap(), ImageKind::Gif);
    assert_eq!(validate_image_header(&[0xff, 0xd8, 0xff], "image/jpg", limits).unwrap(), ImageKind::Jpeg);
    assert_eq!(
        validate_image_header(&vec![0; 262145], "image/png", limits).unwrap_err(),
        "Image exceeds the server's 256 KB limit"
    );
    assert_eq!(validate_image_header(b"RIFF", "image/webp", limits).unwrap_err(), "Choose a PNG, JPEG, or GIF image");
    assert_eq!(validate_image_header(b"x", "IMAGE/PNG", limits).unwrap_err(), "Choose a PNG, JPEG, or GIF image");
    assert_eq!(
        validate_image_header(&png_header(2049, 1), "image/png", limits).unwrap_err(),
        "Image exceeds dimension or pixel limits; resize it before attaching"
    );
    assert_eq!(
        validate_image_header(&png_header(20, 10), "image/png", MediaLimits { max_pixels: 100, ..limits }).unwrap_err(),
        "Image exceeds dimension or pixel limits; resize it before attaching"
    );
    assert!(validate_image_header(&png_header(2048, 2048), "image/png", limits).is_ok());
}

#[test]
fn decoded_pixels_are_checked_again() {
    let limits = MediaLimits::default();
    assert!(check_decoded_pixels(2048, 2048, limits).is_ok());
    assert_eq!(
        check_decoded_pixels(2049, 2048, limits).unwrap_err(),
        "Image exceeds the server's pixel limit; resize it before attaching"
    );
}

#[test]
fn validates_real_image_dimensions_not_server_hints() {
    let mut data = std::io::Cursor::new(Vec::new());
    image::DynamicImage::new_rgba8(4, 3).write_to(&mut data, image::ImageFormat::Png).unwrap();
    let data = data.into_inner();
    assert_eq!(validate_image(&data, "image/png", MediaLimits::default()).unwrap(), ImageCheck::Valid(4, 3));
    let mut limits = MediaLimits::default();
    limits.max_pixels = 11;
    assert!(validate_image(&data, "image/png", limits).is_err());
    limits.max_pixels = 12;
    limits.max_dimension = 3;
    assert!(validate_image(&data, "image/png", limits).is_err());
    limits = MediaLimits::default();
    limits.max_bytes = 1;
    assert!(validate_image(&data, "image/png", limits).is_err());
}

#[test]
fn decode_failures_name_the_decoder() {
    let limits = MediaLimits::default();
    let err = validate_image(b"GIF89a\x01\0\x01\0", "image/gif", limits).unwrap_err();
    assert!(err.starts_with("Invalid image: "), "{err}");
    let err = validate_image(&[0xff, 0xd8, 0xff, 0, 0, 0], "image/jpeg", limits).unwrap_err();
    assert!(err.starts_with("Invalid image: "), "{err}");
    let mut gif = Vec::new();
    image::codecs::gif::GifEncoder::new(&mut gif).encode(&[255, 0, 0, 255], 1, 1, image::ExtendedColorType::Rgba8).unwrap();
    assert_eq!(validate_image(&gif, "image/gif", limits).unwrap(), ImageCheck::CheckFrames(ImageKind::Gif, 1, 1));
    let mut jpeg = std::io::Cursor::new(Vec::new());
    image::DynamicImage::new_rgb8(5, 2).write_to(&mut jpeg, image::ImageFormat::Jpeg).unwrap();
    assert_eq!(validate_image(&jpeg.into_inner(), "image/jpeg", limits).unwrap(), ImageCheck::Valid(5, 2));
}

#[test]
fn cache_clock_is_monotonic() {
    let mut cache = MediaCache::new(1, 1);
    let a = cache.now();
    let b = cache.now();
    assert!(b > a);
}

#[test]
fn decoder_results_are_judged() {
    let limits = MediaLimits { max_pixels: 100, ..MediaLimits::default() };
    assert_eq!(check_decoded_dimensions(Ok((10, 10)), limits).unwrap(), (10, 10));
    assert_eq!(
        check_decoded_dimensions(Ok((10, 11)), limits).unwrap_err(),
        "Image exceeds the server's pixel limit; resize it before attaching"
    );
    assert_eq!(check_decoded_dimensions(Err("bad header".to_string()), limits).unwrap_err(), "Invalid image: bad header");
    assert_eq!(
        decode_failure_message("Invalid PNG: ", DecodeError { at_start: true, message: "no signature".to_string() }),
        "Invalid PNG: no signature"
    );
    assert_eq!(
        decode_failure_message("Invalid PNG: ", DecodeError { at_start: false, message: "limit".to_string() }),
        "limit"
    );
}
