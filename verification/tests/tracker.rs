use hotline_protocol::tracker::{
    check_auth_status, check_metadata_count, handshake_step, ipv4_text, is_separator, pascal_text,
    string16_text, tracker_request, v1_server, v2_credentials, v3_credentials, validate_tracker_address,
    BatchCursor, BatchOutcome, HandshakeStep,
};

#[test]
fn requests_name_the_version_and_v3_features() {
    assert_eq!(tracker_request(1), b"HTRK\0\x01".to_vec());
    assert_eq!(tracker_request(2), b"HTRK\0\x02".to_vec());
    assert_eq!(tracker_request(3), b"HTRK\0\x03\0\x05".to_vec());
}

#[test]
fn handshake_replies_choose_the_next_step() {
    assert_eq!(handshake_step(3, b"HTRK\0\x01").unwrap(), HandshakeStep::ReadListing);
    assert_eq!(handshake_step(3, b"HTRK\0\x02").unwrap(), HandshakeStep::Reconnect);
    assert_eq!(handshake_step(2, b"HTRK\0\x02").unwrap(), HandshakeStep::V2Auth);
    assert_eq!(handshake_step(3, b"HTRK\0\x03").unwrap(), HandshakeStep::V3Features);
    assert_eq!(handshake_step(3, b"HTXF\0\x01").unwrap_err(), "Invalid tracker handshake");
    assert_eq!(handshake_step(1, b"HTRK\0\x07").unwrap_err(), "Unsupported tracker protocol version");
}

#[test]
fn v2_credentials_are_pascal_strings() {
    assert_eq!(v2_credentials(1, "bob", "bad").unwrap(), Some(b"\x03bob\x03bad".to_vec()));
    assert_eq!(v2_credentials(0, "bob", "bad").unwrap(), None);
    assert_eq!(v2_credentials(2, "bob", "bad").unwrap_err(), "Invalid tracker authentication flag");
    assert_eq!(v2_credentials(1, "bob", "").unwrap_err(), "Tracker requires credentials; edit its bookmark");
    let long = "x".repeat(32);
    assert_eq!(v2_credentials(1, &long, "pw").unwrap_err(), "Tracker credentials exceed 31 bytes");
    assert_eq!(v2_credentials(1, "bob", &long).unwrap_err(), "Tracker credentials exceed 31 bytes");
}

#[test]
fn v2_authentication_denial_is_an_error() {
    assert_eq!(check_auth_status(1).unwrap_err(), "Tracker authentication denied");
    assert!(check_auth_status(0).is_ok());
}

#[test]
fn v3_credentials_are_a_field_list() {
    assert_eq!(v3_credentials(0, "a", "b").unwrap(), None);
    assert_eq!(v3_credentials(1, "a", "b").unwrap(), None);
    assert_eq!(
        v3_credentials(4, "a", "b").unwrap(),
        Some(vec![0, 1, 0, 2, 0x08, 0x20, 0, 1, b'a', 0x08, 0x21, 0, 1, b'b'])
    );
    assert_eq!(v3_credentials(5, "a", "").unwrap_err(), "Tracker requires credentials; edit its bookmark");
    let long = "y".repeat(65536);
    assert_eq!(v3_credentials(4, &long, "b").unwrap_err(), "Tracker credentials are too long");
}

#[test]
fn metadata_field_count_is_capped() {
    assert!(check_metadata_count(1024).is_ok());
    assert_eq!(check_metadata_count(1025).unwrap_err(), "Too many tracker metadata fields");
}

#[test]
fn batches_end_once_announced_entries_are_read() {
    let mut cursor = BatchCursor::new();
    let n = cursor.on_header(&[0, 1, 0, 0, 0, 3, 0, 2]);
    assert_eq!(n, 2);
    assert_eq!(cursor.expected, 3);
    cursor.on_entry();
    cursor.on_entry();
    assert_eq!(cursor.after_batch().unwrap(), BatchOutcome::NextBatch);
    let n = cursor.on_header(&[0, 1, 0, 0, 0, 9, 0, 1]);
    assert_eq!(n, 1);
    assert_eq!(cursor.expected, 3);
    cursor.on_entry();
    assert_eq!(cursor.after_batch().unwrap(), BatchOutcome::Done);
    assert_eq!(cursor.batches, 2);
    assert_eq!(cursor.parsed, 3);
}

#[test]
fn batch_limit_is_enforced() {
    let mut cursor = BatchCursor::new();
    for _ in 0..100 {
        cursor.on_header(&[0, 1, 0, 0, 0, 5, 0, 0]);
    }
    assert_eq!(cursor.after_batch().unwrap_err(), "Tracker listing exceeded the batch limit");
}

#[test]
fn listing_texts() {
    assert_eq!(ipv4_text(&[127, 0, 0, 1]), "127.0.0.1");
    assert_eq!(ipv4_text(&[255, 10, 200, 9]), "255.10.200.9");
    assert_eq!(pascal_text(b"caf\x8e"), "café");
    assert_eq!(pascal_text(b""), "");
    assert_eq!(string16_text("日本語".as_bytes()), "日本語");
    assert_eq!(string16_text(b"a\xffb"), "a\u{fffd}b");
}

#[test]
fn separator_rows() {
    assert!(is_separator("----"));
    assert!(is_separator("-------"));
    assert!(!is_separator("---"));
    assert!(!is_separator("--x-"));
    assert!(!is_separator(""));
}

#[test]
fn v1_entries() {
    let fixed = [10, 0, 0, 7, 0x15, 0x7c, 0, 42, 0, 0];
    let s = v1_server(&fixed, "Server".to_string(), String::new()).unwrap();
    assert_eq!(s.address, "10.0.0.7");
    assert_eq!(s.port, 5500);
    assert_eq!(s.users, 42);
    assert_eq!(s.name.as_deref(), Some("Server"));
    assert_eq!(s.description, None);
    assert!(v1_server(&fixed, "-----".to_string(), "x".to_string()).is_none());
}

#[test]
fn tracker_addresses() {
    assert!(validate_tracker_address("hotline.example.com").is_ok());
    assert!(validate_tracker_address("::1").is_ok());
    assert!(validate_tracker_address("日本語.jp").is_ok());
    for bad in ["", "a b", "a/b", "a\\b", "user@host", "a\u{7}b", "a\u{3000}b"] {
        assert_eq!(validate_tracker_address(bad).unwrap_err(), "Invalid tracker server address");
    }
}

