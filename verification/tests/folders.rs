use hotline_protocol::folders::{
    check_folder_count, check_scan_count, check_scan_depth, check_scan_entry, ScanKind, MAX_FOLDER_FILE, decode_bytes, decode_path, encode_folder_entry_header, encode_text,
    folder_filp_header, folder_upload_sizes, folder_upload_total, parse_folder_entry,
    parse_upload_action, validate_component, FolderItem, TextEncoding, UploadAction,
};
use hotline_protocol::transfer_io::{ForkReader, classify_transfer_start, filp_fork_count, TransferStart};

/// A folder path as the server frames it: a component count, then each
/// component with two reserved bytes and a one-byte length.
fn path_bytes(parts: &[&str]) -> Vec<u8> {
    let mut data = (parts.len() as u16).to_be_bytes().to_vec();
    for part in parts {
        data.extend_from_slice(&[0, 0, part.len() as u8]);
        data.extend_from_slice(part.as_bytes());
    }
    data
}

#[test]
fn folder_paths_reject_escape_components() {
    for name in ["", ".", "..", "../other", "a/b", "a\\b", "C:", "a\0b"] {
        assert!(validate_component(name).is_err());
    }
    assert!(validate_component("日本語").is_ok());
    let path = path_bytes(&["café", "日本語"]);
    assert_eq!(decode_path(&path, TextEncoding::Utf8).unwrap(), ["café", "日本語"]);
    assert!(decode_path(&path[..path.len() - 1], TextEncoding::Utf8).is_err());
}

#[test]
fn folder_path_framing_errors() {
    assert_eq!(decode_path(&[0], TextEncoding::Utf8).unwrap_err(), "Truncated folder path");
    assert_eq!(decode_path(&[0, 0], TextEncoding::Utf8).unwrap_err(), "Invalid folder path depth");
    assert_eq!(decode_path(&129u16.to_be_bytes(), TextEncoding::Utf8).unwrap_err(), "Invalid folder path depth");
    let mut extra = path_bytes(&["a"]);
    extra.push(0);
    assert_eq!(decode_path(&extra, TextEncoding::Utf8).unwrap_err(), "Unexpected folder path bytes");
    assert_eq!(decode_path(&path_bytes(&[".."]), TextEncoding::Utf8).unwrap_err(), "Folder transfer contains an unsafe path");
    let control = "a\u{85}b";
    assert!(validate_component(control).is_err());
}

#[test]
fn macroman_paths_decode_with_the_session_encoding() {
    let mut path = 1u16.to_be_bytes().to_vec();
    path.extend_from_slice(&[0, 0, 4, b'c', b'a', b'f', 0x8E]);
    assert_eq!(decode_path(&path, TextEncoding::MacRoman).unwrap(), ["café"]);
    assert_eq!(decode_bytes(&[0x8E], TextEncoding::MacRoman), "é");
    assert_eq!(decode_bytes(&[0xFF, b'a'], TextEncoding::Utf8), "\u{FFFD}a");
    assert_eq!(encode_text("café✓", TextEncoding::MacRoman), vec![b'c', b'a', b'f', 0x8E, b'?']);
    assert_eq!(encode_text("café", TextEncoding::Utf8), "café".as_bytes().to_vec());
}

#[test]
fn folder_entries_and_counts() {
    assert!(check_folder_count(100_000).is_ok());
    assert_eq!(check_folder_count(100_001).unwrap_err(), "Folder has too many entries");
    let mut header = 1u16.to_be_bytes().to_vec();
    header.extend_from_slice(&path_bytes(&["sub"]));
    let entry = parse_folder_entry(&header, TextEncoding::Utf8).unwrap();
    assert!(entry.is_dir);
    assert_eq!(entry.parts, ["sub"]);
    let mut file = 0u16.to_be_bytes().to_vec();
    file.extend_from_slice(&path_bytes(&["sub", "café.txt"]));
    let entry = parse_folder_entry(&file, TextEncoding::Utf8).unwrap();
    assert!(!entry.is_dir);
    assert_eq!(entry.parts, ["sub", "café.txt"]);
    let mut other = 7u16.to_be_bytes().to_vec();
    other.extend_from_slice(&path_bytes(&["x"]));
    assert_eq!(parse_folder_entry(&other, TextEncoding::Utf8).err().unwrap(), "Unknown folder entry type");
    assert_eq!(parse_folder_entry(&[0, 1, 0], TextEncoding::Utf8).err().unwrap(), "Invalid folder entry header");
}

#[test]
fn upload_entry_headers_and_sizes() {
    let parts = vec![b"sub".to_vec(), b"a.txt".to_vec()];
    let frame = encode_folder_entry_header(&parts, false).unwrap();
    let mut expected = 16u16.to_be_bytes().to_vec();
    expected.extend_from_slice(&[0, 0, 0, 2, 0, 3]);
    expected.extend_from_slice(b"sub");
    expected.extend_from_slice(&[0, 5]);
    expected.extend_from_slice(b"a.txt");
    assert_eq!(frame, expected);
    assert_eq!(encode_folder_entry_header(&vec![vec![0; 70_000]], true).unwrap_err(), "Folder name is too long");
    assert_eq!(encode_folder_entry_header(&vec![vec![0; 40_000], vec![0; 40_000]], true).unwrap_err(), "Folder path is too long");
    let items = vec![
        FolderItem { parts: vec![b"sub".to_vec()], is_dir: true, size: 0 },
        FolderItem { parts: vec![b"sub".to_vec(), b"a.txt".to_vec()], is_dir: false, size: 5 },
    ];
    assert_eq!(folder_upload_total(&items).unwrap(), (6 + 5) + (6 + 12 + 60 + 5));
    assert_eq!(parse_upload_action(2).unwrap(), UploadAction::Resume);
    assert_eq!(parse_upload_action(9).unwrap_err(), "Unknown folder upload action");
    assert_eq!(folder_upload_sizes(10, 4).unwrap(), (6, 62));
    assert_eq!(folder_upload_sizes(10, 11).unwrap_err(), "Server resume offset exceeds local file size");
    assert_eq!(folder_upload_sizes(u32::MAX as u64, 0).unwrap_err(), "File is too large for folder framing; upload it individually");
}

#[test]
fn uploaded_file_framing_is_read_back_whole() {
    let header = folder_filp_header(5);
    assert_eq!(header.len(), 56);
    assert_eq!(classify_transfer_start(&header[..4], None, false).unwrap(), TransferStart::Filp);
    assert_eq!(filp_fork_count(&header[4..24]).unwrap(), 2);
    let mut reader = ForkReader::new(true, false, None, Some(61));
    assert!(!reader.on_fork_header(&header[24..40]).unwrap().is_data);
    assert_eq!(reader.on_fork_header(&header[40..56]).unwrap().size, 5);
    assert_eq!(reader.finish().unwrap(), 5);
}

#[test]
fn scan_limits() {
    assert!(check_scan_depth(128, 100_000).is_ok());
    assert_eq!(check_scan_depth(129, 0).unwrap_err(), "Folder is too large or deeply nested");
    assert_eq!(check_scan_depth(0, 100_001).unwrap_err(), "Folder is too large or deeply nested");
    assert!(check_scan_count(99_999).is_ok());
    assert_eq!(check_scan_count(100_000).unwrap_err(), "Folder has too many entries");
    assert!(check_scan_entry(ScanKind::Directory, u64::MAX).is_ok());
    assert!(check_scan_entry(ScanKind::File, MAX_FOLDER_FILE).is_ok());
    assert_eq!(
        check_scan_entry(ScanKind::File, MAX_FOLDER_FILE + 1).unwrap_err(),
        "File is too large for folder framing; upload it individually"
    );
    assert_eq!(
        check_scan_entry(ScanKind::Other, 0).unwrap_err(),
        "Folder uploads cannot include links or special files"
    );
    assert_eq!(folder_upload_sizes(MAX_FOLDER_FILE, 0).unwrap(), (MAX_FOLDER_FILE, u32::MAX));
}

#[test]
fn entry_headers_need_four_bytes() {
    assert_eq!(hotline_protocol::folders::check_entry_size(3).unwrap_err(), "Invalid folder entry header");
    assert_eq!(hotline_protocol::folders::check_entry_size(4).unwrap(), 4);
}
