use hotline_protocol::transfer_io::{
    classify_transfer_start, filp_fork_count, legacy_resume_offset, resume_data,
    verified_upload_resume, ForkAction, ForkReader, TransferStart,
};
use sha2::{Digest, Sha256};

#[test]
fn resume_wire_layout_clamps_legacy_offset() {
    let data = resume_data(u32::MAX as u64 + 42);
    assert_eq!(data.len(), 58);
    assert_eq!(&data[..6], b"RFLT\0\x01");
    assert_eq!(&data[40..48], b"\0\x01DATA\xff\xff");
    assert_eq!(&data[46..50], &u32::MAX.to_be_bytes());
}

#[test]
fn resume_digest_is_bound_to_offset_window_and_bytes() {
    let data = vec![42; 100_000];
    let offset = 90_000u64;
    let mut digest = 65536u64.to_be_bytes().to_vec();
    let mut hash = Sha256::new();
    hash.update(offset.to_be_bytes());
    hash.update(&data[offset as usize - 65536..offset as usize]);
    digest.extend_from_slice(&hash.finalize());
    assert!(verified_upload_resume(&data, offset, &digest).is_some());
    assert!(verified_upload_resume(&data, offset - 1, &digest).is_none());
    assert!(verified_upload_resume(&data, 100_001, &digest).is_none());
    assert!(verified_upload_resume(&data, offset, &[]).is_none());
    let mut changed = data.clone();
    changed[offset as usize - 1] = 99;
    assert!(verified_upload_resume(&changed, offset, &digest).is_none());
    assert_eq!(legacy_resume_offset(&resume_data(1234)).unwrap(), 1234);
    assert!(legacy_resume_offset(b"RFLT").is_err());
}

#[test]
fn small_offsets_use_the_whole_prefix_as_window() {
    let data = b"hello world".to_vec();
    let offset = 5u64;
    let mut digest = 5u64.to_be_bytes().to_vec();
    let mut hash = Sha256::new();
    hash.update(offset.to_be_bytes());
    hash.update(b"hello");
    digest.extend_from_slice(&hash.finalize());
    let echoed = verified_upload_resume(&data, offset, &digest).unwrap();
    assert_eq!(echoed.to_vec(), digest);
    assert!(verified_upload_resume(&data, 0, &digest).is_none());
}

#[test]
fn legacy_resume_records_are_checked() {
    let mut record = resume_data(7);
    record.pop();
    assert_eq!(legacy_resume_offset(&record).unwrap_err(), "Truncated folder resume data");
    let mut two = b"RFLT\0\x01".to_vec();
    two.extend_from_slice(&[0; 34]);
    two.extend_from_slice(&2u16.to_be_bytes());
    for _ in 0..2 {
        two.extend_from_slice(b"DATA");
        two.extend_from_slice(&[0, 0, 0, 9]);
        two.extend_from_slice(&[0; 8]);
    }
    assert_eq!(legacy_resume_offset(&two).unwrap_err(), "Duplicate DATA resume entry");
    let mut none = b"RFLT\0\x01".to_vec();
    none.extend_from_slice(&[0; 36]);
    assert_eq!(legacy_resume_offset(&none).unwrap(), 0);
    assert_eq!(legacy_resume_offset(&resume_data(u64::MAX)).unwrap(), u32::MAX as u64);
}

fn filp(data: &[u8], declared: u32) -> Vec<u8> {
    let mut result = b"FILP\0\x01".to_vec();
    result.extend_from_slice(&[0; 16]);
    result.extend_from_slice(&1u16.to_be_bytes());
    result.extend_from_slice(b"DATA");
    result.extend_from_slice(&[0; 8]);
    result.extend_from_slice(&declared.to_be_bytes());
    result.extend_from_slice(data);
    result
}

#[test]
fn filp_object_decisions() {
    let wire = filp(b"abc", 3);
    assert_eq!(classify_transfer_start(&wire[..4], Some(3), false).unwrap(), TransferStart::Filp);
    assert_eq!(filp_fork_count(&wire[4..24]).unwrap(), 1);
    let mut reader = ForkReader::new(true, false, Some(3), None);
    assert_eq!(reader.on_fork_header(&wire[24..40]).unwrap(), ForkAction { size: 3, is_data: true });
    assert_eq!(reader.finish().unwrap(), 3);
}

#[test]
fn ignored_resume_and_bad_framing_are_refused() {
    let wire = filp(b"abcdefghij", 10);
    let mut reader = ForkReader::new(true, false, Some(7), None);
    assert_eq!(reader.on_fork_header(&wire[24..40]).unwrap_err(), "Server sent an unexpected file size; it may not support resume");
    assert_eq!(classify_transfer_start(b"ab", Some(1), true).unwrap_err(), "Raw file exceeds its advertised size");
    assert_eq!(classify_transfer_start(b"ab", Some(2), false).unwrap_err(), "Missing FILP header");
    assert_eq!(classify_transfer_start(b"ab", Some(9), true).unwrap(), TransferStart::Raw { size: 9 });
    assert_eq!(classify_transfer_start(b"DATA", None, false).unwrap(), TransferStart::BareFork);
    let mut bad_version = wire[4..24].to_vec();
    bad_version[1] = 2;
    assert_eq!(filp_fork_count(&bad_version).unwrap_err(), "Unsupported FILP version");
    let empty = ForkReader::new(true, false, None, None);
    assert_eq!(empty.finish().unwrap_err(), "Transfer has no DATA fork");
}

#[test]
fn forks_respect_the_folder_wire_budget_and_compression() {
    let mut header = [0u8; 16];
    header[..4].copy_from_slice(b"INFO");
    header[12..].copy_from_slice(&10u32.to_be_bytes());
    let mut reader = ForkReader::new(true, false, None, Some(49));
    assert_eq!(reader.on_fork_header(&header).unwrap_err(), "Folder file exceeds its transfer size");
    let mut reader = ForkReader::new(true, false, None, Some(100));
    header[4] = 1;
    assert_eq!(reader.on_fork_header(&header).unwrap_err(), "Compressed file forks are unsupported");
    // Large transfers read the high size word at offset 4 and compression at 8.
    let mut large = [0u8; 16];
    large[..4].copy_from_slice(b"DATA");
    large[4..8].copy_from_slice(&1u32.to_be_bytes());
    let mut reader = ForkReader::new(false, true, None, None);
    assert_eq!(reader.on_fork_header(&large).unwrap(), ForkAction { size: 1 << 32, is_data: true });
    assert_eq!(reader.on_fork_header(&large).unwrap_err(), "Duplicate DATA fork");
}

/// Reads a transfer from `wire` as the download loop does, with the library
/// making every decision; returns the outcome and the bytes written.
fn receive(wire: &[u8], large: bool, expected: Option<u64>, allow_raw: bool, budget: Option<u64>) -> (Result<u64, String>, Vec<u8>) {
    let mut output = Vec::new();
    let mut pos = 0usize;
    let got = wire.len().min(4);
    let magic = &wire[..got];
    pos += got;
    let start = match classify_transfer_start(magic, expected, allow_raw) {
        Ok(s) => s,
        Err(e) => return (Err(e), output),
    };
    let mut take = |pos: &mut usize, n: usize| -> Result<Vec<u8>, String> {
        if *pos + n > wire.len() {
            return Err("Incomplete transfer: early eof".to_string());
        }
        let bytes = wire[*pos..*pos + n].to_vec();
        *pos += n;
        Ok(bytes)
    };
    let forks = match start {
        TransferStart::Raw { size } => {
            output.extend_from_slice(magic);
            let rest = (size - got as u64) as usize;
            let available = (wire.len() - pos).min(rest);
            output.extend_from_slice(&wire[pos..pos + available]);
            if available < rest {
                return (Err("Connection closed before the transfer finished".to_string()), output);
            }
            return (Ok(size), output);
        }
        TransferStart::Filp => match take(&mut pos, 20).and_then(|h| filp_fork_count(&h)) {
            Ok(n) => n,
            Err(e) => return (Err(e), output),
        },
        TransferStart::BareFork => 1,
    };
    let mut reader = ForkReader::new(start == TransferStart::Filp, large, expected, budget);
    for index in 0..forks {
        let header = if start == TransferStart::BareFork && index == 0 {
            let mut h = magic.to_vec();
            match take(&mut pos, 12) {
                Ok(rest) => h.extend_from_slice(&rest),
                Err(e) => return (Err(e), output),
            }
            h
        } else {
            match take(&mut pos, 16) {
                Ok(h) => h,
                Err(e) => return (Err(e), output),
            }
        };
        let action = match reader.on_fork_header(&header) {
            Ok(a) => a,
            Err(e) => return (Err(e), output),
        };
        let available = (wire.len() - pos).min(action.size as usize);
        if action.is_data {
            output.extend_from_slice(&wire[pos..pos + available]);
        }
        pos += available;
        if available < action.size as usize {
            return (Err("Connection closed before the transfer finished".to_string()), output);
        }
    }
    (reader.finish(), output)
}

#[test]
fn empty_and_short_files_are_exact() {
    for bytes in [vec![], vec![1], vec![1, 2, 3], vec![1; 100]] {
        for raw in [false, true] {
            let wire = if raw { bytes.clone() } else { filp(&bytes, bytes.len() as u32) };
            let (result, output) = receive(&wire, false, Some(bytes.len() as u64), true, None);
            result.unwrap();
            assert_eq!(output, bytes);
        }
    }
}

#[test]
fn failure_preserves_partial_bytes_and_rejects_ignored_resume() {
    let (result, mut output) = receive(&filp(b"abc", 10), false, Some(10), false, None);
    assert!(result.is_err());
    assert_eq!(output, b"abc");
    let (result, more) = receive(&filp(b"abcdefghij", 10), false, Some(7), false, None);
    assert!(result.is_err());
    output.extend_from_slice(&more);
    assert_eq!(output, b"abc");
}

#[test]
fn transfer_streams_open_with_htxf() {
    assert_eq!(
        hotline_protocol::transfer_io::transfer_header(0x01020304, 2),
        b"HTXF\x01\x02\x03\x04\0\0\0\0\0\0\0\x02".to_vec()
    );
}

fn fork_header(tag: &[u8; 4], size: u32) -> [u8; 16] {
    let mut h = [0u8; 16];
    h[..4].copy_from_slice(tag);
    h[12..].copy_from_slice(&size.to_be_bytes());
    h
}

#[test]
fn an_accepted_object_has_exactly_one_data_fork_and_uses_its_budget() {
    // INFO (10 bytes) then DATA (5 bytes) inside a FILP object: 24 + 16 + 10 + 16 + 5 = 71.
    let mut reader = ForkReader::new(true, false, None, Some(71));
    assert!(!reader.on_fork_header(&fork_header(b"INFO", 10)).unwrap().is_data);
    assert!(reader.on_fork_header(&fork_header(b"DATA", 5)).unwrap().is_data);
    assert_eq!(reader.finish().unwrap(), 5);

    let mut short = ForkReader::new(true, false, None, Some(72));
    short.on_fork_header(&fork_header(b"DATA", 5)).unwrap();
    assert_eq!(short.finish().unwrap_err(), "Folder transfer size mismatch");

    let mut twice = ForkReader::new(true, false, None, None);
    twice.on_fork_header(&fork_header(b"DATA", 1)).unwrap();
    assert_eq!(twice.on_fork_header(&fork_header(b"DATA", 1)).unwrap_err(), "Duplicate DATA fork");

    let mut none = ForkReader::new(true, false, None, None);
    none.on_fork_header(&fork_header(b"INFO", 1)).unwrap();
    assert_eq!(none.finish().unwrap_err(), "Transfer has no DATA fork");
}
