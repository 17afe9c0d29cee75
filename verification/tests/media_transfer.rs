use hotline_protocol::media_transfer::{reply_outcome, upload_preflight, DownloadStep, MediaDownload, MediaUpload};
use hotline_protocol::transaction::{FieldType, Transaction, TransactionField, TransactionType};

const PNG: [u8; 24] = [
    0x89, 0x50, 0x4E, 0x47, 0x0D, 0x0A, 0x1A, 0x0A, 0, 0, 0, 13, b'I', b'H', b'D', b'R', 0, 0, 0, 1, 0, 0, 0, 1,
];

fn field<'a>(t: &'a Transaction, ft: FieldType) -> Option<&'a [u8]> {
    t.fields.iter().find(|f| f.field_type == ft).map(|f| f.data.as_slice())
}

fn types(t: &Transaction) -> Vec<FieldType> {
    t.fields.iter().map(|f| f.field_type).collect()
}

#[test]
fn replies_with_error_codes_become_their_message() {
    let mut ok = Transaction::new(3, TransactionType::Other(0));
    ok.add_field(TransactionField::new(FieldType::Data, b"x".to_vec()));
    assert_eq!(reply_outcome(ok).unwrap().id, 3);

    let mut failed = Transaction::new(3, TransactionType::Other(0));
    failed.error_code = 1;
    failed.add_field(TransactionField::new(FieldType::Data, b"from data".to_vec()));
    failed.add_field(TransactionField::new(FieldType::ErrorText, b"from error text".to_vec()));
    assert_eq!(reply_outcome(failed).unwrap_err(), "from error text");

    let mut failed = Transaction::new(3, TransactionType::Other(0));
    failed.error_code = 1;
    failed.add_field(TransactionField::new(FieldType::Data, b"from data".to_vec()));
    assert_eq!(reply_outcome(failed).unwrap_err(), "from data");

    let mut failed = Transaction::new(3, TransactionType::Other(0));
    failed.error_code = 4101;
    failed.add_field(TransactionField::new(FieldType::ErrorText, vec![0xff, 0xfe]));
    assert_eq!(reply_outcome(failed).unwrap_err(), "error code 4101");
}

#[test]
fn upload_preflight_order() {
    assert_eq!(upload_preflight(false, false, 0).unwrap_err(), "Server does not support inline media");
    assert_eq!(upload_preflight(true, false, 10).unwrap_err(), "Account does not have permission to send media");
    assert_eq!(upload_preflight(true, true, 0).unwrap_err(), "Empty payload");
    assert!(upload_preflight(true, true, 1).is_ok());
}

#[test]
fn small_payloads_upload_in_one_request() {
    let mut upload = MediaUpload::start(vec![1, 2, 3], "image/png".to_string(), 10).unwrap();
    let request = upload.next_request(9);
    assert_eq!(request.id, 9);
    assert_eq!(request.transaction_type, TransactionType::UploadMedia);
    assert_eq!(
        types(&request),
        vec![FieldType::ChatMediaPayload, FieldType::ChatMediaDeclaredType, FieldType::ChatMediaPartFinal]
    );
    assert_eq!(field(&request, FieldType::ChatMediaPayload), Some(&[1u8, 2, 3][..]));
    assert_eq!(field(&request, FieldType::ChatMediaDeclaredType), Some(&b"image/png"[..]));

    let mut reply = Transaction::new(9, TransactionType::UploadMedia);
    reply.add_field(TransactionField::new(FieldType::ChatMediaId, vec![0xca, 0xfe]));
    reply.add_field(TransactionField::new(FieldType::ChatMediaType, b"image/png".to_vec()));
    reply.add_field(TransactionField::from_u16(FieldType::ChatMediaWidth, 16));
    let meta = upload.on_reply(&reply).unwrap().unwrap();
    assert_eq!(meta.handle, "cafe");
    assert_eq!(meta.mime, "image/png");
    assert_eq!(meta.width, 16);
    assert_eq!(meta.height, 0);
}

#[test]
fn chunked_uploads_carry_the_token_and_indices() {
    let bytes: Vec<u8> = (0..25u8).collect();
    let mut upload = MediaUpload::start(bytes.clone(), "image/gif".to_string(), 10).unwrap();

    let first = upload.next_request(1);
    assert_eq!(
        types(&first),
        vec![FieldType::ChatMediaPayload, FieldType::ChatMediaDeclaredType, FieldType::ChatMediaPartCount]
    );
    assert_eq!(field(&first, FieldType::ChatMediaPartCount), Some(&[0u8, 3][..]));
    let mut joined = field(&first, FieldType::ChatMediaPayload).unwrap().to_vec();

    let mut reply = Transaction::new(1, TransactionType::UploadMedia);
    reply.add_field(TransactionField::new(FieldType::ChatMediaUploadToken, vec![7, 7]));
    assert!(upload.on_reply(&reply).unwrap().is_none());

    let second = upload.next_request(2);
    assert_eq!(
        types(&second),
        vec![FieldType::ChatMediaUploadToken, FieldType::ChatMediaPayload, FieldType::ChatMediaPartIndex]
    );
    assert_eq!(field(&second, FieldType::ChatMediaUploadToken), Some(&[7u8, 7][..]));
    assert_eq!(field(&second, FieldType::ChatMediaPartIndex), Some(&[0u8, 1][..]));
    joined.extend_from_slice(field(&second, FieldType::ChatMediaPayload).unwrap());
    let ack = Transaction::new(2, TransactionType::UploadMedia);
    assert!(upload.on_reply(&ack).unwrap().is_none());

    let third = upload.next_request(3);
    assert_eq!(
        types(&third),
        vec![
            FieldType::ChatMediaUploadToken,
            FieldType::ChatMediaPayload,
            FieldType::ChatMediaPartIndex,
            FieldType::ChatMediaPartFinal
        ]
    );
    joined.extend_from_slice(field(&third, FieldType::ChatMediaPayload).unwrap());
    assert_eq!(joined, bytes);

    let mut done = Transaction::new(3, TransactionType::UploadMedia);
    done.add_field(TransactionField::new(FieldType::ChatMediaId, vec![1]));
    done.add_field(TransactionField::new(FieldType::ChatMediaType, b"image/gif".to_vec()));
    assert_eq!(upload.on_reply(&done).unwrap().unwrap().handle, "01");
}

#[test]
fn chunked_upload_without_token_is_refused() {
    let mut upload = MediaUpload::start(vec![0; 21], "image/gif".to_string(), 10).unwrap();
    let _ = upload.next_request(1);
    let reply = Transaction::new(1, TransactionType::UploadMedia);
    assert_eq!(
        upload.on_reply(&reply).unwrap_err(),
        "Server did not return an upload token; chunked uploads may be unsupported"
    );
}

#[test]
fn final_reply_without_handle_is_refused() {
    let mut upload = MediaUpload::start(vec![1], "image/png".to_string(), 10).unwrap();
    let _ = upload.next_request(1);
    let reply = Transaction::new(1, TransactionType::UploadMedia);
    assert_eq!(upload.on_reply(&reply).unwrap_err(), "Upload reply missing media handle");
}

#[test]
fn too_many_chunks_are_refused() {
    let err = MediaUpload::start(vec![0; 65536], "image/png".to_string(), 1).err().unwrap();
    assert_eq!(err, "Image too large: 65536 chunks exceeds u16");
    assert!(MediaUpload::start(vec![0; 65535], "image/png".to_string(), 1).is_ok());
}

#[test]
fn downloads_assemble_parts_and_check_magic() {
    let mut download = MediaDownload::start(vec![0xab]);
    let first = download.next_request(5);
    assert_eq!(first.transaction_type, TransactionType::DownloadMedia);
    assert_eq!(types(&first), vec![FieldType::ChatMediaId]);
    assert_eq!(field(&first, FieldType::ChatMediaId), Some(&[0xabu8][..]));

    let mut reply = Transaction::new(5, TransactionType::DownloadMedia);
    reply.add_field(TransactionField::new(FieldType::ChatMediaType, b"image/png".to_vec()));
    reply.add_field(TransactionField::from_u16(FieldType::ChatMediaPartCount, 2));
    reply.add_field(TransactionField::new(FieldType::ChatMediaPayload, PNG[..10].to_vec()));
    assert_eq!(download.on_reply(&reply).unwrap(), DownloadStep::Continue);

    let second = download.next_request(6);
    assert_eq!(types(&second), vec![FieldType::ChatMediaId, FieldType::ChatMediaPartIndex]);
    assert_eq!(field(&second, FieldType::ChatMediaPartIndex), Some(&[0u8, 1][..]));

    let mut reply = Transaction::new(6, TransactionType::DownloadMedia);
    reply.add_field(TransactionField::new(FieldType::ChatMediaPayload, PNG[10..].to_vec()));
    assert_eq!(download.on_reply(&reply).unwrap(), DownloadStep::Complete);
    let (bytes, mime) = download.into_parts();
    assert_eq!(bytes, PNG.to_vec());
    assert_eq!(mime, "image/png");
}

#[test]
fn download_failures() {
    let mut download = MediaDownload::start(vec![1]);
    let reply = Transaction::new(1, TransactionType::DownloadMedia);
    assert_eq!(download.on_reply(&reply).unwrap_err(), "Download reply missing MIME");

    let mut download = MediaDownload::start(vec![1]);
    let mut reply = Transaction::new(1, TransactionType::DownloadMedia);
    reply.add_field(TransactionField::new(FieldType::ChatMediaType, b"image/png".to_vec()));
    assert_eq!(download.on_reply(&reply).unwrap_err(), "Download reply missing payload");

    let mut download = MediaDownload::start(vec![1]);
    let mut reply = Transaction::new(1, TransactionType::DownloadMedia);
    reply.add_field(TransactionField::new(FieldType::ChatMediaType, b"image/png".to_vec()));
    reply.add_field(TransactionField::new(FieldType::ChatMediaPayload, vec![0xff; 30]));
    assert_eq!(download.on_reply(&reply).unwrap_err(), "Magic bytes do not match declared MIME: image/png");

    let mut download = MediaDownload::start(vec![1]);
    let mut reply = Transaction::new(1, TransactionType::DownloadMedia);
    reply.add_field(TransactionField::new(FieldType::ChatMediaType, b"image/webp".to_vec()));
    reply.add_field(TransactionField::new(FieldType::ChatMediaPayload, vec![1, 2, 3]));
    assert_eq!(download.on_reply(&reply).unwrap_err(), "Unsupported canonical MIME: image/webp");

    let mut download = MediaDownload::start(vec![1]);
    let mut reply = Transaction::new(1, TransactionType::DownloadMedia);
    reply.add_field(TransactionField::new(FieldType::ChatMediaType, b"image/png".to_vec()));
    reply.add_field(TransactionField::from_u16(FieldType::ChatMediaPartCount, 3));
    reply.add_field(TransactionField::new(FieldType::ChatMediaPayload, vec![0x89]));
    assert_eq!(download.on_reply(&reply).unwrap(), DownloadStep::Continue);
    let empty = Transaction::new(2, TransactionType::DownloadMedia);
    assert_eq!(download.on_reply(&empty).unwrap_err(), "Chunk 1 missing payload");
}

#[test]
fn download_size_cap() {
    let mut download = MediaDownload::start(vec![1]);
    let mut reply = Transaction::new(1, TransactionType::DownloadMedia);
    reply.add_field(TransactionField::new(FieldType::ChatMediaType, b"image/png".to_vec()));
    reply.add_field(TransactionField::new(FieldType::ChatMediaPayload, vec![0; 4194305]));
    assert_eq!(
        download.on_reply(&reply).unwrap_err(),
        "Download payload exceeds defensive cap of 4194304 bytes"
    );

    let mut download = MediaDownload::start(vec![1]);
    let mut reply = Transaction::new(1, TransactionType::DownloadMedia);
    reply.add_field(TransactionField::new(FieldType::ChatMediaType, b"image/png".to_vec()));
    reply.add_field(TransactionField::from_u16(FieldType::ChatMediaPartCount, 2));
    reply.add_field(TransactionField::new(FieldType::ChatMediaPayload, vec![0; 4194304]));
    assert_eq!(download.on_reply(&reply).unwrap(), DownloadStep::Continue);
    let mut more = Transaction::new(2, TransactionType::DownloadMedia);
    more.add_field(TransactionField::new(FieldType::ChatMediaPayload, vec![0]));
    assert_eq!(
        download.on_reply(&more).unwrap_err(),
        "Download exceeded defensive cap of 4194304 bytes mid-stream"
    );
}

#[test]
fn exchanges_report_when_they_are_done() {
    assert_eq!(
        hotline_protocol::media_transfer::download_preflight(false).unwrap_err(),
        "Server does not support inline media"
    );
    assert!(hotline_protocol::media_transfer::download_preflight(true).is_ok());
    let mut upload = MediaUpload::start(vec![1], "image/png".to_string(), 10).unwrap();
    assert!(!upload.done());
    let _ = upload.next_request(1);
    let mut reply = Transaction::new(1, TransactionType::UploadMedia);
    reply.add_field(TransactionField::new(FieldType::ChatMediaId, vec![1]));
    reply.add_field(TransactionField::new(FieldType::ChatMediaType, b"image/png".to_vec()));
    upload.on_reply(&reply).unwrap();
    assert!(upload.done());
    let download = MediaDownload::start(vec![1]);
    assert!(!download.done());
}
