use hotline_protocol::tracker_session::{SessionAction, TrackerSession};

fn connect_version(a: &SessionAction) -> Option<(u16, Vec<u8>)> {
    match a {
        SessionAction::Connect(v, r) => Some((*v, r.clone())),
        _ => None,
    }
}

#[test]
fn v2_authentication_denial_does_not_downgrade() {
    let (mut session, first) = TrackerSession::start("bob".to_string(), "bad".to_string());
    let (version, request) = connect_version(&first).unwrap();
    assert_eq!(version, 3);
    assert_eq!(request, b"HTRK\0\x03\0\x05".to_vec());

    // The tracker offers version 2: reconnect with an exact version 2 handshake.
    let second = session.on_handshake(b"HTRK\0\x02").unwrap();
    let (version, request) = connect_version(&second).unwrap();
    assert_eq!(version, 2);
    assert_eq!(request, b"HTRK\0\x02".to_vec());

    let flag = session.on_handshake(b"HTRK\0\x02").unwrap();
    assert!(matches!(flag, SessionAction::Read(1)));
    match session.on_bytes(&[1]).unwrap() {
        SessionAction::SendThenRead(auth, 1) => assert_eq!(auth, b"\x03bob\x03bad".to_vec()),
        _ => panic!("expected credentials to be sent"),
    }
    let error = session.on_bytes(&[1]).err().unwrap();
    assert!(error.contains("authentication denied"));
}

#[test]
fn missing_handshakes_try_older_versions_then_fail() {
    let (mut session, _) = TrackerSession::start(String::new(), String::new());
    let (version, _) = connect_version(&session.on_no_handshake().unwrap()).unwrap();
    assert_eq!(version, 2);
    let (version, request) = connect_version(&session.on_no_handshake().unwrap()).unwrap();
    assert_eq!(version, 1);
    assert_eq!(request, b"HTRK\0\x01".to_vec());
    assert_eq!(
        session.on_no_handshake().err().unwrap(),
        "Tracker did not accept a supported protocol version"
    );
}

#[test]
fn version_1_reply_reads_batches() {
    let (mut session, _) = TrackerSession::start(String::new(), String::new());
    assert!(matches!(session.on_handshake(b"HTRK\0\x01").unwrap(), SessionAction::ReadBatches));
}

#[test]
fn v2_without_authentication_reads_batches() {
    let (mut session, _) = TrackerSession::start(String::new(), String::new());
    session.on_no_handshake().unwrap();
    assert!(matches!(session.on_handshake(b"HTRK\0\x02").unwrap(), SessionAction::Read(1)));
    assert!(matches!(session.on_bytes(&[0]).unwrap(), SessionAction::ReadBatches));
}

#[test]
fn v3_without_authentication_requests_the_listing() {
    let (mut session, _) = TrackerSession::start(String::new(), String::new());
    assert!(matches!(session.on_handshake(b"HTRK\0\x03").unwrap(), SessionAction::Read(2)));
    match session.on_bytes(&[0, 1]).unwrap() {
        SessionAction::SendThenRecords(request) => assert_eq!(request, vec![0, 1, 0, 0]),
        _ => panic!("expected the listing request"),
    }
}

#[test]
fn v3_authentication_passes_over_metadata_then_checks_status() {
    let (mut session, _) = TrackerSession::start("a".to_string(), "b".to_string());
    session.on_handshake(b"HTRK\0\x03").unwrap();
    match session.on_bytes(&[0, 4]).unwrap() {
        SessionAction::SendThenRead(auth, 1) => {
            assert_eq!(auth, vec![0, 1, 0, 2, 0x08, 0x20, 0, 1, b'a', 0x08, 0x21, 0, 1, b'b'])
        }
        _ => panic!("expected credentials to be sent"),
    }
    assert!(matches!(session.on_bytes(&[0]).unwrap(), SessionAction::Read(2)));
    assert!(matches!(session.on_bytes(&[0, 2]).unwrap(), SessionAction::Read(2)));
    assert!(matches!(session.on_bytes(&[0xf0, 1]).unwrap(), SessionAction::Read(2)));
    assert!(matches!(session.on_bytes(&[0, 3]).unwrap(), SessionAction::ReadBody(3)));
    assert!(matches!(session.on_bytes(&[1, 2, 3]).unwrap(), SessionAction::Read(2)));
    assert!(matches!(session.on_bytes(&[0, 9]).unwrap(), SessionAction::Read(2)));
    assert!(matches!(session.on_bytes(&[0, 0]).unwrap(), SessionAction::SendThenRecords(_)));
}

#[test]
fn v3_denial_after_metadata_is_final() {
    let (mut session, _) = TrackerSession::start("a".to_string(), "b".to_string());
    session.on_handshake(b"HTRK\0\x03").unwrap();
    session.on_bytes(&[0, 4]).unwrap();
    session.on_bytes(&[2]).unwrap();
    assert_eq!(session.on_bytes(&[0, 0]).err().unwrap(), "Tracker authentication denied");
}

#[test]
fn v3_session_refusals() {
    let (mut session, _) = TrackerSession::start("a".to_string(), String::new());
    session.on_handshake(b"HTRK\0\x03").unwrap();
    assert_eq!(
        session.on_bytes(&[0, 4]).err().unwrap(),
        "Tracker requires credentials; edit its bookmark"
    );

    let (mut session, _) = TrackerSession::start("a".to_string(), "b".to_string());
    session.on_handshake(b"HTRK\0\x03").unwrap();
    session.on_bytes(&[0, 4]).unwrap();
    session.on_bytes(&[0]).unwrap();
    assert_eq!(session.on_bytes(&[4, 1]).err().unwrap(), "Too many tracker metadata fields");

    let (mut session, _) = TrackerSession::start(String::new(), String::new());
    assert_eq!(session.on_handshake(b"XXXX\0\x03").err().unwrap(), "Invalid tracker handshake");
}
