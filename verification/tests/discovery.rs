use hotline_protocol::discovery::{
    check_discovery_header, discovery_port, discovery_read_length, parse, Descriptor, Policy, Transport,
};

fn descriptor(info_version: u16, data_port: u16, tls_port: Option<u16>) -> Descriptor {
    Descriptor {
        info_version,
        data_port,
        tls_port,
        software: None,
        transport: Transport { hope: None, tls: None, plaintext: None, compression: None },
        capabilities: std::collections::BTreeMap::new(),
    }
}

fn policy(v: &serde_json::Value) -> Option<Policy> {
    v.as_object().map(|o| Policy {
        supported: o.get("supported").and_then(|b| b.as_bool()).unwrap_or(false),
        required: o.get("required").and_then(|b| b.as_bool()).unwrap_or(false),
        accepted: o.get("accepted").and_then(|b| b.as_bool()).unwrap_or(false),
    })
}

/// Reads a descriptor body as the client's JSON form does.
fn read_descriptor(body: &[u8]) -> Result<Descriptor, String> {
    let v: serde_json::Value = serde_json::from_slice(body).map_err(|e| e.to_string())?;
    let port = |key: &str| v.get(key).and_then(|p| p.as_u64()).map(|p| p as u16);
    let transport = v.get("transport").ok_or("missing field `transport`")?;
    Ok(Descriptor {
        info_version: port("infoVersion").ok_or("missing field `infoVersion`")?,
        data_port: port("dataPort").ok_or("missing field `dataPort`")?,
        tls_port: port("tlsPort"),
        software: None,
        transport: Transport {
            hope: transport.get("hope").and_then(policy),
            tls: transport.get("tls").and_then(policy),
            plaintext: transport.get("plaintext").and_then(policy),
            compression: transport.get("compression").and_then(policy),
        },
        capabilities: std::collections::BTreeMap::new(),
    })
}

#[test]
fn descriptor_requires_version_port_and_transport() {
    let body = br#"{"infoVersion":1,"dataPort":5500,"transport":{},"unknown":true}"#;
    let mut header = *b"HLIP\0\x01\0\0\0\0\0\0";
    header[8..].copy_from_slice(&(body.len() as u32).to_be_bytes());
    assert_eq!(parse(&header, body, read_descriptor(body)).unwrap().data_port, 5500);
    header[5] = 2;
    assert!(parse(&header, body, read_descriptor(body)).is_err());
    header[5] = 1;
    header[8..].copy_from_slice(&65537u32.to_be_bytes());
    assert!(parse(&header, body, read_descriptor(body)).is_err());
}

#[test]
fn discovery_bodies_over_64_kib_are_not_read() {
    let mut header = *b"XXXX\0\x09\0\0\0\x01\0\x01";
    assert_eq!(discovery_read_length(&header).unwrap_err(), "Discovery response exceeds 64 KiB");
    header[8..].copy_from_slice(&65536u32.to_be_bytes());
    assert_eq!(discovery_read_length(&header).unwrap(), 65536);
}

#[test]
fn descriptor_fields_are_validated() {
    let body = b"{}";
    let mut header = *b"HLIP\0\x01\0\0\0\0\0\x02";
    assert_eq!(parse(&header, body, Ok(descriptor(2, 5500, None))).err().unwrap(), "Invalid discovery version or port");
    assert_eq!(parse(&header, body, Ok(descriptor(1, 0, None))).err().unwrap(), "Invalid discovery version or port");
    assert_eq!(parse(&header, body, Ok(descriptor(1, 5500, Some(0)))).err().unwrap(), "Invalid discovery version or port");
    assert!(parse(&header, body, Ok(descriptor(1, 5500, Some(5600)))).is_ok());
    assert_eq!(parse(&header, body, Err("bad json".to_string())).err().unwrap(), "Invalid discovery descriptor: bad json");
    assert_eq!(parse(&header, b"{", Ok(descriptor(1, 5500, None))).err().unwrap(), "Invalid discovery response size");
    header[0] = b'X';
    assert_eq!(check_discovery_header(&header).unwrap_err(), "Server discovery is unavailable or unsupported");
    assert_eq!(discovery_port(5500).unwrap(), 5499);
    assert!(discovery_port(1).is_err());
}
