//! Advisory pre-login capability discovery (the HLIP info port).
use vstd::prelude::*;
use std::collections::BTreeMap;
use crate::bytes::{be_u32, bytes_at, read_u32_be};
use crate::text::{owned, push_str};

verus! {

/// The capability descriptor a server advertises.
pub struct Descriptor {
    pub info_version: u16,
    pub data_port: u16,
    pub tls_port: Option<u16>,
    pub software: Option<Software>,
    pub transport: Transport,
    /// Advertised features, by name.
    pub capabilities: BTreeMap<String, bool>,
}

pub struct Software {
    pub name: String,
    pub version: Option<String>,
}

/// Whether a transport is supported, required and accepted.
#[derive(Clone, Copy, Debug, PartialEq, Eq, Structural)]
pub struct Policy {
    pub supported: bool,
    pub required: bool,
    pub accepted: bool,
}

impl Default for Policy {
    fn default() -> (r: Self)
        ensures
            r == (Policy { supported: false, required: false, accepted: false }),
    {
        Policy { supported: false, required: false, accepted: false }
    }
}

pub struct Transport {
    pub hope: Option<Policy>,
    pub tls: Option<Policy>,
    pub plaintext: Option<Policy>,
    pub compression: Option<Policy>,
}

/// `HLIP`, version 1, reserved zero.
pub open spec fn hlip_prefix() -> Seq<u8> {
    seq![72u8, 76, 73, 80, 0, 1, 0, 0]
}

/// The body length a discovery header announces, or why the header is
/// refused: a wrong magic, version or reserved word, or more than 64 KiB.
pub open spec fn discovery_body_length(header: Seq<u8>) -> Result<int, Seq<char>> {
    if header.subrange(0, 8) != hlip_prefix() {
        Err("Server discovery is unavailable or unsupported"@)
    } else {
        let length = be_u32(header[8], header[9], header[10], header[11]);
        if length > 65536 { Err("Invalid discovery response size"@) } else { Ok(length) }
    }
}

/// Checks a 12-byte discovery reply header and returns the body length.
pub fn check_discovery_header(header: &[u8; 12]) -> (r: Result<usize, String>)
    ensures
        r matches Ok(n) ==> discovery_body_length(header@) == Ok::<int, Seq<char>>(n as int),
        r matches Err(e) ==> discovery_body_length(header@) == Err::<int, Seq<char>>(e@),
{
    proof {
        reveal_strlit("Server discovery is unavailable or unsupported");
        reveal_strlit("Invalid discovery response size");
    }
    let h: &[u8] = header.as_slice();
    if !bytes_at(h, 0, &[72u8, 76, 73, 80, 0, 1, 0, 0]) {
        return Err(owned("Server discovery is unavailable or unsupported"));
    }
    let length = read_u32_be(h[8], h[9], h[10], h[11]);
    if length > 65536 {
        return Err(owned("Invalid discovery response size"));
    }
    Ok(length as usize)
}

/// The body length that a discovery header announces, before the body is
/// read: more than 64 KiB is refused, whatever the rest of the header.
pub fn discovery_read_length(header: &[u8; 12]) -> (r: Result<usize, String>)
    ensures
        r is Ok <==> be_u32(header@[8], header@[9], header@[10], header@[11]) <= 65536,
        r matches Ok(n) ==> n == be_u32(header@[8], header@[9], header@[10], header@[11]),
        r matches Err(e) ==> e@ == "Discovery response exceeds 64 KiB"@,
{
    let length = read_u32_be(header[8], header[9], header[10], header[11]);
    if length > 65536 {
        return Err(owned("Discovery response exceeds 64 KiB"));
    }
    Ok(length as usize)
}

/// A descriptor is usable: info version 1, a non-zero data port, and a
/// non-zero TLS port when one is given.
pub open spec fn descriptor_valid(d: Descriptor) -> bool {
    d.info_version == 1 && d.data_port != 0 && d.tls_port != Some(0u16)
}

/// Validates a discovery reply. `parsed` is the reply body read as a JSON
/// descriptor (or the parser's message); the header is checked first, then
/// the body length, then the parse, then the descriptor's fields.
pub fn parse(header: &[u8; 12], body: &[u8], parsed: Result<Descriptor, String>) -> (r: Result<Descriptor, String>)
    ensures
        discovery_body_length(header@) matches Err(e) ==> (r matches Err(m) && m@ == e),
        discovery_body_length(header@) matches Ok(n) && body@.len() != n
            ==> (r matches Err(m) && m@ == "Invalid discovery response size"@),
        discovery_body_length(header@) matches Ok(n) && body@.len() == n ==> {
            match parsed {
                Err(p) => r matches Err(m) && m@ == "Invalid discovery descriptor: "@ + p@,
                Ok(d) => if descriptor_valid(d) {
                    r matches Ok(x) && x == d
                } else {
                    r matches Err(m) && m@ == "Invalid discovery version or port"@
                },
            }
        },
{
    let length = match check_discovery_header(header) {
        Ok(n) => n,
        Err(e) => return Err(e),
    };
    if body.len() != length {
        return Err(owned("Invalid discovery response size"));
    }
    let result = match parsed {
        Ok(d) => d,
        Err(p) => {
            let mut message = owned("Invalid discovery descriptor: ");
            push_str(&mut message, p.as_str());
            return Err(message);
        },
    };
    let tls_zero = match result.tls_port {
        Some(p) => p == 0,
        None => false,
    };
    if result.info_version != 1 || result.data_port == 0 || tls_zero {
        return Err(owned("Invalid discovery version or port"));
    }
    Ok(result)
}

/// The advisory info port: one below the data port, never port 0.
pub fn discovery_port(data_port: u16) -> (r: Result<u16, String>)
    ensures
        data_port >= 2 ==> r == Ok::<u16, String>((data_port - 1) as u16),
        data_port < 2 ==> (r matches Err(e) && e@ == "No valid discovery port"@),
{
    if data_port < 2 {
        return Err(owned("No valid discovery port"));
    }
    Ok(data_port - 1)
}

} // verus!
