//! Reading a version 3 tracker listing: a header (response type, size,
//! total, count), then `count` records of an address, a port, a user count,
//! a name, a description and metadata fields, which are passed over. The
//! caller reads what `need` asks for and hands it to `feed`, or, for an
//! IPv6 address, hands its text to `address_text`.
use vstd::prelude::*;
use crate::batch_listing::ServerView;
use crate::bytes::{be_u16, be_u32, copy_range, read_u16_be, read_u32_be};
use crate::folders::utf8_lossy_text;
use crate::tracker::{
    address_ok, ipv4_text, ipv4_text_of, string16_text, validate_tracker_address, TrackerServer,
};
use crate::text::owned;

verus! {

/// The part of a version 3 listing that is read next.
#[derive(Clone, Copy, Debug, PartialEq, Eq, Structural)]
pub enum RecordPart {
    ResponseType,
    Size,
    Total,
    Count,
    AddressType,
    Ipv4,
    Ipv6,
    /// Waiting for the text of the IPv6 address just read.
    Ipv6Text,
    HostLength,
    Host,
    Port,
    Users,
    NameLength,
    Name,
    DescriptionLength,
    Description,
    FieldCount,
    FieldId,
    FieldLength,
    FieldBody,
}

/// What the reader needs next.
pub enum RecordNeed {
    /// Read this many bytes for this part and `feed` them.
    Read(RecordPart, usize),
    /// Format these sixteen bytes as an IPv6 address and pass the text to
    /// `address_text`.
    FormatIpv6(Vec<u8>),
    /// The listing is complete.
    Done,
}

/// The abstract state of a version 3 listing read.
pub struct RecordState {
    pub part: RecordPart,
    /// Length of the string or field body being read.
    pub want: nat,
    pub total: u16,
    /// Records announced.
    pub count: u16,
    /// Records not yet complete.
    pub left: u16,
    pub v6: Seq<u8>,
    pub address: Seq<char>,
    pub port: u16,
    pub users: u16,
    pub name: Seq<char>,
    pub description: Seq<char>,
    /// Metadata fields of the current record left to pass over.
    pub fields: u16,
    pub servers: Seq<ServerView>,
    pub done: bool,
}

/// How many bytes a part takes.
pub open spec fn record_part_len(part: RecordPart, want: nat) -> nat {
    match part {
        RecordPart::ResponseType => 2,
        RecordPart::Size => 4,
        RecordPart::Total => 2,
        RecordPart::Count => 2,
        RecordPart::AddressType => 1,
        RecordPart::Ipv4 => 4,
        RecordPart::Ipv6 => 16,
        RecordPart::Ipv6Text => 0,
        RecordPart::HostLength => 2,
        RecordPart::Host => want,
        RecordPart::Port => 2,
        RecordPart::Users => 2,
        RecordPart::NameLength => 2,
        RecordPart::Name => want,
        RecordPart::DescriptionLength => 2,
        RecordPart::Description => want,
        RecordPart::FieldCount => 2,
        RecordPart::FieldId => 2,
        RecordPart::FieldLength => 2,
        RecordPart::FieldBody => want,
    }
}

/// The record's address is read: it must be usable.
pub open spec fn with_address(s: RecordState, a: Seq<char>) -> Result<RecordState, Seq<char>> {
    if address_ok(a) {
        Ok(RecordState { address: a, part: RecordPart::Port, ..s })
    } else {
        Err("Invalid tracker server address"@)
    }
}

/// The record is complete and listed.
pub open spec fn record_done(s: RecordState) -> RecordState {
    let server = ServerView {
        address: s.address,
        port: s.port,
        users: s.users,
        name: Some(s.name),
        description: Some(s.description),
    };
    let s2 = RecordState {
        servers: s.servers.push(server),
        left: (s.left - 1) as u16,
        address: Seq::empty(),
        name: Seq::empty(),
        description: Seq::empty(),
        ..s
    };
    if s2.left > 0 {
        RecordState { part: RecordPart::AddressType, ..s2 }
    } else {
        RecordState { done: true, ..s2 }
    }
}

/// A metadata field was passed over.
pub open spec fn field_done(s: RecordState) -> RecordState {
    let s2 = RecordState { fields: (s.fields - 1) as u16, ..s };
    if s2.fields > 0 { RecordState { part: RecordPart::FieldId, ..s2 } } else { record_done(s2) }
}

/// The state after reading the bytes `b` of the current part.
pub open spec fn record_step(s: RecordState, b: Seq<u8>) -> Result<RecordState, Seq<char>> {
    match s.part {
        RecordPart::ResponseType => if be_u16(b[0], b[1]) != 1 {
            Err("Unexpected tracker response type"@)
        } else {
            Ok(RecordState { part: RecordPart::Size, ..s })
        },
        RecordPart::Size => if be_u32(b[0], b[1], b[2], b[3]) > 16777216 {
            Err("Tracker response exceeds 16 MiB"@)
        } else {
            Ok(RecordState { part: RecordPart::Total, ..s })
        },
        RecordPart::Total => Ok(RecordState { total: be_u16(b[0], b[1]) as u16, part: RecordPart::Count, ..s }),
        RecordPart::Count => {
            let c = be_u16(b[0], b[1]) as u16;
            if c != s.total {
                Err("Tracker returned an incomplete unpaginated listing"@)
            } else if c == 0 {
                Ok(RecordState { count: c, left: c, done: true, ..s })
            } else {
                Ok(RecordState { count: c, left: c, part: RecordPart::AddressType, ..s })
            }
        },
        RecordPart::AddressType => if b[0] == 4 {
            Ok(RecordState { part: RecordPart::Ipv4, ..s })
        } else if b[0] == 6 {
            Ok(RecordState { part: RecordPart::Ipv6, ..s })
        } else if b[0] == 0x48 {
            Ok(RecordState { part: RecordPart::HostLength, ..s })
        } else {
            Err("Unknown tracker address type"@)
        },
        RecordPart::Ipv4 => with_address(s, ipv4_text_of(b)),
        RecordPart::Ipv6 => Ok(RecordState { v6: b, part: RecordPart::Ipv6Text, ..s }),
        RecordPart::Ipv6Text => Ok(s),
        RecordPart::HostLength => if be_u16(b[0], b[1]) > 0 {
            Ok(RecordState { want: be_u16(b[0], b[1]) as nat, part: RecordPart::Host, ..s })
        } else {
            with_address(s, Seq::empty())
        },
        RecordPart::Host => with_address(s, utf8_lossy_text(b)),
        RecordPart::Port => if be_u16(b[0], b[1]) == 0 {
            Err("Invalid tracker server port"@)
        } else {
            Ok(RecordState { port: be_u16(b[0], b[1]) as u16, part: RecordPart::Users, ..s })
        },
        RecordPart::Users => Ok(RecordState { users: be_u16(b[0], b[1]) as u16, part: RecordPart::NameLength, ..s }),
        RecordPart::NameLength => if be_u16(b[0], b[1]) > 0 {
            Ok(RecordState { want: be_u16(b[0], b[1]) as nat, part: RecordPart::Name, ..s })
        } else {
            Ok(RecordState { name: Seq::empty(), part: RecordPart::DescriptionLength, ..s })
        },
        RecordPart::Name => Ok(RecordState { name: utf8_lossy_text(b), part: RecordPart::DescriptionLength, ..s }),
        RecordPart::DescriptionLength => if be_u16(b[0], b[1]) > 0 {
            Ok(RecordState { want: be_u16(b[0], b[1]) as nat, part: RecordPart::Description, ..s })
        } else {
            Ok(RecordState { description: Seq::empty(), part: RecordPart::FieldCount, ..s })
        },
        RecordPart::Description => Ok(RecordState { description: utf8_lossy_text(b), part: RecordPart::FieldCount, ..s }),
        RecordPart::FieldCount => {
            let c = be_u16(b[0], b[1]) as u16;
            if c > 1024 {
                Err("Too many tracker metadata fields"@)
            } else if c > 0 {
                Ok(RecordState { fields: c, part: RecordPart::FieldId, ..s })
            } else {
                Ok(record_done(RecordState { fields: 0, ..s }))
            }
        },
        RecordPart::FieldId => Ok(RecordState { part: RecordPart::FieldLength, ..s }),
        RecordPart::FieldLength => if be_u16(b[0], b[1]) > 0 {
            Ok(RecordState { want: be_u16(b[0], b[1]) as nat, part: RecordPart::FieldBody, ..s })
        } else {
            Ok(field_done(s))
        },
        RecordPart::FieldBody => Ok(field_done(s)),
    }
}

/// A listed record has a usable address, a port, and a name and
/// description.
pub open spec fn record_ok(v: ServerView) -> bool {
    address_ok(v.address) && v.port != 0 && v.name is Some && v.description is Some
}

pub open spec fn records_ok(servers: Seq<ServerView>) -> bool {
    forall|i: int| 0 <= i < servers.len() ==> record_ok(#[trigger] servers[i])
}

pub open spec fn header_part(p: RecordPart) -> bool {
    p == RecordPart::ResponseType || p == RecordPart::Size || p == RecordPart::Total || p == RecordPart::Count
}

/// Parts after the port was read.
pub open spec fn after_port(p: RecordPart) -> bool {
    p == RecordPart::Users || p == RecordPart::NameLength || p == RecordPart::Name || p == RecordPart::DescriptionLength
        || p == RecordPart::Description || p == RecordPart::FieldCount || p == RecordPart::FieldId
        || p == RecordPart::FieldLength || p == RecordPart::FieldBody
}

pub open spec fn field_part(p: RecordPart) -> bool {
    p == RecordPart::FieldId || p == RecordPart::FieldLength || p == RecordPart::FieldBody
}

pub open spec fn sized_part(p: RecordPart) -> bool {
    p == RecordPart::Host || p == RecordPart::Name || p == RecordPart::Description || p == RecordPart::FieldBody
}

/// The states a read passes through.
pub open spec fn record_state_ok(s: RecordState) -> bool {
    &&& s.servers.len() + s.left == s.count
    &&& header_part(s.part) && !s.done ==> s.servers.len() == 0 && s.left == 0
    &&& !s.done && !header_part(s.part) ==> s.left > 0
    &&& s.done ==> s.left == 0
    &&& !s.done && sized_part(s.part) ==> 1 <= s.want <= 65535
    &&& !s.done && s.part == RecordPart::Ipv6Text ==> s.v6.len() == 16
    &&& !s.done && (s.part == RecordPart::Port || after_port(s.part)) ==> address_ok(s.address)
    &&& !s.done && after_port(s.part) ==> s.port != 0
    &&& !s.done && field_part(s.part) ==> s.fields > 0
    &&& records_ok(s.servers)
}

proof fn lemma_record_done_ok(s: RecordState)
    requires
        s.servers.len() + s.left == s.count,
        records_ok(s.servers),
        !s.done,
        s.left > 0,
        address_ok(s.address),
        s.port != 0,
    ensures
        record_state_ok(record_done(s)),
{
    let t = record_done(s);
    assert forall|i: int| 0 <= i < t.servers.len() implies record_ok(#[trigger] t.servers[i]) by {
        if i < s.servers.len() {
            assert(t.servers[i] == s.servers[i]);
        }
    }
}

/// Every record that a version 3 listing lists has a usable address, a
/// non-zero port, a name and a description, and no more records are listed
/// than the header announced.
pub proof fn lemma_listed_records_are_valid(s: RecordState, b: Seq<u8>)
    requires
        record_state_ok(s),
        !s.done,
        s.part != RecordPart::Ipv6Text,
        b.len() == record_part_len(s.part, s.want),
        record_step(s, b) is Ok,
    ensures
        record_state_ok(record_step(s, b)->Ok_0),
        records_ok(record_step(s, b)->Ok_0.servers),
        record_step(s, b)->Ok_0.servers.len() <= record_step(s, b)->Ok_0.count,
{
    match s.part {
        RecordPart::FieldCount => {
            if be_u16(b[0], b[1]) == 0 {
                lemma_record_done_ok(RecordState { fields: 0, ..s });
            }
        },
        RecordPart::FieldLength => {
            if be_u16(b[0], b[1]) == 0 && s.fields == 1 {
                lemma_record_done_ok(RecordState { fields: 0, ..s });
            }
        },
        RecordPart::FieldBody => {
            if s.fields == 1 {
                lemma_record_done_ok(RecordState { fields: 0, ..s });
            }
        },
        _ => {},
    }
}

/// Each record is listed with its own name and description: a zero length
/// makes either empty and its bytes make it their lossy UTF-8 text,
/// whatever an earlier record carried; the metadata fields after them leave
/// the description as it is; and the record is then listed with exactly
/// the address, port, user count, name and description read for it.
pub proof fn lemma_record_lists_own_name_and_description(s: RecordState, b: Seq<u8>)
    requires
        record_state_ok(s),
        !s.done,
        b.len() == record_part_len(s.part, s.want),
    ensures
        s.part == RecordPart::NameLength && be_u16(b[0], b[1]) == 0 ==> (record_step(s, b) matches Ok(t)
            && t.name == Seq::<char>::empty() && t.part == RecordPart::DescriptionLength),
        s.part == RecordPart::Name ==> (record_step(s, b) matches Ok(t) && t.name == utf8_lossy_text(b)
            && t.part == RecordPart::DescriptionLength),
        s.part == RecordPart::DescriptionLength && be_u16(b[0], b[1]) == 0 ==> (record_step(s, b) matches Ok(t)
            && t.description == Seq::<char>::empty() && t.part == RecordPart::FieldCount),
        s.part == RecordPart::Description ==> (record_step(s, b) matches Ok(t) && t.description == utf8_lossy_text(b)
            && t.part == RecordPart::FieldCount),
        s.part == RecordPart::FieldCount || field_part(s.part) ==> (record_step(s, b) matches Ok(t) ==> {
            if t.servers.len() > s.servers.len() {
                t.servers == s.servers.push(
                    ServerView {
                        address: s.address,
                        port: s.port,
                        users: s.users,
                        name: Some(s.name),
                        description: Some(s.description),
                    },
                )
            } else {
                &&& t.servers == s.servers
                &&& t.description == s.description
                &&& field_part(t.part)
            }
        }),
{
}

/// A version 3 listing read in progress.
pub struct RecordReader {
    part: RecordPart,
    want: usize,
    total: u16,
    count: u16,
    left: u16,
    v6: Vec<u8>,
    address: String,
    port: u16,
    users: u16,
    name: String,
    description: String,
    fields: u16,
    servers: Vec<TrackerServer>,
    done: bool,
}

impl RecordReader {
    pub closed spec fn view(self) -> RecordState {
        RecordState {
            part: self.part,
            want: self.want as nat,
            total: self.total,
            count: self.count,
            left: self.left,
            v6: self.v6@,
            address: self.address@,
            port: self.port,
            users: self.users,
            name: self.name@,
            description: self.description@,
            fields: self.fields,
            servers: self.servers@.map_values(|s: TrackerServer| crate::batch_listing::server_view(s)),
            done: self.done,
        }
    }

    pub closed spec fn wf(self) -> bool {
        record_state_ok(self.view())
    }

    /// A read that starts at the listing header.
    pub fn new() -> (r: Self)
        ensures
            r.wf(),
            r.view().part == RecordPart::ResponseType,
            !r.view().done,
            r.view().servers.len() == 0,
            r.view().count == 0,
            r.view().left == 0,
    {
        let r = RecordReader {
            part: RecordPart::ResponseType,
            want: 0,
            total: 0,
            count: 0,
            left: 0,
            v6: Vec::new(),
            address: String::new(),
            port: 0,
            users: 0,
            name: String::new(),
            description: String::new(),
            fields: 0,
            servers: Vec::new(),
            done: false,
        };
        assert(r.view().servers =~= Seq::<ServerView>::empty());
        r
    }

    /// What the reader needs next.
    pub fn need(&self) -> (r: RecordNeed)
        ensures
            self.view().done ==> r is Done,
            !self.view().done && self.view().part == RecordPart::Ipv6Text ==> (r matches RecordNeed::FormatIpv6(v) && v@ == self.view().v6),
            !self.view().done && self.view().part != RecordPart::Ipv6Text ==> (r matches RecordNeed::Read(p, n)
                && p == self.view().part && n == record_part_len(self.view().part, self.view().want)),
    {
        if self.done {
            return RecordNeed::Done;
        }
        let len: usize = match self.part {
            RecordPart::ResponseType => 2,
            RecordPart::Size => 4,
            RecordPart::Total => 2,
            RecordPart::Count => 2,
            RecordPart::AddressType => 1,
            RecordPart::Ipv4 => 4,
            RecordPart::Ipv6 => 16,
            RecordPart::Ipv6Text => {
                return RecordNeed::FormatIpv6(copy_range(self.v6.as_slice(), 0, self.v6.len()));
            },
            RecordPart::HostLength => 2,
            RecordPart::Host => self.want,
            RecordPart::Port => 2,
            RecordPart::Users => 2,
            RecordPart::NameLength => 2,
            RecordPart::Name => self.want,
            RecordPart::DescriptionLength => 2,
            RecordPart::Description => self.want,
            RecordPart::FieldCount => 2,
            RecordPart::FieldId => 2,
            RecordPart::FieldLength => 2,
            RecordPart::FieldBody => self.want,
        };
        proof { assert(self.v6@.subrange(0, self.v6@.len() as int) =~= self.v6@); }
        RecordNeed::Read(self.part, len)
    }

    fn set_address(&mut self, address: String) -> (r: Result<(), String>)
        ensures
            r is Ok <==> with_address(old(self).view(), address@) is Ok,
            r is Ok ==> final(self).view() == with_address(old(self).view(), address@)->Ok_0,
            r matches Err(e) ==> with_address(old(self).view(), address@) == Err::<RecordState, Seq<char>>(e@),
    {
        match validate_tracker_address(address.as_str()) {
            Err(e) => Err(e),
            Ok(()) => {
                self.address = address;
                self.part = RecordPart::Port;
                Ok(())
            },
        }
    }

    fn finish_record(&mut self)
        requires
            old(self).view().left > 0,
        ensures
            final(self).view() == record_done(old(self).view()),
    {
        let mut address = String::new();
        std::mem::swap(&mut address, &mut self.address);
        let mut name = String::new();
        std::mem::swap(&mut name, &mut self.name);
        let mut description = String::new();
        std::mem::swap(&mut description, &mut self.description);
        let ghost before = self.servers@;
        let ghost a = address@;
        let ghost n = name@;
        let ghost d = description@;
        let server = TrackerServer { address, port: self.port, users: self.users, name: Some(name), description: Some(description) };
        self.servers.push(server);
        self.left = self.left - 1;
        if self.left > 0 {
            self.part = RecordPart::AddressType;
        } else {
            self.done = true;
        }
        proof {
            assert(crate::batch_listing::server_view(server) == (ServerView {
                address: a, port: old(self).view().port, users: old(self).view().users, name: Some(n), description: Some(d),
            }));
            assert(self.servers@.map_values(|s: TrackerServer| crate::batch_listing::server_view(s))
                =~= before.map_values(|s: TrackerServer| crate::batch_listing::server_view(s)).push(crate::batch_listing::server_view(server)));
        }
    }

    fn finish_field(&mut self)
        requires
            old(self).view().fields > 0,
            old(self).view().left > 0,
        ensures
            final(self).view() == field_done(old(self).view()),
    {
        self.fields = self.fields - 1;
        if self.fields > 0 {
            self.part = RecordPart::FieldId;
        } else {
            self.finish_record();
        }
    }

    /// Takes the bytes of the part that `need` named.
    pub fn feed(&mut self, bytes: &[u8]) -> (r: Result<(), String>)
        requires
            old(self).wf(),
            !old(self).view().done,
            old(self).view().part != RecordPart::Ipv6Text,
            bytes@.len() == record_part_len(old(self).view().part, old(self).view().want),
        ensures
            r is Ok <==> record_step(old(self).view(), bytes@) is Ok,
            r is Ok ==> final(self).wf() && final(self).view() == record_step(old(self).view(), bytes@)->Ok_0,
            r matches Err(e) ==> record_step(old(self).view(), bytes@) == Err::<RecordState, Seq<char>>(e@),
    {
        proof {
            reveal_strlit("Unexpected tracker response type");
            reveal_strlit("Tracker response exceeds 16 MiB");
            reveal_strlit("Tracker returned an incomplete unpaginated listing");
            reveal_strlit("Unknown tracker address type");
            reveal_strlit("Invalid tracker server port");
            reveal_strlit("Too many tracker metadata fields");
        }
        let ghost before = self.view();
        let r = match self.part {
            RecordPart::ResponseType => {
                if read_u16_be(bytes[0], bytes[1]) != 1 {
                    return Err(owned("Unexpected tracker response type"));
                }
                self.part = RecordPart::Size;
                Ok(())
            },
            RecordPart::Size => {
                if read_u32_be(bytes[0], bytes[1], bytes[2], bytes[3]) > 16777216 {
                    return Err(owned("Tracker response exceeds 16 MiB"));
                }
                self.part = RecordPart::Total;
                Ok(())
            },
            RecordPart::Total => {
                self.total = read_u16_be(bytes[0], bytes[1]);
                self.part = RecordPart::Count;
                Ok(())
            },
            RecordPart::Count => {
                let c = read_u16_be(bytes[0], bytes[1]);
                if c != self.total {
                    return Err(owned("Tracker returned an incomplete unpaginated listing"));
                }
                self.count = c;
                self.left = c;
                if c == 0 {
                    self.done = true;
                } else {
                    self.part = RecordPart::AddressType;
                }
                Ok(())
            },
            RecordPart::AddressType => {
                if bytes[0] == 4 {
                    self.part = RecordPart::Ipv4;
                } else if bytes[0] == 6 {
                    self.part = RecordPart::Ipv6;
                } else if bytes[0] == 0x48 {
                    self.part = RecordPart::HostLength;
                } else {
                    return Err(owned("Unknown tracker address type"));
                }
                Ok(())
            },
            RecordPart::Ipv4 => self.set_address(ipv4_text(bytes)),
            RecordPart::Ipv6 => {
                self.v6 = copy_range(bytes, 0, 16);
                self.part = RecordPart::Ipv6Text;
                proof { assert(bytes@.subrange(0, 16) =~= bytes@); }
                Ok(())
            },
            RecordPart::Ipv6Text => Ok(()),
            RecordPart::HostLength => {
                let n = read_u16_be(bytes[0], bytes[1]);
                if n > 0 {
                    self.want = n as usize;
                    self.part = RecordPart::Host;
                    Ok(())
                } else {
                    self.set_address(String::new())
                }
            },
            RecordPart::Host => self.set_address(string16_text(bytes)),
            RecordPart::Port => {
                let p = read_u16_be(bytes[0], bytes[1]);
                if p == 0 {
                    return Err(owned("Invalid tracker server port"));
                }
                self.port = p;
                self.part = RecordPart::Users;
                Ok(())
            },
            RecordPart::Users => {
                self.users = read_u16_be(bytes[0], bytes[1]);
                self.part = RecordPart::NameLength;
                Ok(())
            },
            RecordPart::NameLength => {
                let n = read_u16_be(bytes[0], bytes[1]);
                if n > 0 {
                    self.want = n as usize;
                    self.part = RecordPart::Name;
                } else {
                    self.name = String::new();
                    self.part = RecordPart::DescriptionLength;
                }
                Ok(())
            },
            RecordPart::Name => {
                self.name = string16_text(bytes);
                self.part = RecordPart::DescriptionLength;
                Ok(())
            },
            RecordPart::DescriptionLength => {
                let n = read_u16_be(bytes[0], bytes[1]);
                if n > 0 {
                    self.want = n as usize;
                    self.part = RecordPart::Description;
                } else {
                    self.description = String::new();
                    self.part = RecordPart::FieldCount;
                }
                Ok(())
            },
            RecordPart::Description => {
                self.description = string16_text(bytes);
                self.part = RecordPart::FieldCount;
                Ok(())
            },
            RecordPart::FieldCount => {
                let c = read_u16_be(bytes[0], bytes[1]);
                if c > 1024 {
                    return Err(owned("Too many tracker metadata fields"));
                }
                if c > 0 {
                    self.fields = c;
                    self.part = RecordPart::FieldId;
                } else {
                    self.fields = 0;
                    self.finish_record();
                }
                Ok(())
            },
            RecordPart::FieldId => {
                self.part = RecordPart::FieldLength;
                Ok(())
            },
            RecordPart::FieldLength => {
                let n = read_u16_be(bytes[0], bytes[1]);
                if n > 0 {
                    self.want = n as usize;
                    self.part = RecordPart::FieldBody;
                } else {
                    self.finish_field();
                }
                Ok(())
            },
            RecordPart::FieldBody => {
                self.finish_field();
                Ok(())
            },
        };
        proof {
            if r is Ok {
                lemma_listed_records_are_valid(before, bytes@);
            }
        }
        r
    }

    /// Takes the text of the IPv6 address that `need` asked to format.
    pub fn address_text(&mut self, text: String) -> (r: Result<(), String>)
        requires
            old(self).wf(),
            !old(self).view().done,
            old(self).view().part == RecordPart::Ipv6Text,
        ensures
            r is Ok <==> with_address(old(self).view(), text@) is Ok,
            r is Ok ==> final(self).wf() && final(self).view() == with_address(old(self).view(), text@)->Ok_0,
            r matches Err(e) ==> with_address(old(self).view(), text@) == Err::<RecordState, Seq<char>>(e@),
    {
        self.set_address(text)
    }

    /// The records listed so far, in listing order.
    pub fn into_servers(self) -> (r: Vec<TrackerServer>)
        ensures
            r@.map_values(|s: TrackerServer| crate::batch_listing::server_view(s)) == self.view().servers,
    {
        self.servers
    }
}

} // verus!
