//! Reading a version 1 or 2 tracker listing. The listing comes in batches:
//! an 8-byte header, then entries of an IPv4 address, a port, a user count,
//! two unused bytes, and a name and description as Pascal strings. The
//! caller reads the bytes that `need` asks for and hands them to `feed`.
use vstd::prelude::*;
use crate::bytes::{be_u16, extend_bytes};
use crate::text::owned;
use crate::tracker::{
    ipv4_text_of, is_separator_name, listing_text, optional_text, pascal_text, text_of, v1_server,
    BatchCursor, TrackerServer,
};

verus! {

/// The part of a listing that is read next.
#[derive(Clone, Copy, Debug, PartialEq, Eq, Structural)]
pub enum ListingPart {
    BatchHeader,
    ServerIp,
    ServerPort,
    UserCount,
    Unused,
    NameLength,
    Name,
    DescriptionLength,
    Description,
}

/// A listed server, by plain values.
pub struct ServerView {
    pub address: Seq<char>,
    pub port: u16,
    pub users: u16,
    pub name: Option<Seq<char>>,
    pub description: Option<Seq<char>>,
}

pub open spec fn server_view(s: TrackerServer) -> ServerView {
    ServerView { address: s.address@, port: s.port, users: s.users, name: text_of(s.name), description: text_of(s.description) }
}

/// The abstract state of a listing read.
pub struct BatchState {
    pub cursor: BatchCursor,
    pub part: ListingPart,
    /// Length of the Pascal string being read.
    pub want: nat,
    /// Entries left in the current batch.
    pub remaining: u16,
    /// The fixed bytes of the current entry read so far.
    pub fixed: Seq<u8>,
    /// The current entry's name.
    pub name: Seq<char>,
    pub servers: Seq<ServerView>,
    pub done: bool,
}

/// How many bytes a part takes.
pub open spec fn part_len(part: ListingPart, want: nat) -> nat {
    match part {
        ListingPart::BatchHeader => 8,
        ListingPart::ServerIp => 4,
        ListingPart::ServerPort => 2,
        ListingPart::UserCount => 2,
        ListingPart::Unused => 2,
        ListingPart::NameLength => 1,
        ListingPart::Name => want,
        ListingPart::DescriptionLength => 1,
        ListingPart::Description => want,
    }
}

/// After a batch: done once the announced entries were read, refused after
/// 100 batches, otherwise the next batch header.
pub open spec fn end_of_batch(s: BatchState) -> Result<BatchState, Seq<char>> {
    if s.cursor.parsed >= s.cursor.expected {
        Ok(BatchState { done: true, ..s })
    } else if s.cursor.batches >= 100 {
        Err("Tracker listing exceeded the batch limit"@)
    } else {
        Ok(BatchState { part: ListingPart::BatchHeader, ..s })
    }
}

/// The entry whose fixed bytes and name were read, with its description.
pub open spec fn entry_of(fixed: Seq<u8>, name: Seq<char>, description: Seq<char>) -> ServerView {
    ServerView {
        address: ipv4_text_of(fixed.subrange(0, 4)),
        port: be_u16(fixed[4], fixed[5]) as u16,
        users: be_u16(fixed[6], fixed[7]) as u16,
        name: optional_text(name),
        description: optional_text(description),
    }
}

/// An entry is complete: it is counted, listed unless it is a separator row,
/// and the batch goes on or ends.
pub open spec fn entry_done(s: BatchState, description: Seq<char>) -> Result<BatchState, Seq<char>> {
    let s2 = BatchState {
        cursor: BatchCursor { parsed: (s.cursor.parsed + 1) as u64, ..s.cursor },
        remaining: (s.remaining - 1) as u16,
        fixed: Seq::empty(),
        name: Seq::empty(),
        servers: if is_separator_name(s.name) { s.servers } else { s.servers.push(entry_of(s.fixed, s.name, description)) },
        ..s
    };
    if s2.remaining > 0 {
        Ok(BatchState { part: ListingPart::ServerIp, ..s2 })
    } else {
        end_of_batch(s2)
    }
}

/// The state after reading the bytes `b` of the current part.
pub open spec fn batch_step(s: BatchState, b: Seq<u8>) -> Result<BatchState, Seq<char>> {
    match s.part {
        ListingPart::BatchHeader => {
            let s2 = BatchState {
                cursor: BatchCursor {
                    batches: (s.cursor.batches + 1) as u32,
                    expected: if s.cursor.expected == 0 { be_u16(b[4], b[5]) as u64 } else { s.cursor.expected },
                    ..s.cursor
                },
                remaining: be_u16(b[6], b[7]) as u16,
                ..s
            };
            if s2.remaining > 0 { Ok(BatchState { part: ListingPart::ServerIp, ..s2 }) } else { end_of_batch(s2) }
        },
        ListingPart::ServerIp => Ok(BatchState { fixed: s.fixed + b, part: ListingPart::ServerPort, ..s }),
        ListingPart::ServerPort => Ok(BatchState { fixed: s.fixed + b, part: ListingPart::UserCount, ..s }),
        ListingPart::UserCount => Ok(BatchState { fixed: s.fixed + b, part: ListingPart::Unused, ..s }),
        ListingPart::Unused => Ok(BatchState { fixed: s.fixed + b, part: ListingPart::NameLength, ..s }),
        ListingPart::NameLength => if b[0] > 0 {
            Ok(BatchState { want: b[0] as nat, part: ListingPart::Name, ..s })
        } else {
            Ok(BatchState { name: Seq::empty(), part: ListingPart::DescriptionLength, ..s })
        },
        ListingPart::Name => Ok(BatchState { name: listing_text(b), part: ListingPart::DescriptionLength, ..s }),
        ListingPart::DescriptionLength => if b[0] > 0 {
            Ok(BatchState { want: b[0] as nat, part: ListingPart::Description, ..s })
        } else {
            entry_done(s, Seq::empty())
        },
        ListingPart::Description => entry_done(s, listing_text(b)),
    }
}

/// A listed server is no separator row.
pub open spec fn not_separator(v: ServerView) -> bool {
    match v.name {
        Some(n) => !is_separator_name(n),
        None => true,
    }
}

/// No listed server is a separator row.
pub open spec fn no_separators(servers: Seq<ServerView>) -> bool {
    forall|i: int| 0 <= i < servers.len() ==> not_separator(#[trigger] servers[i])
}

/// The fixed bytes held while reading a part.
pub open spec fn fixed_len(part: ListingPart) -> nat {
    match part {
        ListingPart::BatchHeader => 0,
        ListingPart::ServerIp => 0,
        ListingPart::ServerPort => 4,
        ListingPart::UserCount => 6,
        ListingPart::Unused => 8,
        _ => 10,
    }
}

pub open spec fn in_entry(part: ListingPart) -> bool {
    part != ListingPart::BatchHeader
}

/// The states a read passes through.
pub open spec fn batch_state_ok(s: BatchState) -> bool {
    &&& s.cursor.batches <= 100
    &&& s.cursor.parsed + s.remaining <= s.cursor.batches * 65535
    &&& !s.done && s.part == ListingPart::BatchHeader ==> s.cursor.batches < 100 && s.remaining == 0
    &&& !s.done && in_entry(s.part) ==> s.remaining > 0
    &&& !s.done ==> s.fixed.len() == fixed_len(s.part)
    &&& (s.part == ListingPart::Name || s.part == ListingPart::Description) ==> 1 <= s.want <= 255
    &&& no_separators(s.servers)
    &&& s.servers.len() <= s.cursor.parsed
}

/// A step from a state a read passes through leads to another such state.
proof fn lemma_step_keeps_state_ok(s: BatchState, b: Seq<u8>)
    requires
        batch_state_ok(s),
        !s.done,
        b.len() == part_len(s.part, s.want),
        batch_step(s, b) is Ok,
    ensures
        batch_state_ok(batch_step(s, b)->Ok_0),
{
    lemma_listing_has_no_separators(s, b);
}

/// A listing read in progress.
pub struct BatchReader {
    cursor: BatchCursor,
    part: ListingPart,
    want: usize,
    remaining: u16,
    fixed: Vec<u8>,
    name: String,
    servers: Vec<TrackerServer>,
    done: bool,
}

impl BatchReader {
    pub closed spec fn view(self) -> BatchState {
        BatchState {
            cursor: self.cursor,
            part: self.part,
            want: self.want as nat,
            remaining: self.remaining,
            fixed: self.fixed@,
            name: self.name@,
            servers: self.servers@.map_values(|s: TrackerServer| server_view(s)),
            done: self.done,
        }
    }

    pub closed spec fn wf(self) -> bool {
        batch_state_ok(self.view())
    }

    /// A read that starts at the first batch header.
    pub fn new() -> (r: Self)
        ensures
            r.wf(),
            r.view() == (BatchState {
                cursor: BatchCursor { batches: 0, parsed: 0, expected: 0 },
                part: ListingPart::BatchHeader,
                want: 0,
                remaining: 0,
                fixed: Seq::empty(),
                name: Seq::empty(),
                servers: Seq::empty(),
                done: false,
            }),
    {
        let r = BatchReader {
            cursor: BatchCursor::new(),
            part: ListingPart::BatchHeader,
            want: 0,
            remaining: 0,
            fixed: Vec::new(),
            name: String::new(),
            servers: Vec::new(),
            done: false,
        };
        assert(r.view().servers =~= Seq::<ServerView>::empty());
        r
    }

    /// The part to read next and its length, or `None` once the listing is
    /// complete.
    pub fn need(&self) -> (r: Option<(ListingPart, usize)>)
        ensures
            self.view().done ==> r is None,
            !self.view().done ==> r == Some((self.view().part, part_len(self.view().part, self.view().want) as usize)),
    {
        if self.done {
            return None;
        }
        let len: usize = match self.part {
            ListingPart::BatchHeader => 8,
            ListingPart::ServerIp => 4,
            ListingPart::ServerPort => 2,
            ListingPart::UserCount => 2,
            ListingPart::Unused => 2,
            ListingPart::NameLength => 1,
            ListingPart::Name => self.want,
            ListingPart::DescriptionLength => 1,
            ListingPart::Description => self.want,
        };
        Some((self.part, len))
    }

    fn end_batch(&mut self) -> (r: Result<(), String>)
        requires
            old(self).view().cursor.batches <= 100,
        ensures
            r is Ok <==> end_of_batch(old(self).view()) is Ok,
            r is Ok ==> final(self).view() == end_of_batch(old(self).view())->Ok_0,
            r matches Err(e) ==> end_of_batch(old(self).view()) == Err::<BatchState, Seq<char>>(e@),
    {
        proof { reveal_strlit("Tracker listing exceeded the batch limit"); }
        if self.cursor.parsed >= self.cursor.expected {
            self.done = true;
            return Ok(());
        }
        if self.cursor.batches >= 100 {
            return Err(owned("Tracker listing exceeded the batch limit"));
        }
        self.part = ListingPart::BatchHeader;
        Ok(())
    }

    fn finish_entry(&mut self, description: String) -> (r: Result<(), String>)
        requires
            batch_state_ok(old(self).view()),
            !old(self).view().done,
            old(self).view().part == ListingPart::Description || old(self).view().part == ListingPart::DescriptionLength,
        ensures
            r is Ok <==> entry_done(old(self).view(), description@) is Ok,
            r is Ok ==> final(self).view() == entry_done(old(self).view(), description@)->Ok_0,
            r matches Err(e) ==> entry_done(old(self).view(), description@) == Err::<BatchState, Seq<char>>(e@),
    {
        let ghost before = self.view();
        let mut fixed: Vec<u8> = Vec::new();
        std::mem::swap(&mut fixed, &mut self.fixed);
        let mut name = String::new();
        std::mem::swap(&mut name, &mut self.name);
        let ghost name_view = name@;
        match v1_server(fixed.as_slice(), name, description) {
            Some(server) => {
                let ghost old_servers = self.servers@;
                self.servers.push(server);
                proof {
                    assert(server_view(server) == entry_of(fixed@, name_view, description@)) by {
                        assert(fixed@.subrange(0, 4) =~= fixed@.subrange(0, 4));
                    }
                    assert(self.servers@.map_values(|s: TrackerServer| server_view(s))
                        =~= old_servers.map_values(|s: TrackerServer| server_view(s)).push(server_view(server)));
                }
            },
            None => {},
        }
        self.cursor.on_entry();
        self.remaining = self.remaining - 1;
        if self.remaining > 0 {
            self.part = ListingPart::ServerIp;
            return Ok(());
        }
        self.end_batch()
    }

    /// Takes the bytes of the part that `need` named.
    pub fn feed(&mut self, bytes: &[u8]) -> (r: Result<(), String>)
        requires
            old(self).wf(),
            !old(self).view().done,
            bytes@.len() == part_len(old(self).view().part, old(self).view().want),
        ensures
            r is Ok <==> batch_step(old(self).view(), bytes@) is Ok,
            r is Ok ==> final(self).wf() && final(self).view() == batch_step(old(self).view(), bytes@)->Ok_0,
            r matches Err(e) ==> batch_step(old(self).view(), bytes@) == Err::<BatchState, Seq<char>>(e@),
            r is Ok ==> final(self).view().cursor.batches <= 100 && no_separators(final(self).view().servers),
            r is Ok ==> final(self).view().servers.len() <= final(self).view().cursor.parsed,
    {
        let ghost before = self.view();
        let r = match self.part {
            ListingPart::BatchHeader => {
                let n = self.cursor.on_header(bytes);
                self.remaining = n;
                if n > 0 {
                    self.part = ListingPart::ServerIp;
                    Ok(())
                } else {
                    self.end_batch()
                }
            },
            ListingPart::ServerIp => {
                extend_bytes(&mut self.fixed, bytes);
                self.part = ListingPart::ServerPort;
                Ok(())
            },
            ListingPart::ServerPort => {
                extend_bytes(&mut self.fixed, bytes);
                self.part = ListingPart::UserCount;
                Ok(())
            },
            ListingPart::UserCount => {
                extend_bytes(&mut self.fixed, bytes);
                self.part = ListingPart::Unused;
                Ok(())
            },
            ListingPart::Unused => {
                extend_bytes(&mut self.fixed, bytes);
                self.part = ListingPart::NameLength;
                Ok(())
            },
            ListingPart::NameLength => {
                if bytes[0] > 0 {
                    self.want = bytes[0] as usize;
                    self.part = ListingPart::Name;
                } else {
                    self.name = String::new();
                    self.part = ListingPart::DescriptionLength;
                }
                Ok(())
            },
            ListingPart::Name => {
                self.name = pascal_text(bytes);
                self.part = ListingPart::DescriptionLength;
                Ok(())
            },
            ListingPart::DescriptionLength => {
                if bytes[0] > 0 {
                    self.want = bytes[0] as usize;
                    self.part = ListingPart::Description;
                    Ok(())
                } else {
                    self.finish_entry(String::new())
                }
            },
            ListingPart::Description => {
                let description = pascal_text(bytes);
                self.finish_entry(description)
            },
        };
        proof {
            if r is Ok {
                assert(self.view() == batch_step(before, bytes@)->Ok_0);
                lemma_step_keeps_state_ok(before, bytes@);
            }
        }
        r
    }

    /// The servers listed so far, in listing order.
    pub fn into_servers(self) -> (r: Vec<TrackerServer>)
        ensures
            r@.map_values(|s: TrackerServer| server_view(s)) == self.view().servers,
    {
        self.servers
    }
}

/// The message prefix for a failed read of `part`.
pub fn failure_prefix(part: ListingPart) -> (r: String)
    ensures
        r@ == match part {
            ListingPart::BatchHeader => "Failed to read tracker batch header"@,
            ListingPart::ServerIp => "Failed to read server IP"@,
            ListingPart::ServerPort => "Failed to read server port"@,
            ListingPart::UserCount => "Failed to read user count"@,
            ListingPart::Unused => "Failed to skip unused bytes"@,
            ListingPart::NameLength => "Failed to read server name length"@,
            ListingPart::Name => "Failed to read server name"@,
            ListingPart::DescriptionLength => "Failed to read server description length"@,
            ListingPart::Description => "Failed to read server description"@,
        },
{
    match part {
        ListingPart::BatchHeader => owned("Failed to read tracker batch header"),
        ListingPart::ServerIp => owned("Failed to read server IP"),
        ListingPart::ServerPort => owned("Failed to read server port"),
        ListingPart::UserCount => owned("Failed to read user count"),
        ListingPart::Unused => owned("Failed to skip unused bytes"),
        ListingPart::NameLength => owned("Failed to read server name length"),
        ListingPart::Name => owned("Failed to read server name"),
        ListingPart::DescriptionLength => owned("Failed to read server description length"),
        ListingPart::Description => owned("Failed to read server description"),
    }
}

/// Separator rows are never listed.
pub proof fn lemma_listing_has_no_separators(s: BatchState, b: Seq<u8>)
    requires
        no_separators(s.servers),
        !s.done,
        batch_step(s, b) is Ok,
    ensures
        no_separators(batch_step(s, b)->Ok_0.servers),
{
    if s.part == ListingPart::Description || s.part == ListingPart::DescriptionLength {
        let d = if s.part == ListingPart::Description { listing_text(b) } else { Seq::<char>::empty() };
        if s.part == ListingPart::Description || b[0] == 0 {
            let servers = if is_separator_name(s.name) { s.servers } else { s.servers.push(entry_of(s.fixed, s.name, d)) };
            assert forall|i: int| 0 <= i < servers.len() implies not_separator(#[trigger] servers[i]) by {
                if i < s.servers.len() {
                    assert(servers[i] == s.servers[i]);
                }
            }
        }
    }
}

} // verus!
