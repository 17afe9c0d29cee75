//! The decisions of a tracker session: which protocol version to try, what
//! to answer after the handshake, and which listing to read. Versions 3, 2
//! and 1 are tried in turn on fresh connections; once a handshake is
//! accepted the session never falls back to another version. The caller
//! performs each action and hands back what it read.
use vstd::prelude::*;
use vstd::utf8::encode_utf8;
use crate::bytes::{be_u16, read_u16_be};
use crate::text::owned;
use crate::tracker::{
    check_auth_status, check_metadata_count, handshake, handshake_step, tracker_request, tracker_request_bytes,
    v2_auth_bytes, v2_credentials, v3_auth_bytes, v3_credentials, HandshakeStep,
};

verus! {

/// Where a session stands.
#[derive(Clone, Copy, Debug, PartialEq, Eq, Structural)]
pub enum SessionStage {
    /// Waiting for the six-byte handshake reply.
    Handshake,
    /// Waiting for the version 2 authentication flag.
    V2Flag,
    /// Waiting for the version 2 authentication status.
    V2Status,
    /// Waiting for the version 3 feature word.
    V3Flags,
    /// Waiting for the version 3 authentication status.
    V3Status,
    /// Waiting for the number of metadata fields after the status.
    V3FieldCount,
    V3FieldId,
    V3FieldLength,
    V3FieldBody,
    /// The listing is being read.
    Listing,
}

/// What the caller does next.
pub enum SessionAction {
    /// Open a fresh connection (over TLS when configured), send the request,
    /// and read the six-byte reply, allowing three seconds.
    Connect(u16, Vec<u8>),
    /// Read this many bytes (one integer of the protocol).
    Read(usize),
    /// Read exactly this many bytes of a metadata field's body.
    ReadBody(usize),
    /// Send these bytes, then read this many.
    SendThenRead(Vec<u8>, usize),
    /// Read a version 1 or 2 listing.
    ReadBatches,
    /// Send these bytes, then read a version 3 listing.
    SendThenRecords(Vec<u8>),
}

/// An action, by plain values.
pub enum ActionView {
    Connect(u16, Seq<u8>),
    Read(nat),
    ReadBody(nat),
    SendThenRead(Seq<u8>, nat),
    ReadBatches,
    SendThenRecords(Seq<u8>),
}

pub open spec fn action_view(a: SessionAction) -> ActionView {
    match a {
        SessionAction::Connect(v, r) => ActionView::Connect(v, r@),
        SessionAction::Read(n) => ActionView::Read(n as nat),
        SessionAction::ReadBody(n) => ActionView::ReadBody(n as nat),
        SessionAction::SendThenRead(b, n) => ActionView::SendThenRead(b@, n as nat),
        SessionAction::ReadBatches => ActionView::ReadBatches,
        SessionAction::SendThenRecords(b) => ActionView::SendThenRecords(b@),
    }
}

/// The abstract state of a session.
pub struct SessionState {
    pub version: u16,
    pub stage: SessionStage,
    /// Length of the metadata field body being passed over.
    pub want: nat,
    /// Metadata fields left to pass over.
    pub fields: u16,
    /// The version 3 authentication status.
    pub status: u8,
    pub login: Seq<char>,
    pub password: Seq<char>,
}

/// The version 3 request for the full listing.
pub open spec fn listing_request() -> Seq<u8> {
    seq![0u8, 1, 0, 0]
}

pub type Outcome = Result<(SessionState, ActionView), Seq<char>>;

/// A fresh connection with the given version.
pub open spec fn connect(s: SessionState, version: u16) -> (SessionState, ActionView) {
    (SessionState { version, stage: SessionStage::Handshake, ..s }, ActionView::Connect(version, tracker_request_bytes(version)))
}

/// The session after a handshake reply.
pub open spec fn session_on_handshake(s: SessionState, reply: Seq<u8>) -> Outcome {
    match handshake(s.version, reply) {
        Err(e) => Err(e),
        Ok(HandshakeStep::ReadListing) => Ok((SessionState { stage: SessionStage::Listing, ..s }, ActionView::ReadBatches)),
        Ok(HandshakeStep::Reconnect) => Ok(connect(s, (s.version - 1) as u16)),
        Ok(HandshakeStep::V2Auth) => Ok((SessionState { stage: SessionStage::V2Flag, ..s }, ActionView::Read(1))),
        Ok(HandshakeStep::V3Features) => Ok((SessionState { stage: SessionStage::V3Flags, ..s }, ActionView::Read(2))),
    }
}

/// The session when no handshake reply came: the next older version, until
/// none is left.
pub open spec fn session_on_no_handshake(s: SessionState) -> Outcome {
    if s.version > 1 {
        Ok(connect(s, (s.version - 1) as u16))
    } else {
        Err("Tracker did not accept a supported protocol version"@)
    }
}

/// After the version 3 metadata fields: a denied authentication ends the
/// session, otherwise the listing is requested.
pub open spec fn after_fields(s: SessionState) -> Outcome {
    if s.status != 0 {
        Err("Tracker authentication denied"@)
    } else {
        Ok((SessionState { stage: SessionStage::Listing, ..s }, ActionView::SendThenRecords(listing_request())))
    }
}

pub open spec fn session_field_done(s: SessionState) -> Outcome {
    let s2 = SessionState { fields: (s.fields - 1) as u16, ..s };
    if s2.fields > 0 {
        Ok((SessionState { stage: SessionStage::V3FieldId, ..s2 }, ActionView::Read(2)))
    } else {
        after_fields(s2)
    }
}

/// How many bytes the caller reads in a stage.
pub open spec fn stage_len(stage: SessionStage, want: nat) -> nat {
    match stage {
        SessionStage::V2Flag => 1,
        SessionStage::V2Status => 1,
        SessionStage::V3Flags => 2,
        SessionStage::V3Status => 1,
        SessionStage::V3FieldCount => 2,
        SessionStage::V3FieldId => 2,
        SessionStage::V3FieldLength => 2,
        SessionStage::V3FieldBody => want,
        _ => 0,
    }
}

/// The session after reading the bytes `b` that its stage asked for.
pub open spec fn session_on_bytes(s: SessionState, b: Seq<u8>) -> Outcome {
    let login = encode_utf8(s.login);
    let password = encode_utf8(s.password);
    match s.stage {
        SessionStage::V2Flag => if b[0] == 0 {
            Ok((SessionState { stage: SessionStage::Listing, ..s }, ActionView::ReadBatches))
        } else if b[0] != 1 {
            Err("Invalid tracker authentication flag"@)
        } else if login.len() > 31 || password.len() > 31 {
            Err("Tracker credentials exceed 31 bytes"@)
        } else if s.password.len() == 0 {
            Err("Tracker requires credentials; edit its bookmark"@)
        } else {
            Ok((SessionState { stage: SessionStage::V2Status, ..s }, ActionView::SendThenRead(v2_auth_bytes(login, password), 1)))
        },
        SessionStage::V2Status => if b[0] != 0 {
            Err("Tracker authentication denied"@)
        } else {
            Ok((SessionState { stage: SessionStage::Listing, ..s }, ActionView::ReadBatches))
        },
        SessionStage::V3Flags => if (be_u16(b[0], b[1]) as u16) & 4 == 0 {
            Ok((SessionState { stage: SessionStage::Listing, ..s }, ActionView::SendThenRecords(listing_request())))
        } else if s.password.len() == 0 {
            Err("Tracker requires credentials; edit its bookmark"@)
        } else if login.len() > 65535 || password.len() > 65535 {
            Err("Tracker credentials are too long"@)
        } else {
            Ok((SessionState { stage: SessionStage::V3Status, ..s }, ActionView::SendThenRead(v3_auth_bytes(login, password), 1)))
        },
        SessionStage::V3Status => Ok((SessionState { status: b[0], stage: SessionStage::V3FieldCount, ..s }, ActionView::Read(2))),
        SessionStage::V3FieldCount => {
            let c = be_u16(b[0], b[1]) as u16;
            if c > 1024 {
                Err("Too many tracker metadata fields"@)
            } else if c == 0 {
                after_fields(SessionState { fields: 0, ..s })
            } else {
                Ok((SessionState { fields: c, stage: SessionStage::V3FieldId, ..s }, ActionView::Read(2)))
            }
        },
        SessionStage::V3FieldId => Ok((SessionState { stage: SessionStage::V3FieldLength, ..s }, ActionView::Read(2))),
        SessionStage::V3FieldLength => if be_u16(b[0], b[1]) > 0 {
            Ok((
                SessionState { want: be_u16(b[0], b[1]) as nat, stage: SessionStage::V3FieldBody, ..s },
                ActionView::ReadBody(be_u16(b[0], b[1]) as nat),
            ))
        } else {
            session_field_done(s)
        },
        SessionStage::V3FieldBody => session_field_done(s),
        _ => Err(Seq::empty()),
    }
}

/// The states a session passes through.
pub open spec fn session_ok(s: SessionState) -> bool {
    &&& 1 <= s.version <= 3
    &&& s.stage == SessionStage::V3FieldBody ==> 1 <= s.want <= 65535
    &&& (s.stage == SessionStage::V3FieldId || s.stage == SessionStage::V3FieldLength || s.stage == SessionStage::V3FieldBody) ==> s.fields > 0
}

/// Once a handshake has been accepted, no reply leads to a new connection:
/// a denied authentication, or any other refusal, ends the session instead
/// of trying an older protocol version.
pub proof fn lemma_no_downgrade_after_handshake(s: SessionState, b: Seq<u8>)
    requires
        s.stage != SessionStage::Handshake,
        session_on_bytes(s, b) is Ok,
    ensures
        !(session_on_bytes(s, b)->Ok_0.1 is Connect),
{
}

/// A non-zero authentication status always ends the session with a denial.
pub proof fn lemma_denial_is_final(s: SessionState, b: Seq<u8>)
    requires
        (s.stage == SessionStage::V2Status && b[0] != 0) || (s.stage == SessionStage::V3FieldCount && s.status != 0
            && be_u16(b[0], b[1]) == 0),
    ensures
        session_on_bytes(s, b) == Err::<(SessionState, ActionView), Seq<char>>("Tracker authentication denied"@),
{
}

/// The version 3 field stages: the metadata fields that follow the
/// authentication status.
pub open spec fn field_stage(stage: SessionStage) -> bool {
    stage == SessionStage::V3FieldId || stage == SessionStage::V3FieldLength || stage == SessionStage::V3FieldBody
}

/// A non-zero version 3 authentication status ends the session with a
/// denial once the metadata fields that follow it have been passed over,
/// however many there are: until the last one, every step stays among the
/// field stages with the status kept and one field fewer left after each
/// field, and no step requests a listing; the step that ends the last field
/// (or finds none) is the denial.
pub proof fn lemma_denial_after_metadata_fields(s: SessionState, b: Seq<u8>)
    requires
        session_ok(s),
        s.status != 0,
        s.stage == SessionStage::V3FieldCount || field_stage(s.stage),
        b.len() == stage_len(s.stage, s.want),
    ensures
        session_on_bytes(s, b) matches Ok((t, a)) ==> {
            &&& field_stage(t.stage)
            &&& t.status == s.status
            &&& t.fields > 0
            &&& s.stage != SessionStage::V3FieldCount ==> t.fields <= s.fields
            &&& (s.stage == SessionStage::V3FieldBody || (s.stage == SessionStage::V3FieldLength && be_u16(b[0], b[1]) == 0))
                ==> t.fields == s.fields - 1
            &&& (a is Read || a is ReadBody)
        },
        s.stage == SessionStage::V3FieldCount && be_u16(b[0], b[1]) == 0 ==> session_on_bytes(s, b)
            == Err::<(SessionState, ActionView), Seq<char>>("Tracker authentication denied"@),
        s.fields == 1 && (s.stage == SessionStage::V3FieldBody || (s.stage == SessionStage::V3FieldLength && be_u16(
            b[0],
            b[1],
        ) == 0)) ==> session_on_bytes(s, b) == Err::<(SessionState, ActionView), Seq<char>>("Tracker authentication denied"@),
{
}

/// Each new connection uses an older version than the one before, so a
/// session makes at most three connections.
pub proof fn lemma_versions_decrease(s: SessionState, reply: Seq<u8>)
    requires
        session_ok(s),
        s.stage == SessionStage::Handshake,
    ensures
        session_on_handshake(s, reply) matches Ok((t, a)) ==> (a matches ActionView::Connect(v, _) ==> v == s.version - 1 && t.version == v && v >= 1),
        session_on_no_handshake(s) matches Ok((t, a)) ==> (a matches ActionView::Connect(v, _) ==> v == s.version - 1 && t.version == v && v >= 1),
{
}

/// A tracker session in progress.
pub struct TrackerSession {
    version: u16,
    stage: SessionStage,
    want: usize,
    fields: u16,
    status: u8,
    login: String,
    password: String,
}

impl TrackerSession {
    pub closed spec fn view(self) -> SessionState {
        SessionState {
            version: self.version,
            stage: self.stage,
            want: self.want as nat,
            fields: self.fields,
            status: self.status,
            login: self.login@,
            password: self.password@,
        }
    }

    pub closed spec fn wf(self) -> bool {
        session_ok(self.view())
    }

    /// A session that first tries version 3.
    pub fn start(login: String, password: String) -> (r: (Self, SessionAction))
        ensures
            r.0.wf(),
            r.0.view() == (SessionState {
                version: 3,
                stage: SessionStage::Handshake,
                want: 0,
                fields: 0,
                status: 0,
                login: login@,
                password: password@,
            }),
            action_view(r.1) == ActionView::Connect(3, tracker_request_bytes(3)),
    {
        let session = TrackerSession { version: 3, stage: SessionStage::Handshake, want: 0, fields: 0, status: 0, login, password };
        (session, SessionAction::Connect(3, tracker_request(3)))
    }

    fn reconnect(&mut self) -> (a: SessionAction)
        requires
            old(self).version > 1,
        ensures
            (final(self).view(), action_view(a)) == connect(old(self).view(), (old(self).view().version - 1) as u16),
    {
        self.version = self.version - 1;
        self.stage = SessionStage::Handshake;
        SessionAction::Connect(self.version, tracker_request(self.version))
    }

    /// Takes the six-byte handshake reply.
    pub fn on_handshake(&mut self, reply: &[u8]) -> (r: Result<SessionAction, String>)
        requires
            old(self).wf(),
            old(self).view().stage == SessionStage::Handshake,
            reply@.len() == 6,
        ensures
            r is Ok <==> session_on_handshake(old(self).view(), reply@) is Ok,
            r matches Ok(a) ==> final(self).wf()
                && session_on_handshake(old(self).view(), reply@) == Ok::<(SessionState, ActionView), Seq<char>>((final(self).view(), action_view(a))),
            r matches Err(e) ==> session_on_handshake(old(self).view(), reply@) == Err::<(SessionState, ActionView), Seq<char>>(e@),
    {
        match handshake_step(self.version, reply) {
            Err(e) => Err(e),
            Ok(HandshakeStep::ReadListing) => {
                self.stage = SessionStage::Listing;
                Ok(SessionAction::ReadBatches)
            },
            Ok(HandshakeStep::Reconnect) => Ok(self.reconnect()),
            Ok(HandshakeStep::V2Auth) => {
                self.stage = SessionStage::V2Flag;
                Ok(SessionAction::Read(1))
            },
            Ok(HandshakeStep::V3Features) => {
                self.stage = SessionStage::V3Flags;
                Ok(SessionAction::Read(2))
            },
        }
    }

    /// No handshake reply came (the read failed or took too long).
    pub fn on_no_handshake(&mut self) -> (r: Result<SessionAction, String>)
        requires
            old(self).wf(),
            old(self).view().stage == SessionStage::Handshake,
        ensures
            r is Ok <==> session_on_no_handshake(old(self).view()) is Ok,
            r matches Ok(a) ==> final(self).wf()
                && session_on_no_handshake(old(self).view()) == Ok::<(SessionState, ActionView), Seq<char>>((final(self).view(), action_view(a))),
            r matches Err(e) ==> session_on_no_handshake(old(self).view()) == Err::<(SessionState, ActionView), Seq<char>>(e@),
    {
        proof { reveal_strlit("Tracker did not accept a supported protocol version"); }
        if self.version > 1 {
            Ok(self.reconnect())
        } else {
            Err(owned("Tracker did not accept a supported protocol version"))
        }
    }

    fn fields_finished(&mut self) -> (r: Result<SessionAction, String>)
        ensures
            r is Ok <==> after_fields(old(self).view()) is Ok,
            r matches Ok(a) ==> after_fields(old(self).view()) == Ok::<(SessionState, ActionView), Seq<char>>((final(self).view(), action_view(a))),
            r matches Err(e) ==> after_fields(old(self).view()) == Err::<(SessionState, ActionView), Seq<char>>(e@),
    {
        match check_auth_status(self.status) {
            Err(e) => Err(e),
            Ok(()) => {
                self.stage = SessionStage::Listing;
                let request = vec![0u8, 1, 0, 0];
                assert(request@ =~= listing_request());
                Ok(SessionAction::SendThenRecords(request))
            },
        }
    }

    fn field_finished(&mut self) -> (r: Result<SessionAction, String>)
        requires
            old(self).view().fields > 0,
        ensures
            r is Ok <==> session_field_done(old(self).view()) is Ok,
            r matches Ok(a) ==> session_field_done(old(self).view()) == Ok::<(SessionState, ActionView), Seq<char>>((final(self).view(), action_view(a))),
            r matches Err(e) ==> session_field_done(old(self).view()) == Err::<(SessionState, ActionView), Seq<char>>(e@),
    {
        self.fields = self.fields - 1;
        if self.fields > 0 {
            self.stage = SessionStage::V3FieldId;
            Ok(SessionAction::Read(2))
        } else {
            self.fields_finished()
        }
    }

    /// Takes the bytes that the last `Read`, `ReadBody` or `SendThenRead`
    /// asked for.
    pub fn on_bytes(&mut self, bytes: &[u8]) -> (r: Result<SessionAction, String>)
        requires
            old(self).wf(),
            old(self).view().stage != SessionStage::Handshake,
            old(self).view().stage != SessionStage::Listing,
            bytes@.len() == stage_len(old(self).view().stage, old(self).view().want),
        ensures
            r is Ok <==> session_on_bytes(old(self).view(), bytes@) is Ok,
            r matches Ok(a) ==> final(self).wf()
                && session_on_bytes(old(self).view(), bytes@) == Ok::<(SessionState, ActionView), Seq<char>>((final(self).view(), action_view(a))),
            r matches Err(e) ==> session_on_bytes(old(self).view(), bytes@) == Err::<(SessionState, ActionView), Seq<char>>(e@),
    {
        proof {
            reveal_strlit("Tracker authentication denied");
            reveal_strlit("Too many tracker metadata fields");
        }
        match self.stage {
            SessionStage::V2Flag => match v2_credentials(bytes[0], self.login.as_str(), self.password.as_str()) {
                Err(e) => Err(e),
                Ok(None) => {
                    self.stage = SessionStage::Listing;
                    Ok(SessionAction::ReadBatches)
                },
                Ok(Some(auth)) => {
                    self.stage = SessionStage::V2Status;
                    Ok(SessionAction::SendThenRead(auth, 1))
                },
            },
            SessionStage::V2Status => match check_auth_status(bytes[0]) {
                Err(e) => Err(e),
                Ok(()) => {
                    self.stage = SessionStage::Listing;
                    Ok(SessionAction::ReadBatches)
                },
            },
            SessionStage::V3Flags => {
                let flags = read_u16_be(bytes[0], bytes[1]);
                match v3_credentials(flags, self.login.as_str(), self.password.as_str()) {
                    Err(e) => Err(e),
                    Ok(None) => {
                        self.stage = SessionStage::Listing;
                        let request = vec![0u8, 1, 0, 0];
                        assert(request@ =~= listing_request());
                        Ok(SessionAction::SendThenRecords(request))
                    },
                    Ok(Some(auth)) => {
                        self.stage = SessionStage::V3Status;
                        Ok(SessionAction::SendThenRead(auth, 1))
                    },
                }
            },
            SessionStage::V3Status => {
                self.status = bytes[0];
                self.stage = SessionStage::V3FieldCount;
                Ok(SessionAction::Read(2))
            },
            SessionStage::V3FieldCount => {
                let c = read_u16_be(bytes[0], bytes[1]);
                match check_metadata_count(c) {
                    Err(e) => Err(e),
                    Ok(()) => {
                        if c == 0 {
                            self.fields = 0;
                            self.fields_finished()
                        } else {
                            self.fields = c;
                            self.stage = SessionStage::V3FieldId;
                            Ok(SessionAction::Read(2))
                        }
                    },
                }
            },
            SessionStage::V3FieldId => {
                self.stage = SessionStage::V3FieldLength;
                Ok(SessionAction::Read(2))
            },
            SessionStage::V3FieldLength => {
                let n = read_u16_be(bytes[0], bytes[1]);
                if n > 0 {
                    self.want = n as usize;
                    self.stage = SessionStage::V3FieldBody;
                    Ok(SessionAction::ReadBody(n as usize))
                } else {
                    self.field_finished()
                }
            },
            SessionStage::V3FieldBody => self.field_finished(),
            _ => {
                proof { assert(false); }
                Err(String::new())
            },
        }
    }
}

} // verus!
