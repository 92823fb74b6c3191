//! Ed25519 identity. The public key is the identity; names are local petnames.
//!
//! A signature covers a domain-separated, length-prefixed encoding, so it cannot be moved into
//! another context, and no bytes can move from one field into its neighbour.
use crate::crypto::{
    check_public_key, has_neutral_point, is_public_key, public_key, public_key_of, random_bytes,
    seed_bytes, seed_of, sign, signature_accepted, signature_of, signing_key, verify_strict,
};
use crate::encoding::{
    b64_text_has_no_white, b64_bytes, b64_round_trips, b64_text, b64_text_has_len, decode, encode,
};
use crate::text::{
    decimal_text, first_chars, hex, hex_text, no_white_trims_to_itself, push_decimal, same_text,
    take_chars, trim, trimmed,
};
use crate::wire::{
    byte_values, field_bytes, field_follows, fields_boundaries_are_fixed, fields_bytes, fields_fit,
    first_field_follows,
    le_bytes, le_bytes_is_injective, le_bytes_len, push_bytes, push_field, push_le,
};
use vstd::prelude::*;
use vstd::utf8::{encode_utf8, is_ascii_chars_encode_utf8};

verus! {

/// Bound into every message signature.
pub const DOMAIN: &'static str = "interlink-v2\0";

/// Bound into every presence announcement.
pub const ANNOUNCE_DOMAIN: &'static str = "interlink-announce-v1\0";

/// What a signed message is. The pairing kinds are the only thing that a stranger may deliver.
#[derive(Debug, Clone, Copy, PartialEq, Eq, Structural, Default)]
pub enum MessageKind {
    #[default]
    Message,
    PairRequest,
    PairAccept,
}

impl MessageKind {
    /// The word for this kind.
    pub open spec fn tag(self) -> Seq<char> {
        match self {
            MessageKind::Message => "message"@,
            MessageKind::PairRequest => "pair_request"@,
            MessageKind::PairAccept => "pair_accept"@,
        }
    }

    /// The word for this kind, as it is signed and sent.
    pub fn as_str(self) -> (r: &'static str)
        ensures
            r@ == self.tag(),
    {
        match self {
            MessageKind::Message => "message",
            MessageKind::PairRequest => "pair_request",
            MessageKind::PairAccept => "pair_accept",
        }
    }
}

/// The kind that a word names.
pub open spec fn kind_of_tag(s: Seq<char>) -> Option<MessageKind> {
    if s == "message"@ {
        Some(MessageKind::Message)
    } else if s == "pair_request"@ {
        Some(MessageKind::PairRequest)
    } else if s == "pair_accept"@ {
        Some(MessageKind::PairAccept)
    } else {
        None
    }
}

impl MessageKind {
    /// The kind that a word names; `None` for any other word.
    pub fn from_tag(s: &str) -> (r: Option<MessageKind>)
        ensures
            r == kind_of_tag(s@),
    {
        if same_text(s, "message") {
            Some(MessageKind::Message)
        } else if same_text(s, "pair_request") {
            Some(MessageKind::PairRequest)
        } else if same_text(s, "pair_accept") {
            Some(MessageKind::PairAccept)
        } else {
            None
        }
    }
}

/// The lifecycle marker on a task message.
#[derive(Debug, Clone, Copy, PartialEq, Eq, Structural)]
pub enum TaskStatus {
    /// Progress on a running task.
    Update,
    /// Blocked; needs an answer from the requester.
    NeedsInput,
    /// Terminal: finished successfully.
    Result,
    /// Terminal: finished with an error.
    Failed,
    /// Terminal: aborted by either side.
    Canceled,
}

impl TaskStatus {
    /// The word for this status.
    pub open spec fn tag(self) -> Seq<char> {
        match self {
            TaskStatus::Update => "update"@,
            TaskStatus::NeedsInput => "needs_input"@,
            TaskStatus::Result => "result"@,
            TaskStatus::Failed => "failed"@,
            TaskStatus::Canceled => "canceled"@,
        }
    }

    /// Whether this status closes a task.
    pub open spec fn terminal(self) -> bool {
        self == TaskStatus::Result || self == TaskStatus::Failed || self == TaskStatus::Canceled
    }

    /// The word for this status, as it is signed and sent.
    pub fn as_str(self) -> (r: &'static str)
        ensures
            r@ == self.tag(),
    {
        match self {
            TaskStatus::Update => "update",
            TaskStatus::NeedsInput => "needs_input",
            TaskStatus::Result => "result",
            TaskStatus::Failed => "failed",
            TaskStatus::Canceled => "canceled",
        }
    }

    /// The status that a word names; `None` for any other word.
    pub fn from_tag(s: &str) -> (r: Option<TaskStatus>)
        ensures
            r == status_of_tag(s@),
    {
        if same_text(s, "update") {
            Some(TaskStatus::Update)
        } else if same_text(s, "needs_input") {
            Some(TaskStatus::NeedsInput)
        } else if same_text(s, "result") {
            Some(TaskStatus::Result)
        } else if same_text(s, "failed") {
            Some(TaskStatus::Failed)
        } else if same_text(s, "canceled") {
            Some(TaskStatus::Canceled)
        } else {
            None
        }
    }

    /// Whether this status closes a task: result, failed and canceled do.
    pub fn is_terminal(self) -> (r: bool)
        ensures
            r == self.terminal(),
    {
        match self {
            TaskStatus::Result | TaskStatus::Failed | TaskStatus::Canceled => true,
            _ => false,
        }
    }
}

/// The status that a word names.
pub open spec fn status_of_tag(s: Seq<char>) -> Option<TaskStatus> {
    if s == "update"@ {
        Some(TaskStatus::Update)
    } else if s == "needs_input"@ {
        Some(TaskStatus::NeedsInput)
    } else if s == "result"@ {
        Some(TaskStatus::Result)
    } else if s == "failed"@ {
        Some(TaskStatus::Failed)
    } else if s == "canceled"@ {
        Some(TaskStatus::Canceled)
    } else {
        None
    }
}

/// Each status is named by its own word and by no other.
pub proof fn status_tags_round_trip(status: TaskStatus)
    ensures
        status_of_tag(status.tag()) == Some(status),
        forall|s: Seq<char>| status_of_tag(s) == Some(status) ==> s == status.tag(),
        status.tag().len() > 0,
{
    reveal_strlit("update");
    reveal_strlit("needs_input");
    reveal_strlit("result");
    reveal_strlit("failed");
    reveal_strlit("canceled");
    assert("update"@.len() == 6 && "result"@.len() == 6 && "failed"@.len() == 6);
    assert("needs_input"@.len() == 11 && "canceled"@.len() == 8);
    assert("result"@[0] != "failed"@[0]);
    assert("result"@[0] != "update"@[0]);
    assert("update"@[0] != "failed"@[0]);
}

/// Each kind is named by its own word and by no other.
pub proof fn kind_tags_round_trip(kind: MessageKind)
    ensures
        kind_of_tag(kind.tag()) == Some(kind),
        forall|s: Seq<char>| kind_of_tag(s) == Some(kind) ==> s == kind.tag(),
{
    reveal_strlit("message");
    reveal_strlit("pair_request");
    reveal_strlit("pair_accept");
    assert("message"@.len() == 7 && "pair_request"@.len() == 12 && "pair_accept"@.len() == 11);
}

/// What is wrong with a key, a signature or the random source.
#[derive(Debug, Clone, Copy, PartialEq, Eq, Structural)]
pub enum IdentityError {
    IdNotBase64,
    IdLength,
    IdNotAKey,
    SecretNotBase64,
    SecretLength,
    SignatureNotBase64,
    SignatureLength,
    SignatureRefused,
    NoEntropy,
}

impl IdentityError {
    /// The error in words.
    pub open spec fn words(self) -> Seq<char> {
        match self {
            IdentityError::IdNotBase64 => "agent id is not valid base64"@,
            IdentityError::IdLength => "agent id must be 32 bytes"@,
            IdentityError::IdNotAKey => "not a valid ed25519 public key"@,
            IdentityError::SecretNotBase64 => "secret key is not valid base64"@,
            IdentityError::SecretLength => "secret key must be 32 bytes"@,
            IdentityError::SignatureNotBase64 => "signature is not valid base64"@,
            IdentityError::SignatureLength => "signature must be 64 bytes"@,
            IdentityError::SignatureRefused => "signature does not verify for the sender"@,
            IdentityError::NoEntropy => "OS entropy unavailable"@,
        }
    }

    /// The error in words.
    pub fn message(self) -> (r: String)
        ensures
            r@ == self.words(),
    {
        match self {
            IdentityError::IdNotBase64 => "agent id is not valid base64".to_string(),
            IdentityError::IdLength => "agent id must be 32 bytes".to_string(),
            IdentityError::IdNotAKey => "not a valid ed25519 public key".to_string(),
            IdentityError::SecretNotBase64 => "secret key is not valid base64".to_string(),
            IdentityError::SecretLength => "secret key must be 32 bytes".to_string(),
            IdentityError::SignatureNotBase64 => "signature is not valid base64".to_string(),
            IdentityError::SignatureLength => "signature must be 64 bytes".to_string(),
            IdentityError::SignatureRefused => {
                "signature does not verify for the sender".to_string()
            },
            IdentityError::NoEntropy => "OS entropy unavailable".to_string(),
        }
    }
}

fn array_of_32(v: &Vec<u8>) -> (r: [u8; 32])
    requires
        v@.len() == 32,
    ensures
        r@ == v@,
{
    let mut a: [u8; 32] = [0u8; 32];
    let mut i: usize = 0;
    while i < 32
        invariant
            i <= 32,
            v@.len() == 32,
            a@.len() == 32,
            forall|j: int| 0 <= j < i ==> a@[j] == v@[j],
        decreases 32 - i,
    {
        a[i] = v[i];
        i += 1;
    }
    assert(a@ =~= v@);
    a
}

fn array_of_64(v: &Vec<u8>) -> (r: [u8; 64])
    requires
        v@.len() == 64,
    ensures
        r@ == v@,
{
    let mut a: [u8; 64] = [0u8; 64];
    let mut i: usize = 0;
    while i < 64
        invariant
            i <= 64,
            v@.len() == 64,
            a@.len() == 64,
            forall|j: int| 0 <= j < i ==> a@[j] == v@[j],
        decreases 64 - i,
    {
        a[i] = v[i];
        i += 1;
    }
    assert(a@ =~= v@);
    a
}

/// The public key that `text` writes, or what is wrong with it.
pub open spec fn parse_id(text: Seq<char>) -> Result<Seq<u8>, IdentityError> {
    match b64_bytes(text) {
        None => Err(IdentityError::IdNotBase64),
        Some(bytes) => if bytes.len() != 32 {
            Err(IdentityError::IdLength)
        } else if !is_public_key(bytes) {
            Err(IdentityError::IdNotAKey)
        } else {
            Ok(bytes)
        },
    }
}

/// The secret seed that `text` writes, or what is wrong with it. White space around it is let
/// pass.
pub open spec fn parse_secret(text: Seq<char>) -> Result<Seq<u8>, IdentityError> {
    match b64_bytes(trimmed(text)) {
        None => Err(IdentityError::SecretNotBase64),
        Some(bytes) => if bytes.len() != 32 {
            Err(IdentityError::SecretLength)
        } else {
            Ok(bytes)
        },
    }
}

/// The signature that `text` writes, or what is wrong with it.
pub open spec fn parse_signature(text: Seq<char>) -> Result<Seq<u8>, IdentityError> {
    match b64_bytes(text) {
        None => Err(IdentityError::SignatureNotBase64),
        Some(bytes) => if bytes.len() != 64 {
            Err(IdentityError::SignatureLength)
        } else {
            Ok(bytes)
        },
    }
}

/// An agent's identity: its Ed25519 public key.
#[derive(Debug, Clone, Copy, PartialEq, Eq)]
pub struct AgentId {
    bytes: [u8; 32],
}

impl AgentId {
    /// The bytes of the key.
    pub closed spec fn view(&self) -> Seq<u8> {
        self.bytes@
    }

    #[verifier::type_invariant]
    spec fn is_key(self) -> bool {
        is_public_key(self.bytes@)
    }

    /// Reads a public key from its base64 text.
    pub fn from_b64(s: &str) -> (r: Result<AgentId, IdentityError>)
        ensures
            match r {
                Ok(id) => parse_id(s@) == Ok::<Seq<u8>, IdentityError>(id@),
                Err(e) => parse_id(s@) == Err::<Seq<u8>, IdentityError>(e),
            },
    {
        match decode(s) {
            None => Err(IdentityError::IdNotBase64),
            Some(raw) => {
                if raw.len() != 32 {
                    return Err(IdentityError::IdLength);
                }
                let bytes = array_of_32(&raw);
                if check_public_key(&bytes) {
                    Ok(AgentId { bytes })
                } else {
                    Err(IdentityError::IdNotAKey)
                }
            },
        }
    }

    /// The key in base64. Reading that text gives this identity back.
    pub fn to_b64(self) -> (r: String)
        ensures
            r@ == b64_text(self@),
            r@.len() == 43,
            parse_id(r@) == Ok::<Seq<u8>, IdentityError>(self@),
    {
        proof {
            use_type_invariant(&self);
            b64_round_trips(self@);
            b64_text_has_len(self@);
        }
        encode(&self.bytes)
    }

    /// The first eight characters of the key's text: for people to read, not for authentication.
    pub fn fingerprint(self) -> (r: String)
        ensures
            r@ == first_chars(b64_text(self@), 8),
            r@.len() == 8,
    {
        let text = self.to_b64();
        take_chars(text.as_str(), 8)
    }

    /// The bytes of the key.
    pub fn as_bytes(&self) -> (r: &[u8; 32])
        ensures
            r@ == self@,
            is_public_key(r@),
    {
        proof {
            use_type_invariant(&*self);
        }
        &self.bytes
    }

    /// Whether two identities are the same key.
    pub fn same(&self, other: &AgentId) -> (r: bool)
        ensures
            r == (self@ == other@),
    {
        let mut i: usize = 0;
        while i < 32
            invariant
                i <= 32,
                self@.len() == 32,
                other@.len() == 32,
                forall|j: int| 0 <= j < i ==> self@[j] == other@[j],
            decreases 32 - i,
        {
            if self.bytes[i] != other.bytes[i] {
                assert(self@[i as int] != other@[i as int]);
                return false;
            }
            i += 1;
        }
        assert(self@ =~= other@);
        true
    }
}

/// The view of an optional text.
pub open spec fn opt_text(o: Option<String>) -> Option<Seq<char>> {
    match o {
        Some(s) => Some(s@),
        None => None,
    }
}

/// The view of an optional borrowed text.
pub open spec fn opt_str(o: Option<&str>) -> Option<Seq<char>> {
    match o {
        Some(s) => Some(s@),
        None => None,
    }
}

/// The text, or the empty text.
pub open spec fn or_empty(o: Option<Seq<char>>) -> Seq<char> {
    match o {
        Some(s) => s,
        None => Seq::empty(),
    }
}

/// The status's word, or the empty text.
pub open spec fn status_or_empty(o: Option<TaskStatus>) -> Seq<char> {
    match o {
        Some(s) => s.tag(),
        None => Seq::empty(),
    }
}

/// An owned copy of an optional text.
pub fn opt_string(o: Option<&str>) -> (r: Option<String>)
    ensures
        opt_text(r) == opt_str(o),
{
    match o {
        Some(s) => Some(s.to_string()),
        None => None,
    }
}

/// An optional text, borrowed.
pub fn opt_as_str(o: &Option<String>) -> (r: Option<&str>)
    ensures
        opt_str(r) == opt_text(*o),
{
    match o {
        Some(s) => Some(s.as_str()),
        None => None,
    }
}

/// An optional text, copied.
pub fn opt_copy(o: &Option<String>) -> (r: Option<String>)
    ensures
        opt_text(r) == opt_text(*o),
{
    match o {
        Some(s) => Some(s.clone()),
        None => None,
    }
}

/// A live session under a node identity: its id and the descriptor that a person knows it by.
/// One identity hosts several at once; `key#session_id` is the routing address.
#[derive(Debug, Clone, PartialEq, Eq)]
pub struct SessionInfo {
    pub session_id: String,
    pub cwd: String,
    pub git_root: String,
    pub summary: String,
}

/// The texts of a session.
pub struct SessionView {
    pub session_id: Seq<char>,
    pub cwd: Seq<char>,
    pub git_root: Seq<char>,
    pub summary: Seq<char>,
}

impl View for SessionInfo {
    type V = SessionView;

    open spec fn view(&self) -> SessionView {
        SessionView {
            session_id: self.session_id@,
            cwd: self.cwd@,
            git_root: self.git_root@,
            summary: self.summary@,
        }
    }
}

/// A session of which nothing is said.
pub open spec fn blank_session() -> SessionView {
    SessionView {
        session_id: Seq::empty(),
        cwd: Seq::empty(),
        git_root: Seq::empty(),
        summary: Seq::empty(),
    }
}

impl Default for SessionInfo {
    fn default() -> (r: SessionInfo)
        ensures
            r@ == blank_session(),
    {
        SessionInfo {
            session_id: String::new(),
            cwd: String::new(),
            git_root: String::new(),
            summary: String::new(),
        }
    }
}

impl SessionInfo {
    /// A copy of the descriptor.
    pub fn copy(&self) -> (r: SessionInfo)
        ensures
            r@ == self@,
    {
        SessionInfo {
            session_id: self.session_id.clone(),
            cwd: self.cwd.clone(),
            git_root: self.git_root.clone(),
            summary: self.summary.clone(),
        }
    }
}

/// What travels over the bus, which treats it as an opaque payload.
#[derive(Debug, Clone, PartialEq, Eq)]
pub struct SignedMessage {
    pub from: String,
    pub to: String,
    pub text: String,
    pub ts: u64,
    pub msg_id: String,
    pub kind: MessageKind,
    pub task_id: Option<String>,
    pub status: Option<TaskStatus>,
    pub in_reply_to: Option<String>,
    /// The sender's own inbox route: an unsigned hint, so that a reply returns to the session
    /// that sent this.
    pub reply_to: Option<String>,
    pub sig: String,
}

/// The contents of a signed message.
pub struct MessageView {
    pub from: Seq<char>,
    pub to: Seq<char>,
    pub text: Seq<char>,
    pub ts: u64,
    pub msg_id: Seq<char>,
    pub kind: MessageKind,
    pub task_id: Option<Seq<char>>,
    pub status: Option<TaskStatus>,
    pub in_reply_to: Option<Seq<char>>,
    pub reply_to: Option<Seq<char>>,
    pub sig: Seq<char>,
}

impl View for SignedMessage {
    type V = MessageView;

    open spec fn view(&self) -> MessageView {
        MessageView {
            from: self.from@,
            to: self.to@,
            text: self.text@,
            ts: self.ts,
            msg_id: self.msg_id@,
            kind: self.kind,
            task_id: opt_text(self.task_id),
            status: self.status,
            in_reply_to: opt_text(self.in_reply_to),
            reply_to: opt_text(self.reply_to),
            sig: self.sig@,
        }
    }
}

/// A signed presence announcement. The name is a self-claim; identity is the key.
#[derive(Debug, Clone, PartialEq, Eq)]
pub struct Announcement {
    pub pubkey: String,
    pub name: String,
    pub session: SessionInfo,
    pub ts: u64,
    pub sig: String,
    /// How long ago the announcement was last refreshed, stamped by the bus and never signed.
    pub age_ms: Option<u64>,
}

/// The contents of an announcement.
pub struct AnnouncementView {
    pub pubkey: Seq<char>,
    pub name: Seq<char>,
    pub session: SessionView,
    pub ts: u64,
    pub sig: Seq<char>,
    pub age_ms: Option<u64>,
}

impl View for Announcement {
    type V = AnnouncementView;

    open spec fn view(&self) -> AnnouncementView {
        AnnouncementView {
            pubkey: self.pubkey@,
            name: self.name@,
            session: self.session@,
            ts: self.ts,
            sig: self.sig@,
            age_ms: self.age_ms,
        }
    }
}

/// The texts of a message that its signature covers, in the order in which they are encoded. An
/// absent optional text is encoded as the empty one.
pub open spec fn message_fields(
    msg_id: Seq<char>,
    text: Seq<char>,
    kind: MessageKind,
    task_id: Option<Seq<char>>,
    status: Option<TaskStatus>,
    in_reply_to: Option<Seq<char>>,
) -> Seq<Seq<char>> {
    seq![
        kind.tag(),
        msg_id,
        text,
        status_or_empty(status),
        or_empty(task_id),
        or_empty(in_reply_to),
    ]
}

/// The bytes that a message's signature covers.
pub open spec fn canonical_bytes(
    from: Seq<u8>,
    to: Seq<u8>,
    ts: u64,
    msg_id: Seq<char>,
    text: Seq<char>,
    kind: MessageKind,
    task_id: Option<Seq<char>>,
    status: Option<TaskStatus>,
    in_reply_to: Option<Seq<char>>,
) -> Seq<u8> {
    encode_utf8(DOMAIN@) + from + to + le_bytes(ts as nat, 8) + fields_bytes(
        message_fields(msg_id, text, kind, task_id, status, in_reply_to),
    )
}

/// The bytes that a message's signature covers.
pub fn canonical(
    from: AgentId,
    to: AgentId,
    ts: u64,
    msg_id: &str,
    text: &str,
    kind: MessageKind,
    task_id: Option<&str>,
    status: Option<TaskStatus>,
    in_reply_to: Option<&str>,
) -> (r: Vec<u8>)
    ensures
        r@ == canonical_bytes(
            from@,
            to@,
            ts,
            msg_id@,
            text@,
            kind,
            opt_str(task_id),
            status,
            opt_str(in_reply_to),
        ),
{
    let st: &str = match status {
        Some(s) => s.as_str(),
        None => "",
    };
    let tid: &str = match task_id {
        Some(s) => s,
        None => "",
    };
    let irt: &str = match in_reply_to {
        Some(s) => s,
        None => "",
    };
    proof {
        reveal_strlit("");
        assert(""@ =~= Seq::<char>::empty());
    }
    let mut b: Vec<u8> = Vec::new();
    push_bytes(&mut b, DOMAIN.as_bytes());
    push_bytes(&mut b, from.as_bytes());
    push_bytes(&mut b, to.as_bytes());
    push_le(&mut b, ts, 8);
    let ghost head = b@;
    assert(head =~= encode_utf8(DOMAIN@) + from@ + to@ + le_bytes(ts as nat, 8));
    push_field(&mut b, kind.as_str());
    push_field(&mut b, msg_id);
    push_field(&mut b, text);
    push_field(&mut b, st);
    push_field(&mut b, tid);
    push_field(&mut b, irt);
    proof {
        let f1 = seq![kind.tag()];
        let f2 = f1.push(msg_id@);
        let f3 = f2.push(text@);
        let f4 = f3.push(st@);
        let f5 = f4.push(tid@);
        first_field_follows(head, kind.tag());
        field_follows(head, f1, msg_id@);
        field_follows(head, f2, text@);
        field_follows(head, f3, st@);
        field_follows(head, f4, tid@);
        field_follows(head, f5, irt@);
        assert(f5.push(irt@) =~= message_fields(
            msg_id@,
            text@,
            kind,
            opt_str(task_id),
            status,
            opt_str(in_reply_to),
        ));
    }
    b
}

/// The texts of an announcement that its signature covers.
pub open spec fn announce_fields(name: Seq<char>, session: SessionView) -> Seq<Seq<char>> {
    seq![name, session.session_id, session.cwd, session.git_root, session.summary]
}

/// The bytes that an announcement's signature covers.
pub open spec fn announce_bytes(
    pubkey: Seq<u8>,
    name: Seq<char>,
    session: SessionView,
    ts: u64,
) -> Seq<u8> {
    encode_utf8(ANNOUNCE_DOMAIN@) + pubkey + fields_bytes(announce_fields(name, session))
        + le_bytes(ts as nat, 8)
}

/// The bytes that an announcement's signature covers.
pub fn announce_canonical(pubkey: AgentId, name: &str, session: &SessionInfo, ts: u64) -> (r: Vec<
    u8,
>)
    ensures
        r@ == announce_bytes(pubkey@, name@, session@, ts),
{
    let mut b: Vec<u8> = Vec::new();
    push_bytes(&mut b, ANNOUNCE_DOMAIN.as_bytes());
    push_bytes(&mut b, pubkey.as_bytes());
    let ghost head = b@;
    assert(head =~= encode_utf8(ANNOUNCE_DOMAIN@) + pubkey@);
    push_field(&mut b, name);
    push_field(&mut b, session.session_id.as_str());
    push_field(&mut b, session.cwd.as_str());
    push_field(&mut b, session.git_root.as_str());
    push_field(&mut b, session.summary.as_str());
    proof {
        let f1 = seq![name@];
        let f2 = f1.push(session@.session_id);
        let f3 = f2.push(session@.cwd);
        let f4 = f3.push(session@.git_root);
        first_field_follows(head, name@);
        field_follows(head, f1, session@.session_id);
        field_follows(head, f2, session@.cwd);
        field_follows(head, f3, session@.git_root);
        field_follows(head, f4, session@.summary);
        assert(f4.push(session@.summary) =~= announce_fields(name@, session@));
    }
    push_le(&mut b, ts, 8);
    b
}

impl MessageView {
    /// The bytes that the message's signature covers, for the keys that its addresses write.
    pub open spec fn signed_bytes(self, from: Seq<u8>, to: Seq<u8>) -> Seq<u8> {
        canonical_bytes(
            from,
            to,
            self.ts,
            self.msg_id,
            self.text,
            self.kind,
            self.task_id,
            self.status,
            self.in_reply_to,
        )
    }

    /// The message's lengths fit the four bytes that encode them.
    pub open spec fn encodable(self) -> bool {
        fields_fit(
            message_fields(
                self.msg_id,
                self.text,
                self.kind,
                self.task_id,
                self.status,
                self.in_reply_to,
            ),
        )
    }

    /// The key that the message's signature authenticates, or what is wrong with it.
    pub open spec fn sender(self) -> Result<Seq<u8>, IdentityError> {
        match parse_id(self.from) {
            Err(e) => Err(e),
            Ok(from) => match parse_id(self.to) {
                Err(e) => Err(e),
                Ok(to) => match parse_signature(self.sig) {
                    Err(e) => Err(e),
                    Ok(sig) => if signature_accepted(from, self.signed_bytes(from, to), sig) {
                        Ok(from)
                    } else {
                        Err(IdentityError::SignatureRefused)
                    },
                },
            },
        }
    }
}

impl AnnouncementView {
    /// The key that the announcement's signature authenticates, or what is wrong with it.
    pub open spec fn announcer(self) -> Result<Seq<u8>, IdentityError> {
        match parse_id(self.pubkey) {
            Err(e) => Err(e),
            Ok(id) => match parse_signature(self.sig) {
                Err(e) => Err(e),
                Ok(sig) => if signature_accepted(
                    id,
                    announce_bytes(id, self.name, self.session, self.ts),
                    sig,
                ) {
                    Ok(id)
                } else {
                    Err(IdentityError::SignatureRefused)
                },
            },
        }
    }
}

fn read_signature(text: &str) -> (r: Result<[u8; 64], IdentityError>)
    ensures
        match r {
            Ok(sig) => parse_signature(text@) == Ok::<Seq<u8>, IdentityError>(sig@),
            Err(e) => parse_signature(text@) == Err::<Seq<u8>, IdentityError>(e),
        },
{
    match decode(text) {
        None => Err(IdentityError::SignatureNotBase64),
        Some(raw) => if raw.len() != 64 {
            Err(IdentityError::SignatureLength)
        } else {
            Ok(array_of_64(&raw))
        },
    }
}

impl SignedMessage {
    /// Checks the signature and returns the authenticated sender.
    pub fn verify(&self) -> (r: Result<AgentId, IdentityError>)
        ensures
            match r {
                Ok(id) => self@.sender() == Ok::<Seq<u8>, IdentityError>(id@),
                Err(e) => self@.sender() == Err::<Seq<u8>, IdentityError>(e),
            },
    {
        let from = match AgentId::from_b64(self.from.as_str()) {
            Ok(id) => id,
            Err(e) => return Err(e),
        };
        let to = match AgentId::from_b64(self.to.as_str()) {
            Ok(id) => id,
            Err(e) => return Err(e),
        };
        let sig = match read_signature(self.sig.as_str()) {
            Ok(sig) => sig,
            Err(e) => return Err(e),
        };
        let bytes = canonical(
            from,
            to,
            self.ts,
            self.msg_id.as_str(),
            self.text.as_str(),
            self.kind,
            opt_as_str(&self.task_id),
            self.status,
            opt_as_str(&self.in_reply_to),
        );
        if verify_strict(from.as_bytes(), bytes.as_slice(), &sig) {
            Ok(from)
        } else {
            Err(IdentityError::SignatureRefused)
        }
    }

    /// A copy of the message.
    pub fn copy(&self) -> (r: SignedMessage)
        ensures
            r@ == self@,
    {
        SignedMessage {
            from: self.from.clone(),
            to: self.to.clone(),
            text: self.text.clone(),
            ts: self.ts,
            msg_id: self.msg_id.clone(),
            kind: self.kind,
            task_id: opt_copy(&self.task_id),
            status: self.status,
            in_reply_to: opt_copy(&self.in_reply_to),
            reply_to: opt_copy(&self.reply_to),
            sig: self.sig.clone(),
        }
    }
}

impl Announcement {
    /// Checks the self-signature and returns the authenticated key.
    pub fn verify(&self) -> (r: Result<AgentId, IdentityError>)
        ensures
            match r {
                Ok(id) => self@.announcer() == Ok::<Seq<u8>, IdentityError>(id@),
                Err(e) => self@.announcer() == Err::<Seq<u8>, IdentityError>(e),
            },
    {
        let id = match AgentId::from_b64(self.pubkey.as_str()) {
            Ok(id) => id,
            Err(e) => return Err(e),
        };
        let sig = match read_signature(self.sig.as_str()) {
            Ok(sig) => sig,
            Err(e) => return Err(e),
        };
        let bytes = announce_canonical(id, self.name.as_str(), &self.session, self.ts);
        if verify_strict(id.as_bytes(), bytes.as_slice(), &sig) {
            Ok(id)
        } else {
            Err(IdentityError::SignatureRefused)
        }
    }
}

/// An agent's secret key. It is wiped when it is dropped.
pub struct AgentKey {
    key: ed25519_dalek::SigningKey,
}

impl AgentKey {
    /// The secret seed.
    pub closed spec fn secret(&self) -> Seq<u8> {
        seed_of(self.key)
    }

    /// The bytes of the public key.
    pub open spec fn public(&self) -> Seq<u8> {
        public_key_of(self.secret())
    }

    /// The key with this seed.
    pub fn from_seed(seed: [u8; 32]) -> (r: AgentKey)
        ensures
            r.secret() == seed@,
    {
        AgentKey { key: signing_key(&seed) }
    }

    /// A new key, seeded from the operating system's random source. Nothing is said of which.
    pub fn generate() -> (r: Result<AgentKey, IdentityError>)
        ensures
            r matches Err(e) ==> e == IdentityError::NoEntropy,
    {
        match random_bytes(32) {
            Some(seed) => AgentKey::from_entropy(Some(array_of_32(&seed))),
            None => AgentKey::from_entropy(None),
        }
    }

    /// The key that a draw from the random source gives: the one with the drawn seed, or an error
    /// where nothing was drawn.
    pub fn from_entropy(drawn: Option<[u8; 32]>) -> (r: Result<AgentKey, IdentityError>)
        ensures
            match drawn {
                Some(seed) => r matches Ok(key) && key.secret() == seed@,
                None => r matches Err(e) && e == IdentityError::NoEntropy,
            },
    {
        match drawn {
            Some(seed) => Ok(AgentKey::from_seed(seed)),
            None => Err(IdentityError::NoEntropy),
        }
    }

    /// Reads a secret key from its base64 text, around which white space may stand.
    pub fn from_b64(s: &str) -> (r: Result<AgentKey, IdentityError>)
        ensures
            match r {
                Ok(key) => parse_secret(s@) == Ok::<Seq<u8>, IdentityError>(key.secret()),
                Err(e) => parse_secret(s@) == Err::<Seq<u8>, IdentityError>(e),
            },
    {
        let t = trim(s);
        match decode(t.as_str()) {
            None => Err(IdentityError::SecretNotBase64),
            Some(raw) => if raw.len() != 32 {
                Err(IdentityError::SecretLength)
            } else {
                Ok(AgentKey::from_seed(array_of_32(&raw)))
            },
        }
    }

    /// The secret key in base64. Reading that text gives this key back.
    pub fn to_b64(&self) -> (r: String)
        ensures
            r@ == b64_text(self.secret()),
            parse_secret(r@) == Ok::<Seq<u8>, IdentityError>(self.secret()),
    {
        proof {
            b64_round_trips(self.secret());
            b64_text_has_no_white(self.secret());
            no_white_trims_to_itself(b64_text(self.secret()));
        }
        encode(seed_bytes(&self.key))
    }

    /// The public identity of this key.
    pub fn id(&self) -> (r: AgentId)
        ensures
            r@ == self.public(),
    {
        AgentId { bytes: public_key(&self.key) }
    }

    /// Signs a plain message to `to`.
    pub fn sign(&self, to: AgentId, text: &str, ts: u64, msg_id: &str) -> (r: SignedMessage)
        ensures
            r@ == signed_message(
                self.secret(),
                to@,
                text@,
                ts,
                msg_id@,
                MessageKind::Message,
                None,
                None,
                None,
            ),
            usable_signature(
                self.secret(),
                r@.signed_bytes(self.public(), to@),
            ) ==> r@.sender() == Ok::<Seq<u8>, IdentityError>(self.public()),
    {
        self.sign_full(to, text, ts, msg_id, MessageKind::Message, None, None, None)
    }

    /// Signs a message of the given kind.
    pub fn sign_as(
        &self,
        to: AgentId,
        text: &str,
        ts: u64,
        msg_id: &str,
        kind: MessageKind,
    ) -> (r: SignedMessage)
        ensures
            r@ == signed_message(self.secret(), to@, text@, ts, msg_id@, kind, None, None, None),
            usable_signature(
                self.secret(),
                r@.signed_bytes(self.public(), to@),
            ) ==> r@.sender() == Ok::<Seq<u8>, IdentityError>(self.public()),
    {
        self.sign_full(to, text, ts, msg_id, kind, None, None, None)
    }

    /// Signs a message with optional task metadata, all of which the signature covers. The
    /// message verifies as this key's, unless the signature's point is the neutral element.
    pub fn sign_full(
        &self,
        to: AgentId,
        text: &str,
        ts: u64,
        msg_id: &str,
        kind: MessageKind,
        task_id: Option<&str>,
        status: Option<TaskStatus>,
        in_reply_to: Option<&str>,
    ) -> (r: SignedMessage)
        ensures
            r@ == signed_message(
                self.secret(),
                to@,
                text@,
                ts,
                msg_id@,
                kind,
                opt_str(task_id),
                status,
                opt_str(in_reply_to),
            ),
            usable_signature(
                self.secret(),
                r@.signed_bytes(self.public(), to@),
            ) ==> r@.sender() == Ok::<Seq<u8>, IdentityError>(self.public()),
    {
        let me = self.id();
        let bytes = canonical(me, to, ts, msg_id, text, kind, task_id, status, in_reply_to);
        let sig = sign(&self.key, bytes.as_slice());
        proof {
            b64_round_trips(sig@);
        }
        SignedMessage {
            from: me.to_b64(),
            to: to.to_b64(),
            text: text.to_string(),
            ts,
            msg_id: msg_id.to_string(),
            kind,
            task_id: opt_string(task_id),
            status,
            in_reply_to: opt_string(in_reply_to),
            reply_to: None,
            sig: encode(&sig),
        }
    }

    /// Signs a presence announcement: this key is online as this session, calling itself `name`.
    pub fn announce(&self, name: &str, session: &SessionInfo, ts: u64) -> (r: Announcement)
        ensures
            r@ == signed_announcement(self.secret(), name@, session@, ts),
            usable_signature(
                self.secret(),
                announce_bytes(self.public(), name@, session@, ts),
            ) ==> r@.announcer() == Ok::<Seq<u8>, IdentityError>(self.public()),
    {
        let me = self.id();
        let bytes = announce_canonical(me, name, session, ts);
        let sig = sign(&self.key, bytes.as_slice());
        proof {
            b64_round_trips(sig@);
        }
        Announcement {
            pubkey: me.to_b64(),
            name: name.to_string(),
            session: session.copy(),
            ts,
            sig: encode(&sig),
            age_ms: None,
        }
    }
}

/// The signature of the bytes is one that the strict check does not refuse for its point alone.
pub open spec fn usable_signature(seed: Seq<u8>, bytes: Seq<u8>) -> bool {
    !has_neutral_point(signature_of(seed, bytes))
}

/// The message that the seed signs.
pub open spec fn signed_message(
    seed: Seq<u8>,
    to: Seq<u8>,
    text: Seq<char>,
    ts: u64,
    msg_id: Seq<char>,
    kind: MessageKind,
    task_id: Option<Seq<char>>,
    status: Option<TaskStatus>,
    in_reply_to: Option<Seq<char>>,
) -> MessageView {
    MessageView {
        from: b64_text(public_key_of(seed)),
        to: b64_text(to),
        text,
        ts,
        msg_id,
        kind,
        task_id,
        status,
        in_reply_to,
        reply_to: None,
        sig: b64_text(
            signature_of(
                seed,
                canonical_bytes(
                    public_key_of(seed),
                    to,
                    ts,
                    msg_id,
                    text,
                    kind,
                    task_id,
                    status,
                    in_reply_to,
                ),
            ),
        ),
    }
}

/// The announcement that the seed signs.
pub open spec fn signed_announcement(
    seed: Seq<u8>,
    name: Seq<char>,
    session: SessionView,
    ts: u64,
) -> AnnouncementView {
    AnnouncementView {
        pubkey: b64_text(public_key_of(seed)),
        name,
        session,
        ts,
        sig: b64_text(signature_of(seed, announce_bytes(public_key_of(seed), name, session, ts))),
        age_ms: None,
    }
}

/// A signature covers one message only: bytes that could be the encoding of two messages with
/// fields of encodable length come from messages that agree in everything that is signed. (An
/// absent optional text and an empty one are encoded alike.)
pub proof fn canonical_is_injective(
    a: MessageView,
    from_a: Seq<u8>,
    to_a: Seq<u8>,
    b: MessageView,
    from_b: Seq<u8>,
    to_b: Seq<u8>,
)
    requires
        a.encodable(),
        b.encodable(),
        from_a.len() == 32,
        to_a.len() == 32,
        from_b.len() == 32,
        to_b.len() == 32,
        a.signed_bytes(from_a, to_a) == b.signed_bytes(from_b, to_b),
    ensures
        from_a == from_b,
        to_a == to_b,
        a.ts == b.ts,
        a.msg_id == b.msg_id,
        a.text == b.text,
        a.kind == b.kind,
        a.status == b.status,
        or_empty(a.task_id) == or_empty(b.task_id),
        or_empty(a.in_reply_to) == or_empty(b.in_reply_to),
{
    let d = encode_utf8(DOMAIN@);
    let n = d.len() as int;
    let s = a.signed_bytes(from_a, to_a);
    let fa = message_fields(a.msg_id, a.text, a.kind, a.task_id, a.status, a.in_reply_to);
    let fb = message_fields(b.msg_id, b.text, b.kind, b.task_id, b.status, b.in_reply_to);
    le_bytes_len(a.ts as nat, 8);
    le_bytes_len(b.ts as nat, 8);
    assert(s.subrange(n, n + 32) =~= from_a && s.subrange(n, n + 32) =~= from_b);
    assert(s.subrange(n + 32, n + 64) =~= to_a && s.subrange(n + 32, n + 64) =~= to_b);
    assert(s.subrange(n + 64, n + 72) =~= le_bytes(a.ts as nat, 8));
    assert(s.subrange(n + 64, n + 72) =~= le_bytes(b.ts as nat, 8));
    assert(byte_values(8) == 0x1_0000_0000_0000_0000) by {
        reveal_with_fuel(byte_values, 9);
    }
    le_bytes_is_injective(a.ts as nat, b.ts as nat, 8);
    let none = Seq::<u8>::empty();
    assert(s.skip(n + 72) =~= fields_bytes(fa) + none);
    assert(s.skip(n + 72) =~= fields_bytes(fb) + none);
    fields_boundaries_are_fixed(fa, none, fb, none);
    assert(fa[0] == fb[0] && fa[1] == fb[1] && fa[2] == fb[2]);
    assert(fa[3] == fb[3] && fa[4] == fb[4] && fa[5] == fb[5]);
    kind_tags_round_trip(a.kind);
    kind_tags_round_trip(b.kind);
    status_words_differ(a.status, b.status);
}

proof fn status_words_differ(a: Option<TaskStatus>, b: Option<TaskStatus>)
    requires
        status_or_empty(a) == status_or_empty(b),
    ensures
        a == b,
{
    if let Some(s) = a {
        status_tags_round_trip(s);
    }
    if let Some(s) = b {
        status_tags_round_trip(s);
    }
}

/// An announcement's signature covers one announcement only.
pub proof fn announce_is_injective(
    a: AnnouncementView,
    key_a: Seq<u8>,
    b: AnnouncementView,
    key_b: Seq<u8>,
)
    requires
        fields_fit(announce_fields(a.name, a.session)),
        fields_fit(announce_fields(b.name, b.session)),
        key_a.len() == 32,
        key_b.len() == 32,
        announce_bytes(key_a, a.name, a.session, a.ts) == announce_bytes(
            key_b,
            b.name,
            b.session,
            b.ts,
        ),
    ensures
        key_a == key_b,
        a.name == b.name,
        a.session == b.session,
        a.ts == b.ts,
{
    let n = encode_utf8(ANNOUNCE_DOMAIN@).len() as int;
    let s = announce_bytes(key_a, a.name, a.session, a.ts);
    let fa = announce_fields(a.name, a.session);
    let fb = announce_fields(b.name, b.session);
    let ta = le_bytes(a.ts as nat, 8);
    let tb = le_bytes(b.ts as nat, 8);
    assert(s.subrange(n, n + 32) =~= key_a && s.subrange(n, n + 32) =~= key_b);
    assert(s.skip(n + 32) =~= fields_bytes(fa) + ta);
    assert(s.skip(n + 32) =~= fields_bytes(fb) + tb);
    fields_boundaries_are_fixed(fa, ta, fb, tb);
    assert(byte_values(8) == 0x1_0000_0000_0000_0000) by {
        reveal_with_fuel(byte_values, 9);
    }
    le_bytes_is_injective(a.ts as nat, b.ts as nat, 8);
    assert(fa[0] == fb[0] && fa[1] == fb[1] && fa[2] == fb[2] && fa[3] == fb[3] && fa[4] == fb[4]);
}

/// The hint for the answer is not signed: a message with another hint has the same sender.
pub proof fn hint_is_not_signed(m: MessageView, hint: Option<Seq<char>>)
    ensures
        (MessageView { reply_to: hint, ..m }).sender() == m.sender(),
{
}

/// The age is not signed: an announcement with another age has the same announcer.
pub proof fn age_is_not_signed(a: AnnouncementView, age_ms: Option<u64>)
    ensures
        (AnnouncementView { age_ms, ..a }).announcer() == a.announcer(),
{
}

/// Two messages agree in everything that is signed. (An absent optional text and an empty one are
/// signed alike.)
pub open spec fn same_signed_fields(a: MessageView, b: MessageView) -> bool {
    &&& a.from == b.from
    &&& a.to == b.to
    &&& a.ts == b.ts
    &&& a.msg_id == b.msg_id
    &&& a.text == b.text
    &&& a.kind == b.kind
    &&& a.status == b.status
    &&& or_empty(a.task_id) == or_empty(b.task_id)
    &&& or_empty(a.in_reply_to) == or_empty(b.in_reply_to)
}

/// A message that was changed in any signed field, whichever and however many, either names no
/// valid keys and is refused, or is checked against other bytes than those that were signed.
pub proof fn changed_message_is_checked_against_other_bytes(a: MessageView, b: MessageView)
    requires
        a.encodable(),
        b.encodable(),
        parse_id(a.from) is Ok,
        parse_id(a.to) is Ok,
        !same_signed_fields(a, b),
    ensures
        b.sender() is Err || b.signed_bytes(parse_id(b.from)->Ok_0, parse_id(b.to)->Ok_0)
            != a.signed_bytes(parse_id(a.from)->Ok_0, parse_id(a.to)->Ok_0),
{
    if b.sender() is Ok {
        let (from_a, to_a) = (parse_id(a.from)->Ok_0, parse_id(a.to)->Ok_0);
        let (from_b, to_b) = (parse_id(b.from)->Ok_0, parse_id(b.to)->Ok_0);
        if b.signed_bytes(from_b, to_b) == a.signed_bytes(from_a, to_a) {
            canonical_is_injective(a, from_a, to_a, b, from_b, to_b);
        }
    }
}

/// An announcement that was changed in any signed field either names no valid key and is refused,
/// or is checked against other bytes than those that were signed.
pub proof fn changed_announcement_is_checked_against_other_bytes(
    a: AnnouncementView,
    b: AnnouncementView,
)
    requires
        fields_fit(announce_fields(a.name, a.session)),
        fields_fit(announce_fields(b.name, b.session)),
        parse_id(a.pubkey) is Ok,
        a.pubkey != b.pubkey || a.name != b.name || a.session != b.session || a.ts != b.ts,
    ensures
        b.announcer() is Err || announce_bytes(
            parse_id(b.pubkey)->Ok_0,
            b.name,
            b.session,
            b.ts,
        ) != announce_bytes(parse_id(a.pubkey)->Ok_0, a.name, a.session, a.ts),
{
    if b.announcer() is Ok {
        let (key_a, key_b) = (parse_id(a.pubkey)->Ok_0, parse_id(b.pubkey)->Ok_0);
        if announce_bytes(key_a, a.name, a.session, a.ts) == announce_bytes(
            key_b,
            b.name,
            b.session,
            b.ts,
        ) {
            announce_is_injective(a, key_a, b, key_b);
        }
    }
}

/// A message's signed bytes are never an announcement's: a signature of one is of no use as a
/// signature of the other.
pub proof fn domains_are_separate(
    m: MessageView,
    from: Seq<u8>,
    to: Seq<u8>,
    key: Seq<u8>,
    name: Seq<char>,
    session: SessionView,
    ts: u64,
)
    ensures
        m.signed_bytes(from, to) != announce_bytes(key, name, session, ts),
{
    reveal_strlit("interlink-v2\0");
    reveal_strlit("interlink-announce-v1\0");
    assert(DOMAIN@.len() == 13 && ANNOUNCE_DOMAIN@.len() == 22);
    assert(vstd::utf8::is_ascii_chars(DOMAIN@));
    assert(vstd::utf8::is_ascii_chars(ANNOUNCE_DOMAIN@));
    is_ascii_chars_encode_utf8(DOMAIN@);
    is_ascii_chars_encode_utf8(ANNOUNCE_DOMAIN@);
    assert(DOMAIN@[10] == 'v' && ANNOUNCE_DOMAIN@[10] == 'a');
    assert(m.signed_bytes(from, to)[10] == encode_utf8(DOMAIN@)[10]);
    assert(announce_bytes(key, name, session, ts)[10] == encode_utf8(ANNOUNCE_DOMAIN@)[10]);
}

/// The signed bytes of every message begin with the message domain.
pub proof fn domain_is_bound_in(m: MessageView, from: Seq<u8>, to: Seq<u8>)
    ensures
        encode_utf8(DOMAIN@).is_prefix_of(m.signed_bytes(from, to)),
{
    let d = encode_utf8(DOMAIN@);
    assert(m.signed_bytes(from, to).subrange(0, d.len() as int) =~= d);
}

/// What is wrong with a timestamp.
#[derive(Debug, Clone, Copy, PartialEq, Eq, Structural)]
pub enum Untimely {
    Future { by: u64, limit: u64 },
    Past { by: u64, limit: u64 },
}

/// Whether a timestamp is plausible at `now`: at most `max_future_ms` ahead, at most
/// `max_past_ms` behind.
pub open spec fn freshness(ts: u64, now: u64, max_future_ms: u64, max_past_ms: u64) -> Result<
    (),
    Untimely,
> {
    if ts > now + max_future_ms {
        Err(Untimely::Future { by: (ts - now) as u64, limit: max_future_ms })
    } else if now > ts + max_past_ms {
        Err(Untimely::Past { by: (now - ts) as u64, limit: max_past_ms })
    } else {
        Ok(())
    }
}

/// Refuses implausible timestamps. The future bound guards against forged dates; the past bound
/// says how late a delayed message may arrive.
pub fn check_freshness(ts: u64, now: u64, max_future_ms: u64, max_past_ms: u64) -> (r: Result<
    (),
    Untimely,
>)
    ensures
        r == freshness(ts, now, max_future_ms, max_past_ms),
        r is Ok <==> ts <= now + max_future_ms && now <= ts + max_past_ms,
        ts > now + max_future_ms ==> (r matches Err(Untimely::Future { by, limit }) && by == ts
            - now && limit == max_future_ms),
        now > ts + max_past_ms ==> (r matches Err(Untimely::Past { by, limit }) && by == now - ts
            && limit == max_past_ms),
{
    if ts > now.saturating_add(max_future_ms) {
        return Err(Untimely::Future { by: ts - now, limit: max_future_ms });
    }
    if now > ts.saturating_add(max_past_ms) {
        return Err(Untimely::Past { by: now - ts, limit: max_past_ms });
    }
    Ok(())
}

impl Untimely {
    /// The error in words.
    pub open spec fn words(self) -> Seq<char> {
        match self {
            Untimely::Future { by, limit } => "message timestamp is "@ + decimal_text(by as nat)
                + "ms in the future (max "@ + decimal_text(limit as nat) + "ms)"@,
            Untimely::Past { by, limit } => "message timestamp is "@ + decimal_text(by as nat)
                + "ms in the past (max "@ + decimal_text(limit as nat) + "ms)"@,
        }
    }

    /// The error in words.
    pub fn message(self) -> (r: String)
        ensures
            r@ == self.words(),
    {
        let mut out = "message timestamp is ".to_string();
        match self {
            Untimely::Future { by, limit } => {
                push_decimal(&mut out, by);
                out.append("ms in the future (max ");
                push_decimal(&mut out, limit);
            },
            Untimely::Past { by, limit } => {
                push_decimal(&mut out, by);
                out.append("ms in the past (max ");
                push_decimal(&mut out, limit);
            },
        }
        out.append("ms)");
        out
    }
}

/// The text is the lower-case hexadecimal of that many bytes.
pub open spec fn is_hex_of(s: Seq<char>, bytes: nat) -> bool {
    exists|b: Seq<u8>| b.len() == bytes && s == #[trigger] hex_text(b)
}

/// A new session id: eight lower-case hexadecimal characters from the operating system's random
/// source, so that two sessions in one directory do not collide.
pub fn mint_session_id() -> (r: Result<String, IdentityError>)
    ensures
        match r {
            Ok(id) => is_hex_of(id@, 4),
            Err(e) => e == IdentityError::NoEntropy,
        },
{
    session_id_from(random_bytes(4))
}

/// The session id that a draw from the random source gives: the hexadecimal of what was drawn, or
/// an error where nothing was.
pub fn session_id_from(drawn: Option<Vec<u8>>) -> (r: Result<String, IdentityError>)
    ensures
        match drawn {
            Some(b) => r matches Ok(id) && id@ == hex_text(b@),
            None => r matches Err(e) && e == IdentityError::NoEntropy,
        },
{
    match drawn {
        Some(b) => Ok(hex(&b)),
        None => Err(IdentityError::NoEntropy),
    }
}

/// A new message id: 32 lower-case hexadecimal characters. Where the random source fails they
/// are zeros.
pub fn new_msg_id() -> (r: String)
    ensures
        is_hex_of(r@, 16),
{
    msg_id_from(random_bytes(16))
}

/// The message id that a draw from the random source gives: the hexadecimal of what was drawn, or
/// zeros where nothing was.
pub fn msg_id_from(drawn: Option<Vec<u8>>) -> (r: String)
    ensures
        r@ == hex_text(
            match drawn {
                Some(b) => b@,
                None => Seq::new(16, |i: int| 0u8),
            },
        ),
{
    match drawn {
        Some(b) => hex(&b),
        None => {
            let zeros: Vec<u8> = vec![0u8; 16];
            assert(zeros@ =~= Seq::new(16, |i: int| 0u8));
            hex(&zeros)
        },
    }
}

/// A timestamp is plausible if and only if it is neither further ahead nor further behind than is
/// allowed, by however much; otherwise the error says by how much, and which bound was passed.
pub proof fn freshness_is_within_the_bounds(ts: u64, now: u64, max_future_ms: u64, max_past_ms: u64)
    ensures
        freshness(ts, now, max_future_ms, max_past_ms) is Ok <==> ts <= now + max_future_ms && now
            <= ts + max_past_ms,
        freshness(ts, now, max_future_ms, max_past_ms) matches Err(Untimely::Future { by, limit })
            ==> ts == now + by && by > limit && limit == max_future_ms,
        freshness(ts, now, max_future_ms, max_past_ms) matches Err(Untimely::Past { by, limit })
            ==> now == ts + by && by > limit && limit == max_past_ms,
{
}

/// What has become too old stays too old, and what is not yet too far ahead does not become so.
pub proof fn stale_stays_stale(ts: u64, now: u64, later: u64, max_future_ms: u64, max_past_ms: u64)
    requires
        now <= later,
    ensures
        now > ts + max_past_ms ==> freshness(ts, later, max_future_ms, max_past_ms) is Err,
        ts <= now + max_future_ms && later <= ts + max_past_ms ==> freshness(
            ts,
            later,
            max_future_ms,
            max_past_ms,
        ) is Ok,
{
}

/// A text means a key if and only if it is the base64 of 32 bytes that are a public key: that key.
pub proof fn id_text_means_its_key(text: Seq<char>, key: Seq<u8>)
    ensures
        parse_id(text) == Ok::<Seq<u8>, IdentityError>(key) <==> b64_bytes(text) == Some(key)
            && key.len() == 32 && is_public_key(key),
        parse_id(text) == Err::<Seq<u8>, IdentityError>(IdentityError::IdNotBase64) <==> b64_bytes(
            text,
        ) is None,
        key.len() == 32 && is_public_key(key) ==> parse_id(b64_text(key)) == Ok::<
            Seq<u8>,
            IdentityError,
        >(key),
        key.len() != 32 ==> parse_id(b64_text(key)) == Err::<Seq<u8>, IdentityError>(
            IdentityError::IdLength,
        ),
        key.len() == 32 && !is_public_key(key) ==> parse_id(b64_text(key)) == Err::<
            Seq<u8>,
            IdentityError,
        >(IdentityError::IdNotAKey),
{
    b64_round_trips(key);
}

/// Every 32 bytes are a secret, in base64 with white space around it or without, and nothing else
/// is one.
pub proof fn secret_text_means_its_seed(text: Seq<char>, seed: Seq<u8>)
    ensures
        parse_secret(text) == Ok::<Seq<u8>, IdentityError>(seed) <==> b64_bytes(trimmed(text))
            == Some(seed) && seed.len() == 32,
        parse_secret(b64_text(seed)) is Ok <==> seed.len() == 32,
        seed.len() == 32 ==> parse_secret(b64_text(seed)) == Ok::<Seq<u8>, IdentityError>(seed),
        seed.len() != 32 ==> parse_secret(b64_text(seed)) == Err::<Seq<u8>, IdentityError>(
            IdentityError::SecretLength,
        ),
{
    b64_round_trips(seed);
    b64_text_has_no_white(seed);
    no_white_trims_to_itself(b64_text(seed));
}

/// A message has a sender if and only if its addresses are keys and the sender's key accepts the
/// signature of what the message says, to that recipient; the sender is then the key that the
/// message names.
pub proof fn sender_is_who_signed(m: MessageView, key: Seq<u8>)
    ensures
        m.sender() == Ok::<Seq<u8>, IdentityError>(key) <==> {
            &&& parse_id(m.from) == Ok::<Seq<u8>, IdentityError>(key)
            &&& parse_id(m.to) is Ok
            &&& b64_bytes(m.sig) is Some
            &&& b64_bytes(m.sig)->0.len() == 64
            &&& signature_accepted(
                key,
                canonical_bytes(
                    key,
                    parse_id(m.to)->Ok_0,
                    m.ts,
                    m.msg_id,
                    m.text,
                    m.kind,
                    m.task_id,
                    m.status,
                    m.in_reply_to,
                ),
                b64_bytes(m.sig)->0,
            )
        },
        parse_id(m.from) is Err ==> m.sender() == parse_id(m.from),
        parse_id(m.from) is Ok && parse_id(m.to) is Err ==> m.sender() == parse_id(m.to),
        m.sender() == Err::<Seq<u8>, IdentityError>(IdentityError::SignatureRefused) ==> parse_id(
            m.from,
        ) is Ok && parse_id(m.to) is Ok && b64_bytes(m.sig) is Some,
{
}

/// An announcement has an announcer if and only if it names a key that accepts the signature of
/// what the announcement says; the announcer is then that key.
pub proof fn announcer_is_who_signed(a: AnnouncementView, key: Seq<u8>)
    ensures
        a.announcer() == Ok::<Seq<u8>, IdentityError>(key) <==> {
            &&& parse_id(a.pubkey) == Ok::<Seq<u8>, IdentityError>(key)
            &&& b64_bytes(a.sig) is Some
            &&& b64_bytes(a.sig)->0.len() == 64
            &&& signature_accepted(
                key,
                announce_bytes(key, a.name, a.session, a.ts),
                b64_bytes(a.sig)->0,
            )
        },
        parse_id(a.pubkey) is Err ==> a.announcer() == parse_id(a.pubkey),
{
}

/// A signed message says what it was given to say, in the signer's name and to the recipient, and
/// gives no hint for the answer.
pub proof fn signed_message_says_what_was_given(
    seed: Seq<u8>,
    to: Seq<u8>,
    text: Seq<char>,
    ts: u64,
    msg_id: Seq<char>,
    kind: MessageKind,
    task_id: Option<Seq<char>>,
    status: Option<TaskStatus>,
    in_reply_to: Option<Seq<char>>,
)
    ensures
        ({
            let m = signed_message(seed, to, text, ts, msg_id, kind, task_id, status, in_reply_to);
            &&& b64_bytes(m.from) == Some(public_key_of(seed))
            &&& b64_bytes(m.to) == Some(to)
            &&& m.text == text
            &&& m.ts == ts
            &&& m.msg_id == msg_id
            &&& m.kind == kind
            &&& m.task_id == task_id
            &&& m.status == status
            &&& m.in_reply_to == in_reply_to
            &&& m.reply_to is None
            &&& b64_bytes(m.sig) == Some(
                signature_of(seed, m.signed_bytes(public_key_of(seed), to)),
            )
        }),
{
    let m = signed_message(seed, to, text, ts, msg_id, kind, task_id, status, in_reply_to);
    b64_round_trips(public_key_of(seed));
    b64_round_trips(to);
    b64_round_trips(signature_of(seed, m.signed_bytes(public_key_of(seed), to)));
}

/// A signed announcement says what it was given to say, in the signer's name; its age is for the
/// bus to say.
pub proof fn signed_announcement_says_what_was_given(
    seed: Seq<u8>,
    name: Seq<char>,
    session: SessionView,
    ts: u64,
)
    ensures
        ({
            let a = signed_announcement(seed, name, session, ts);
            &&& b64_bytes(a.pubkey) == Some(public_key_of(seed))
            &&& a.name == name
            &&& a.session == session
            &&& a.ts == ts
            &&& a.age_ms is None
            &&& b64_bytes(a.sig) == Some(
                signature_of(seed, announce_bytes(public_key_of(seed), name, session, ts)),
            )
        }),
{
    b64_round_trips(public_key_of(seed));
    b64_round_trips(signature_of(seed, announce_bytes(public_key_of(seed), name, session, ts)));
}

/// A task is closed by every status but an update and a need for input.
pub proof fn closing_statuses_are(status: TaskStatus)
    ensures
        status.terminal() <==> !(status is Update) && !(status is NeedsInput),
{
}

/// The words of the statuses and of the kinds, as they are signed and sent. Any other word names
/// none.
pub proof fn wire_words_are(word: Seq<char>)
    ensures
        TaskStatus::Update.tag() == "update"@,
        TaskStatus::NeedsInput.tag() == "needs_input"@,
        TaskStatus::Result.tag() == "result"@,
        TaskStatus::Failed.tag() == "failed"@,
        TaskStatus::Canceled.tag() == "canceled"@,
        MessageKind::Message.tag() == "message"@,
        MessageKind::PairRequest.tag() == "pair_request"@,
        MessageKind::PairAccept.tag() == "pair_accept"@,
        status_of_tag(word) matches Some(s) ==> s.tag() == word,
        kind_of_tag(word) matches Some(k) ==> k.tag() == word,
{
}

/// Where each part of a message stands in the bytes that are signed: the domain, the two keys, the
/// time, then the kind, the id, the text, the status, the task and the message that is answered.
pub proof fn message_is_laid_out(m: MessageView, from: Seq<u8>, to: Seq<u8>)
    ensures
        m.signed_bytes(from, to) == encode_utf8("interlink-v2\0"@) + from + to + le_bytes(
            m.ts as nat,
            8,
        ) + field_bytes(m.kind.tag()) + field_bytes(m.msg_id) + field_bytes(m.text) + field_bytes(
            match m.status {
                Some(s) => s.tag(),
                None => Seq::empty(),
            },
        ) + field_bytes(
            match m.task_id {
                Some(t) => t,
                None => Seq::empty(),
            },
        ) + field_bytes(
            match m.in_reply_to {
                Some(t) => t,
                None => Seq::empty(),
            },
        ),
{
    let head = encode_utf8(DOMAIN@) + from + to + le_bytes(m.ts as nat, 8);
    let f1 = seq![m.kind.tag()];
    let f2 = f1.push(m.msg_id);
    let f3 = f2.push(m.text);
    let f4 = f3.push(status_or_empty(m.status));
    let f5 = f4.push(or_empty(m.task_id));
    first_field_follows(head, m.kind.tag());
    field_follows(head, f1, m.msg_id);
    field_follows(head, f2, m.text);
    field_follows(head, f3, status_or_empty(m.status));
    field_follows(head, f4, or_empty(m.task_id));
    field_follows(head, f5, or_empty(m.in_reply_to));
    assert(f5.push(or_empty(m.in_reply_to)) =~= message_fields(
        m.msg_id,
        m.text,
        m.kind,
        m.task_id,
        m.status,
        m.in_reply_to,
    ));
}

/// Where each part of an announcement stands in the bytes that are signed: the domain, the key, the
/// name, the session's id, directory, repository and summary, then the time.
pub proof fn announcement_is_laid_out(key: Seq<u8>, name: Seq<char>, session: SessionView, ts: u64)
    ensures
        announce_bytes(key, name, session, ts) == encode_utf8("interlink-announce-v1\0"@) + key
            + field_bytes(name) + field_bytes(session.session_id) + field_bytes(session.cwd)
            + field_bytes(session.git_root) + field_bytes(session.summary) + le_bytes(
            ts as nat,
            8,
        ),
{
    let head = encode_utf8(ANNOUNCE_DOMAIN@) + key;
    let f1 = seq![name];
    let f2 = f1.push(session.session_id);
    let f3 = f2.push(session.cwd);
    let f4 = f3.push(session.git_root);
    first_field_follows(head, name);
    field_follows(head, f1, session.session_id);
    field_follows(head, f2, session.cwd);
    field_follows(head, f3, session.git_root);
    field_follows(head, f4, session.summary);
    assert(f4.push(session.summary) =~= announce_fields(name, session));
}

/// What is said of an implausible time says by how much, and what the bound is.
pub proof fn untimely_says_by_how_much(by: u64, limit: u64)
    ensures
        (Untimely::Future { by, limit }).words() == "message timestamp is "@ + decimal_text(
            by as nat,
        ) + "ms in the future (max "@ + decimal_text(limit as nat) + "ms)"@,
        (Untimely::Past { by, limit }).words() == "message timestamp is "@ + decimal_text(by as nat)
            + "ms in the past (max "@ + decimal_text(limit as nat) + "ms)"@,
{
}

} // verus!
