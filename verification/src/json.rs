//! Reading structured transcript documents.
//!
//! serde_json does the JSON parsing. Each piece a document can yield —
//! the message count, one message, the optional document fields, and
//! the two line events of the discriminated line format — has a name:
//! an uninterpreted function of the text alone, applied by exactly one
//! small trusted reader. The verified assembly below then states
//! document acceptance and content exactly over those names, mirroring
//! a strict typed deserialization: one malformed message rejects the
//! whole document.
use crate::types::ClaudeTranscript;
use crate::types::TranscriptMessage;
use crate::types::TranscriptMessageView;
use vstd::prelude::*;

verus! {

/// How many entries the document's `messages` array has; nothing when
/// the text is not a JSON object with a `messages` array.
pub uninterp spec fn doc_message_count(doc: Seq<char>) -> Option<int>;

/// The `k`-th message of the document as plain fields (string `role`
/// and `content`, optional string `timestamp`); nothing when out of
/// range or malformed.
pub uninterp spec fn doc_message_at(doc: Seq<char>, k: int) -> Option<TranscriptMessageView>;

/// The document's optional `session_id`: the outer level is whether the
/// field is acceptable (absent and null count as acceptable and empty),
/// the inner level its text.
pub uninterp spec fn doc_session_of(doc: Seq<char>) -> Option<Option<Seq<char>>>;

/// The document's optional `created_at`, read the same way.
pub uninterp spec fn doc_created_of(doc: Seq<char>) -> Option<Option<Seq<char>>>;

/// What one line of the discriminated format yields as a user event:
/// the nested message content, and the line's session id if any.
pub uninterp spec fn user_event_of(line: Seq<char>) -> Option<UserEventView>;

/// What one line of the discriminated format yields as an assistant
/// event: the content, accepted as a bare string or as a list whose
/// first element carries a `text` field.
pub uninterp spec fn assistant_event_of(line: Seq<char>) -> Option<Seq<char>>;

/// Abstract value of a [`UserEvent`].
pub struct UserEventView {
    pub content: Seq<char>,
    pub session_id: Option<Seq<char>>,
}

/// A user line of the discriminated line format.
#[derive(Debug, Clone, PartialEq, Eq)]
pub struct UserEvent {
    pub content: String,
    pub session_id: Option<String>,
}

impl View for UserEvent {
    type V = UserEventView;

    open spec fn view(&self) -> UserEventView {
        UserEventView { content: self.content@, session_id: self.session_id.deep_view() }
    }
}

impl DeepView for UserEvent {
    type V = UserEventView;

    open spec fn deep_view(&self) -> UserEventView {
        self.view()
    }
}

/// Relies on serde_json (from_str, Value::get, Value::as_array): the
/// length of the document's `messages` array, a function of the text
/// alone.
#[verifier::external_body]
fn read_message_count(doc: &str) -> (r: Option<usize>)
    ensures
        r is Some <==> doc_message_count(doc@) is Some,
        r is Some ==> doc_message_count(doc@) == Some(r->0 as int),
{
    let v: serde_json::Value = serde_json::from_str(doc).ok()?;
    Some(v.get("messages")?.as_array()?.len())
}

/// Relies on serde_json (from_str, Value::get, Value::as_array,
/// Value::as_str, Value::is_null): one message of the document as plain
/// fields, a function of the text alone.
#[verifier::external_body]
fn read_message_at(doc: &str, k: usize) -> (r: Option<TranscriptMessage>)
    ensures
        r.deep_view() == doc_message_at(doc@, k as int),
{
    let v: serde_json::Value = serde_json::from_str(doc).ok()?;
    let m = v.get("messages")?.as_array()?.get(k)?;
    let timestamp = match m.get("timestamp") {
        None => None,
        Some(t) if t.is_null() => None,
        Some(t) => Some(t.as_str()?.to_owned()),
    };
    Some(TranscriptMessage {
        role: m.get("role")?.as_str()?.to_owned(),
        content: m.get("content")?.as_str()?.to_owned(),
        timestamp,
    })
}

/// Relies on serde_json (from_str, Value::get, Value::as_str,
/// Value::is_null): the document's optional `session_id`, a function of
/// the text alone.
#[verifier::external_body]
fn read_doc_session(doc: &str) -> (r: Option<Option<String>>)
    ensures
        r.deep_view() == doc_session_of(doc@),
{
    let v: serde_json::Value = serde_json::from_str(doc).ok()?;
    match v.get("session_id") {
        None => Some(None),
        Some(t) if t.is_null() => Some(None),
        Some(t) => Some(Some(t.as_str()?.to_owned())),
    }
}

/// Relies on serde_json (from_str, Value::get, Value::as_str,
/// Value::is_null): the document's optional `created_at`, a function of
/// the text alone.
#[verifier::external_body]
fn read_doc_created(doc: &str) -> (r: Option<Option<String>>)
    ensures
        r.deep_view() == doc_created_of(doc@),
{
    let v: serde_json::Value = serde_json::from_str(doc).ok()?;
    match v.get("created_at") {
        None => Some(None),
        Some(t) if t.is_null() => Some(None),
        Some(t) => Some(Some(t.as_str()?.to_owned())),
    }
}

/// Relies on serde_json (from_str, Value::get, Value::as_str): a line
/// whose `type` is the user discriminator, with its `message.content`
/// text and `sessionId`; a function of the line's characters alone.
#[verifier::external_body]
pub(crate) fn read_user_line(line: &str) -> (r: Option<UserEvent>)
    ensures
        r.deep_view() == user_event_of(line@),
{
    let v: serde_json::Value = serde_json::from_str(line).ok()?;
    if v.get("type")?.as_str()? != "user" {
        return None;
    }
    let content = v.get("message")?.get("content")?.as_str()?.to_owned();
    let session_id = v.get("sessionId").and_then(|s| s.as_str()).map(|s| s.to_owned());
    Some(UserEvent { content, session_id })
}

/// Relies on serde_json (from_str, Value::get, Value::as_str,
/// Value::as_array): a line whose `type` is the assistant
/// discriminator, with its content taken as a bare string or from the
/// first list element's `text`; a function of the line's characters
/// alone.
#[verifier::external_body]
pub(crate) fn read_assistant_line(line: &str) -> (r: Option<String>)
    ensures
        r.deep_view() == assistant_event_of(line@),
{
    let v: serde_json::Value = serde_json::from_str(line).ok()?;
    if v.get("type")?.as_str()? != "assistant" {
        return None;
    }
    let c = v.get("message")?.get("content")?;
    match c.as_str() {
        Some(s) => Some(s.to_owned()),
        None => c.as_array()?.first()?.get("text")?.as_str().map(|s| s.to_owned()),
    }
}

/// The document is an acceptable structured transcript: it has a
/// messages array, every message is well formed, and the optional
/// document fields are absent, null or strings.
pub open spec fn doc_parses(doc: Seq<char>) -> bool {
    &&& doc_message_count(doc) is Some
    &&& (forall|k: int|
        0 <= k < doc_message_count(doc)->0 ==> (#[trigger] doc_message_at(doc, k)) is Some)
    &&& doc_session_of(doc) is Some
    &&& doc_created_of(doc) is Some
}

/// The messages of an acceptable document, in order.
pub open spec fn doc_messages(doc: Seq<char>) -> Seq<TranscriptMessageView> {
    Seq::new(doc_message_count(doc)->0 as nat, |k: int| doc_message_at(doc, k)->0)
}

/// Reads a whole document as a structured transcript: exactly the
/// acceptable documents yield one, and its fields are the named pieces.
pub fn read_transcript(doc: &str) -> (r: Option<ClaudeTranscript>)
    ensures
        match r {
            Some(t) => doc_parses(doc@) && t.messages.deep_view() == doc_messages(doc@)
                && t.session_id.deep_view() == doc_session_of(doc@)->0
                && t.created_at.deep_view() == doc_created_of(doc@)->0,
            None => !doc_parses(doc@),
        },
{
    let n = match read_message_count(doc) {
        Some(n) => n,
        None => {
            return None;
        },
    };
    let mut messages: Vec<TranscriptMessage> = Vec::new();
    let mut k: usize = 0;
    while k < n
        invariant
            k <= n,
            doc_message_count(doc@) == Some(n as int),
            messages@.len() == k,
            forall|j: int|
                0 <= j < k ==> (#[trigger] doc_message_at(doc@, j)) is Some
                    && messages.deep_view()[j] == doc_message_at(doc@, j)->0,
        decreases n - k,
    {
        match read_message_at(doc, k) {
            Some(m) => {
                let ghost pre = messages.deep_view();
                messages.push(m);
                proof {
                    assert(forall|j: int|
                        0 <= j < pre.len() ==> #[trigger] messages.deep_view()[j] == pre[j]);
                    assert(messages.deep_view()[k as int] == m.deep_view());
                }
            },
            None => {
                proof {
                    assert(doc_message_at(doc@, k as int) is None);
                }
                return None;
            },
        }
        k = k + 1;
    }
    let session_id = match read_doc_session(doc) {
        Some(s) => s,
        None => {
            return None;
        },
    };
    let created_at = match read_doc_created(doc) {
        Some(c) => c,
        None => {
            return None;
        },
    };
    proof {
        assert(messages.deep_view() =~= doc_messages(doc@));
    }
    Some(ClaudeTranscript { messages, session_id, created_at })
}

} // verus!
