//! Turning transcripts into conversation records.
//!
//! The heart of the parser is the one-slot pairing walk: messages are
//! scanned in order, the most recent unpaired user message is buffered
//! (a second user message replaces the first), and each assistant message
//! that finds a buffered user message emits one turn. Assistant messages
//! with no buffered user message, and user messages never followed by an
//! assistant message, emit nothing.
use crate::text::contains_chars;
use crate::text::contains_sub;
use crate::text::eq_chars;
use crate::text::lower_of;
use crate::text::lowercase;
use crate::text::str_chars;
use crate::time::resolve_ts_spec;
use crate::types::ClaudeTranscript;
use crate::types::Conversation;
use crate::types::ConversationMetadata;
use crate::types::ConvView;
use crate::types::TranscriptMessage;
use crate::types::TranscriptMessageView;
use vstd::prelude::*;

verus! {

/// Abstract value of a [`PairedTurn`].
pub struct PairedTurnView {
    pub user_message: Seq<char>,
    pub assistant: TranscriptMessageView,
}

/// One resolved pairing: a user message and the assistant message that
/// answered it.
#[derive(Debug, Clone, PartialEq, Eq)]
pub struct PairedTurn {
    pub user_message: String,
    pub assistant: TranscriptMessage,
}

impl View for PairedTurn {
    type V = PairedTurnView;

    open spec fn view(&self) -> PairedTurnView {
        PairedTurnView { user_message: self.user_message@, assistant: self.assistant@ }
    }
}

impl DeepView for PairedTurn {
    type V = PairedTurnView;

    open spec fn deep_view(&self) -> PairedTurnView {
        self.view()
    }
}

impl DeepView for TranscriptMessage {
    type V = TranscriptMessageView;

    open spec fn deep_view(&self) -> TranscriptMessageView {
        self.view()
    }
}

/// The turns emitted by the one-slot pairing walk from position `i`
/// onward, with `buf` holding the pending user message.
pub open spec fn pair_from(
    msgs: Seq<TranscriptMessageView>,
    i: int,
    buf: Option<Seq<char>>,
) -> Seq<PairedTurnView>
    decreases msgs.len() - i,
{
    if i < 0 || i >= msgs.len() {
        Seq::empty()
    } else if msgs[i].role == "user"@ {
        pair_from(msgs, i + 1, Some(msgs[i].content))
    } else if msgs[i].role == "assistant"@ {
        match buf {
            Some(u) => seq![PairedTurnView { user_message: u, assistant: msgs[i] }] + pair_from(
                msgs,
                i + 1,
                None,
            ),
            None => pair_from(msgs, i + 1, None),
        }
    } else {
        pair_from(msgs, i + 1, buf)
    }
}

/// What the pairing walk yields for a whole message list.
pub open spec fn pair_spec(msgs: Seq<TranscriptMessageView>) -> Seq<PairedTurnView> {
    pair_from(msgs, 0, None)
}

/// A leading assistant message with no buffered user message emits
/// nothing: the walk continues past it unchanged.
pub proof fn lemma_leading_assistant_dropped(msgs: Seq<TranscriptMessageView>)
    requires
        msgs.len() > 0,
        msgs[0].role == "assistant"@,
    ensures
        pair_spec(msgs) == pair_from(msgs, 1, None),
{
    reveal_strlit("user");
    reveal_strlit("assistant");
    assert("user"@.len() == 4);
    assert("assistant"@.len() == 9);
    assert(msgs[0].role != "user"@);
}

/// A trailing user message emits nothing: appending it changes no turn.
pub proof fn lemma_trailing_user_dropped(
    msgs: Seq<TranscriptMessageView>,
    u: TranscriptMessageView,
)
    requires
        u.role == "user"@,
    ensures
        pair_spec(msgs.push(u)) == pair_spec(msgs),
{
    lemma_trailing_user_dropped_from(msgs, u, 0, None);
}

proof fn lemma_trailing_user_dropped_from(
    msgs: Seq<TranscriptMessageView>,
    u: TranscriptMessageView,
    i: int,
    buf: Option<Seq<char>>,
)
    requires
        u.role == "user"@,
        i >= 0,
    ensures
        pair_from(msgs.push(u), i, buf) == pair_from(msgs, i, buf),
    decreases msgs.len() - i,
{
    let ext = msgs.push(u);
    if i >= ext.len() {
    } else if i == msgs.len() {
        assert(ext[i] == u);
        assert(pair_from(ext, i, buf) == pair_from(ext, i + 1, Some(u.content)));
    } else {
        assert(ext[i] == msgs[i]);
        if msgs[i].role == "user"@ {
            lemma_trailing_user_dropped_from(msgs, u, i + 1, Some(msgs[i].content));
        } else if msgs[i].role == "assistant"@ {
            lemma_trailing_user_dropped_from(msgs, u, i + 1, None);
        } else {
            lemma_trailing_user_dropped_from(msgs, u, i + 1, buf);
        }
    }
}

fn role_is(msg: &TranscriptMessage, role: &str) -> (r: bool)
    ensures
        r == (msg@.role == role@),
{
    eq_chars(&str_chars(msg.role.as_str()), &str_chars(role))
}

/// Runs the one-slot pairing walk over a message list.
pub fn pair_messages(messages: &Vec<TranscriptMessage>) -> (r: Vec<PairedTurn>)
    ensures
        r.deep_view() == pair_spec(messages.deep_view()),
{
    let ghost dv = messages.deep_view();
    let mut r: Vec<PairedTurn> = Vec::new();
    let mut buf: Option<String> = None;
    proof {
        assert(r.deep_view() + pair_from(dv, 0, buf.deep_view()) =~= pair_from(
            dv,
            0,
            buf.deep_view(),
        ));
    }
    let n = messages.len();
    let mut i: usize = 0;
    while i < n
        invariant
            i <= n,
            n == messages@.len(),
            dv == messages.deep_view(),
            pair_spec(dv) == r.deep_view() + pair_from(dv, i as int, buf.deep_view()),
        decreases n - i,
    {
        let msg = &messages[i];
        proof {
            assert(dv[i as int] == messages@[i as int]@);
        }
        if role_is(msg, "user") {
            buf = Some(msg.content.clone());
        } else if role_is(msg, "assistant") {
            match buf {
                Some(user_message) => {
                    let ghost pre = r.deep_view();
                    let ghost b = buf.deep_view();
                    let turn = PairedTurn {
                        user_message,
                        assistant: TranscriptMessage {
                            role: msg.role.clone(),
                            content: msg.content.clone(),
                            timestamp: crate::types::clone_opt_string(&msg.timestamp),
                        },
                    };
                    let ghost tv = turn@;
                    r.push(turn);
                    buf = None;
                    proof {
                        assert(tv == PairedTurnView {
                            user_message: b->0,
                            assistant: dv[i as int],
                        });
                        assert(pair_from(dv, i as int, b) == seq![tv] + pair_from(
                            dv,
                            i + 1 as int,
                            None,
                        ));
                        assert(r.deep_view() =~= pre.push(tv));
                        assert(pre.push(tv) =~= pre + seq![tv]);
                        assert((pre + seq![tv]) + pair_from(dv, i + 1 as int, None) =~= pre + (
                        seq![tv] + pair_from(dv, i + 1 as int, None)));
                    }
                },
                None => {
                },
            }
        }
        i = i + 1;
    }
    r
}

/// `(len(user) + len(assistant)) / 4`: a cheap length-based token
/// estimate, not a real tokenizer. Lengths are counted in characters and
/// the sum saturates at the machine limit.
pub fn estimate_token_count(user_msg: &str, assistant_msg: &str) -> (r: usize)
    ensures
        r == sat_add_usize(user_msg@.len() as int, assistant_msg@.len() as int) / 4,
{
    let ul = user_msg.unicode_len();
    let al = assistant_msg.unicode_len();
    let total = if al <= usize::MAX - ul {
        ul + al
    } else {
        usize::MAX
    };
    total / 4
}

/// Integer addition capped at `usize::MAX`.
pub open spec fn sat_add_usize(a: int, b: int) -> int {
    if a + b <= usize::MAX {
        a + b
    } else {
        usize::MAX as int
    }
}

/// One tag for each table keyword found in the lowercased user message,
/// in table order; the fixed table makes duplicates impossible.
pub open spec fn tags_spec(low: Seq<char>) -> Seq<Seq<char>> {
    tag_if(low, "rust"@, "rust"@) + tag_if(low, "python"@, "python"@) + tag_if(
        low,
        "javascript"@,
        "javascript"@,
    ) + tag_if(low, "typescript"@, "typescript"@) + tag_if(low, "react"@, "react"@) + tag_if(
        low,
        "node"@,
        "nodejs"@,
    ) + tag_if(low, "api"@, "api"@) + tag_if(low, "database"@, "database"@) + tag_if(
        low,
        "sql"@,
        "sql"@,
    ) + tag_if(low, "auth"@, "authentication"@) + tag_if(low, "test"@, "testing"@) + tag_if(
        low,
        "debug"@,
        "debugging"@,
    ) + tag_if(low, "performance"@, "performance"@) + tag_if(low, "security"@, "security"@)
}

pub open spec fn tag_if(low: Seq<char>, keyword: Seq<char>, tag: Seq<char>) -> Seq<Seq<char>> {
    if contains_sub(low, keyword) {
        seq![tag]
    } else {
        Seq::empty()
    }
}

fn add_tag_if(tags: &mut Vec<String>, low: &Vec<char>, keyword: &str, tag: &str)
    ensures
        final(tags).deep_view() == old(tags).deep_view() + tag_if(low@, keyword@, tag@),
{
    if contains_chars(low, &str_chars(keyword)) {
        tags.push(tag.to_owned());
        proof {
            assert(tags.deep_view() =~= old(tags).deep_view() + tag_if(low@, keyword@, tag@));
        }
    } else {
        proof {
            assert(tags.deep_view() =~= old(tags).deep_view() + tag_if(low@, keyword@, tag@));
        }
    }
}

/// Scans the lowercased user message against the fixed keyword table.
pub fn extract_tags(content: &str) -> (r: Vec<String>)
    ensures
        r.deep_view() == tags_spec(lower_of(content@)),
{
    let low_string = lowercase(content);
    let low = str_chars(low_string.as_str());
    let ghost lo = lower_of(content@);
    let mut tags: Vec<String> = Vec::new();
    proof {
        assert(tags.deep_view() =~= Seq::<Seq<char>>::empty());
    }
    add_tag_if(&mut tags, &low, "rust", "rust");
    proof {
        assert(Seq::<Seq<char>>::empty() + tag_if(lo, "rust"@, "rust"@) =~= tag_if(
            lo,
            "rust"@,
            "rust"@,
        ));
    }
    add_tag_if(&mut tags, &low, "python", "python");
    add_tag_if(&mut tags, &low, "javascript", "javascript");
    add_tag_if(&mut tags, &low, "typescript", "typescript");
    add_tag_if(&mut tags, &low, "react", "react");
    add_tag_if(&mut tags, &low, "node", "nodejs");
    add_tag_if(&mut tags, &low, "api", "api");
    add_tag_if(&mut tags, &low, "database", "database");
    add_tag_if(&mut tags, &low, "sql", "sql");
    add_tag_if(&mut tags, &low, "auth", "authentication");
    add_tag_if(&mut tags, &low, "test", "testing");
    add_tag_if(&mut tags, &low, "debug", "debugging");
    add_tag_if(&mut tags, &low, "performance", "performance");
    add_tag_if(&mut tags, &low, "security", "security");
    tags
}

/// Whether a file looks like a transcript: a `.json` name that mentions
/// transcripts or conversations, or any substantial `.json` file.
pub open spec fn transcript_file_spec(filename: Seq<char>, file_len: int) -> bool {
    crate::text::ends_with_spec(filename, ".json"@) && (contains_sub(filename, "transcript"@)
        || contains_sub(filename, "conversation"@) || file_len > 100)
}

/// Decides whether a file is worth parsing as a transcript, from its
/// name and size.
pub fn is_transcript_file(filename: &str, file_len: u64) -> (r: bool)
    ensures
        r == transcript_file_spec(filename@, file_len as int),
{
    let f = str_chars(filename);
    if !crate::text::ends_with_chars(&f, &str_chars(".json")) {
        return false;
    }
    contains_chars(&f, &str_chars("transcript")) || contains_chars(&f, &str_chars("conversation"))
        || file_len > 100
}

/// The directories above a path, nearest first: the prefix before each
/// separator, scanning from the end.
pub open spec fn ancestors_spec(p: Seq<char>) -> Seq<Seq<char>>
    decreases p.len(),
{
    if p.len() == 0 {
        Seq::empty()
    } else if p.last() == '/' {
        seq![p.drop_last()] + ancestors_spec(p.drop_last())
    } else {
        ancestors_spec(p.drop_last())
    }
}

/// Lists the directories above a path, nearest first.
pub fn ancestor_dirs(path: &str) -> (r: Vec<String>)
    ensures
        r.deep_view() == ancestors_spec(path@),
{
    let p = str_chars(path);
    let mut r: Vec<String> = Vec::new();
    proof {
        assert(p@.take(p@.len() as int) =~= p@);
        assert(r.deep_view() + ancestors_spec(p@.take(p@.len() as int)) =~= ancestors_spec(p@));
    }
    let mut j: usize = p.len();
    while j > 0
        invariant
            j <= p@.len(),
            p@ == path@,
            ancestors_spec(path@) == r.deep_view() + ancestors_spec(p@.take(j as int)),
        decreases j,
    {
        proof {
            assert(p@.take(j as int).last() == p@[j - 1]);
            assert(p@.take(j as int).drop_last() =~= p@.take(j - 1));
        }
        if p[j - 1] == '/' {
            let mut prefix: Vec<char> = Vec::new();
            let mut t: usize = 0;
            while t < j - 1
                invariant
                    t <= j - 1,
                    j - 1 < p@.len() + 1,
                    j >= 1,
                    prefix@ == p@.subrange(0, t as int),
                decreases j - 1 - t,
            {
                prefix.push(p[t]);
                proof {
                    assert(p@.subrange(0, t + 1 as int) =~= p@.subrange(0, t as int).push(
                        p@[t as int],
                    ));
                }
                t = t + 1;
            }
            let ghost pre = r.deep_view();
            r.push(crate::text::chars_string(&prefix));
            proof {
                assert(prefix@ =~= p@.take(j - 1));
                assert(r.deep_view() =~= pre.push(p@.take(j - 1)));
                assert(pre.push(p@.take(j - 1)) =~= pre + seq![p@.take(j - 1)]);
                assert((pre + seq![p@.take(j - 1)]) + ancestors_spec(p@.take(j - 1)) =~= pre + (
                seq![p@.take(j - 1)] + ancestors_spec(p@.take(j - 1))));
            }
        }
        j = j - 1;
    }
    proof {
        assert(p@.take(0) =~= Seq::<char>::empty());
        assert(r.deep_view() + Seq::<Seq<char>>::empty() =~= r.deep_view());
    }
    r
}

/// Picks the nearest directory that holds a project marker. The caller
/// probes the filesystem: `has_marker[i]` says whether `ancestors[i]`
/// holds one of the recognized marker files.
pub fn detect_project_path(ancestors: &Vec<String>, has_marker: &Vec<bool>) -> (r: Option<String>)
    requires
        ancestors@.len() == has_marker@.len(),
    ensures
        match r {
            Some(d) => exists|i: int|
                0 <= i < has_marker@.len() && has_marker@[i] && (forall|j: int|
                    0 <= j < i ==> !has_marker@[j]) && d@ == ancestors.deep_view()[i],
            None => forall|i: int| 0 <= i < has_marker@.len() ==> !has_marker@[i],
        },
{
    let n = ancestors.len();
    let mut i: usize = 0;
    while i < n
        invariant
            i <= n,
            n == ancestors@.len(),
            n == has_marker@.len(),
            forall|j: int| 0 <= j < i ==> !has_marker@[j],
        decreases n - i,
    {
        if has_marker[i] {
            let d = ancestors[i].clone();
            proof {
                assert(ancestors.deep_view()[i as int] == ancestors@[i as int]@);
            }
            return Some(d);
        }
        i = i + 1;
    }
    None
}

/// Relies on uuid's Uuid::new_v4 and its hyphenated display form: a
/// fresh random identifier, always 36 characters.
#[verifier::external_body]
fn new_conversation_id() -> (r: String)
    ensures
        r@.len() == 36,
{
    uuid::Uuid::new_v4().to_string()
}

/// One resolved turn as the parser reports it, before an id is drawn:
/// the paired texts, the source timestamp if any, and the session id
/// that applies to the turn.
pub struct ParsedTurnView {
    pub user_message: Seq<char>,
    pub assistant_response: Seq<char>,
    pub timestamp: Option<Seq<char>>,
    pub session_id: Option<Seq<char>>,
}

/// What one parsed turn becomes as a record, apart from its freshly
/// drawn id: the texts verbatim, the resolved timestamp, the turn's
/// session id, the given project path, the detected tags and the token
/// estimate.
pub open spec fn conv_matches_turn(
    c: ConvView,
    t: ParsedTurnView,
    project_path: Option<Seq<char>>,
    now_ms: i64,
) -> bool {
    &&& c.user_message == t.user_message
    &&& c.assistant_response == t.assistant_response
    &&& c.timestamp == resolve_ts_spec(t.timestamp, now_ms)
    &&& c.metadata.session_id == t.session_id
    &&& c.metadata.project_path == project_path
    &&& c.metadata.tags == tags_spec(lower_of(t.user_message))
    &&& c.metadata.token_count == sat_add_usize(
        t.user_message.len() as int,
        t.assistant_response.len() as int,
    ) / 4
    &&& c.metadata.embedding_model is None
    &&& c.id.len() == 36
}

/// A paired turn of the structured shapes, as a parsed turn under the
/// document's session id.
pub open spec fn pair_as_turn(p: PairedTurnView, session_id: Option<Seq<char>>) -> ParsedTurnView {
    ParsedTurnView {
        user_message: p.user_message,
        assistant_response: p.assistant.content,
        timestamp: p.assistant.timestamp,
        session_id,
    }
}

/// What one paired turn becomes, apart from its freshly drawn id.
pub open spec fn conv_matches_pair(
    c: ConvView,
    p: PairedTurnView,
    session_id: Option<Seq<char>>,
    project_path: Option<Seq<char>>,
    now_ms: i64,
) -> bool {
    conv_matches_turn(c, pair_as_turn(p, session_id), project_path, now_ms)
}

/// Turns a structured transcript into conversation records: one per
/// paired turn, in pairing order, each with a fresh id, the resolved
/// timestamp, the transcript's session id, the given project path, the
/// detected tags and the token estimate.
pub fn extract_conversations_from_transcript(
    transcript: &ClaudeTranscript,
    project_path: &Option<String>,
    now_ms: i64,
) -> (r: Vec<Conversation>)
    ensures
        r.deep_view().len() == pair_spec(transcript.messages.deep_view()).len(),
        forall|k: int|
            0 <= k < r.deep_view().len() ==> conv_matches_pair(
                #[trigger] r.deep_view()[k],
                pair_spec(transcript.messages.deep_view())[k],
                transcript.session_id.deep_view(),
                project_path.deep_view(),
                now_ms,
            ),
{
    let pairs = pair_messages(&transcript.messages);
    let ghost pv = pairs.deep_view();
    let mut r: Vec<Conversation> = Vec::new();
    let n = pairs.len();
    let mut i: usize = 0;
    while i < n
        invariant
            i <= n,
            n == pairs@.len(),
            pv == pairs.deep_view(),
            pv == pair_spec(transcript.messages.deep_view()),
            r.deep_view().len() == i,
            forall|k: int|
                0 <= k < i ==> conv_matches_pair(
                    #[trigger] r.deep_view()[k],
                    pv[k],
                    transcript.session_id.deep_view(),
                    project_path.deep_view(),
                    now_ms,
                ),
        decreases n - i,
    {
        let p = &pairs[i];
        proof {
            assert(pv[i as int] == pairs@[i as int]@);
        }
        let tags = extract_tags(p.user_message.as_str());
        let token_count = estimate_token_count(
            p.user_message.as_str(),
            p.assistant.content.as_str(),
        );
        let timestamp = crate::time::resolve_timestamp(&p.assistant.timestamp, now_ms);
        let conv = Conversation {
            id: new_conversation_id(),
            timestamp,
            user_message: p.user_message.clone(),
            assistant_response: p.assistant.content.clone(),
            metadata: ConversationMetadata {
                session_id: crate::types::clone_opt_string(&transcript.session_id),
                project_path: crate::types::clone_opt_string(project_path),
                tags,
                token_count,
                embedding_model: None,
            },
        };
        let ghost cv = conv@;
        let ghost pre = r.deep_view();
        r.push(conv);
        proof {
            assert(r.deep_view() =~= pre.push(cv));
            assert(conv_matches_pair(
                cv,
                pv[i as int],
                transcript.session_id.deep_view(),
                project_path.deep_view(),
                now_ms,
            ));
        }
        i = i + 1;
    }
    r
}

/// The line split, carrying the characters collected so far: every
/// newline closes a line (possibly empty), and a trailing run without a
/// newline is a final line.
pub open spec fn lines_acc(s: Seq<char>, i: int, cur: Seq<char>) -> Seq<Seq<char>>
    decreases s.len() - i,
{
    if i < 0 || i >= s.len() {
        if cur.len() > 0 {
            seq![cur]
        } else {
            Seq::empty()
        }
    } else if s[i] == '\n' {
        seq![cur] + lines_acc(s, i + 1, Seq::empty())
    } else {
        lines_acc(s, i + 1, cur.push(s[i]))
    }
}

/// The lines of a document, split at newline characters.
pub open spec fn lines_spec(s: Seq<char>) -> Seq<Seq<char>> {
    lines_acc(s, 0, Seq::empty())
}

/// Splits a document into lines at newline characters.
fn split_lines(content: &str) -> (r: Vec<String>)
    ensures
        r.deep_view() == lines_spec(content@),
{
    let cs = str_chars(content);
    let mut lines: Vec<String> = Vec::new();
    let mut cur: Vec<char> = Vec::new();
    proof {
        assert(lines.deep_view() + lines_acc(cs@, 0, cur@) =~= lines_acc(cs@, 0, cur@));
    }
    let n = cs.len();
    let mut i: usize = 0;
    while i < n
        invariant
            i <= n,
            n == cs@.len(),
            cs@ == content@,
            lines_spec(content@) == lines.deep_view() + lines_acc(cs@, i as int, cur@),
        decreases n - i,
    {
        let c = cs[i];
        if c == '\n' {
            let ghost pre = lines.deep_view();
            let ghost w = cur@;
            lines.push(crate::text::chars_string(&cur));
            cur = Vec::new();
            proof {
                assert(lines.deep_view() =~= pre.push(w));
                assert(pre.push(w) =~= pre + seq![w]);
                assert((pre + seq![w]) + lines_acc(cs@, i + 1 as int, cur@) =~= pre + (seq![w]
                    + lines_acc(cs@, i + 1 as int, cur@)));
            }
        } else {
            cur.push(c);
        }
        i = i + 1;
    }
    if cur.len() > 0 {
        let ghost pre = lines.deep_view();
        let ghost w = cur@;
        lines.push(crate::text::chars_string(&cur));
        proof {
            assert(lines.deep_view() =~= pre.push(w));
            assert(pre.push(w) =~= pre + seq![w]);
        }
    } else {
        proof {
            assert(lines.deep_view() + Seq::<Seq<char>>::empty() =~= lines.deep_view());
        }
    }
    lines
}

fn line_is_blank(line: &str) -> (r: bool)
    ensures
        r == (crate::text::trim_spec(line@).len() == 0),
{
    let t = crate::text::trim_chars(&str_chars(line));
    t.len() == 0
}

/// The turns of one structured-transcript document: the pairing walk
/// over its messages, each turn under the document's session id; a
/// document that is not an acceptable transcript yields none.
pub open spec fn doc_turns(doc: Seq<char>) -> Seq<ParsedTurnView> {
    if crate::json::doc_parses(doc) {
        pair_spec(crate::json::doc_messages(doc)).map_values(
            |p: PairedTurnView| pair_as_turn(p, crate::json::doc_session_of(doc)->0),
        )
    } else {
        Seq::empty()
    }
}

/// The turns of the line-delimited variant from line `i` onward: each
/// non-blank line that is itself an acceptable document contributes its
/// turns; any other line is skipped and never aborts the file.
pub open spec fn lines_turns(lines: Seq<Seq<char>>, i: int) -> Seq<ParsedTurnView>
    decreases lines.len() - i,
{
    if i < 0 || i >= lines.len() {
        Seq::empty()
    } else if crate::text::trim_spec(lines[i]).len() == 0 {
        lines_turns(lines, i + 1)
    } else {
        doc_turns(lines[i]) + lines_turns(lines, i + 1)
    }
}

/// The one-slot pairing walk of the discriminated line format from line
/// `i` onward: a user event fills the slot and sets the session, an
/// assistant event with a filled slot emits one turn and clears it, and
/// blank or malformed lines are skipped without aborting the file.
pub open spec fn jsonl_turns(
    lines: Seq<Seq<char>>,
    i: int,
    buf: Option<Seq<char>>,
    session: Option<Seq<char>>,
) -> Seq<ParsedTurnView>
    decreases lines.len() - i,
{
    if i < 0 || i >= lines.len() {
        Seq::empty()
    } else if crate::text::trim_spec(lines[i]).len() == 0 {
        jsonl_turns(lines, i + 1, buf, session)
    } else {
        match crate::json::user_event_of(lines[i]) {
            Some(ev) => jsonl_turns(lines, i + 1, Some(ev.content), ev.session_id),
            None => match crate::json::assistant_event_of(lines[i]) {
                Some(answer) => match buf {
                    Some(u) => seq![
                        ParsedTurnView {
                            user_message: u,
                            assistant_response: answer,
                            timestamp: None,
                            session_id: session,
                        },
                    ] + jsonl_turns(lines, i + 1, None, session),
                    None => jsonl_turns(lines, i + 1, None, session),
                },
                None => jsonl_turns(lines, i + 1, buf, session),
            },
        }
    }
}

/// What the discriminated line format parses to.
pub open spec fn jsonl_spec(content: Seq<char>) -> Seq<ParsedTurnView> {
    jsonl_turns(lines_spec(content), 0, None, None)
}

/// One resolved turn carried between the shape walks and record
/// building.
#[derive(Debug, Clone, PartialEq, Eq)]
pub struct ParsedTurn {
    pub user_message: String,
    pub assistant_response: String,
    pub timestamp: Option<String>,
    pub session_id: Option<String>,
}

impl View for ParsedTurn {
    type V = ParsedTurnView;

    open spec fn view(&self) -> ParsedTurnView {
        ParsedTurnView {
            user_message: self.user_message@,
            assistant_response: self.assistant_response@,
            timestamp: self.timestamp.deep_view(),
            session_id: self.session_id.deep_view(),
        }
    }
}

impl DeepView for ParsedTurn {
    type V = ParsedTurnView;

    open spec fn deep_view(&self) -> ParsedTurnView {
        self.view()
    }
}

/// Runs the one-slot walk of the discriminated line format.
fn jsonl_collect(lines: &Vec<String>) -> (r: Vec<ParsedTurn>)
    ensures
        r.deep_view() == jsonl_turns(lines.deep_view(), 0, None, None),
{
    let ghost lv = lines.deep_view();
    let mut r: Vec<ParsedTurn> = Vec::new();
    let mut buf: Option<String> = None;
    let mut session: Option<String> = None;
    proof {
        assert(r.deep_view() + jsonl_turns(lv, 0, buf.deep_view(), session.deep_view())
            =~= jsonl_turns(lv, 0, buf.deep_view(), session.deep_view()));
    }
    let n = lines.len();
    let mut i: usize = 0;
    while i < n
        invariant
            i <= n,
            n == lines@.len(),
            lv == lines.deep_view(),
            jsonl_turns(lv, 0, None, None) == r.deep_view() + jsonl_turns(
                lv,
                i as int,
                buf.deep_view(),
                session.deep_view(),
            ),
        decreases n - i,
    {
        let line = &lines[i];
        proof {
            assert(lv[i as int] == lines@[i as int]@);
        }
        if !line_is_blank(line.as_str()) {
            match crate::json::read_user_line(line.as_str()) {
                Some(ev) => {
                    let ghost evv = ev.deep_view();
                    buf = Some(ev.content);
                    session = ev.session_id;
                    proof {
                        assert(buf.deep_view() == Some(evv.content));
                        assert(session.deep_view() == evv.session_id);
                    }
                },
                None => {
                    match crate::json::read_assistant_line(line.as_str()) {
                        Some(answer) => {
                            let pending = buf;
                            buf = None;
                            match pending {
                                Some(user_message) => {
                                    let ghost u = user_message@;
                                    let ghost s = session.deep_view();
                                    let ghost pre = r.deep_view();
                                    let ghost av = answer@;
                                    let turn = ParsedTurn {
                                        user_message,
                                        assistant_response: answer,
                                        timestamp: None,
                                        session_id: crate::types::clone_opt_string(&session),
                                    };
                                    let ghost tv = turn@;
                                    r.push(turn);
                                    proof {
                                        assert(tv == ParsedTurnView {
                                            user_message: u,
                                            assistant_response: av,
                                            timestamp: None,
                                            session_id: s,
                                        });
                                        assert(r.deep_view() =~= pre.push(tv));
                                        assert(pre.push(tv) =~= pre + seq![tv]);
                                        assert((pre + seq![tv]) + jsonl_turns(
                                            lv,
                                            i + 1 as int,
                                            None,
                                            s,
                                        ) =~= pre + (seq![tv] + jsonl_turns(
                                            lv,
                                            i + 1 as int,
                                            None,
                                            s,
                                        )));
                                    }
                                },
                                None => {},
                            }
                        },
                        None => {},
                    }
                },
            }
        }
        i = i + 1;
    }
    r
}

/// Draws an id for each parsed turn and fills in the record fields:
/// resolved timestamp, session id, project path, tags, token estimate.
fn build_records(turns: &Vec<ParsedTurn>, project_path: &Option<String>, now_ms: i64) -> (r: Vec<
    Conversation,
>)
    ensures
        r.deep_view().len() == turns.deep_view().len(),
        forall|k: int|
            0 <= k < r.deep_view().len() ==> conv_matches_turn(
                #[trigger] r.deep_view()[k],
                turns.deep_view()[k],
                project_path.deep_view(),
                now_ms,
            ),
{
    let ghost tv = turns.deep_view();
    let mut r: Vec<Conversation> = Vec::new();
    let n = turns.len();
    let mut i: usize = 0;
    while i < n
        invariant
            i <= n,
            n == turns@.len(),
            tv == turns.deep_view(),
            r.deep_view().len() == i,
            forall|k: int|
                0 <= k < i ==> conv_matches_turn(
                    #[trigger] r.deep_view()[k],
                    tv[k],
                    project_path.deep_view(),
                    now_ms,
                ),
        decreases n - i,
    {
        let t = &turns[i];
        proof {
            assert(tv[i as int] == turns@[i as int]@);
        }
        let tags = extract_tags(t.user_message.as_str());
        let token_count = estimate_token_count(
            t.user_message.as_str(),
            t.assistant_response.as_str(),
        );
        let timestamp = crate::time::resolve_timestamp(&t.timestamp, now_ms);
        let conv = Conversation {
            id: new_conversation_id(),
            timestamp,
            user_message: t.user_message.clone(),
            assistant_response: t.assistant_response.clone(),
            metadata: ConversationMetadata {
                session_id: crate::types::clone_opt_string(&t.session_id),
                project_path: crate::types::clone_opt_string(project_path),
                tags,
                token_count,
                embedding_model: None,
            },
        };
        let ghost cv = conv@;
        let ghost pre = r.deep_view();
        r.push(conv);
        proof {
            assert(r.deep_view() =~= pre.push(cv));
            assert(conv_matches_turn(cv, tv[i as int], project_path.deep_view(), now_ms));
        }
        i = i + 1;
    }
    r
}

/// Parses the line-delimited discriminated shape: `type` selects user
/// or assistant, content sits under `message.content` (a bare string,
/// or a list whose first element carries `text`), and a user line's
/// `sessionId` is copied into the records its turns lead to. One turn
/// per one-slot pairing, in order; a line that does not read as either
/// event is skipped and never aborts the file.
pub fn parse_claude_jsonl_transcript(
    content: &str,
    project_path: &Option<String>,
    now_ms: i64,
) -> (r: Vec<Conversation>)
    ensures
        r.deep_view().len() == jsonl_spec(content@).len(),
        forall|k: int|
            0 <= k < r.deep_view().len() ==> conv_matches_turn(
                #[trigger] r.deep_view()[k],
                jsonl_spec(content@)[k],
                project_path.deep_view(),
                now_ms,
            ),
{
    let lines = split_lines(content);
    let turns = jsonl_collect(&lines);
    build_records(&turns, project_path, now_ms)
}

/// What a transcript document parses to: the three shapes are tried in
/// order — one structured document, the same per line, then the
/// discriminated line format — and a shape that yields no turns falls
/// through to the next.
pub open spec fn parse_spec(content: Seq<char>) -> Seq<ParsedTurnView> {
    let whole = doc_turns(content);
    let per_line = lines_turns(lines_spec(content), 0);
    if whole.len() > 0 {
        whole
    } else if per_line.len() > 0 {
        per_line
    } else {
        jsonl_spec(content)
    }
}

/// Parses one transcript document: one record per turn of the shape
/// that `parse_spec` selects, in order, each with a fresh id. Anything
/// below document level that is malformed is recovered by omission;
/// this function itself never fails.
pub fn parse_transcript(content: &str, project_path: &Option<String>, now_ms: i64) -> (r: Vec<
    Conversation,
>)
    ensures
        r.deep_view().len() == parse_spec(content@).len(),
        forall|k: int|
            0 <= k < r.deep_view().len() ==> conv_matches_turn(
                #[trigger] r.deep_view()[k],
                parse_spec(content@)[k],
                project_path.deep_view(),
                now_ms,
            ),
{
    match crate::json::read_transcript(content) {
        Some(t) => {
            let convs = extract_conversations_from_transcript(&t, project_path, now_ms);
            proof {
                assert(pair_spec(t.messages.deep_view()) == pair_spec(
                    crate::json::doc_messages(content@),
                ));
                assert(doc_turns(content@).len() == pair_spec(
                    crate::json::doc_messages(content@),
                ).len());
            }
            if convs.len() > 0 {
                proof {
                    let pairs = pair_spec(crate::json::doc_messages(content@));
                    let session = crate::json::doc_session_of(content@)->0;
                    assert(parse_spec(content@) == doc_turns(content@));
                    assert forall|k: int|
                        0 <= k < convs.deep_view().len() implies conv_matches_turn(
                        #[trigger] convs.deep_view()[k],
                        parse_spec(content@)[k],
                        project_path.deep_view(),
                        now_ms,
                    ) by {
                        assert(doc_turns(content@)[k] == pair_as_turn(pairs[k], session));
                        assert(conv_matches_pair(
                            convs.deep_view()[k],
                            pairs[k],
                            t.session_id.deep_view(),
                            project_path.deep_view(),
                            now_ms,
                        ));
                    }
                }
                return convs;
            }
            proof {
                assert(doc_turns(content@).len() == 0);
            }
        },
        None => {
            proof {
                assert(doc_turns(content@) =~= Seq::<ParsedTurnView>::empty());
            }
        },
    }
    let lines = split_lines(content);
    let ghost lv = lines.deep_view();
    let mut convs: Vec<Conversation> = Vec::new();
    let ghost mut done: Seq<ParsedTurnView> = Seq::empty();
    proof {
        assert(done + lines_turns(lv, 0) =~= lines_turns(lv, 0));
    }
    let n = lines.len();
    let mut i: usize = 0;
    while i < n
        invariant
            i <= n,
            n == lines@.len(),
            lv == lines.deep_view(),
            lv == lines_spec(content@),
            doc_turns(content@).len() == 0,
            lines_turns(lv, 0) == done + lines_turns(lv, i as int),
            convs.deep_view().len() == done.len(),
            forall|k: int|
                0 <= k < done.len() ==> conv_matches_turn(
                    #[trigger] convs.deep_view()[k],
                    done[k],
                    project_path.deep_view(),
                    now_ms,
                ),
        decreases n - i,
    {
        let line = &lines[i];
        proof {
            assert(lv[i as int] == lines@[i as int]@);
        }
        if !line_is_blank(line.as_str()) {
            match crate::json::read_transcript(line.as_str()) {
                Some(t) => {
                    let mut more = extract_conversations_from_transcript(
                        &t,
                        project_path,
                        now_ms,
                    );
                    let ghost dt = doc_turns(lv[i as int]);
                    let ghost added = more.deep_view();
                    let ghost pre = convs.deep_view();
                    let ghost pre_done = done;
                    proof {
                        let pairs = pair_spec(crate::json::doc_messages(lv[i as int]));
                        let session = crate::json::doc_session_of(lv[i as int])->0;
                        assert(pair_spec(t.messages.deep_view()) == pairs);
                        assert(added.len() == dt.len());
                        assert forall|k: int|
                            0 <= k < added.len() implies conv_matches_turn(
                            #[trigger] added[k],
                            dt[k],
                            project_path.deep_view(),
                            now_ms,
                        ) by {
                            assert(dt[k] == pair_as_turn(pairs[k], session));
                            assert(conv_matches_pair(
                                added[k],
                                pairs[k],
                                t.session_id.deep_view(),
                                project_path.deep_view(),
                                now_ms,
                            ));
                        }
                    }
                    convs.append(&mut more);
                    proof {
                        done = pre_done + dt;
                        assert(forall|k: int|
                            0 <= k < convs.deep_view().len() ==> #[trigger] convs.deep_view()[k]
                                == (pre + added)[k]);
                        assert(convs.deep_view().len() == pre.len() + added.len());
                        assert(lines_turns(lv, i as int) == dt + lines_turns(lv, i + 1 as int));
                        assert((pre_done + dt) + lines_turns(lv, i + 1 as int) =~= pre_done + (dt
                            + lines_turns(lv, i + 1 as int)));
                        assert forall|k: int|
                            0 <= k < done.len() implies conv_matches_turn(
                            #[trigger] convs.deep_view()[k],
                            done[k],
                            project_path.deep_view(),
                            now_ms,
                        ) by {
                            if k < pre.len() {
                                assert(convs.deep_view()[k] == pre[k]);
                                assert(done[k] == pre_done[k]);
                            } else {
                                assert(convs.deep_view()[k] == added[k - pre.len()]);
                                assert(done[k] == dt[k - pre_done.len()]);
                            }
                        }
                    }
                },
                None => {
                    proof {
                        assert(doc_turns(lv[i as int]) =~= Seq::<ParsedTurnView>::empty());
                        assert(Seq::<ParsedTurnView>::empty() + lines_turns(lv, i + 1 as int)
                            =~= lines_turns(lv, i + 1 as int));
                    }
                },
            }
        }
        i = i + 1;
    }
    proof {
        assert(done + Seq::<ParsedTurnView>::empty() =~= done);
        assert(lines_turns(lv, 0) == done);
    }
    if convs.len() > 0 {
        proof {
            assert(parse_spec(content@) == lines_turns(lines_spec(content@), 0));
        }
        return convs;
    }
    let r = parse_claude_jsonl_transcript(content, project_path, now_ms);
    proof {
        assert(lines_turns(lines_spec(content@), 0).len() == 0);
        assert(parse_spec(content@) == jsonl_spec(content@));
    }
    r
}

} // verus!
