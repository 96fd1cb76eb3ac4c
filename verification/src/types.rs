//! The shared data model: one resolved user/assistant exchange and its
//! metadata, the transcript input shapes, search results and configuration.
//!
//! Every type that carries text has a mathematical view built from
//! `Seq<char>`, so that contracts elsewhere can speak about content exactly.
use vstd::prelude::*;

verus! {

/// Abstract value of a [`ConversationMetadata`].
pub struct MetaView {
    pub session_id: Option<Seq<char>>,
    pub project_path: Option<Seq<char>>,
    pub tags: Seq<Seq<char>>,
    pub token_count: int,
    pub embedding_model: Option<Seq<char>>,
}

/// Abstract value of a [`Conversation`].
pub struct ConvView {
    pub id: Seq<char>,
    pub timestamp: int,
    pub user_message: Seq<char>,
    pub assistant_response: Seq<char>,
    pub metadata: MetaView,
}

/// Metadata associated with a conversation.
#[derive(Debug, Clone, PartialEq, Eq)]
pub struct ConversationMetadata {
    /// Groups turns that came from one interactive session.
    pub session_id: Option<String>,
    /// Project the transcript belonged to, when one was detected.
    pub project_path: Option<String>,
    /// Keyword tags detected in the user message, in detection order.
    pub tags: Vec<String>,
    /// Length-based estimate, not a real tokenizer count.
    pub token_count: usize,
    /// Reserved; always absent in this design.
    pub embedding_model: Option<String>,
}

/// A conversation between user and assistant.
#[derive(Debug, Clone, PartialEq, Eq)]
pub struct Conversation {
    /// Globally unique identifier, assigned at parse time.
    pub id: String,
    /// Time of the exchange, in milliseconds since the Unix epoch (UTC).
    pub timestamp: i64,
    pub user_message: String,
    pub assistant_response: String,
    pub metadata: ConversationMetadata,
}

impl View for ConversationMetadata {
    type V = MetaView;

    open spec fn view(&self) -> MetaView {
        MetaView {
            session_id: self.session_id.deep_view(),
            project_path: self.project_path.deep_view(),
            tags: self.tags.deep_view(),
            token_count: self.token_count as int,
            embedding_model: self.embedding_model.deep_view(),
        }
    }
}

impl View for Conversation {
    type V = ConvView;

    open spec fn view(&self) -> ConvView {
        ConvView {
            id: self.id@,
            timestamp: self.timestamp as int,
            user_message: self.user_message@,
            assistant_response: self.assistant_response@,
            metadata: self.metadata@,
        }
    }
}

impl DeepView for Conversation {
    type V = ConvView;

    open spec fn deep_view(&self) -> ConvView {
        self.view()
    }
}

pub(crate) fn clone_opt_string(o: &Option<String>) -> (r: Option<String>)
    ensures
        r.deep_view() == o.deep_view(),
{
    match o {
        Some(s) => Some(s.clone()),
        None => None,
    }
}

fn clone_string_vec(v: &Vec<String>) -> (r: Vec<String>)
    ensures
        r.deep_view() == v.deep_view(),
{
    let mut r: Vec<String> = Vec::new();
    let mut i: usize = 0;
    while i < v.len()
        invariant
            i <= v.len(),
            r.deep_view() == v.deep_view().subrange(0, i as int),
        decreases v.len() - i,
    {
        r.push(v[i].clone());
        proof {
            assert(r.deep_view() =~= v.deep_view().subrange(0, i + 1 as int));
        }
        i = i + 1;
    }
    proof {
        assert(v.deep_view().subrange(0, v@.len() as int) =~= v.deep_view());
    }
    r
}

impl ConversationMetadata {
    /// A copy with the same view (the derived `Clone` proves nothing).
    pub fn duplicate(&self) -> (r: ConversationMetadata)
        ensures
            r@ == self@,
    {
        ConversationMetadata {
            session_id: clone_opt_string(&self.session_id),
            project_path: clone_opt_string(&self.project_path),
            tags: clone_string_vec(&self.tags),
            token_count: self.token_count,
            embedding_model: clone_opt_string(&self.embedding_model),
        }
    }
}

impl Conversation {
    /// A copy with the same view (the derived `Clone` proves nothing).
    pub fn duplicate(&self) -> (r: Conversation)
        ensures
            r@ == self@,
    {
        Conversation {
            id: self.id.clone(),
            timestamp: self.timestamp,
            user_message: self.user_message.clone(),
            assistant_response: self.assistant_response.clone(),
            metadata: self.metadata.duplicate(),
        }
    }
}

/// Why a store could not be brought up or used.
#[derive(Debug, Clone, Copy, PartialEq, Eq)]
pub enum StoreError {
    /// The snapshot document was non-empty but not a well-formed snapshot.
    CorruptSnapshot,
}

impl StoreError {
    /// A short description, for callers that report failures.
    pub fn message(&self) -> (r: &'static str)
        ensures
            r@ == "snapshot document is corrupt"@,
    {
        "snapshot document is corrupt"
    }
}

/// Abstract value of a [`TranscriptMessage`].
pub struct TranscriptMessageView {
    pub role: Seq<char>,
    pub content: Seq<char>,
    pub timestamp: Option<Seq<char>>,
}

/// Individual message in a structured transcript.
#[derive(Debug, Clone, PartialEq, Eq)]
pub struct TranscriptMessage {
    pub role: String,
    pub content: String,
    pub timestamp: Option<String>,
}

impl View for TranscriptMessage {
    type V = TranscriptMessageView;

    open spec fn view(&self) -> TranscriptMessageView {
        TranscriptMessageView {
            role: self.role@,
            content: self.content@,
            timestamp: self.timestamp.deep_view(),
        }
    }
}

/// A whole structured transcript: a message list plus optional session data.
#[derive(Debug, Clone, PartialEq, Eq)]
pub struct ClaudeTranscript {
    pub messages: Vec<TranscriptMessage>,
    pub session_id: Option<String>,
    pub created_at: Option<String>,
}

/// Abstract value of a [`SearchResult`].
pub struct SearchResultView {
    pub conversation: ConvView,
    pub score: int,
    pub snippet: Seq<char>,
}

/// One ranked hit from the relevance search.
///
/// `score` counts tenths: a query word found in the user message adds 5,
/// one found in the assistant response adds 3.
#[derive(Debug, Clone, PartialEq, Eq)]
pub struct SearchResult {
    pub conversation: Conversation,
    pub score: u64,
    pub snippet: String,
}

impl View for SearchResult {
    type V = SearchResultView;

    open spec fn view(&self) -> SearchResultView {
        SearchResultView {
            conversation: self.conversation@,
            score: self.score as int,
            snippet: self.snippet@,
        }
    }
}

/// Where the store keeps its snapshot, and under which collection label.
#[derive(Debug, Clone, PartialEq, Eq)]
pub struct DatabaseConfig {
    pub path: String,
    pub collection_name: String,
}

/// Which embedding backend would be used, were one implemented.
#[derive(Debug, Clone, PartialEq, Eq)]
pub struct EmbeddingsConfig {
    pub provider: String,
    pub model: String,
    pub dimension: usize,
}

/// Bounds on automatic context retrieval.
///
/// `relevance_threshold` counts hundredths, so 60 stands for 0.60.
#[derive(Debug, Clone, PartialEq, Eq)]
pub struct ContextConfig {
    pub max_results: usize,
    pub max_tokens: usize,
    pub relevance_threshold: u32,
}

/// Which automatic paths are switched on.
#[derive(Debug, Clone, Copy, PartialEq, Eq)]
pub struct HooksConfig {
    pub enabled: bool,
    pub auto_inject: bool,
}

/// Configuration for the whole memory system.
#[derive(Debug, Clone, PartialEq, Eq)]
pub struct Config {
    pub database: DatabaseConfig,
    pub embeddings: EmbeddingsConfig,
    pub context: ContextConfig,
    pub hooks: HooksConfig,
}

} // verus!
