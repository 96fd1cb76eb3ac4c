//! Configuration values and the path layout of the store.
//!
//! Nothing here touches the filesystem: callers resolve the home
//! directory and the project root themselves and pass them in, so every
//! path rule is a pure, checkable function of its inputs.
use crate::text::chars_string;
use crate::text::str_chars;
use crate::types::Config;
use crate::types::ContextConfig;
use crate::types::DatabaseConfig;
use crate::types::EmbeddingsConfig;
use crate::types::HooksConfig;
use vstd::prelude::*;

verus! {

fn concat_str(a: &str, b: &str) -> (r: String)
    ensures
        r@ == a@ + b@,
{
    let mut cs = str_chars(a);
    let mut tail = str_chars(b);
    cs.append(&mut tail);
    chars_string(&cs)
}

/// The stock configuration rooted under the given home directory:
/// simple provider, 384 dimensions, five results, 2000 tokens, a
/// relevance threshold of 0.60 (held in hundredths), both hooks on.
pub fn default_config(home: &str) -> (r: Config)
    ensures
        r.database.path@ == home@ + "/.off-context/qdrant"@,
        r.database.collection_name@ == "conversations"@,
        r.embeddings.provider@ == "simple"@,
        r.embeddings.model@ == "nomic-embed-text"@,
        r.embeddings.dimension == 384,
        r.context.max_results == 5,
        r.context.max_tokens == 2000,
        r.context.relevance_threshold == 60,
        r.hooks.enabled,
        r.hooks.auto_inject,
{
    Config {
        database: DatabaseConfig {
            path: concat_str(home, "/.off-context/qdrant"),
            collection_name: "conversations".to_owned(),
        },
        embeddings: EmbeddingsConfig {
            provider: "simple".to_owned(),
            model: "nomic-embed-text".to_owned(),
            dimension: 384,
        },
        context: ContextConfig { max_results: 5, max_tokens: 2000, relevance_threshold: 60 },
        hooks: HooksConfig { enabled: true, auto_inject: true },
    }
}

/// The configuration directory under the given home directory.
pub fn config_dir(home: &str) -> (r: String)
    ensures
        r@ == home@ + "/.off-context"@,
{
    concat_str(home, "/.off-context")
}

/// The configuration file under the given home directory.
pub fn config_file_path(home: &str) -> (r: String)
    ensures
        r@ == home@ + "/.off-context/config.toml"@,
{
    concat_str(home, "/.off-context/config.toml")
}

/// The hooks directory under the assistant runtime's configuration
/// directory.
pub fn claude_code_hooks_dir(claude_config_dir: &str) -> (r: String)
    ensures
        r@ == claude_config_dir@ + "/hooks"@,
{
    concat_str(claude_config_dir, "/hooks")
}

/// Whether a project root was found: the caller resolves the root by
/// walking the working directory upward and passes the outcome in.
pub fn is_in_project(project_root: &Option<String>) -> (r: bool)
    ensures
        r == (project_root is Some),
{
    project_root.is_some()
}

/// The project-local configuration directory.
pub fn project_config_dir(project_root: &str) -> (r: String)
    ensures
        r@ == project_root@ + "/.off-context"@,
{
    concat_str(project_root, "/.off-context")
}

/// The project-local database directory.
pub fn project_database_path(project_root: &str) -> (r: String)
    ensures
        r@ == project_root@ + "/.off-context/qdrant"@,
{
    concat_str(project_root, "/.off-context/qdrant")
}

} // verus!
