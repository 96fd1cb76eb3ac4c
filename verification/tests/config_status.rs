use off_context::config::claude_code_hooks_dir;
use off_context::config::config_dir;
use off_context::config::config_file_path;
use off_context::config::default_config;
use off_context::config::is_in_project;
use off_context::config::project_config_dir;
use off_context::config::project_database_path;
use off_context::embeddings::EmbeddingGenerator;
use off_context::status::format_size;
use off_context::status::DatabaseStatus;
use off_context::status::EmbeddingsStatus;
use off_context::validation::ensure_project_initialized;
use off_context::validation::ValidationError;

#[test]
fn default_config_values() {
    let c = default_config("/home/dev");
    assert_eq!(c.database.path, "/home/dev/.off-context/qdrant");
    assert_eq!(c.database.collection_name, "conversations");
    assert_eq!(c.embeddings.provider, "simple");
    assert_eq!(c.embeddings.model, "nomic-embed-text");
    assert_eq!(c.embeddings.dimension, 384);
    assert_eq!(c.context.max_results, 5);
    assert_eq!(c.context.max_tokens, 2000);
    assert_eq!(c.context.relevance_threshold, 60);
    assert!(c.hooks.enabled);
    assert!(c.hooks.auto_inject);
}

#[test]
fn path_layout() {
    assert_eq!(config_dir("/home/dev"), "/home/dev/.off-context");
    assert_eq!(config_file_path("/home/dev"), "/home/dev/.off-context/config.toml");
    assert_eq!(claude_code_hooks_dir("/home/dev/.config/assistant"), "/home/dev/.config/assistant/hooks");
    assert_eq!(project_config_dir("/work/proj"), "/work/proj/.off-context");
    assert_eq!(project_database_path("/work/proj"), "/work/proj/.off-context/qdrant");
}

#[test]
fn project_validation() {
    assert!(is_in_project(&Some("/work/proj".to_string())));
    assert!(!is_in_project(&None));
    assert!(ensure_project_initialized(&Some("/work/proj".to_string())).is_ok());
    assert_eq!(
        ensure_project_initialized(&None).err().unwrap(),
        ValidationError::ProjectNotInitialized
    );
    assert_eq!(
        ValidationError::ProjectNotInitialized.message(),
        "project not initialized; run 'off-context init' first"
    );
}

#[test]
fn size_formatting() {
    assert_eq!(format_size(0), "0B");
    assert_eq!(format_size(500), "500B");
    assert_eq!(format_size(1023), "1023B");
    assert_eq!(format_size(1024), "1.0KB");
    assert_eq!(format_size(1536), "1.5KB");
    assert_eq!(format_size(1048575), "1023.9KB");
    assert_eq!(format_size(1048576), "1.0MB");
    assert_eq!(format_size(3 * 1048576 + 524288), "3.5MB");
}

#[test]
fn status_defaults() {
    let d = DatabaseStatus::default();
    assert!(!d.exists);
    assert_eq!(d.conversation_count, 0);
    assert_eq!(d.size_bytes, 0);
    assert!(d.last_activity.is_none());
    let e = EmbeddingsStatus {
        available: false,
        provider: "simple".to_string(),
        dimensions: 384,
    };
    assert_eq!(e.dimensions, 384);
}

#[test]
fn embeddings_are_a_placeholder() {
    let g = EmbeddingGenerator::new();
    assert!(!g.is_ollama_available());
}
