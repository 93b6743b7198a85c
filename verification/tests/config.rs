use engram::config::{
    expand_tilde, Config, McpConfig, Real, RetrievalConfig, SemanticConfig,
};

fn settings() -> Config {
    Config::default_in(Some("/home/u"))
}

fn number(v: f32) -> Real {
    Real::new(v.to_bits(), &format!("{v}"))
}

#[test]
fn expand_tilde_expands_home_prefix() {
    assert_eq!(expand_tilde("~", Some("/home/u")), "/home/u");
    assert_eq!(
        expand_tilde("~/.engram/memory.db", Some("/home/u")),
        "/home/u/.engram/memory.db"
    );
}

#[test]
fn expand_tilde_passes_through_absolute_and_relative_paths() {
    assert_eq!(
        expand_tilde("/var/data/memory.db", Some("/home/u")),
        "/var/data/memory.db"
    );
    assert_eq!(
        expand_tilde("relative/path.db", Some("/home/u")),
        "relative/path.db"
    );
}

#[test]
fn load_from_file_expands_tilde_in_database_path() {
    let mut config = settings();
    config.storage.database_path = "~/.engram/memory.db".to_string();
    config.security.allowed_roots = vec!["~/code".to_string()];
    let config = config.settle(Some("/home/u"), false).unwrap();
    assert_eq!(config.storage.database_path, "/home/u/.engram/memory.db");
    assert_eq!(config.security.allowed_roots, vec!["/home/u/code"]);
}

#[test]
fn expansion_happens_once() {
    let once = expand_tilde("~/x", Some("/home/u"));
    assert_eq!(expand_tilde(&once, Some("/home/u")), once);
}

#[test]
fn retrieval_half_life_defaults_to_30_days() {
    assert_eq!(RetrievalConfig::default().recency_half_life_days, 30);
}

#[test]
fn mcp_worker_threads_defaults_to_1() {
    assert_eq!(McpConfig::default().worker_threads, 1);
}

#[test]
fn semantic_defaults_off_with_minilm() {
    let c = SemanticConfig::default();
    assert!(!c.enabled);
    assert_eq!(c.model_id, "sentence-transformers/all-MiniLM-L6-v2");
    assert_eq!(f32::from_bits(c.rrf_k.bits), 60.0);
    assert_eq!(c.top_k, 50);
    assert!(c.model_path.is_none());
}

#[test]
fn default_weights_are_the_documented_ones() {
    let r = RetrievalConfig::default();
    assert_eq!(f32::from_bits(r.weight_relevance.bits), 0.5);
    assert_eq!(f32::from_bits(r.weight_recency.bits), 0.15);
    assert_eq!(f32::from_bits(r.weight_importance.bits), 0.2);
    assert_eq!(f32::from_bits(r.weight_type.bits), 0.15);
    assert_eq!(r.default_limit, 10);
}

#[test]
fn default_settings_are_valid() {
    assert!(settings().validate(false).is_ok());
    assert!(settings().validate(true).is_ok());
}

#[test]
fn settings_out_of_range_are_refused() {
    let refused = |change: &dyn Fn(&mut Config)| {
        let mut c = settings();
        change(&mut c);
        c.validate(false).unwrap_err()
    };
    assert_eq!(
        refused(&|c| c.context.memory_budget_percent = 51),
        "context.memory_budget_percent must be between 1 and 50, got 51"
    );
    assert_eq!(
        refused(&|c| c.context.context_window_tokens = 999),
        "context.context_window_tokens must be >= 1000, got 999"
    );
    assert_eq!(
        refused(&|c| c.retrieval.default_limit = 0),
        "retrieval.default_limit must be between 1 and 1000, got 0"
    );
    assert_eq!(
        refused(&|c| c.retrieval.weight_recency = number(f32::NAN)),
        "retrieval.weight_recency must be a finite number, got NaN"
    );
    assert_eq!(
        refused(&|c| c.retrieval.weight_type = number(-0.5)),
        "retrieval.weight_type must be >= 0, got -0.5"
    );
    let zero = refused(&|c| {
        c.retrieval.weight_relevance = number(0.0);
        c.retrieval.weight_recency = number(0.0);
        c.retrieval.weight_importance = number(0.0);
        c.retrieval.weight_type = number(0.0);
    });
    assert!(zero.contains("must not all be zero"));
    assert_eq!(
        refused(&|c| c.mcp.worker_threads = 65),
        "mcp.worker_threads must be between 1 and 64, got 65"
    );
    assert_eq!(
        refused(&|c| c.reflection.min_occurrences = 0),
        "reflection.min_occurrences must be >= 1, got 0"
    );
}

#[test]
fn semantic_settings_count_where_they_are_used() {
    let mut c = settings();
    c.semantic.top_k = 0;
    assert!(c.validate(false).is_ok());
    assert_eq!(
        c.validate(true).unwrap_err(),
        "semantic.top_k must be >= 1, got 0"
    );
    c.semantic.enabled = true;
    assert!(c.validate(false).is_err());
    c.semantic.top_k = 5;
    c.semantic.rrf_k = number(0.0);
    assert_eq!(
        c.validate(false).unwrap_err(),
        "semantic.rrf_k must be a positive number, got 0"
    );
}
