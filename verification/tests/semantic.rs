use engram::config::SemanticConfig;
use engram::mcp::embedding_service::{
    decide_reindex, enrich, inactive_message, missing_hits, model_plan, pick_in_order,
    reindex_outcome, ModelPlan, ReindexOutcome, ReindexReport, ReindexStep, VectorCache,
};
use engram::retrieval::bm25::{Score, SearchResult};

fn result(id: &str, ty: &str, tags: &[&str], created_at: i64) -> SearchResult {
    SearchResult {
        id: id.into(),
        memory_type: ty.into(),
        summary: id.into(),
        score: Score {
            rank: 1,
            text: "0.01".into(),
        },
        importance: 0.5f32.to_bits(),
        created_at,
        tags: tags.iter().map(|t| t.to_string()).collect(),
    }
}

fn ids(rs: &Vec<SearchResult>) -> Vec<String> {
    rs.iter().map(|r| r.id.clone()).collect()
}

fn hits(pairs: &[(&str, &str)]) -> Vec<(String, String)> {
    pairs
        .iter()
        .map(|(a, b)| (a.to_string(), b.to_string()))
        .collect()
}

#[test]
fn vector_only_hits_join_the_results() {
    let bm25 = vec![result("v2", "episodic", &[], 1)];
    let missing = missing_hits(&hits(&[("v1", "episodic"), ("v2", "episodic")]), &bm25);
    assert_eq!(missing, hits(&[("episodic", "v1")]));
    let fused = enrich(
        bm25,
        vec![result("v1", "episodic", &[], 1)],
        None,
        &vec![],
        None,
    );
    assert_eq!(fused.len(), 2, "vector-only hit must be materialized");
}

#[test]
fn fuse_respects_explicit_memory_type_filter() {
    let fused = enrich(
        vec![],
        vec![result("v1", "episodic", &[], 1)],
        Some("failure"),
        &vec![],
        None,
    );
    assert!(
        fused.is_empty(),
        "episodic vector hit must not leak through memory_type=failure"
    );
}

#[test]
fn fetched_hits_pass_the_other_filters_too() {
    let fetched = || {
        vec![
            result("a", "episodic", &["x"], 5),
            result("b", "episodic", &["y"], 50),
        ]
    };
    let kept = enrich(vec![], fetched(), None, &vec!["x".to_string()], None);
    assert_eq!(ids(&kept), vec!["a"]);
    let kept = enrich(vec![], fetched(), None, &vec![], Some(10));
    assert_eq!(ids(&kept), vec!["a"]);
}

#[test]
fn a_write_drops_the_cached_vectors() {
    let mut cache: VectorCache<Vec<f32>> = VectorCache::new();
    cache.insert("p", "m", vec![1.0]);
    cache.insert("q", "m", vec![2.0]);
    assert_eq!(cache.get("p", "m"), Some(&vec![1.0]));
    assert_eq!(cache.get("p", "other"), None);
    cache.invalidate_vectors(Some("p"));
    assert!(cache.get("p", "m").is_none(), "a write drops the project");
    assert!(cache.get("q", "m").is_some());
    cache.invalidate_vectors(None);
    assert!(cache.get("q", "m").is_none());
    cache.insert("p", "m", vec![3.0]);
    cache.insert("p", "m", vec![4.0]);
    assert_eq!(cache.get("p", "m"), Some(&vec![4.0]));
}

#[test]
fn a_fused_ranking_orders_the_pool() {
    let pool = vec![
        result("a", "episodic", &[], 1),
        result("b", "episodic", &[], 1),
    ];
    let order = vec!["b".to_string(), "missing".to_string(), "a".to_string()];
    assert_eq!(ids(&pick_in_order(&order, pool)), vec!["b", "a"]);
}

#[test]
fn reindexing_counts_every_memory() {
    let already = vec!["old".to_string()];
    let mut report = ReindexReport::new(false);
    for (id, stored) in [("old", true), ("new", true), ("bad", false)] {
        let step = decide_reindex(&already, id, false, false);
        report.record(reindex_outcome(step, stored));
    }
    assert_eq!(
        (report.total, report.embedded, report.skipped, report.failed),
        (3, 1, 1, 1)
    );
    assert_eq!(
        decide_reindex(&already, "old", true, false),
        ReindexStep::Embed
    );
    assert_eq!(
        decide_reindex(&already, "new", false, true),
        ReindexStep::Count
    );
    assert_eq!(
        reindex_outcome(ReindexStep::Count, false),
        ReindexOutcome::Embedded
    );
    assert!(!inactive_message().is_empty());
}

#[test]
fn the_model_is_local_or_fetched() {
    let mut c = SemanticConfig::default();
    assert!(matches!(model_plan(&c, "/home/u"), ModelPlan::Disabled));
    c.enabled = true;
    match model_plan(&c, "/home/u") {
        ModelPlan::Fetched(dir) => {
            assert_eq!(dir, "/home/u/.engram/models/all-MiniLM-L6-v2")
        }
        other => panic!("{other:?}"),
    }
    c.model_path = Some("/models/x".to_string());
    match model_plan(&c, "/home/u") {
        ModelPlan::Local(dir) => assert_eq!(dir, "/models/x"),
        other => panic!("{other:?}"),
    }
}
