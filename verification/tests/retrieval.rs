use engram::models::{
    DecisionMemory, EpisodicMemory, FailureMemory, MemoryIntent, ProceduralMemory,
};
use engram::retrieval::bm25::{Score, ScoredMemory, SearchResult};
use engram::retrieval::planner::{MemorySource, RetrievalPlan};
use engram::retrieval::{BM25Retriever, IntentClassifier, Reranker, RetrievalPlanner};

#[test]
fn test_debugging_intent() {
    let classifier = IntentClassifier::new();
    let intents = classifier.classify("fix the auth bug");
    assert!(intents.contains(&MemoryIntent::Debugging));
}

#[test]
fn test_architecture_intent() {
    let classifier = IntentClassifier::new();
    let intents = classifier.classify("why was Redis chosen for caching");
    assert!(intents.contains(&MemoryIntent::Architecture));
}

#[test]
fn test_compound_intent() {
    let classifier = IntentClassifier::new();
    let intents = classifier.classify("debug the production outage incident");
    assert!(intents.contains(&MemoryIntent::Debugging));
    assert!(intents.contains(&MemoryIntent::Incident));
}

#[test]
fn test_fallback_to_general() {
    let classifier = IntentClassifier::new();
    let intents = classifier.classify("show me the code");
    assert_eq!(intents, vec![MemoryIntent::General]);
}

#[test]
fn test_chinese_keywords() {
    let classifier = IntentClassifier::new();
    let intents = classifier.classify("修复认证模块的错误");
    assert!(intents.contains(&MemoryIntent::Debugging));
}

#[test]
fn test_deployment_intent() {
    let classifier = IntentClassifier::new();
    let intents = classifier.classify("deploy to production");
    assert!(intents.contains(&MemoryIntent::Deployment));
}

#[test]
fn test_workflow_intent() {
    let classifier = IntentClassifier::new();
    let intents = classifier.classify("what is the CI pipeline process");
    assert!(intents.contains(&MemoryIntent::Workflow));
}

#[test]
fn test_word_boundary_rejects_embedded_substrings() {
    let classifier = IntentClassifier::new();
    let intents = classifier.classify("update the test fixture");
    assert!(
        !intents.contains(&MemoryIntent::Debugging),
        "fixture must not match 'fix'"
    );
    let intents = classifier.classify("trim the suffix array");
    assert!(!intents.contains(&MemoryIntent::Debugging));
    let intents = classifier.classify("issues start to emerge here");
    assert!(!intents.contains(&MemoryIntent::Refactor));
}

#[test]
fn test_word_boundary_matches_isolated_token() {
    let classifier = IntentClassifier::new();
    assert!(classifier
        .classify("I need to fix this bug")
        .contains(&MemoryIntent::Debugging));
    assert!(classifier
        .classify("fix")
        .contains(&MemoryIntent::Debugging));
}

#[test]
fn test_cjk_keyword_still_matches_mid_sentence() {
    let classifier = IntentClassifier::new();
    assert!(classifier
        .classify("如何修复认证模块")
        .contains(&MemoryIntent::Debugging));
}

#[test]
fn test_identifier_like_query_routes_to_general() {
    let classifier = IntentClassifier::new();
    for q in [
        "unique-tag-test-xyz",
        "auth_utils",
        "e2e-test",
        "fix-auth-bug",
    ] {
        let intents = classifier.classify(q);
        assert_eq!(
            intents,
            vec![MemoryIntent::General],
            "identifier-like query {q:?} should route to General, got {intents:?}"
        );
    }
}

#[test]
fn test_prose_query_still_routes_by_keyword() {
    let classifier = IntentClassifier::new();
    assert!(classifier
        .classify("how to test the build")
        .contains(&MemoryIntent::Workflow));
    assert!(classifier.classify("test").contains(&MemoryIntent::Workflow));
}

#[test]
fn upper_case_is_folded_before_keywords_are_looked_for() {
    let classifier = IntentClassifier::new();
    assert!(classifier
        .classify("FIX the login")
        .contains(&MemoryIntent::Debugging));
    assert!(IntentClassifier::keyword_matches("a bug here", "bug"));
    assert!(!IntentClassifier::keyword_matches("debugger", "bug"));
    assert!(IntentClassifier::is_identifier_like("a-b"));
    assert!(!IntentClassifier::is_identifier_like("a b"));
}

// ---------------------------------------------------------------------------
// Plans
// ---------------------------------------------------------------------------

#[test]
fn test_debugging_plan() {
    let plan = RetrievalPlanner::new().plan(&[MemoryIntent::Debugging]);
    assert!(plan.sources.contains(&MemorySource::Failure));
    assert!(plan.sources.contains(&MemorySource::Episodic));
    assert_eq!(plan.relevance_floor, 60);
    assert!(weights(&plan, BASE)[0] > BASE[0]);
}

#[test]
fn test_architecture_plan() {
    let plan = RetrievalPlanner::new().plan(&[MemoryIntent::Architecture]);
    assert!(plan.sources.contains(&MemorySource::Decision));
}

#[test]
fn test_general_plan_searches_all() {
    let plan = RetrievalPlanner::new().plan(&[MemoryIntent::General]);
    assert_eq!(plan.sources.len(), 4);
}

#[test]
fn test_compound_intent_plan() {
    let plan =
        RetrievalPlanner::new().plan(&[MemoryIntent::Debugging, MemoryIntent::Incident]);
    assert!(plan.sources.contains(&MemorySource::Failure));
    assert_eq!(plan.relevance_floor, 65);
    let w = weights(&plan, BASE);
    assert!(w[0] > BASE[0]);
    assert!(w[3] <= BASE[3] + 1e-6);
}

#[test]
fn test_relevance_dominates_type_prior() {
    let plan = RetrievalPlanner::new().plan(&[MemoryIntent::Incident]);
    let w = weights(&plan, BASE);
    assert!(
        w[0] > 2.0 * w[3],
        "relevance weight {} must dominate type weight {}",
        w[0],
        w[3]
    );
}

#[test]
fn test_intent_raises_relevance_not_just_priors() {
    for intents in [
        vec![MemoryIntent::Debugging],
        vec![MemoryIntent::Architecture],
        vec![MemoryIntent::Incident],
    ] {
        let plan = RetrievalPlanner::new().plan(&intents);
        assert!(
            weights(&plan, BASE)[0] > BASE[0],
            "{intents:?} must raise relevance above base {}",
            BASE[0]
        );
    }
}

// ---------------------------------------------------------------------------
// Results
// ---------------------------------------------------------------------------

/// The weights of relevance, recency, importance and type under a plan: the first two are
/// raised to the floors, and all are made to sum up to 1.
fn weights(plan: &RetrievalPlan, base: [f32; 4]) -> [f32; 4] {
    let raised = [
        base[0].max(plan.relevance_floor as f32 / 100.0),
        base[1].max(plan.recency_floor as f32 / 100.0),
        base[2],
        base[3],
    ];
    let sum: f32 = raised.iter().sum();
    raised.map(|w| w / sum)
}

const BASE: [f32; 4] = [0.5, 0.15, 0.2, 0.15];

fn score(v: f32, rank: i64) -> Score {
    Score {
        rank,
        text: format!("{v:.2}"),
    }
}

fn result(id: &str, rank: i64) -> SearchResult {
    SearchResult {
        id: id.into(),
        memory_type: "episodic".into(),
        summary: format!("result {id}"),
        score: score(0.5, rank),
        importance: 0.5f32.to_bits(),
        created_at: 1000,
        tags: vec![],
    }
}

fn ids(results: &Vec<SearchResult>) -> Vec<String> {
    results.iter().map(|r| r.id.clone()).collect()
}

#[test]
fn importance_maps_per_type() {
    let scored = |severity: u8| ScoredMemory {
        memory: FailureMemory {
            id: "f1".into(),
            project_id: "p".into(),
            incident: "boom".into(),
            root_cause: "rc".into(),
            fix: "fx".into(),
            prevention: "pv".into(),
            severity,
            tags: vec![],
            created_at: 0,
            updated_at: 0,
        },
        score: score(1.0, 1),
    };
    let episodic = EpisodicMemory {
        id: "e1".into(),
        project_id: "p".into(),
        session_id: "s".into(),
        summary: "sum".into(),
        content: "c".into(),
        files_touched: vec![],
        related_commits: vec![],
        importance: 0.8f32.to_bits(),
        tags: vec![],
        created_at: 0,
        updated_at: 0,
    };
    let decision = DecisionMemory {
        id: "d1".into(),
        project_id: "p".into(),
        title: "t".into(),
        context: "ctx".into(),
        rationale: "r".into(),
        tradeoffs: "to".into(),
        related_files: vec![],
        tags: vec![],
        created_at: 0,
        updated_at: 0,
    };
    let procedural = ProceduralMemory {
        id: "pr1".into(),
        project_id: "p".into(),
        workflow_name: "wf".into(),
        steps: vec![],
        related_tools: vec![],
        tags: vec![],
        created_at: 0,
        updated_at: 0,
    };
    let shown = |r: &Vec<SearchResult>| f32::from_bits(r[0].importance);
    let r = BM25Retriever::to_results(
        vec![ScoredMemory {
            memory: episodic,
            score: score(1.0, 1),
        }],
        "episodic",
    );
    assert!((shown(&r) - 0.8).abs() < 1e-6);
    let r = BM25Retriever::to_results(vec![scored(5)], "failure");
    assert!((shown(&r) - 1.0).abs() < 1e-6);
    let r = BM25Retriever::to_results(vec![scored(1)], "failure");
    assert!((shown(&r) - 0.2).abs() < 1e-6);
    let r = BM25Retriever::to_results(
        vec![ScoredMemory {
            memory: decision,
            score: score(1.0, 1),
        }],
        "decision",
    );
    assert!((shown(&r) - 0.5).abs() < 1e-6);
    let r = BM25Retriever::to_results(
        vec![ScoredMemory {
            memory: procedural,
            score: score(1.0, 1),
        }],
        "procedural",
    );
    assert!((shown(&r) - 0.5).abs() < 1e-6);
}

#[test]
fn importance_of_every_severity_is_a_fifth_of_it() {
    for severity in 0u8..=9 {
        let r = BM25Retriever::to_results(
            vec![ScoredMemory {
                memory: FailureMemory {
                    id: "f".into(),
                    project_id: "p".into(),
                    incident: "i".into(),
                    root_cause: "r".into(),
                    fix: "f".into(),
                    prevention: "p".into(),
                    severity,
                    tags: vec![],
                    created_at: 0,
                    updated_at: 0,
                },
                score: score(1.0, 1),
            }],
            "failure",
        );
        let want = (severity as f32 / 5.0).clamp(0.0, 1.0);
        assert_eq!(r[0].importance, want.to_bits());
    }
}

#[test]
fn the_best_scores_come_first() {
    let all = vec![result("low", 1), result("high", 9), result("mid", 5)];
    assert_eq!(ids(&BM25Retriever::combine(all, 2)), vec!["high", "mid"]);
}

#[test]
fn test_deduplicate() {
    let reranker = Reranker::new();
    let mut results = vec![result("1", 9), result("1", 8), result("2", 7)];
    reranker.deduplicate(&mut results);
    assert_eq!(results.len(), 2);
    assert_eq!(results[0].id, "1");
    assert_eq!(results[1].id, "2");
}

#[test]
fn test_fallback_limits() {
    let reranker = Reranker::new();
    let mut results: Vec<SearchResult> = (0..50).map(|i| result(&format!("{i}"), 5)).collect();
    reranker.apply_fallback_limits(&mut results, 25, 10);
    assert_eq!(results.len(), 10);
}
