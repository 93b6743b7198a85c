use engram::consolidation::engine::{total_archived, ConsolidationPlan};
use engram::consolidation::ConsolidationEngine;
use engram::models::MemoryKind;

/// Records of one project and kind, as pairs of an id and the text that is compared,
/// the earliest first.
fn records(pairs: &[(&str, &str)]) -> Vec<(String, String)> {
    pairs
        .iter()
        .map(|(id, text)| (id.to_string(), text.to_string()))
        .collect()
}

fn dupes() -> Vec<(String, String)> {
    records(&[("e100", "same body"), ("e200", "same body"), ("e300", "unique")])
}

fn consolidate(plan: &mut ConsolidationPlan) -> Vec<String> {
    let ids = plan.to_archive();
    plan.record_archived(&vec![true; ids.len()]);
    ids
}

#[test]
fn test_consolidate_dry_run_reports_but_does_not_archive() {
    let plan =
        ConsolidationEngine::new().plan_for_kind(MemoryKind::Episodic, &dupes(), false, 85);
    assert_eq!(plan.groups.len(), 1);
    assert_eq!(plan.groups[0].duplicate_ids.len(), 1);
    assert_eq!(plan.archived, 0);
}

#[test]
fn test_consolidate_apply_archives_duplicates_keeps_earliest() {
    let mut plan =
        ConsolidationEngine::new().plan_for_kind(MemoryKind::Episodic, &dupes(), false, 85);
    assert_eq!(
        plan.groups[0].keeper_id, "e100",
        "keeper must be the earliest (ts=100)"
    );
    let archived = consolidate(&mut plan);
    assert_eq!(archived, vec!["e200"]);
    assert_eq!(plan.archived, 1);
}

#[test]
fn test_content_hash_deterministic() {
    let h1 = ConsolidationEngine::content_hash("summary", "content");
    let h2 = ConsolidationEngine::content_hash("summary", "content");
    assert_eq!(h1, h2);

    let h3 = ConsolidationEngine::content_hash("other", "content");
    assert_ne!(h1, h3);
}

#[test]
fn content_hashes_are_the_known_ones() {
    assert_eq!(ConsolidationEngine::content_hash("", "").len(), 16);
    let mut h: u64 = 0xcbf29ce484222325;
    for b in "aé|b".replace('|', "").bytes() {
        h = (h ^ b as u64).wrapping_mul(0x100000001b3);
    }
    assert_eq!(
        ConsolidationEngine::content_hash("aé", "b"),
        format!("{h:016x}")
    );
}

#[test]
fn test_jaccard_similarity() {
    assert!(ConsolidationEngine::jaccard_similarity(
        "hello world foo",
        "hello world bar",
        40,
    ));
    assert!(!ConsolidationEngine::jaccard_similarity(
        "completely different text",
        "totally unrelated words",
        50,
    ));
}

#[test]
fn test_jaccard_identical() {
    assert!(ConsolidationEngine::jaccard_similarity(
        "same text",
        "same text",
        99
    ));
}

#[test]
fn test_jaccard_threshold_boundary_ge_semantics() {
    let a = "alpha beta gamma delta";
    let b = "alpha beta";
    assert!(ConsolidationEngine::jaccard_similarity(a, b, 50));
    assert!(!ConsolidationEngine::jaccard_similarity(a, b, 60));
}

#[test]
fn test_plan_near_dup_end_to_end() {
    let recs = records(&[("a", "deploy service"), ("b", "deploy service config")]);
    let plan = ConsolidationEngine::new().plan_for_kind(MemoryKind::Episodic, &recs, true, 60);
    assert_eq!(plan.groups.len(), 1);
    let g = &plan.groups[0];
    assert!(g.reason.starts_with("near(jaccard>="), "{}", g.reason);
    assert_eq!(g.duplicate_ids.len(), 1);
    assert_eq!(g.keeper_id, "a");
    assert_eq!(plan.archived, 0);
}

#[test]
fn test_near_dup_single_group_does_not_reopen() {
    let recs = records(&[
        ("a", "deploy service"),
        ("b", "deploy service config"),
        ("c", "deploy service runtime"),
    ]);
    let plan = ConsolidationEngine::new().plan_for_kind(MemoryKind::Episodic, &recs, true, 60);
    assert_eq!(plan.groups.len(), 1);
    let g = &plan.groups[0];
    assert_eq!(g.duplicate_ids.len(), 2);
    assert_eq!(g.keeper_id, "a");
}

#[test]
fn test_consolidate_multiple_kinds_are_isolated() {
    let engine = ConsolidationEngine::new();
    let episodic = records(&[("e1", "same body"), ("e2", "same body")]);
    let decision = records(&[("d1", "t c r to"), ("d2", "t c r to")]);
    let plans = vec![
        engine.plan_for_kind(MemoryKind::Episodic, &episodic, false, 85),
        engine.plan_for_kind(MemoryKind::Decision, &decision, false, 85),
    ];
    assert_eq!(plans[0].memory_type, "episodic");
    assert_eq!(plans[1].memory_type, "decision");
    assert_eq!(plans[0].groups.len(), 1);
    assert_eq!(plans[1].groups.len(), 1);
}

#[test]
fn test_consolidate_apply_archived_count_across_groups() {
    let recs = records(&[("a1", "a a"), ("a2", "a a"), ("b1", "b b"), ("b2", "b b")]);
    let mut plan =
        ConsolidationEngine::new().plan_for_kind(MemoryKind::Episodic, &recs, false, 85);
    assert_eq!(plan.groups.len(), 2);
    assert_eq!(consolidate(&mut plan).len(), 2);
    assert_eq!(plan.archived, 2);
    assert_eq!(total_archived(&vec![plan]), 2);
}

#[test]
fn test_plan_isolates_by_project_id() {
    let engine = ConsolidationEngine::new();
    let p1 = records(&[("p1a", "same body"), ("p1b", "same body")]);
    let p2 = records(&[("p2a", "same body"), ("p2b", "same body")]);
    let plan_p1 = engine.plan_for_kind(MemoryKind::Episodic, &p1, false, 85);
    let plan_p2 = engine.plan_for_kind(MemoryKind::Episodic, &p2, false, 85);
    for plan in [&plan_p1, &plan_p2] {
        assert_eq!(plan.groups.len(), 1);
        assert_eq!(plan.groups[0].duplicate_ids.len(), 1);
    }
    assert_ne!(plan_p1.groups[0].keeper_id, plan_p2.groups[0].keeper_id);
}

#[test]
fn a_record_is_in_one_group_at_most() {
    let recs = records(&[
        ("a", "x y"),
        ("b", "x y"),
        ("c", "x y z"),
        ("d", "x y z w"),
    ]);
    let plan = ConsolidationEngine::new().plan_for_kind(MemoryKind::Failure, &recs, true, 60);
    let mut seen: Vec<String> = vec![];
    for g in &plan.groups {
        seen.push(g.keeper_id.clone());
        seen.extend(g.duplicate_ids.iter().cloned());
    }
    let mut distinct = seen.clone();
    distinct.sort();
    distinct.dedup();
    assert_eq!(seen.len(), distinct.len());
    assert_eq!(plan.groups[0].reason, "exact");
}
