use engram::models::FailureMemory;
use engram::reflection::engine::dedup_preserve_order;
use engram::reflection::ReflectionEngine;

fn failure(id: &str, tag: &str, prevention: &str) -> FailureMemory {
    FailureMemory {
        id: id.into(),
        project_id: "p".into(),
        incident: format!("incident {id}"),
        root_cause: "rc".into(),
        fix: "fix".into(),
        prevention: prevention.into(),
        severity: 3,
        tags: vec![tag.into()],
        created_at: 0,
        updated_at: 0,
    }
}

#[test]
fn below_threshold_proposes_nothing() {
    let fs = vec![
        failure("f1", "fts5", "sanitize"),
        failure("f2", "fts5", "sanitize"),
    ];
    let (plan, write) =
        ReflectionEngine::with_min_occurrences(3).reflect(&fs, &vec![], false);
    assert!(plan.suggestions.is_empty());
    assert_eq!(plan.created, 0);
    assert!(write.is_empty());
}

#[test]
fn at_threshold_proposes_one_rule_per_recurring_tag() {
    let mut fs = vec![];
    for i in 1..=3 {
        fs.push(failure(&format!("f{i}"), "fts5", "sanitize query"));
    }
    for i in 1..=3 {
        fs.push(failure(&format!("a{i}"), "auth", "rotate token"));
    }
    let (plan, _) = ReflectionEngine::with_min_occurrences(3).reflect(&fs, &vec![], false);
    let tags: Vec<&str> = plan
        .suggestions
        .iter()
        .map(|s| s.pattern_tag.as_str())
        .collect();
    assert_eq!(tags, vec!["auth", "fts5"]);

    let fts = plan
        .suggestions
        .iter()
        .find(|s| s.pattern_tag == "fts5")
        .unwrap();
    assert_eq!(fts.occurrence_count, 3);
    assert_eq!(fts.source_failure_ids.len(), 3);
    assert_eq!(fts.suggested_steps, vec!["sanitize query".to_string()]);
    assert!(fts.suggested_tags.contains(&"reflection".to_string()));
    assert!(fts.suggested_tags.contains(&"auto-generated".to_string()));
}

#[test]
fn dedups_repeated_prevention_into_distinct_steps() {
    let fs = vec![
        failure("f1", "fts5", "sanitize input"),
        failure("f2", "fts5", "sanitize input"),
        failure("f3", "fts5", "wrap as phrase query"),
    ];
    let (plan, _) = ReflectionEngine::with_min_occurrences(3).reflect(&fs, &vec![], false);
    let rule = &plan.suggestions[0];
    assert_eq!(
        rule.suggested_steps.len(),
        2,
        "duplicate prevention collapsed"
    );
    assert_eq!(rule.source_preventions.len(), 2);
}

fn three() -> Vec<FailureMemory> {
    (1..=3)
        .map(|i| failure(&format!("f{i}"), "fts5", "sanitize"))
        .collect()
}

#[test]
fn dry_run_writes_nothing() {
    let (plan, write) =
        ReflectionEngine::with_min_occurrences(3).reflect(&three(), &vec![], false);
    assert_eq!(plan.suggestions.len(), 1);
    assert_eq!(plan.created, 0);
    assert!(write.is_empty());
}

#[test]
fn apply_writes_pending_and_is_idempotent() {
    let engine = ReflectionEngine::with_min_occurrences(3);
    let mut pending: Vec<String> = vec![];
    let (p1, write) = engine.reflect(&three(), &pending, true);
    assert_eq!(p1.created, 1);
    for i in write {
        pending.push(p1.suggestions[i].pattern_tag.clone());
    }
    assert_eq!(pending, vec!["fts5"]);

    let (p2, write) = engine.reflect(&three(), &pending, true);
    assert_eq!(p2.created, 0);
    assert!(write.is_empty());
}

#[test]
fn ignores_failures_without_tags() {
    let fs: Vec<FailureMemory> = (1..=3)
        .map(|i| {
            let mut f = failure(&format!("f{i}"), "", "p");
            f.tags = vec![];
            f
        })
        .collect();
    let (plan, _) = ReflectionEngine::with_min_occurrences(3).reflect(&fs, &vec![], false);
    assert!(plan.suggestions.is_empty());
}

#[test]
fn more_frequent_tags_come_first() {
    let mut fs = three();
    for i in 1..=4 {
        fs.push(failure(&format!("z{i}"), "zeta", "stop"));
    }
    let rules = ReflectionEngine::new().propose(&fs);
    assert_eq!(rules[0].pattern_tag, "zeta");
    assert_eq!(rules[1].pattern_tag, "fts5");
}

#[test]
fn repeats_are_dropped_in_order() {
    let v: Vec<String> = ["b", "a", "b"].iter().map(|s| s.to_string()).collect();
    assert_eq!(dedup_preserve_order(&v), vec!["b", "a"]);
}

#[test]
fn a_failure_counts_once_for_a_tag_that_it_repeats() {
    let mut f = failure("f1", "x", "look twice");
    f.tags = vec!["x".into(), "x".into(), "x".into()];
    let engine = ReflectionEngine::with_min_occurrences(3);
    let (plan, write) = engine.reflect(&vec![f.clone()], &vec![], false);
    assert!(plan.suggestions.is_empty());
    assert_eq!(plan.created, 0);
    assert!(write.is_empty());

    let fs = vec![f, failure("f2", "x", "p"), failure("f3", "x", "p")];
    let (plan, _) = engine.reflect(&fs, &vec![], false);
    assert_eq!(plan.suggestions.len(), 1);
    assert_eq!(plan.suggestions[0].occurrence_count, 3);
    assert_eq!(
        plan.suggestions[0].source_failure_ids,
        vec!["f1", "f2", "f3"]
    );
}
