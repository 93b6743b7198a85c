use engram::context::composer::{
    date_text, format_timestamp, memory_type_priority, sort_by_priority, ContentType, ContextBudget,
    ContextComposer,
};
use engram::retrieval::bm25::{Score, SearchResult};

fn result(id: &str, ty: &str, summary: &str, rank: i64, created_at: i64) -> SearchResult {
    SearchResult {
        id: id.into(),
        memory_type: ty.into(),
        summary: summary.into(),
        score: Score {
            rank,
            text: format!("{:.2}", rank as f32 / 100.0),
        },
        importance: 0.5f32.to_bits(),
        created_at,
        tags: vec![],
    }
}

#[test]
fn test_estimate_tokens_english() {
    let tokens = ContextComposer::estimate_tokens("Hello world test");
    assert!(
        (tokens as f64 - 5.0).abs() < 2.0,
        "expected ~5, got {tokens}"
    );
}

#[test]
fn test_estimate_tokens_chinese() {
    let tokens = ContextComposer::estimate_tokens("你好世界测试");
    assert!(
        (tokens as f64 - 4.0).abs() < 2.0,
        "expected ~4, got {tokens}"
    );
}

#[test]
fn test_estimate_tokens_mixed() {
    let tokens = ContextComposer::estimate_tokens("Hello 你好 world 世界");
    assert!(
        tokens > 0 && tokens < 15,
        "expected reasonable estimate, got {tokens}"
    );
}

#[test]
fn token_estimates_of_small_texts() {
    assert_eq!(ContextComposer::estimate_tokens(""), 1);
    assert_eq!(ContextComposer::estimate_tokens("你好世界测试"), 4);
}

#[test]
fn test_detect_content_type() {
    assert_eq!(
        ContextComposer::detect_content_type("Hello world"),
        ContentType::English
    );
    assert_eq!(
        ContextComposer::detect_content_type("你好世界测试代码"),
        ContentType::Chinese
    );
}

#[test]
fn test_compose_context_within_budget() {
    let composer = ContextComposer::new();
    let budget = ContextBudget::new(10000, 15);
    let results: Vec<SearchResult> = (0..20)
        .map(|i| {
            let ty = if i < 5 {
                "failure"
            } else if i < 10 {
                "decision"
            } else {
                "episodic"
            };
            result(
                &format!("id-{i}"),
                ty,
                &format!("Test result number {i}"),
                50 + 2 * i,
                1716940800 + i * 1000,
            )
        })
        .collect();
    let context = composer.compose_context(&results, &budget);
    assert!(!context.is_empty());
    assert!(context.starts_with("=== Memory Context ==="));
    assert!(context.ends_with("=== End Memory ==="));
}

#[test]
fn test_compose_context_priority_ordering() {
    let composer = ContextComposer::new();
    let budget = ContextBudget::new(100000, 50);
    let results = vec![
        result("1", "procedural", "deployment workflow", 90, 1000),
        result("2", "failure", "auth outage", 50, 2000),
        result("3", "decision", "use redis", 70, 1500),
    ];
    let context = composer.compose_context(&results, &budget);
    let failure_pos = context.find("failure").unwrap();
    let decision_pos = context.find("decision").unwrap();
    let procedural_pos = context.find("procedural").unwrap();
    assert!(failure_pos < decision_pos);
    assert!(decision_pos < procedural_pos);
    assert!(context.contains("[failure] auth outage (score: 0.50, 1970-01-01)"));
}

#[test]
fn test_deduplication() {
    let composer = ContextComposer::new();
    let budget = ContextBudget::new(100000, 50);
    let results = vec![
        result("dup", "failure", "first copy", 90, 1000),
        result("dup", "failure", "duplicate", 80, 1000),
        result("unique", "decision", "unique entry", 70, 2000),
    ];
    let context = composer.compose_context(&results, &budget);
    let count = context.matches("[failure]").count() + context.matches("[decision]").count();
    assert_eq!(count, 2);
}

#[test]
fn a_budget_is_divided() {
    let b = ContextBudget::new(10000, 15);
    assert_eq!(b.reserved_for_memory, 1500);
    assert_eq!(b.max_tokens, 10000);
    assert!(b.reserved_for_user + b.reserved_for_agent + b.reserved_for_memory <= 10000);
}

#[test]
fn nothing_fits_into_no_budget() {
    let composer = ContextComposer::new();
    let budget = ContextBudget::new(1000, 0);
    let context = composer.compose_context(&[result("1", "failure", "x", 5, 0)], &budget);
    assert!(!context.contains("[failure]"));
}

#[test]
fn timestamps_are_shown_as_dates() {
    assert_eq!(format_timestamp(1716940800), "2024-05-29");
    assert_eq!(format_timestamp(0), "1970-01-01");
    assert_eq!(format_timestamp(i64::MAX), "9223372036854775807");
    assert_eq!(date_text(None, -5), "-5");
    assert_eq!(date_text(Some("today".to_string()), 1), "today");
}

#[test]
fn failures_come_before_everything() {
    for ty in ["decision", "episodic", "procedural", "other"] {
        assert!(memory_type_priority("failure") < memory_type_priority(ty));
    }
    let order = sort_by_priority(&[
        result("a", "procedural", "", 1, 0),
        result("b", "failure", "", 1, 0),
        result("c", "failure", "", 2, 0),
    ]);
    assert_eq!(order, vec![2, 1, 0]);
}

#[test]
fn scores_are_shown_between_zero_and_one() {
    let shown = |x: f32| {
        let mut r = result("1", "failure", "s", 0, 0);
        let magnitude = i64::from(x.abs().to_bits());
        r.score.rank = if x < 0.0 { -magnitude } else { magnitude };
        r.score.text = format!("{x:.2}");
        let budget = ContextBudget::new(200_000, 15);
        let text = ContextComposer::new().compose_context(&[r], &budget);
        let at = text.find("(score: ").unwrap() + 8;
        text[at..at + 4].to_string()
    };
    for x in [0.0f32, 0.25, 0.999, 1.0, 1.004, 1.46, -0.001, -3.0, f32::INFINITY] {
        assert_eq!(shown(x), format!("{:.2}", x.clamp(0.0, 1.0)), "{x}");
    }
    assert_eq!(shown(f32::NAN), "NaN,");
}
