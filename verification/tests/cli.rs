use engram::cli::args::{comma_list, has_flag, optional_str, repeated_args, require_str};
use engram::cli::commands::{
    check_owner, collect_count, collect_dimensions, count_duplicates, decision_from_args,
    decisions_report, episodic_from_args, failure_from_args, failures_report, fresh_events,
    gc_plan, ingest_count, ingest_report, no_suggestion, parse_duration, procedural_from_args,
    report_stale_memories, retention_seconds, since, target, Referenced,
};
use engram::cli::guide::{
    guide_options, guide_project, import_into_claude_md, import_step, is_yes, render_guide,
    writes_guide, ImportChoice, ImportOutcome, ImportStep,
};
use engram::cli::search::{
    matches_filters, merge_results, result_ids, search_items, search_request, EpisodicHit,
};
use engram::cli::session::{
    parse_transcript, push_unique, session_id_from_path, session_memory, session_options,
};
use engram::cli::{run, Command, Dispatch, USAGE};
use engram::collectors::Dimension;
use engram::consolidation::engine::{ConsolidationGroup, ConsolidationPlan};
use engram::git_integration::CommitEvent;
use engram::json::Json;
use engram::models::{
    DecisionMemory, EpisodicMemory, FailureMemory, MemoryKind, ProceduralMemory,
};
use engram::patch::patch_from_args;

fn list(words: &[&str]) -> Vec<String> {
    words.iter().map(|w| w.to_string()).collect()
}

fn value(j: &Json) -> serde_json::Value {
    serde_json::from_str(&j.print()).unwrap()
}

fn read(s: &str) -> serde_json::Value {
    serde_json::from_str(s).unwrap()
}

fn episodic(id: &str, tags: &[&str], created_at: i64) -> EpisodicMemory {
    EpisodicMemory {
        id: id.into(),
        project_id: "p".into(),
        session_id: "s".into(),
        summary: format!("summary of {id}"),
        content: "content".into(),
        files_touched: list(&["a.rs"]),
        related_commits: list(&["c1"]),
        importance: 0.5f32.to_bits(),
        tags: list(tags),
        created_at,
        updated_at: created_at,
    }
}

fn failure(id: &str, severity: u8) -> FailureMemory {
    FailureMemory {
        id: id.into(),
        project_id: "p".into(),
        incident: "boom".into(),
        root_cause: "rc".into(),
        fix: "fx".into(),
        prevention: "pv".into(),
        severity,
        tags: vec![],
        created_at: 7,
        updated_at: 7,
    }
}

fn decision(id: &str) -> DecisionMemory {
    DecisionMemory {
        id: id.into(),
        project_id: "p".into(),
        title: "t".into(),
        context: "c".into(),
        rationale: "r".into(),
        tradeoffs: "to".into(),
        related_files: list(&["x.rs"]),
        tags: vec![],
        created_at: 3,
        updated_at: 3,
    }
}

// ---------------------------------------------------------------------------
// Guide
// ---------------------------------------------------------------------------

#[test]
fn render_guide_substitutes_project_id() {
    let out = render_guide("project_id: \"{{PROJECT_ID}}\"\n", "my-proj");
    assert!(out.contains("project_id: \"my-proj\""));
    assert!(!out.contains("{{PROJECT_ID}}"));
}

#[test]
fn guide_without_a_placeholder_stays_as_it_is() {
    assert_eq!(render_guide("no placeholder", "p"), "no placeholder");
    assert_eq!(
        render_guide("{{PROJECT_ID}}{{PROJECT_ID}}", "ab"),
        "abab"
    );
}

#[test]
fn import_creates_claude_md_when_missing() {
    let (outcome, content) = import_into_claude_md(None);
    assert_eq!(outcome, ImportOutcome::Created);
    assert!(content.unwrap().lines().any(|l| l.trim() == "@ENGRAM.md"));
}

#[test]
fn import_appends_when_line_absent() {
    let (outcome, content) = import_into_claude_md(Some("# My rules\n"));
    assert_eq!(outcome, ImportOutcome::Appended);
    let content = content.unwrap();
    assert!(content.contains("# My rules"));
    assert!(content.lines().any(|l| l.trim() == "@ENGRAM.md"));
    assert_eq!(content, "# My rules\n@ENGRAM.md\n");
}

#[test]
fn import_is_idempotent() {
    let (outcome, content) = import_into_claude_md(Some("@ENGRAM.md\n"));
    assert_eq!(outcome, ImportOutcome::AlreadyPresent);
    assert!(content.is_none());
    let (_, created) = import_into_claude_md(None);
    let (again, _) = import_into_claude_md(Some(created.unwrap().as_str()));
    assert_eq!(again, ImportOutcome::AlreadyPresent);
    let (_, appended) = import_into_claude_md(Some("rules"));
    let (again, _) = import_into_claude_md(Some(appended.unwrap().as_str()));
    assert_eq!(again, ImportOutcome::AlreadyPresent);
}

#[test]
fn import_appends_without_gluing_when_no_trailing_newline() {
    let (outcome, content) = import_into_claude_md(Some("rules"));
    assert_eq!(outcome, ImportOutcome::Appended);
    let content = content.unwrap();
    assert!(content.lines().any(|l| l == "rules"));
    assert!(content.lines().any(|l| l == "@ENGRAM.md"));
}

#[test]
fn import_ignores_at_engram_substring_in_a_line() {
    let (outcome, content) = import_into_claude_md(Some("# see @ENGRAM.md docs\n"));
    assert_eq!(outcome, ImportOutcome::Appended);
    assert!(content.unwrap().lines().any(|l| l.trim() == "@ENGRAM.md"));
}

#[test]
fn import_into_an_empty_file_starts_with_a_line_feed() {
    let (outcome, content) = import_into_claude_md(Some(""));
    assert_eq!(outcome, ImportOutcome::Appended);
    assert_eq!(content.unwrap(), "\n@ENGRAM.md\n");
}

fn no_import_args(dir: &str) -> Vec<String> {
    list(&["--dir", dir, "--project", "demo", "--no-import"])
}

#[test]
fn init_guide_no_import_writes_guide_only() {
    let options = guide_options(&no_import_args("/tmp/there"));
    assert_eq!(options.dir, "/tmp/there");
    assert!(writes_guide(false, options.force));
    assert_eq!(import_step(options.import, true), ImportStep::Skip);
    let project = guide_project(options.project, Some("there".to_string())).unwrap();
    let g = render_guide("project_id: \"{{PROJECT_ID}}\"", &project);
    assert!(g.contains("project_id: \"demo\""));
}

#[test]
fn init_guide_skips_existing_without_force() {
    let options = guide_options(&no_import_args("."));
    assert!(!writes_guide(true, options.force));
}

#[test]
fn init_guide_force_overwrites() {
    let mut args = no_import_args(".");
    args.push("--force".to_string());
    let options = guide_options(&args);
    assert!(writes_guide(true, options.force));
}

#[test]
fn guide_options_fall_back_to_the_directory() {
    let options = guide_options(&list(&["--import"]));
    assert_eq!(options.dir, ".");
    assert!(options.project.is_none());
    assert!(!options.force);
    assert_eq!(options.import, ImportChoice::Import);
    assert_eq!(guide_project(None, Some("repo".to_string())).unwrap(), "repo");
    assert!(guide_project(None, None).is_err());
}

#[test]
fn the_import_is_asked_for_only_at_a_terminal() {
    assert_eq!(import_step(ImportChoice::Import, false), ImportStep::Import);
    assert_eq!(import_step(ImportChoice::Undecided, true), ImportStep::Ask);
    assert_eq!(
        import_step(ImportChoice::Undecided, false),
        ImportStep::NoTerminal
    );
    assert!(is_yes(" Yes\n"));
    assert!(is_yes("y"));
    assert!(!is_yes("no"));
    assert!(!is_yes(""));
}

// ---------------------------------------------------------------------------
// Dispatch
// ---------------------------------------------------------------------------

#[test]
fn help_flags_print_usage_and_succeed() {
    assert!(matches!(run(&list(&["--help"])), Dispatch::Usage));
    assert!(matches!(run(&list(&["-h"])), Dispatch::Usage));
    assert!(matches!(run(&list(&["help"])), Dispatch::Usage));
}

#[test]
fn usage_lists_init_guide() {
    assert!(USAGE.contains("init-guide"));
}

#[test]
fn unknown_command_errors() {
    match run(&list(&["--nonsense"])) {
        Dispatch::Unknown(message) => assert_eq!(
            message,
            "Unknown command: --nonsense\nRun 'engram help' for usage."
        ),
        other => panic!("{other:?}"),
    }
}

#[test]
fn usage_lists_lifecycle_commands() {
    for c in [
        "forget",
        "restore",
        "update",
        "forget-batch",
        "list-archived",
        "consolidate",
    ] {
        assert!(USAGE.contains(c), "USAGE missing {c}");
    }
}

#[test]
fn usage_lists_reindex() {
    assert!(USAGE.contains("reindex"));
}

#[test]
fn usage_lists_gc() {
    assert!(USAGE.contains("Garbage-collect"));
}

#[test]
fn usage_lists_reflection_commands() {
    for c in [
        "reflect",
        "suggestions",
        "confirm-suggestion",
        "reject-suggestion",
    ] {
        assert!(USAGE.contains(c), "USAGE missing {c}");
    }
}

#[test]
fn a_command_gets_the_arguments_behind_it() {
    match run(&list(&["search", "--query", "x"])) {
        Dispatch::Run(command, rest) => {
            assert_eq!(command, Command::Search);
            assert_eq!(rest, list(&["--query", "x"]));
        }
        other => panic!("{other:?}"),
    }
    for (name, command) in [
        ("get", Command::Get),
        ("maintain", Command::Maintain),
        ("session-import", Command::SessionImport),
        ("confirm-suggestion", Command::ConfirmSuggestion),
        ("gc", Command::Gc),
    ] {
        assert_eq!(Command::from_name(name), Some(command));
    }
    assert_eq!(Command::from_name("help"), None);
}

// ---------------------------------------------------------------------------
// Arguments
// ---------------------------------------------------------------------------

#[test]
fn options_are_found_by_name() {
    let args = list(&["--tag", "a", "--apply", "--tag", "b", "--files", "x, y,,z"]);
    assert!(has_flag(&args, "--apply"));
    assert!(!has_flag(&args, "--force"));
    assert_eq!(optional_str(&args, "tag"), Some("a".to_string()));
    assert_eq!(optional_str(&args, "none"), None);
    assert_eq!(repeated_args(&args, "tag"), list(&["a", "b"]));
    assert_eq!(comma_list(&args, "files"), list(&["x", "y", "z"]));
    assert_eq!(require_str(&args, "tag").unwrap(), "a");
    assert!(require_str(&args, "project").unwrap_err().contains("--project"));
}

#[test]
fn update_set_without_equals_is_an_error() {
    let args = list(&[
        "update",
        "--project",
        "p",
        "--type",
        "episodic",
        "--id",
        "x",
        "--set",
        "no_equals_here",
    ]);
    let rest = match run(&args) {
        Dispatch::Run(Command::Update, rest) => rest,
        other => panic!("{other:?}"),
    };
    let msg = patch_from_args(&rest).unwrap_err();
    assert!(
        msg.contains("--set") && msg.contains('='),
        "expected clear --set error mentioning '=', got: {msg}"
    );
}

#[test]
fn durations_of_other_units_are_refused() {
    assert_eq!(parse_duration("0s").unwrap(), 0);
    assert!(parse_duration("").is_err());
    assert!(parse_duration("9223372036854775807w").is_err());
}

#[test]
fn parse_duration_supports_units() {
    assert_eq!(parse_duration("30d").unwrap(), 30 * 86_400);
    assert_eq!(parse_duration("12h").unwrap(), 12 * 3_600);
    assert_eq!(parse_duration("45m").unwrap(), 45 * 60);
    assert_eq!(parse_duration("8w").unwrap(), 8 * 604_800);
    assert_eq!(parse_duration("30s").unwrap(), 30);
}

#[test]
fn parse_duration_rejects_bad_input() {
    assert!(parse_duration("30").is_err());
    assert!(parse_duration("30x").is_err());
    assert!(parse_duration("abc").is_err());
    assert!(parse_duration("d").is_err());
}

#[test]
fn collection_of_garbage_is_a_dry_run_by_default() {
    let plan = gc_plan(&list(&["--older-than", "2d"])).unwrap();
    assert_eq!(plan.older_than_seconds, 172_800);
    assert!(!plan.apply);
    assert!(gc_plan(&list(&["--older-than", "2d", "--apply"])).unwrap().apply);
    assert!(gc_plan(&list(&["--older-than", "soon"])).is_err());
}

#[test]
fn a_number_of_days_reaches_back() {
    assert_eq!(since(1_000_000, 2), 1_000_000 - 2 * 86_400);
    assert_eq!(retention_seconds(90), 90 * 86_400);
    assert_eq!(retention_seconds(u64::MAX), -1);
}

#[test]
fn memories_are_made_from_arguments() {
    let e = episodic_from_args(
        &list(&[
            "--project", "p", "--session", "s", "--summary", "sum", "--content", "body",
            "--files", "a.rs,b.rs", "--tag", "x",
        ]),
        None,
        "id1".into(),
        9,
    )
    .unwrap();
    assert_eq!(e.id, "id1");
    assert_eq!(e.summary, "sum");
    assert_eq!(e.content, "body");
    assert_eq!(e.files_touched, list(&["a.rs", "b.rs"]));
    assert_eq!(e.tags, list(&["x"]));
    assert_eq!(f32::from_bits(e.importance), 0.5);
    assert_eq!(e.created_at, 9);
    assert_eq!(e.updated_at, 9);
    let d = decision_from_args(
        &list(&["--project", "p", "--title", "t", "--context", "c", "--rationale", "r"]),
        "id2".into(),
        9,
    )
    .unwrap();
    assert_eq!(d.title, "t");
    assert_eq!(d.rationale, "r");
    assert!(decision_from_args(&list(&["--project", "p"]), "id".into(), 9).is_err());
    let f = failure_from_args(
        &list(&[
            "--project", "p", "--incident", "i", "--root-cause", "rc", "--fix", "f",
            "--prevention", "pv",
        ]),
        Some(4),
        "id3".into(),
        9,
    )
    .unwrap();
    assert_eq!(f.severity, 4);
    assert_eq!(f.incident, "i");
    let p = procedural_from_args(
        &list(&["--project", "p", "--name", "release", "--steps", "build, tag"]),
        "id4".into(),
        9,
    );
    let p: ProceduralMemory = p.unwrap();
    assert_eq!(p.workflow_name, "release");
    assert_eq!(p.steps, list(&["build", "tag"]));
}

#[test]
fn a_target_names_a_memory() {
    let t = target(&list(&["--project", "p", "--type", "failure", "--id", "f1"])).unwrap();
    assert_eq!(t.kind, MemoryKind::Failure);
    assert_eq!(t.id, "f1");
    assert!(target(&list(&["--project", "p", "--type", "dream", "--id", "f1"])).is_err());
    assert!(target(&list(&["--project", "p", "--type", "failure"])).is_err());
}

#[test]
fn only_the_owner_may_touch_a_memory() {
    assert!(check_owner(Some("p"), "id", "p").is_ok());
    assert!(check_owner(Some("q"), "id", "p").is_err());
    assert!(check_owner(None, "id", "p").is_err());
    assert!(no_suggestion("s1", "p").contains("s1"));
}

// ---------------------------------------------------------------------------
// Reports
// ---------------------------------------------------------------------------

fn event(hash: &str, message: &str, timestamp: i64) -> CommitEvent {
    CommitEvent {
        commit_hash: hash.into(),
        message: message.into(),
        files_changed: vec![],
        timestamp,
    }
}

#[test]
fn ingested_commits_are_left_out() {
    let fresh = fresh_events(
        vec![event("a", "feat: x", 1), event("b", "fix: y", 2)],
        &list(&["a"]),
    );
    assert_eq!(fresh.len(), 1);
    assert_eq!(fresh[0].commit_hash, "b");
    assert_eq!(ingest_count(None), 20);
    assert_eq!(ingest_count(Some(3)), 3);
    assert_eq!(collect_count(None), 200);
    assert_eq!(collect_count(Some(3)), 3);
}

#[test]
fn an_ingestion_is_reported() {
    let out = value(&ingest_report(&vec![episodic("e1", &[], 1)], 5, 3));
    assert_eq!(out["memories"][0]["id"], "e1");
}

#[test]
fn dimensions_are_read_from_an_option() {
    assert_eq!(
        collect_dimensions(Some("git")).unwrap(),
        vec![Dimension::Git]
    );
    assert_eq!(collect_dimensions(None).unwrap().len(), 4);
    assert!(collect_dimensions(Some("bogus")).is_err());
}

#[test]
fn failures_and_decisions_are_listed() {
    let fs = value(&failures_report(&vec![failure("f1", 4)]));
    assert_eq!(fs["failures"][0]["severity"], 4);
    assert_eq!(fs["failures"][0]["root_cause"], "rc");
    let ds = value(&decisions_report(&vec![decision("d1")]));
    assert_eq!(ds["decisions"][0]["tradeoffs"], "to");
}

#[test]
fn duplicates_are_counted_over_plans() {
    let group = |n: usize| ConsolidationGroup {
        keeper_id: "k".into(),
        duplicate_ids: (0..n).map(|i| format!("d{i}")).collect(),
        reason: "exact".into(),
    };
    let plans = vec![
        ConsolidationPlan {
            memory_type: "episodic".into(),
            groups: vec![group(2), group(1)],
            archived: 0,
        },
        ConsolidationPlan {
            memory_type: "decision".into(),
            groups: vec![group(3)],
            archived: 0,
        },
    ];
    assert_eq!(count_duplicates(&plans), (3, 6));
}

#[test]
fn memories_without_their_files_are_stale() {
    let m = |id: &str, files: &[&str]| Referenced {
        memory_type: "episodic".into(),
        id: id.into(),
        label: "l".into(),
        files: list(files),
    };
    let ms = vec![
        m("gone", &["x.rs", "y.rs"]),
        m("kept", &["x.rs", "z.rs"]),
        m("none", &[]),
    ];
    let out = value(&report_stale_memories(&ms, &list(&["z.rs"])));
    assert_eq!(out["memories_with_file_refs"], 2);
    assert_eq!(out["stale_total"], 1);
    assert_eq!(out["truncated"], false);
    assert_eq!(out["stale"].as_array().unwrap().len(), 1);
    assert_eq!(out["stale"][0]["id"], "gone");
}

#[test]
fn stale_memories_are_listed_up_to_a_limit() {
    let ms: Vec<Referenced> = (0..105)
        .map(|i| Referenced {
            memory_type: "episodic".into(),
            id: format!("m{i}"),
            label: "l".into(),
            files: list(&["gone.rs"]),
        })
        .collect();
    let out = value(&report_stale_memories(&ms, &vec![]));
    assert_eq!(out["stale"].as_array().unwrap().len(), 100);
    assert_eq!(out["stale_total"], 105);
    assert_eq!(out["truncated"], true);
}

// ---------------------------------------------------------------------------
// Search
// ---------------------------------------------------------------------------

#[test]
fn a_search_needs_a_project_and_a_query() {
    let q = search_request(
        &list(&["--project", "p", "--query", "oauth", "--tag", "a", "--tag", "b"]),
        None,
        10,
        Some(5),
    )
    .unwrap();
    assert_eq!(q.limit, 10);
    let args = list(&["--project", "p", "--query", "oauth"]);
    assert_eq!(search_request(&args, None, 25, None).unwrap().limit, 25);
    assert_eq!(search_request(&args, Some(3), 25, None).unwrap().limit, 3);
    assert_eq!(q.kinds.len(), 4);
    assert_eq!(q.tags, list(&["a", "b"]));
    assert_eq!(q.before, Some(5));
    assert!(search_request(&list(&["--project", "p"]), None, 10, None).is_err());
    let err = search_request(
        &list(&["--project", "p", "--query", "q", "--type", "dream"]),
        None,
        10,
        None,
    )
    .unwrap_err();
    assert_eq!(
        err,
        "Unknown memory type: dream. Use: episodic, decision, failure, procedural"
    );
}

#[test]
fn filters_keep_what_carries_a_tag_and_is_old_enough() {
    let tags = list(&["auth", "bug"]);
    assert!(matches_filters(&tags, 10, &vec![], None));
    assert!(matches_filters(&tags, 10, &list(&["bug", "x"]), None));
    assert!(!matches_filters(&tags, 10, &list(&["x"]), None));
    assert!(matches_filters(&tags, 10, &vec![], Some(11)));
    assert!(!matches_filters(&tags, 12, &vec![], Some(11)));
}

#[test]
fn the_best_results_of_all_types_are_kept() {
    let hit = |id: &str| EpisodicHit {
        memory: episodic(id, &["t"], 4),
        importance: serde_json::Number::from_f64(0.5).unwrap(),
    };
    let found = vec![(3, hit("e1")), (9, hit("e2"))];
    let mut items = search_items(&found, &vec![], None, false);
    items.append(&mut search_items(
        &vec![(5, failure("f1", 2))],
        &vec![],
        None,
        false,
    ));
    items.append(&mut search_items(
        &vec![(7, decision("d1"))],
        &vec![],
        None,
        true,
    ));
    let kept = merge_results(items, 3);
    assert_eq!(result_ids(&kept), list(&["e2", "d1", "f1"]));
    let none = search_items(&found, &list(&["other"]), None, false);
    assert!(none.is_empty());
    let full = search_items(&found, &vec![], None, true);
    assert_eq!(value(&full[0].1)["importance"], 0.5);
    assert_eq!(value(&full[0].1)["content"], "content");
}

// ---------------------------------------------------------------------------
// Sessions
// ---------------------------------------------------------------------------

#[test]
fn parse_transcript_extracts_prompts_text_and_files() {
    let jsonl = r#"
{"type":"user","isMeta":true,"message":{"role":"user","content":"Caveat: injected"}}
{"type":"user","message":{"role":"user","content":"fix the auth middleware bug"}}
{"type":"assistant","message":{"role":"assistant","content":[{"type":"thinking","thinking":"..."},{"type":"text","text":"Root cause was a stale token."},{"type":"tool_use","name":"Edit","input":{"file_path":"/src/auth.rs"}}]}}
{"type":"user","message":{"role":"user","content":[{"type":"tool_result","content":"ok"}]}}
{"type":"assistant","message":{"role":"assistant","content":[{"type":"text","text":"Fixed and verified."},{"type":"tool_use","name":"Read","input":{"path":"/src/main.rs"}}]}}
{"type":"summary","summary":"Auth middleware fix"}
not json at all
"#;
    let d = parse_transcript(jsonl);
    assert_eq!(
        d.user_prompts,
        vec!["fix the auth middleware bug".to_string()]
    );
    assert_eq!(d.assistant_texts.len(), 2);
    assert!(d
        .assistant_texts
        .contains(&"Root cause was a stale token.".to_string()));
    assert!(d.files.contains(&"/src/auth.rs".to_string()));
    assert!(d.files.contains(&"/src/main.rs".to_string()));
}

#[test]
fn parse_transcript_skips_command_wrappers_and_malformed() {
    let jsonl = r#"
{broken json}
{"type":"user","message":{"role":"user","content":"<command-name>/clear</command-name>"}}
"#;
    let d = parse_transcript(jsonl);
    assert!(d.user_prompts.is_empty());
    assert!(d.files.is_empty());
}

#[test]
fn session_import_dry_run_writes_nothing_and_reports() {
    let transcript = "{\"type\":\"user\",\"message\":{\"role\":\"user\",\"content\":\"add rate limiting\"}}\n{\"type\":\"assistant\",\"message\":{\"role\":\"assistant\",\"content\":[{\"type\":\"text\",\"text\":\"Done\"},{\"type\":\"tool_use\",\"name\":\"Edit\",\"input\":{\"file_path\":\"api/rate.rs\"}}]}}\n";
    let args = list(&["--project", "p", "--transcript", "/tmp/sess.jsonl", "--dry-run"]);
    let options = session_options(&args).unwrap();
    assert!(options.dry_run);
    assert_eq!(options.session_id, "sess");
    let digest = parse_transcript(transcript);
    let m = session_memory(&digest, "p", &options.session_id, "id".into(), 5).unwrap();
    assert_eq!(m.files_touched, list(&["api/rate.rs"]));
    assert_eq!(m.summary, "add rate limiting");
    assert_eq!(
        m.content,
        "User prompts:\n- add rate limiting\n\nAssistant conclusions (latest last):\n- Done\n\nFiles touched (1):\napi/rate.rs"
    );
}

#[test]
fn a_transcript_without_signal_gives_no_memory() {
    let digest = parse_transcript("");
    assert!(session_memory(&digest, "p", "s", "id".into(), 5).is_err());
    assert_eq!(session_id_from_path("/a/b/xyz.jsonl"), "xyz");
    assert!(session_options(&list(&["--project", "p"])).is_err());
}

#[test]
fn a_digest_does_not_repeat_itself() {
    let mut files = vec![];
    push_unique(&mut files, "a");
    push_unique(&mut files, "b");
    push_unique(&mut files, "a");
    assert_eq!(files, list(&["a", "b"]));
}

#[test]
fn set_values_are_read_as_json_where_they_are_json() {
    let patch = patch_from_args(&list(&[
        "--set", "severity=4", "--set", "summary=plain words", "--set", "a=b=c",
    ]))
    .unwrap();
    assert_eq!(patch.len(), 3);
    let find = |key: &str| {
        let found = patch.iter().find(|(k, _)| k == key).unwrap();
        value(&found.1)
    };
    assert_eq!(find("severity"), read("4"));
    assert_eq!(find("summary"), read("\"plain words\""));
    assert_eq!(find("a"), read("\"b=c\""));
}
