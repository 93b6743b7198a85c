use engram::collectors::docs::{self, classify_comment_line, doc_kind, kw_lower};
use engram::collectors::failures::{
    self, is_fix_message, looks_like_error_test, parse_changelog_fixed,
};
use engram::collectors::files::{
    file_extension, file_name, file_stem, read_bounded, relpath, WalkedFile,
};
use engram::collectors::git_collector::{
    self, cluster_by_theme, looks_like_migration, parse_conventional, History,
};
use engram::collectors::walk::{
    is_ignored_dir, walk_files, DirEntry, EntryKind, Listing, StopReason, Walk, WalkBudget,
};
use engram::collectors::workflow::{self, classify, parse_package_scripts, Category};
use engram::collectors::{collect, needs_history, CollectOptions, Dimension, Gathered};
use engram::git_integration::CommitEvent;
use engram::path_guard::GuardError;

fn event(hash: &str, message: &str, files: &[&str], timestamp: i64) -> CommitEvent {
    CommitEvent {
        commit_hash: hash.into(),
        message: message.into(),
        files_changed: files.iter().map(|f| f.to_string()).collect(),
        timestamp,
    }
}

fn walked(path: &str, content: &str) -> WalkedFile {
    WalkedFile {
        path: path.into(),
        read: Some(content.as_bytes().to_vec()),
    }
}

fn pair(t: Option<&str>, s: Option<&str>) -> (Option<String>, Option<String>) {
    (t.map(|x| x.to_string()), s.map(|x| x.to_string()))
}

// ---------------------------------------------------------------------------
// Documents
// ---------------------------------------------------------------------------

#[test]
fn classify_rust_module_doc() {
    let (k, t) = classify_comment_line("//! No async runtime — SQLite is local and sync").unwrap();
    assert_eq!(k, "module-doc");
    assert!(t.contains("No async runtime"));
}

#[test]
fn classify_labeled_note() {
    let (k, t) = classify_comment_line("    // WHY: gix avoids libgit2 dynamic linking").unwrap();
    assert_eq!(k, "why");
    assert!(t.contains("gix"));
}

#[test]
fn classify_rejects_plain_code() {
    assert!(classify_comment_line("let x = 5;").is_none());
    assert!(classify_comment_line("// ").is_none());
}

#[test]
fn collects_markdown_and_cargo_manifest() {
    let files = vec![
        walked(
            "/r/Cargo.toml",
            "[dependencies]\nserde = \"1\"\ntokio = { version = \"1\", features = [\"full\"] }\n",
        ),
        walked("/r/README.md", "# Project\n"),
    ];
    let col = docs::collect("/r", files, &CollectOptions::default());
    assert_eq!(col.dependencies.len(), 1);
    assert_eq!(col.dependencies[0].manager, "cargo");
    assert_eq!(col.dependencies[0].dependencies.len(), 2);
    assert!(col.documents.iter().any(|d| d.kind == "readme"));
    assert_eq!(col.item_count(), 2);
}

#[test]
fn scans_decision_annotations() {
    let files = vec![walked(
        "/r/a.rs",
        "//! Module-level rationale.\nfn main() {\n    // WHY: avoid allocation\n}\n",
    )];
    let col = docs::collect("/r", files, &CollectOptions::default());
    assert!(col.annotations.iter().any(|a| a.kind == "module-doc"));
    assert!(col.annotations.iter().any(|a| a.kind == "why"));
    let why = col.annotations.iter().find(|a| a.kind == "why").unwrap();
    assert_eq!(why.line, 3);
    assert_eq!(why.file, "a.rs");
}

#[test]
fn versions_are_read_from_manifests() {
    let cargo = docs::parse_cargo_toml(
        "[dependencies]\nserde = \"1.0\"\ntokio = { version = \"1.2\" }\nlocal = { path = \"x\" }\n",
        "Cargo.toml",
    );
    let version = |name: &str| {
        let found = cargo.dependencies.iter().find(|d| d.name == name);
        found.unwrap().version.clone()
    };
    assert_eq!(version("serde"), "1.0");
    assert_eq!(version("tokio"), "1.2");
    let npm = docs::parse_package_json(
        "{\"dependencies\":{\"react\":\"^18\"},\"devDependencies\":{\"jest\":\"29\"}}",
        "package.json",
    );
    assert_eq!(npm.manager, "npm");
    assert_eq!(npm.dependencies.len(), 2);
    let go = docs::parse_go_mod(
        "module m\n\nrequire (\n\tgithub.com/a/b v1.2.3\n)\n",
        "go.mod",
    );
    assert_eq!(go.dependencies.len(), 1);
    assert_eq!(go.dependencies[0].name, "github.com/a/b");
    assert_eq!(go.dependencies[0].version, "v1.2.3");
    assert!(docs::parse_cargo_toml("not toml [", "Cargo.toml").dependencies.is_empty());
}

#[test]
fn kinds_of_documents_follow_their_names() {
    assert_eq!(doc_kind("README.md", None), "readme");
    assert_eq!(doc_kind("/r/docs/adr/0001-x.md", None), "decision-record");
    assert_eq!(doc_kind("/r/docs/x.md", None), "docs");
    assert_eq!(doc_kind("/r/AGENTS.md", None), "agent-guidelines");
    assert_eq!(doc_kind("/r/notes.md", None), "markdown");
    assert_eq!(doc_kind("/r/CONTRIBUTING.md", None), "markdown");
    assert_eq!(doc_kind("/r/ARCHITECTURE.md", None), "markdown");
    assert_eq!(doc_kind("/r/docs/ARCHITECTURE.md", None), "docs");
    assert_eq!(doc_kind("/r/notes.md", Some("notes.md")), "agent-guidelines");
    assert_eq!(doc_kind("/r/other.md", Some("notes.md")), "markdown");
    assert_eq!(kw_lower("WHY"), "why");
}

#[test]
fn documents_stay_bounded() {
    let files: Vec<WalkedFile> = (0..60)
        .map(|i| walked(&format!("/r/n{i}.md"), "x"))
        .collect();
    let col = docs::collect("/r", files, &CollectOptions::default());
    assert_eq!(col.documents.len(), docs::MAX_DOCUMENTS);
}

// ---------------------------------------------------------------------------
// Failures
// ---------------------------------------------------------------------------

#[test]
fn is_fix_detects_conventional_and_keywords() {
    assert!(is_fix_message("fix: null deref on empty input"));
    assert!(is_fix_message("hotfix: patch the leak"));
    assert!(is_fix_message("revert: bad config"));
    assert!(is_fix_message("Handle crash on startup"));
    assert!(!is_fix_message("feat: add login screen"));
}

#[test]
fn parses_changelog_fixed_section() {
    let log = "# Changelog\n\n## [1.2.0]\n### Added\n- new thing\n\n### Fixed\n- crash on empty input\n- memory leak in pool\n\n## [1.1.0]\n### Fixed\n- token expiry\n";
    let entries = parse_changelog_fixed(log, "CHANGELOG.md");
    assert!(entries.iter().any(|e| e.entry.contains("crash")));
    assert!(entries.iter().any(|e| e.entry.contains("memory leak")));
    assert!(entries.iter().any(|e| e.entry.contains("token expiry")));
    assert!(entries.iter().all(|e| !e.entry.contains("new thing")));
    assert_eq!(entries.len(), 3);
    assert_eq!(entries[0].line_start, 8);
}

#[test]
fn collects_fix_commits_from_repo() {
    let events = vec![
        event("c3", "docs: readme", &["a.txt"], 0),
        event("c2", "fix: crash on empty", &["a.txt"], 0),
        event("c1", "feat: initial", &["a.txt"], 0),
    ];
    let col = failures::collect("/r", Some(&events), vec![], &CollectOptions::default());
    assert_eq!(col.fix_commits.len(), 1);
    assert!(col.fix_commits[0].message.contains("crash"));
}

#[test]
fn error_tests_are_told_by_their_names() {
    assert!(looks_like_error_test("test_error_handling.rs"));
    assert!(!looks_like_error_test("main.rs"));
}

// ---------------------------------------------------------------------------
// History
// ---------------------------------------------------------------------------

#[test]
fn parse_conventional_with_scope() {
    let (t, s) = parse_conventional("feat(auth): add OAuth login");
    assert_eq!(t.as_deref(), Some("feat"));
    assert_eq!(s.as_deref(), Some("auth"));
}

#[test]
fn parse_conventional_without_scope() {
    let (t, s) = parse_conventional("fix: null pointer");
    assert_eq!(t.as_deref(), Some("fix"));
    assert_eq!(s, None);
}

#[test]
fn parse_conventional_rejects_prose() {
    assert_eq!(parse_conventional("Update the README"), pair(None, None));
    assert_eq!(parse_conventional("Merge branch x"), pair(None, None));
    assert_eq!(parse_conventional(""), pair(None, None));
}

#[test]
fn cluster_splits_themes_across_time_gaps() {
    let mk = |ts: i64, subject: &str| event(&format!("h{ts}"), subject, &[], ts);
    let y = 365 * 24 * 3600;
    let events = [
        mk(0, "fix: early crash"),
        mk(3600, "fix: early leak"),
        mk(2 * y, "fix: modern panic"),
        mk(2 * y + 3600, "fix: modern race"),
    ];
    let refs: Vec<&CommitEvent> = events.iter().collect();
    let milestones = cluster_by_theme(&refs, 15);
    assert_eq!(milestones.len(), 2, "gap > 30 days must split the theme");
    assert_eq!(milestones[0].commit_count, 2);
    assert_eq!(milestones[1].commit_count, 2);
    assert!(milestones[0].first_ts > milestones[1].first_ts);
}

#[test]
fn parse_conventional_whitelist_rejects_junk_heads() {
    assert_eq!(parse_conventional("http: fix url"), pair(None, None));
    assert_eq!(parse_conventional("v2: the big release"), pair(None, None));
    assert_eq!(parse_conventional("fix(auth: thing"), pair(None, None));
    let (t, s) = parse_conventional("fix(auth): token refresh");
    assert_eq!(t.as_deref(), Some("fix"));
    assert_eq!(s.as_deref(), Some("auth"));
}

#[test]
fn rewrite_alone_is_not_breaking() {
    assert!(!looks_like_migration("refactor: rewrite parser loop"));
    assert!(looks_like_migration("refactor!: rewrite parser loop"));
    assert!(looks_like_migration("feat: migrate storage to SQLite"));
}

#[test]
fn looks_like_migration_detects_markers() {
    assert!(looks_like_migration("feat!: drop Python 3.7"));
    assert!(looks_like_migration("BREAKING CHANGE: removes old API"));
    assert!(looks_like_migration("refactor: migrate to tokio"));
    assert!(!looks_like_migration("docs: typo"));
}

#[test]
fn cluster_groups_by_type_and_scope() {
    let events = vec![
        event("c4", "docs: readme", &["c.txt"], 0),
        event("c3", "fix: crash", &["b.txt"], 0),
        event("c2", "feat(auth): logout", &["a.txt"], 0),
        event("c1", "feat(auth): login", &["a.txt"], 0),
    ];
    let col = git_collector::collect(History::Commits(events), &CollectOptions::default()).unwrap();
    let auth = col
        .milestones
        .iter()
        .find(|m| m.theme == "feat: auth")
        .expect("auth theme exists");
    assert_eq!(auth.commit_count, 2);
}

#[test]
fn collect_skips_ingested_commits() {
    let events = vec![event("h1", "feat: one", &["a.txt"], 0)];
    let mut opts = CollectOptions::default();
    opts.ingested_commit_hashes.push("h1".to_string());
    let col = git_collector::collect(History::Commits(events), &opts).unwrap();
    assert_eq!(col.skipped_ingested, 1);
    assert!(col.recent_commits.is_empty());
}

#[test]
fn a_history_that_cannot_be_read_is_an_error() {
    let history = History::Failed("failed to resolve HEAD".to_string());
    let r = git_collector::collect(history, &CollectOptions::default());
    assert_eq!(r.unwrap_err(), "failed to resolve HEAD");
}

#[test]
fn a_path_without_a_repository_yields_an_empty_collection() {
    let c = git_collector::collect(History::NoRepository, &CollectOptions::default()).unwrap();
    assert!(c.milestones.is_empty() && c.migrations.is_empty() && c.recent_commits.is_empty());
    assert_eq!(c.skipped_ingested, 0);
    assert_eq!(c.item_count(), 0);
}

// ---------------------------------------------------------------------------
// Dimensions
// ---------------------------------------------------------------------------

#[test]
fn dimension_parse_all_on_empty() {
    assert_eq!(Dimension::parse_list(None), Dimension::all());
    assert_eq!(Dimension::parse_list(Some("")), Dimension::all());
}

#[test]
fn dimension_parse_subset_and_aliases() {
    let d = Dimension::parse_list(Some("git, ci, docs"));
    assert_eq!(d.len(), 3);
    assert!(d.contains(&Dimension::Git));
    assert!(d.contains(&Dimension::Workflow));
    assert!(d.contains(&Dimension::Decisions));
}

#[test]
fn dimension_parse_drops_unknown() {
    let d = Dimension::parse_list(Some("git, bogus, failures"));
    assert_eq!(d, vec![Dimension::Git, Dimension::Failures]);
}

#[test]
fn only_some_dimensions_need_the_history() {
    assert!(needs_history(&vec![Dimension::Failures]));
    assert!(needs_history(&vec![Dimension::Git]));
    assert!(!needs_history(&vec![Dimension::Decisions, Dimension::Workflow]));
    assert_eq!(Dimension::Workflow.as_str(), "workflow");
}

#[test]
fn collect_runs_all_dimensions_on_non_git_dir() {
    let gathered = Gathered {
        history: Err("not a repository".to_string()),
        decision_files: vec![walked("/r/README.md", "# hi\n")],
        failure_files: vec![walked("/r/README.md", "# hi\n")],
        workflow_files: vec![walked("/r/README.md", "# hi\n")],
    };
    let result = collect(
        "proj",
        Ok("/r".to_string()),
        &Dimension::all(),
        gathered,
        &CollectOptions::default(),
    )
    .unwrap();
    assert!(result.git.is_none());
    assert!(result.decisions.is_some());
    assert!(result
        .summary
        .notes
        .iter()
        .any(|n| n.contains("git dimension skipped")));
    assert_eq!(result.summary.decision_items, 1);
    assert_eq!(
        result.summary.total_items,
        result.summary.git_items
            + result.summary.decision_items
            + result.summary.failure_items
            + result.summary.workflow_items
    );
}

#[test]
fn a_refused_path_collects_nothing() {
    let gathered = Gathered {
        history: Ok(vec![]),
        decision_files: vec![],
        failure_files: vec![],
        workflow_files: vec![],
    };
    let r = collect(
        "proj",
        Err(GuardError::FilesystemRoot),
        &Dimension::all(),
        gathered,
        &CollectOptions::default(),
    );
    assert!(matches!(r, Err(GuardError::FilesystemRoot)));
}

// ---------------------------------------------------------------------------
// Files
// ---------------------------------------------------------------------------

#[test]
fn read_bounded_truncates_large_files() {
    let s = read_bounded("a".repeat(100).into_bytes(), 10);
    assert!(s.contains("[truncated]"));
    assert!(s.starts_with("aaaaaaaaaa"));
    assert_eq!(read_bounded(b"abc".to_vec(), 10), "abc");
}

#[test]
fn text_that_is_no_utf8_is_read_with_replacements() {
    assert_eq!(read_bounded(vec![b'a', 0xff, b'b'], 10), "a\u{fffd}b");
}

#[test]
fn names_are_taken_from_paths() {
    assert_eq!(file_name("/a/b/C.Rs"), "C.Rs");
    assert_eq!(file_extension("C.Rs"), "Rs");
    assert_eq!(file_stem("/a/b.tar.gz"), Some("b.tar".to_string()));
    assert_eq!(relpath("/r/src/a.rs", "/r"), "src/a.rs");
    assert_eq!(relpath("/other/a.rs", "/r"), "/other/a.rs");
    assert_eq!(relpath("/repo//src/a.rs", "/repo"), "src/a.rs");
    assert_eq!(relpath("/repo/src//a.rs/", "/repo/"), "src//a.rs");
    assert_eq!(relpath("/repo/./a.rs", "/./repo"), "a.rs");
    assert_eq!(relpath("/repository/a.rs", "/repo"), "/repository/a.rs");
    assert_eq!(relpath("/repo", "/repo/"), "");
    assert_eq!(relpath("./a.rs", "."), "a.rs");
    assert_eq!(relpath("./a.rs", ""), "./a.rs");
    assert_eq!(relpath("/a/b/", ""), "/a/b");
    assert_eq!(relpath("/a", "/"), "a");
}

// ---------------------------------------------------------------------------
// Walking
// ---------------------------------------------------------------------------

fn entry(dir: &str, name: &str, kind: EntryKind) -> DirEntry {
    DirEntry {
        name: name.into(),
        path: format!("{dir}/{name}"),
        kind,
    }
}

/// Walk a tree that is given by its directories.
fn walk_tree(budget: WalkBudget, root: &str, dirs: &[(&str, Vec<DirEntry>)]) -> Walk {
    let mut walk = Walk::new(budget);
    let mut at = Some(root.to_string());
    while let Some(dir) = at {
        let found = dirs.iter().find(|(d, _)| *d == dir);
        let listing = match found {
            Some((_, entries)) => Listing::Entries(entries.clone()),
            None => Listing::Unreadable,
        };
        at = walk_files(&mut walk, listing);
    }
    walk
}

#[test]
fn walk_files_ignores_target_and_git() {
    let dirs = [
        (
            "/r",
            vec![
                entry("/r", "target", EntryKind::Dir),
                entry("/r", ".git", EntryKind::Dir),
                entry("/r", "a.txt", EntryKind::File),
            ],
        ),
        ("/r/target", vec![entry("/r/target", "b.txt", EntryKind::File)]),
        ("/r/.git", vec![entry("/r/.git", "HEAD", EntryKind::File)]),
    ];
    let walk = walk_tree(WalkBudget::default(), "/r", &dirs);
    let names: Vec<String> = walk.files.iter().map(|p| file_name(p)).collect();
    assert!(names.contains(&"a.txt".to_string()));
    assert!(!names.contains(&"b.txt".to_string()));
    assert!(!names.contains(&"HEAD".to_string()));
    assert!(is_ignored_dir("target"));
    assert!(!is_ignored_dir("src"));
}

#[test]
fn a_walk_goes_by_names_and_into_directories() {
    let dirs = [
        (
            "/r",
            vec![
                entry("/r", "z.txt", EntryKind::File),
                entry("/r", "src", EntryKind::Dir),
                entry("/r", "a.txt", EntryKind::File),
                entry("/r", "link", EntryKind::Other),
            ],
        ),
        ("/r/src", vec![entry("/r/src", "m.rs", EntryKind::File)]),
    ];
    let walk = walk_tree(WalkBudget::default(), "/r", &dirs);
    assert_eq!(walk.files, vec!["/r/a.txt", "/r/src/m.rs", "/r/z.txt"]);
    assert!(walk.stopped.is_none());
}

#[test]
fn a_walk_stops_at_its_budget() {
    let dirs = [(
        "/r",
        vec![
            entry("/r", "a", EntryKind::File),
            entry("/r", "b", EntryKind::File),
            entry("/r", "c", EntryKind::File),
        ],
    )];
    let small = WalkBudget {
        max_entries: 2,
        max_depth: 8,
        max_seconds: 10,
    };
    let walk = walk_tree(small, "/r", &dirs);
    assert!(walk.files.len() <= 2);
    assert_eq!(walk.stopped, Some(StopReason::Entries));
    assert!(!StopReason::Entries.message().is_empty());
    let mut late = Walk::new(WalkBudget::default());
    assert!(walk_files(&mut late, Listing::Expired).is_none());
    assert_eq!(late.stopped, Some(StopReason::Time));
}

// ---------------------------------------------------------------------------
// Workflow
// ---------------------------------------------------------------------------

#[test]
fn collects_github_workflow_and_makefile() {
    let files = vec![
        walked("/r/.github/workflows/ci.yml", "on: [push]\n"),
        walked("/r/CONTRIBUTING.md", "# Contributing\n"),
        walked("/r/Makefile", "test:\n\tcargo test\n"),
        walked(
            "/r/package.json",
            "{\"scripts\":{\"test\":\"jest\",\"build\":\"tsc\"}}\n",
        ),
    ];
    let col = workflow::collect("/r", files, &CollectOptions::default());
    assert_eq!(col.ci_workflows.len(), 1);
    assert!(col.scripts.iter().any(|s| s.path == "Makefile"));
    assert_eq!(col.package_scripts.len(), 2);
    assert!(col.package_scripts.iter().any(|p| p.name == "test"));
    assert!(col.conventions.iter().any(|c| c.path == "CONTRIBUTING.md"));
}

#[test]
fn ignores_random_yml_outside_workflows() {
    let files = vec![walked("/r/docker-compose.yml", "version: '3'\n")];
    let col = workflow::collect("/r", files, &CollectOptions::default());
    assert!(col.ci_workflows.is_empty());
}

#[test]
fn workflow_files_fall_into_categories() {
    assert_eq!(
        classify("/r/.github/workflows/x.yml", "x.yml"),
        Some(Category::Ci)
    );
    assert_eq!(classify("/r/Makefile", "makefile"), Some(Category::Script));
    assert_eq!(
        classify("/r/CONTRIBUTING.md", "contributing.md"),
        Some(Category::Convention)
    );
    assert_eq!(classify("/r/a.rs", "a.rs"), None);
    assert!(parse_package_scripts("{", "package.json").is_empty());
}

#[test]
fn the_named_rules_file_is_collected_as_guidelines() {
    let mut opts = CollectOptions::default();
    opts.rules_file = Some("HOUSE.md".to_string());
    let files = vec![
        walked("/r/HOUSE.md", "# rules"),
        walked("/r/docs/x.md", "# x"),
    ];
    let col = docs::collect("/r", files, &opts);
    assert_eq!(col.documents[0].kind, "agent-guidelines");
    assert_eq!(col.documents[1].kind, "docs");
}

#[test]
fn names_are_found_behind_slashes_and_dots() {
    assert_eq!(engram::collectors::files::file_name("/r/a.md/"), "a.md");
    assert_eq!(engram::collectors::files::file_name("/r/a.md/."), "a.md");
    assert_eq!(engram::collectors::files::file_name("/r/.."), "");
    assert_eq!(engram::collectors::files::file_name("a.md"), "a.md");
}

/// A walk over a tree in memory, each directory listed in reverse where that is asked for.
fn walk_sample(reverse: bool) -> Walk {
    let entry = |dir: &str, name: &str, kind: EntryKind| DirEntry {
        name: name.to_string(),
        path: format!("{dir}/{name}"),
        kind,
    };
    let mut walk = Walk::new(WalkBudget::default());
    let mut next = Some("/r".to_string());
    while let Some(dir) = next {
        let mut es = match dir.as_str() {
            "/r" => vec![
                entry("/r", "z.rs", EntryKind::File),
                entry("/r", "src", EntryKind::Dir),
                entry("/r", "target", EntryKind::Dir),
                entry("/r", "locked", EntryKind::Dir),
                entry("/r", "link", EntryKind::Other),
                entry("/r", "a.rs", EntryKind::File),
            ],
            "/r/src" => vec![
                entry("/r/src", "c.rs", EntryKind::File),
                entry("/r/src", "b", EntryKind::Dir),
            ],
            "/r/src/b" => vec![entry("/r/src/b", "a.rs", EntryKind::File)],
            _ => {
                next = walk_files(&mut walk, Listing::Unreadable);
                continue;
            }
        };
        if reverse {
            es.reverse();
        }
        next = walk_files(&mut walk, Listing::Entries(es));
    }
    walk
}

#[test]
fn every_file_is_found_once_depth_first() {
    let walk = walk_sample(false);
    assert!(walk.stopped.is_none());
    assert_eq!(
        walk.files,
        vec!["/r/a.rs", "/r/src/b/a.rs", "/r/src/c.rs", "/r/z.rs"]
    );
    assert_eq!(walk_sample(true).files, walk.files);
}
