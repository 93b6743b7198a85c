use engram::git_integration::listener::{
    auto_generate_episodic, estimate_importance, extract_tags, has_word, milestone_importance,
    milestone_memories, process_recent_commits, push_path,
};
use engram::git_integration::CommitEvent;

fn event(hash: &str, message: &str, files: &[&str], timestamp: i64) -> CommitEvent {
    CommitEvent {
        commit_hash: hash.into(),
        message: message.into(),
        files_changed: files.iter().map(|f| f.to_string()).collect(),
        timestamp,
    }
}

#[test]
fn test_estimate_importance() {
    assert!(estimate_importance("fix: resolve auth bug") > 50);
    assert!(estimate_importance("docs: update README") < 40);
    assert!(estimate_importance("feat: breaking migration") > 80);
    assert!(estimate_importance("chore: update deps") >= 30);
}

#[test]
fn test_extract_tags() {
    let tags = extract_tags("fix: resolve auth bug and update docs");
    assert!(tags.contains(&"bugfix".to_string()));
    assert!(tags.contains(&"docs".to_string()));
}

#[test]
fn test_auto_generate_episodic() {
    let commit = event("h1", "feat: add initial test file", &["test.txt"], 0);
    let episodic =
        auto_generate_episodic(&commit, "test-project", "session-1", "id".to_string(), 5);
    assert_eq!(episodic.project_id, "test-project");
    assert_eq!(episodic.summary, "feat: add initial test file");
    assert!(episodic.tags.contains(&"feature".to_string()));
    assert!(episodic.files_touched.contains(&"test.txt".to_string()));
    assert_eq!(episodic.related_commits, vec!["h1"]);
}

#[test]
fn words_are_found_at_their_boundaries() {
    assert!(has_word("fix the leak", "fix"));
    assert!(!has_word("suffix", "fix"));
    assert!(milestone_importance("feat", true) >= milestone_importance("feat", false));
}

#[test]
fn a_changed_path_is_kept_once() {
    let mut files = vec![];
    push_path(&mut files, "a.rs");
    push_path(&mut files, "b.rs");
    push_path(&mut files, "a.rs");
    assert_eq!(files, vec!["a.rs", "b.rs"]);
}

#[test]
fn a_theme_becomes_one_memory() {
    let events = vec![
        event("h2", "feat(auth): logout", &["b.rs"], 20),
        event("h1", "feat(auth): login", &["a.rs"], 10),
    ];
    let ids = vec!["m1".to_string(), "m2".to_string()];
    let ms = milestone_memories("p", "s", &events, &ids, 99);
    assert_eq!(ms.len(), 1);
    assert_eq!(ms[0].related_commits.len(), 2);
    assert_eq!(ms[0].files_touched.len(), 2);
    assert_eq!(ms[0].project_id, "p");
}

#[test]
fn commits_that_were_ingested_by_themes_are_not_fresh() {
    let events = vec![
        event("h3", "Update the readme", &[], 30),
        event("h2", "feat(auth): logout", &[], 20),
        event("h1", "fix: login", &[], 10),
    ];
    let ids: Vec<String> = (0..3).map(|i| format!("m{i}")).collect();
    let ms = milestone_memories("p", "s", &events, &ids, 99);
    let recorded: Vec<String> = ms.iter().flat_map(|m| m.related_commits.clone()).collect();
    assert!(engram::cli::commands::fresh_events(events, &recorded).is_empty());
}

#[test]
fn every_commit_becomes_a_memory_of_its_own() {
    let events = vec![
        event("h2", "fix: crash\n\nbody", &["b.rs"], 20),
        event("h1", "feat: start", &["a.rs"], 10),
    ];
    let ids = vec!["m0".to_string(), "m1".to_string()];
    let ms = process_recent_commits("p", "s", &events, &ids, 7);
    assert_eq!(ms.len(), 2);
    assert_eq!(ms[0].summary, "fix: crash");
    assert_eq!(ms[0].related_commits, vec!["h2"]);
    assert_eq!(ms[1].id, "m1");
    assert!(ms[1].tags.contains(&"source:ingest".to_string()));
}
