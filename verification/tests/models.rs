use engram::models::kind::{resolve_kind, resolve_kinds};
use engram::models::{
    DecisionMemory, EntityType, EpisodicMemory, FailureMemory, MemoryKind, ProceduralMemory,
    RelationType,
};
use std::str::FromStr;

#[test]
fn embedding_text_joins_title_and_rationale() {
    let m = DecisionMemory {
        id: "i".into(),
        project_id: "p".into(),
        title: "pick candle".into(),
        context: "ctx".into(),
        rationale: "pure rust offline".into(),
        tradeoffs: "to".into(),
        related_files: vec![],
        tags: vec![],
        created_at: 0,
        updated_at: 0,
    };
    assert_eq!(m.embedding_text(), "pick candle\npure rust offline");
}

#[test]
fn embedding_text_joins_summary_and_content() {
    let m = EpisodicMemory {
        id: "i".into(),
        project_id: "p".into(),
        session_id: "s".into(),
        summary: "OAuth token refresh loop".into(),
        content: "credential renewal cycle".into(),
        files_touched: vec![],
        related_commits: vec![],
        importance: 0.5f32.to_bits(),
        tags: vec![],
        created_at: 0,
        updated_at: 0,
    };
    assert_eq!(
        m.embedding_text(),
        "OAuth token refresh loop\ncredential renewal cycle"
    );
}

#[test]
fn embedding_text_joins_incident_and_root_cause() {
    let m = FailureMemory {
        id: "i".into(),
        project_id: "p".into(),
        incident: "search crash".into(),
        root_cause: "fts5 column filter".into(),
        fix: "f".into(),
        prevention: "pr".into(),
        severity: 3,
        tags: vec![],
        created_at: 0,
        updated_at: 0,
    };
    assert_eq!(m.embedding_text(), "search crash\nfts5 column filter");
}

#[test]
fn embedding_text_joins_workflow_name_and_steps() {
    let m = ProceduralMemory {
        id: "i".into(),
        project_id: "p".into(),
        workflow_name: "release".into(),
        steps: vec!["build".into(), "tag".into(), "publish".into()],
        related_tools: vec![],
        tags: vec![],
        created_at: 0,
        updated_at: 0,
    };
    assert_eq!(m.embedding_text(), "release\nbuild tag publish");
}

#[test]
fn kinds_are_named() {
    for kind in MemoryKind::all() {
        assert_eq!(MemoryKind::from_type_str(kind.as_str()), Some(kind));
    }
    assert_eq!(MemoryKind::from_type_str("dream"), None);
    assert_eq!(resolve_kind("failure").unwrap(), MemoryKind::Failure);
    assert!(resolve_kind("dream").is_err());
    assert_eq!(resolve_kinds(None).unwrap().len(), 4);
    assert_eq!(
        resolve_kinds(Some("decision")).unwrap(),
        vec![MemoryKind::Decision]
    );
    assert!(resolve_kinds(Some("dream")).is_err());
}

#[test]
fn names_of_entities_and_relations_read_back() {
    for t in [
        EntityType::File,
        EntityType::Function,
        EntityType::Module,
        EntityType::Service,
        EntityType::Commit,
        EntityType::PullRequest,
        EntityType::Bug,
        EntityType::Incident,
    ] {
        assert_eq!(EntityType::from_str(t.as_str()).unwrap(), t);
    }
    for t in [
        RelationType::DependsOn,
        RelationType::Calls,
        RelationType::FixedBy,
        RelationType::IntroducedBy,
        RelationType::RelatedTo,
        RelationType::References,
    ] {
        assert_eq!(RelationType::parse(t.as_str()).unwrap(), t);
    }
    assert!(EntityType::parse("Nothing").is_err());
    assert!(RelationType::from_str("Nothing").is_err());
}
