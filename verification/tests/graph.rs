use engram::graph::GraphEngine;
use engram::models::{Entity, EntityType, GraphRelation, RelationType};

fn make_entity(id: &str, name: &str) -> Entity {
    Entity {
        id: id.into(),
        project_id: "test".into(),
        entity_type: EntityType::File,
        name: name.into(),
        metadata: "{}".into(),
        created_at: 1000,
        updated_at: 1000,
    }
}

fn make_relation(from: &str, to: &str, rt: RelationType) -> GraphRelation {
    GraphRelation {
        id: 0,
        project_id: Some("test".into()),
        from_entity: from.into(),
        to_entity: to.into(),
        relation_type: rt,
        weight: 1.0f64.to_bits(),
        created_at: 1000,
    }
}

#[test]
fn test_add_and_get_entity() {
    let mut engine = GraphEngine::new();
    engine.add_entity(make_entity("e1", "auth.ts"));
    engine.add_entity(make_entity("e2", "redis.ts"));

    assert_eq!(engine.node_count(), 2);
    assert_eq!(engine.get_entity("e1").unwrap().name, "auth.ts");
    assert!(engine.get_entity("nonexistent").is_none());
}

#[test]
fn test_remove_entity() {
    let mut engine = GraphEngine::new();
    engine.add_entity(make_entity("e1", "auth.ts"));
    assert!(engine.remove_entity("e1"));
    assert_eq!(engine.node_count(), 0);
    assert!(!engine.remove_entity("nonexistent"));
}

#[test]
fn removing_an_entity_leaves_the_others() {
    let mut engine = GraphEngine::new();
    for id in ["e1", "e2", "e3"] {
        engine.add_entity(make_entity(id, id));
    }
    engine.add_relation(make_relation("e2", "e3", RelationType::Calls));
    engine.add_relation(make_relation("e1", "e2", RelationType::Calls));
    assert!(engine.remove_entity("e1"));
    assert_eq!(engine.node_count(), 2);
    assert_eq!(engine.edge_count(), 1);
    assert_eq!(engine.get_entity("e3").unwrap().name, "e3");
    assert_eq!(engine.get_relations("e3").len(), 1);
    assert!(engine.get_entity("e1").is_none());
    assert_eq!(engine.traverse_from("e2", 3).len(), 1);
}

#[test]
fn test_add_relation() {
    let mut engine = GraphEngine::new();
    engine.add_entity(make_entity("e1", "auth.ts"));
    engine.add_entity(make_entity("e2", "redis.ts"));

    let added = engine.add_relation(make_relation("e1", "e2", RelationType::DependsOn));
    assert!(added);
    assert_eq!(engine.edge_count(), 1);

    let added = engine.add_relation(make_relation("e1", "missing", RelationType::Calls));
    assert!(!added);
}

#[test]
fn test_get_relations() {
    let mut engine = GraphEngine::new();
    engine.add_entity(make_entity("e1", "auth.ts"));
    engine.add_entity(make_entity("e2", "redis.ts"));
    engine.add_entity(make_entity("e3", "token.rs"));

    engine.add_relation(make_relation("e1", "e2", RelationType::DependsOn));
    engine.add_relation(make_relation("e3", "e1", RelationType::Calls));

    let relations = engine.get_relations("e1");
    assert_eq!(relations.len(), 2);
}

#[test]
fn test_traverse_from() {
    let mut engine = GraphEngine::new();
    engine.add_entity(make_entity("e1", "auth.ts"));
    engine.add_entity(make_entity("e2", "redis.ts"));
    engine.add_entity(make_entity("e3", "token.rs"));
    engine.add_entity(make_entity("e4", "config.yaml"));

    engine.add_relation(make_relation("e1", "e2", RelationType::DependsOn));
    engine.add_relation(make_relation("e2", "e3", RelationType::Calls));

    let neighbors = engine.traverse_from("e1", 1);
    assert_eq!(neighbors.len(), 1);
    assert_eq!(neighbors[0].name, "redis.ts");

    let depth2 = engine.traverse_from("e1", 2);
    assert_eq!(depth2.len(), 2);
}

#[test]
fn test_cycle_detection() {
    let mut engine = GraphEngine::new();
    engine.add_entity(make_entity("e1", "a"));
    engine.add_entity(make_entity("e2", "b"));

    engine.add_relation(make_relation("e1", "e2", RelationType::DependsOn));
    assert!(!engine.is_cyclic());

    engine.add_relation(make_relation("e2", "e1", RelationType::DependsOn));
    assert!(engine.is_cyclic());
}

#[test]
fn test_load_from_repo_is_incremental_and_idempotent() {
    let stored = |project: &str| {
        let (id, name) = if project == "proj-a" {
            ("ea", "a.ts")
        } else {
            ("eb", "b.ts")
        };
        let mut e = make_entity(id, name);
        e.project_id = project.into();
        vec![e]
    };
    let mut engine = GraphEngine::new();

    engine.load_from_repo("proj-a", stored("proj-a"), vec![]);
    assert_eq!(engine.node_count(), 1);
    assert!(engine.get_entity("ea").is_some());
    assert!(engine.get_entity("eb").is_none());

    engine.load_from_repo("proj-a", stored("proj-a"), vec![]);
    assert_eq!(engine.node_count(), 1);

    engine.load_from_repo("proj-b", stored("proj-b"), vec![]);
    assert_eq!(engine.node_count(), 2);
    assert!(engine.get_entity("ea").is_some());
    assert!(engine.get_entity("eb").is_some());
}

#[test]
fn test_traverse_handles_cycles() {
    let mut engine = GraphEngine::new();
    engine.add_entity(make_entity("e1", "a"));
    engine.add_entity(make_entity("e2", "b"));
    engine.add_entity(make_entity("e3", "c"));

    engine.add_relation(make_relation("e1", "e2", RelationType::DependsOn));
    engine.add_relation(make_relation("e2", "e3", RelationType::DependsOn));
    engine.add_relation(make_relation("e3", "e1", RelationType::DependsOn));

    let results = engine.traverse_from("e1", 10);
    assert_eq!(results.len(), 2);
}

#[test]
fn a_traversal_of_nothing_finds_nothing() {
    let mut engine = GraphEngine::default();
    engine.add_entity(make_entity("e1", "a"));
    assert!(engine.traverse_from("missing", 3).is_empty());
    assert!(engine.traverse_from("e1", 0).is_empty());
    assert!(engine.get_relations("missing").is_empty());
}
