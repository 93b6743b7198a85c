use engram::json::Json;
use engram::patch::{merge_patch, patch_from_args, protects, set_value};

fn fields(s: &str) -> Vec<(String, Json)> {
    match Json::parse(s).unwrap() {
        Json::Object(v) => v,
        other => panic!("{other:?}"),
    }
}

fn shown(v: Vec<(String, Json)>) -> serde_json::Value {
    serde_json::from_str(&Json::object(v).print()).unwrap()
}

#[test]
fn a_patch_replaces_known_fields() {
    let (merged, unknown) = merge_patch(
        fields(r#"{"id":"x","summary":"old","tags":[],"updated_at":1}"#),
        fields(r#"{"summary":"new","colour":"red"}"#),
        50,
    );
    assert_eq!(unknown, vec!["colour"]);
    let out = shown(merged);
    assert_eq!(out["summary"], "new");
    assert_eq!(out["id"], "x");
    assert_eq!(out["updated_at"], 50);
    assert!(out.get("colour").is_none());
}

#[test]
fn protected_fields_keep_their_values() {
    for key in ["id", "project_id", "created_at"] {
        assert!(protects(key), "{key}");
    }
    assert!(!protects("summary"));
    let (merged, _) = merge_patch(
        fields(r#"{"id":"x","project_id":"p","updated_at":1}"#),
        fields(r#"{"id":"y","project_id":"q"}"#),
        2,
    );
    let out = shown(merged);
    assert_eq!(out["id"], "x");
    assert_eq!(out["project_id"], "p");
}

#[test]
fn patching_again_changes_nothing_more() {
    let base = r#"{"id":"x","summary":"old","updated_at":1}"#;
    let (once, _) = merge_patch(fields(base), fields(r#"{"summary":"n"}"#), 7);
    let printed = Json::object(once).print();
    let (twice, _) = merge_patch(fields(&printed), fields(r#"{"summary":"n"}"#), 7);
    assert_eq!(Json::object(twice).print(), printed);
}

#[test]
fn values_that_are_no_json_are_texts() {
    assert_eq!(set_value(Json::parse("[1]"), "[1]").print(), "[1]");
    assert_eq!(
        set_value(Json::parse("plain words"), "plain words").print(),
        "\"plain words\""
    );
    assert!(patch_from_args(&vec!["--set".to_string(), "x".to_string()]).is_err());
    assert!(patch_from_args(&vec![]).is_err() || patch_from_args(&vec![]).unwrap().is_empty());
}
