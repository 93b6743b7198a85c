use engram::answers::created_failure_json;
use engram::answers::{archived_list_json, created_json, forgotten_json, restored_answer_json};
use engram::cli::commands::check_owner;
use engram::cli::search::matches_filters;
use engram::config::{Config, Real};
use engram::collectors::files::WalkedFile;
use engram::collectors::{collect, Gathered};
use engram::consolidation::ConsolidationEngine;
use engram::git_integration::listener::process_recent_commits;
use engram::git_integration::CommitEvent;
use engram::json::Json;
use engram::mcp::provider::{
    answer_without_database, consolidate_memories, create_decision, create_episodic,
    create_failure, create_procedural, forget_batch, ingest_answer, recent_failures,
    related_files, source_dimensions, source_options, timeline, unseen_memories, CreateDecisionInput,
    CreateEpisodicInput, CreateFailureInput, CreateProceduralInput, DefaultMemoryProvider,
    SearchMemoryInput, SearchRoute,
};
use engram::mcp::server::{McpServer, Step, ToolOutcome};
use engram::mcp::tools::Tool;
use engram::mcp::transport::{JsonRpcRequest, JsonRpcResponse};
use engram::models::{EpisodicMemory, FailureMemory, MemoryKind};
use engram::patch::merge_patch;
use engram::retrieval::bm25::{Score, ScoredMemory, SearchResult};
use engram::retrieval::BM25Retriever;

const TEMPLATE: &str =
    "# Iron rules\nproject {{PROJECT_ID}} at {{REPO_PATH}} over {{DIMENSIONS}}\n";

fn value(j: &Json) -> serde_json::Value {
    serde_json::from_str(&j.print()).unwrap()
}

fn list(words: &[&str]) -> Vec<String> {
    words.iter().map(|w| w.to_string()).collect()
}

fn request(id: i64, method: &str, params: Option<&str>) -> JsonRpcRequest {
    JsonRpcRequest {
        jsonrpc: "2.0".into(),
        id: Some(Json::whole(id)),
        method: method.into(),
        params: params.map(|p| Json::parse(p).unwrap()),
    }
}

/// Read the inputs of the tools that the tests call.
fn run_tool(tool: Tool, arguments: &Json) -> ToolOutcome {
    let required: &[&str] = match tool {
        Tool::SearchMemory => &["project_id", "query"],
        Tool::CreateEpisodic => &["project_id", "session_id", "summary", "content"],
        _ => &["project_id"],
    };
    for name in required {
        if arguments.get_str(name).is_none() {
            return ToolOutcome::InvalidParams(format!("missing field `{name}`"));
        }
    }
    ToolOutcome::Done(answer_without_database(tool))
}

/// A server without a database.
fn answer(q: JsonRpcRequest) -> JsonRpcResponse {
    match McpServer::new(TEMPLATE.to_string()).handle_request(q) {
        Step::Respond(r) => r,
        Step::Call {
            id,
            tool,
            arguments,
        } => McpServer::answer_tool_call(id, run_tool(tool, &arguments)),
    }
}

fn result_of(r: JsonRpcResponse) -> serde_json::Value {
    assert!(r.error.is_none());
    value(&r.result.unwrap())
}

/// The text that a tool's answer carries, read back.
fn tool_text(r: JsonRpcResponse) -> serde_json::Value {
    let result = result_of(r);
    serde_json::from_str(result["content"][0]["text"].as_str().unwrap()).unwrap()
}

fn provider() -> DefaultMemoryProvider {
    DefaultMemoryProvider::new(Config::default_in(Some("/home/u")))
}

fn real_of(v: f32) -> Real {
    Real::new(v.to_bits(), &format!("{v}"))
}

fn number(v: f64) -> serde_json::Number {
    serde_json::Number::from_f64(v).unwrap()
}

fn episodic_input(summary: &str, content: &str, importance: f32) -> CreateEpisodicInput {
    CreateEpisodicInput {
        project_id: "p".into(),
        session_id: "s".into(),
        summary: summary.into(),
        content: content.into(),
        files_touched: list(&["auth.ts"]),
        related_commits: list(&["abc123"]),
        importance: real_of(importance),
        tags: list(&["auth", "oauth"]),
    }
}

/// Episodic memories in the place of a database, each with whether it is archived.
struct Store {
    rows: Vec<(EpisodicMemory, bool)>,
}

impl Store {
    fn new() -> Self {
        Store { rows: vec![] }
    }

    fn create(&mut self, input: CreateEpisodicInput) -> serde_json::Value {
        let id = format!("e{}", self.rows.len());
        let memory = create_episodic(input, id, 1000).unwrap();
        let answer = value(&created_json(&memory.id, 1000));
        self.rows.push((memory, false));
        answer
    }

    /// The answer to a search for active memories that hold all words of the query.
    fn search(&self, query: &str) -> serde_json::Value {
        let hits: Vec<EpisodicMemory> = self
            .rows
            .iter()
            .filter(|(m, archived)| {
                let text = format!("{} {}", m.summary, m.content).to_lowercase();
                !archived && query.to_lowercase().split(' ').all(|w| text.contains(w))
            })
            .map(|(m, _)| m.clone())
            .collect();
        let shown = hits
            .iter()
            .map(|m| {
                let rounded = (f32::from_bits(m.importance) * 100.0).round() / 100.0;
                (number(0.9), number(rounded as f64))
            })
            .collect();
        let scored = hits
            .into_iter()
            .map(|memory| ScoredMemory {
                memory,
                score: Score {
                    rank: 90,
                    text: "0.90".into(),
                },
            })
            .collect();
        let results: Vec<SearchResult> = BM25Retriever::to_results(scored, "episodic");
        let (answer, ids) = provider().finish_search(&results, &shown);
        assert_eq!(ids.len(), results.len());
        value(&answer)
    }

    fn set_archived(&mut self, id: &str, archived: bool) -> bool {
        for (m, state) in &mut self.rows {
            if m.id == id && *state != archived {
                *state = archived;
                return true;
            }
        }
        false
    }

    /// The active memories that carry one of the tags.
    fn candidates(&self, tags: &Vec<String>) -> Vec<String> {
        self.rows
            .iter()
            .filter(|(m, archived)| !archived && matches_filters(&m.tags, m.created_at, tags, None))
            .map(|(m, _)| m.id.clone())
            .collect()
    }

    fn list_archived(&self) -> serde_json::Value {
        let rows = self
            .rows
            .iter()
            .filter(|(_, archived)| *archived)
            .map(|(m, _)| Json::str(&m.id))
            .collect();
        value(&archived_list_json(rows))
    }

    /// Patch the summary of a memory; the project has to be its own.
    fn patch_summary(&mut self, id: &str, project: &str, patch: &str) -> Result<(), String> {
        let at = self.rows.iter().position(|(m, _)| m.id == id);
        let owner = at.map(|i| self.rows[i].0.project_id.clone());
        check_owner(owner.as_deref(), id, project)?;
        let m = &mut self.rows[at.unwrap()].0;
        let fields = vec![
            ("id".to_string(), Json::str(&m.id)),
            ("summary".to_string(), Json::str(&m.summary)),
            ("updated_at".to_string(), Json::whole(m.updated_at)),
        ];
        let patch = match Json::parse(patch)? {
            Json::Object(v) => v,
            other => panic!("{other:?}"),
        };
        let (merged, _) = merge_patch(fields, patch, 2000);
        let merged = value(&Json::object(merged));
        m.summary = merged["summary"].as_str().unwrap().to_string();
        m.updated_at = merged["updated_at"].as_i64().unwrap();
        Ok(())
    }
}

fn stored(summary: &str, content: &str, importance: f32) -> Store {
    let mut store = Store::new();
    store.create(episodic_input(summary, content, importance));
    store
}

#[test]
fn server_test_tool_schemas_require_project_id() {
    let tools = McpServer::list_tools();
    for tool in &tools {
        let schema = value(&tool.input_schema);
        let required = schema["required"].as_array().unwrap();
        let has_project_id = required.iter().any(|v| v.as_str() == Some("project_id"));
        assert!(has_project_id, "Tool {} must require project_id", tool.name);
    }
}

#[test]
fn server_test_handle_initialize() {
    let response = answer(request(1, "initialize", None));
    assert!(response.result.is_some());
    assert!(response.error.is_none());
    let result = result_of(response);
    assert_eq!(result["serverInfo"]["name"], "engram");
}

#[test]
fn server_test_create_episodic_with_provider() {
    let mut store = Store::new();
    let result = store.create(episodic_input(
        "Fixed OAuth refresh loop",
        "The refresh token was looping due to stale cache",
        0.8,
    ));
    assert_eq!(result["status"], "created");
    let id = result["id"].as_str().unwrap().to_string();
    let search_result = store.search("OAuth refresh");
    let results = search_result["results"].as_array().unwrap();
    assert_eq!(results.len(), 1);
    assert_eq!(results[0]["id"], id);
}

#[test]
fn server_related_files_resolves_via_repo_index() {
    let edges = vec![("m1".to_string(), "Touches".to_string())];
    let result = value(&related_files(Some("f1"), "auth.ts", &edges));
    let entities = result["entities"].as_array().unwrap();
    assert_eq!(entities.len(), 1);
    assert_eq!(entities[0]["type"], "File");
    assert_eq!(entities[0]["name"], "auth.ts");
    let relations = entities[0]["relations"].as_array().unwrap();
    assert!(
        relations.iter().any(|r| r["type"] == "Touches"),
        "expected a Touches relation, got: {relations:?}"
    );
}

#[test]
fn server_search_output_includes_importance() {
    let store = stored(
        "Fixed OAuth refresh loop",
        "The refresh token was looping due to stale cache",
        0.8,
    );
    let out = store.search("OAuth refresh");
    let results = out["results"].as_array().unwrap();
    assert!(!results.is_empty(), "should have at least one result");
    let first = &results[0];
    assert!(
        first.get("importance").is_some(),
        "result must expose importance"
    );
    let imp = first["importance"]
        .as_f64()
        .expect("importance must be a number");
    assert!(
        (imp - 0.8).abs() < 1e-6,
        "importance should be 0.8, got {}",
        imp
    );
}

#[test]
fn server_test_create_decision_with_provider() {
    let memory = create_decision(
        CreateDecisionInput {
            project_id: "test-project".into(),
            title: "Use Redis for session caching".into(),
            context: "Auth service needs sub-ms latency".into(),
            rationale: "Redis provides sub-millisecond reads".into(),
            tradeoffs: "Added infrastructure complexity".into(),
            related_files: list(&["auth.ts"]),
            tags: list(&["architecture"]),
        },
        "d1".to_string(),
        1000,
    );
    assert_eq!(value(&created_json(&memory.id, 1000))["status"], "created");
    let results = BM25Retriever::to_results(
        vec![ScoredMemory {
            memory,
            score: Score {
                rank: 1,
                text: "0.01".into(),
            },
        }],
        "decision",
    );
    let shown = vec![(number(0.01), number(0.5))];
    let (search, _) = provider().finish_search(&results, &shown);
    assert_eq!(value(&search)["results"].as_array().unwrap().len(), 1);
}

#[test]
fn server_test_create_failure_with_provider() {
    let memory = create_failure(
        CreateFailureInput {
            project_id: "test-project".into(),
            incident: "Auth token expiry mismatch".into(),
            root_cause: "Clock skew between services".into(),
            fix: "Added clock tolerance window".into(),
            prevention: "Monitor clock sync".into(),
            severity: 4,
            tags: list(&["auth"]),
        },
        "f1".to_string(),
        1000,
    )
    .unwrap();
    let result = value(&created_failure_json(&memory.id, memory.severity, 1000));
    assert_eq!(result["status"], "created");
    assert_eq!(result["severity"], 4);
}

#[test]
fn server_test_create_procedural_with_provider() {
    let memory = create_procedural(
        CreateProceduralInput {
            project_id: "test-project".into(),
            workflow_name: "deployment".into(),
            steps: list(&["run tests", "build docker", "push to registry"]),
            related_tools: list(&["docker"]),
            tags: list(&["deploy"]),
        },
        "pr1".to_string(),
        1000,
    );
    assert_eq!(memory.steps.len(), 3);
    assert_eq!(value(&created_json(&memory.id, 1000))["status"], "created");
}

#[test]
fn server_test_ingest_commits_with_temp_repo() {
    let events = vec![CommitEvent {
        commit_hash: "h1".into(),
        message: "feat: initial commit".into(),
        files_changed: list(&["main.rs"]),
        timestamp: 0,
    }];
    let memories =
        process_recent_commits("test-project", "test-session", &events, &list(&["m1"]), 1000);
    let generated = memories.len();
    let fresh = unseen_memories(memories, &vec![]);
    let result = value(&ingest_answer(&fresh, 10, generated));
    assert_eq!(result["ingested"], 1);
    let again = unseen_memories(fresh, &list(&["h1"]));
    assert!(again.is_empty());
}

#[test]
fn server_test_handle_unknown_method() {
    let response = answer(request(3, "unknown/method", None));
    assert!(response.error.is_some());
    assert_eq!(response.error.unwrap().code, -32601);
}

#[test]
fn server_test_search_memory_with_provider() {
    let response = answer(request(
        4,
        "tools/call",
        Some(
            r#"{"name":"search_memory","arguments":{"project_id":"test-project","query":"oauth"}}"#,
        ),
    ));
    assert!(response.result.is_some());
    assert!(response.error.is_none());
}

#[test]
fn server_test_search_memory_missing_project_id() {
    let response = answer(request(
        5,
        "tools/call",
        Some(r#"{"name":"search_memory","arguments":{"query":"oauth"}}"#),
    ));
    assert!(response.error.is_some());
}

#[test]
fn server_test_jsonrpc_notification_no_response() {
    let response = answer(request(1, "initialize", None));
    assert!(response.result.is_some());
}

#[test]
fn server_test_jsonrpc_parse_error_response() {
    let response = answer(request(1, "nonexistent/method", None));
    assert!(response.error.is_some());
    assert_eq!(response.error.unwrap().code, -32601);
}

#[test]
fn server_test_jsonrpc_tools_call_unknown_tool() {
    let response = answer(request(
        1,
        "tools/call",
        Some(r#"{"name":"nonexistent_tool","arguments":{}}"#),
    ));
    assert!(response.error.is_some());
    let err = response.error.unwrap();
    assert_eq!(err.code, -32601);
    assert!(err.message.contains("Unknown tool"));
}

#[test]
fn server_test_jsonrpc_tools_call_invalid_params() {
    let response = answer(request(
        1,
        "tools/call",
        Some(r#"{"name":"create_episodic","arguments":{"project_id":"test"}}"#),
    ));
    assert!(response.error.is_some());
    let err = response.error.unwrap();
    assert_eq!(err.code, -32602);
    assert!(err.message.contains("Invalid params"));
}

#[test]
fn server_test_jsonrpc_create_and_search_roundtrip() {
    let mut store = Store::new();
    let answer = store.create(episodic_input(
        "Fixed authentication token expiry bug",
        "Token was not refreshed properly causing 401 errors",
        0.9,
    ));
    let created = McpServer::answer_tool_call(
        Some(Json::whole(1)),
        ToolOutcome::Done(Json::parse(&answer.to_string()).unwrap()),
    );
    assert_eq!(tool_text(created)["status"], "created");
    let search_parsed = store.search("authentication token");
    let results = search_parsed["results"].as_array().unwrap();
    assert_eq!(results.len(), 1);
    assert!(results[0]["summary"]
        .as_str()
        .unwrap()
        .contains("authentication"));
}

#[test]
fn server_test_jsonrpc_recent_failures_list_without_query() {
    let failure = FailureMemory {
        id: "f1".into(),
        project_id: "failure-test".into(),
        incident: "Database connection timeout".into(),
        root_cause: "Connection pool exhausted".into(),
        fix: "Increased pool size to 20".into(),
        prevention: "Monitor pool usage metrics".into(),
        severity: 4,
        tags: vec![],
        created_at: 1000,
        updated_at: 1000,
    };
    let response = McpServer::answer_tool_call(
        Some(Json::whole(2)),
        ToolOutcome::Done(recent_failures(&vec![failure])),
    );
    let list_parsed = tool_text(response);
    let failures = list_parsed["failures"].as_array().unwrap();
    assert_eq!(failures.len(), 1);
    assert_eq!(failures[0]["severity"], 4);
}

#[test]
fn server_test_jsonrpc_timeline() {
    let response = McpServer::answer_tool_call(
        Some(Json::whole(2)),
        ToolOutcome::Done(timeline(&vec![("2024-05-29".to_string(), 1)])),
    );
    let timeline_parsed = tool_text(response);
    let events = timeline_parsed["events"].as_array().unwrap();
    assert!(!events.is_empty());
}

#[test]
fn server_test_initialize_advertises_prompts_capability() {
    let result = result_of(answer(request(1, "initialize", None)));
    let caps = &result["capabilities"];
    assert!(
        caps.get("prompts").is_some(),
        "prompts capability advertised"
    );
    assert!(caps.get("tools").is_some());
}

#[test]
fn server_test_prompts_list_returns_bootstrap() {
    let result = result_of(answer(request(1, "prompts/list", None)));
    let prompts = result["prompts"].as_array().unwrap();
    assert_eq!(prompts.len(), 1);
    assert_eq!(prompts[0]["name"], "engram.bootstrap");
    let args = prompts[0]["arguments"].as_array().unwrap();
    assert!(args
        .iter()
        .any(|a| a["name"] == "project_id" && a["required"] == true));
}

#[test]
fn server_test_prompts_get_renders_template() {
    let result = result_of(answer(request(
        1,
        "prompts/get",
        Some(
            r#"{"name":"engram.bootstrap","arguments":{"project_id":"myproj","repo_path":"/tmp/x","dimensions":"git"}}"#,
        ),
    )));
    let text = result["messages"][0]["content"]["text"].as_str().unwrap();
    assert!(text.contains("myproj"));
    assert!(text.contains("/tmp/x"));
    assert!(!text.contains("{{PROJECT_ID}}"), "placeholder substituted");
    assert!(text.contains("Iron rules"), "guidance body present");
}

#[test]
fn server_test_prompts_get_unknown_prompt_errors() {
    let response = answer(request(1, "prompts/get", Some(r#"{"name":"bogus"}"#)));
    assert!(response.error.is_some());
    assert_eq!(response.error.unwrap().code, -32601);
}

#[test]
fn server_test_collect_sources_with_provider() {
    let file = |path: &str, content: &str| WalkedFile {
        path: path.into(),
        read: Some(content.as_bytes().to_vec()),
    };
    let dims = source_dimensions(Some("git,decisions")).unwrap();
    let gathered = Gathered {
        history: Ok(vec![CommitEvent {
            commit_hash: "h1".into(),
            message: "feat: initial".into(),
            files_changed: list(&["main.rs"]),
            timestamp: 0,
        }]),
        decision_files: vec![
            file("/r/Cargo.toml", "[dependencies]\nserde = \"1\"\n"),
            file("/r/README.md", "# Project\n"),
        ],
        failure_files: vec![],
        workflow_files: vec![],
    };
    let opts = source_options(50, vec![], &vec![]);
    let result = collect("test", Ok("/r".to_string()), &dims, gathered, &opts).unwrap();
    assert!(result.summary.total_items > 0, "found some material");
    assert!(result.git.is_some());
    assert!(result.decisions.is_some());
    assert!(result.failures.is_none());
    assert!(result.workflow.is_none());
}

#[test]
fn server_test_collect_sources_rejects_empty_dimensions() {
    let err = source_dimensions(Some("bogus,also-bogus")).unwrap_err();
    assert!(err.contains("no valid dimensions"));
}

#[test]
fn server_test_update_memory_patches_fields_and_guards_project() {
    let mut store = stored("old summary", "old content", 0.5);
    let patch = r#"{"summary":"new summary"}"#;
    store.patch_summary("e0", "p", patch).unwrap();
    let hit_new = store.search("new");
    assert_eq!(hit_new["results"].as_array().unwrap().len(), 1);
    let err = store.patch_summary("e0", "other", patch);
    assert!(err.is_err());
}

#[test]
fn server_test_forget_and_restore_memory_tools() {
    let mut store = stored("forget me", "c", 0.5);
    let done = store.set_archived("e0", true);
    let r = value(&forgotten_json("e0", done));
    assert_eq!(r["archived"], true);
    let s = store.search("forget");
    assert_eq!(s["results"].as_array().unwrap().len(), 0);
    let done = store.set_archived("e0", false);
    let r2 = value(&restored_answer_json("e0", done));
    assert_eq!(r2["restored"], true);
}

#[test]
fn server_test_forget_batch_dry_run_then_apply_and_list() {
    let mut store = Store::new();
    for s in ["one", "two"] {
        let mut input = episodic_input(s, "c", 0.5);
        input.tags = list(&["bootstrap"]);
        store.create(input);
    }
    let ids = store.candidates(&list(&["bootstrap"]));
    let dry = value(&forget_batch(false, &vec![(MemoryKind::Episodic, ids.clone())]));
    assert_eq!(dry["matched"].as_array().unwrap().len(), 2);
    assert_eq!(dry["applied"], false);
    assert_eq!(
        store.list_archived()["archived"].as_array().unwrap().len(),
        0
    );
    for id in &ids {
        store.set_archived(id, true);
    }
    let applied = value(&forget_batch(true, &vec![(MemoryKind::Episodic, ids)]));
    assert_eq!(applied["applied"], true);
    assert_eq!(
        store.list_archived()["archived"].as_array().unwrap().len(),
        2
    );
}

#[test]
fn server_test_consolidate_memories_tool_dry_run() {
    let mut store = Store::new();
    for _ in 0..2 {
        store.create(episodic_input("dup", "same", 0.5));
    }
    let recs = store
        .rows
        .iter()
        .map(|(m, _)| (m.id.clone(), format!("{} {}", m.summary, m.content)))
        .collect();
    let plan = ConsolidationEngine::new().plan_for_kind(MemoryKind::Episodic, &recs, false, 85);
    let out = value(&consolidate_memories(false, &vec![plan]));
    assert_eq!(out["applied"], false);
    let plans = out["plans"].as_array().unwrap();
    let groups: usize = plans
        .iter()
        .map(|p| p["groups"].as_array().unwrap().len())
        .sum();
    assert_eq!(groups, 1);
    assert_eq!(store.search("dup")["results"].as_array().unwrap().len(), 2);
}

#[test]
fn server_test_list_tools() {
    let tools = McpServer::list_tools();
    assert_eq!(tools.len(), 18);

    let names: Vec<&str> = tools.iter().map(|t| t.name.as_str()).collect();
    assert!(names.contains(&"search_memory"));
    assert!(names.contains(&"related_files"));
    assert!(names.contains(&"timeline"));
    assert!(names.contains(&"recent_failures"));
    assert!(names.contains(&"architectural_decisions"));
    assert!(names.contains(&"query_stats"));
    assert!(names.contains(&"create_episodic"));
    assert!(names.contains(&"create_decision"));
    assert!(names.contains(&"create_failure"));
    assert!(names.contains(&"create_procedural"));
    assert!(names.contains(&"ingest_commits"));
    assert!(names.contains(&"collect_sources"));
}

#[test]
fn server_test_handle_tools_list() {
    let result = result_of(answer(request(2, "tools/list", None)));
    let tools = result["tools"].as_array().unwrap();
    assert_eq!(tools.len(), 18);
}

#[test]
fn every_listed_tool_can_be_called() {
    for tool in McpServer::list_tools() {
        assert!(Tool::from_name(&tool.name).is_some(), "{}", tool.name);
    }
}

#[test]
fn importance_and_severity_have_a_range() {
    let err = create_episodic(episodic_input("s", "c", 1.5), "e".to_string(), 1).unwrap_err();
    assert_eq!(err, "importance must be between 0.0 and 1.0, got 1.5");
    assert!(create_episodic(episodic_input("s", "c", 1.0), "e".to_string(), 1).is_ok());
    assert!(create_episodic(episodic_input("s", "c", -0.1), "e".to_string(), 1).is_err());
    assert!(create_episodic(episodic_input("s", "c", f32::NAN), "e".to_string(), 1).is_err());
    let failure = |severity: u8| CreateFailureInput {
        project_id: "p".into(),
        incident: "i".into(),
        root_cause: "r".into(),
        fix: "f".into(),
        prevention: "p".into(),
        severity,
        tags: vec![],
    };
    assert!(create_failure(failure(0), "f".to_string(), 1).is_err());
    assert!(create_failure(failure(6), "f".to_string(), 1).is_err());
    assert!(create_failure(failure(5), "f".to_string(), 1).is_ok());
}

#[test]
fn a_failed_tool_is_an_internal_error() {
    let r = McpServer::answer_tool_call(
        Some(Json::str("abc")),
        ToolOutcome::Failed("disk full".to_string()),
    );
    let e = r.error.unwrap();
    assert_eq!(e.code, -32603);
    assert_eq!(e.message, "Internal error: disk full");
    assert_eq!(value(&r.id.unwrap()), "abc");
}

fn search_input(query: &str, memory_type: Option<&str>, limit: Option<usize>) -> SearchMemoryInput {
    SearchMemoryInput {
        project_id: "p".into(),
        query: query.into(),
        memory_type: memory_type.map(str::to_string),
        limit,
    }
}

#[test]
fn a_routed_search_still_looks_in_every_type() {
    let p = provider();
    assert!(p.config.retrieval.intent_routing);
    let setup = p.plan_search(&search_input("fix the auth bug", None, None));
    assert!(matches!(setup.route, SearchRoute::All));
    assert_eq!(setup.plan.relevance_floor, 60);
    let setup = p.plan_search(&search_input("fix the auth bug", Some("failure"), None));
    assert!(matches!(setup.route, SearchRoute::ByType(t) if t == "failure"));
}

#[test]
fn without_routing_the_intents_leave_the_ranking_alone() {
    let mut p = provider();
    p.config.retrieval.intent_routing = false;
    let setup = p.plan_search(&search_input("fix the auth bug", None, None));
    assert!(matches!(setup.route, SearchRoute::All));
    assert_eq!(setup.plan.relevance_floor, 0);
    assert_eq!(setup.plan.recency_floor, 0);
    assert_eq!(setup.plan.sources.len(), 4);
}

#[test]
fn the_configured_limit_stands_in_for_a_missing_one() {
    let mut p = provider();
    assert_eq!(p.plan_search(&search_input("q", None, None)).limit, 10);
    p.config.retrieval.default_limit = 25;
    assert_eq!(p.plan_search(&search_input("q", None, None)).limit, 25);
    assert_eq!(p.plan_search(&search_input("q", None, Some(3))).limit, 3);
    assert_eq!(p.limit(None), 25);
    assert_eq!(p.limit(Some(0)), 0);
}
