//! The tools that the server offers, and the schemas of their inputs.
use crate::json;
use crate::json::{Json, JsonView};
use crate::text;
use vstd::prelude::*;

verus! {

/// MCP tool definition.
#[derive(Debug)]
pub struct ToolDefinition {
    pub name: String,
    pub description: String,
    pub input_schema: Json,
}

/// A tool definition as a mathematical value.
pub struct ToolView {
    pub name: Seq<char>,
    pub description: Seq<char>,
    pub input_schema: JsonView,
}

impl View for ToolDefinition {
    type V = ToolView;

    open spec fn view(&self) -> ToolView {
        ToolView {
            name: self.name@,
            description: self.description@,
            input_schema: self.input_schema@,
        }
    }
}

pub open spec fn tool_views(v: Seq<ToolDefinition>) -> Seq<ToolView> {
    Seq::new(v.len(), |i: int| v[i]@)
}

// ---------------------------------------------------------------------------
// Schemas
// ---------------------------------------------------------------------------

/// The schema of an object with the given members.
pub open spec fn object_schema(
    properties: Seq<(Seq<char>, JsonView)>,
    required: Seq<Seq<char>>,
) -> Seq<(Seq<char>, JsonView)> {
    json::members()
        .push(("type"@, JsonView::Str("object"@)))
        .push(("properties"@, JsonView::Object(properties)))
        .push(("required"@, JsonView::Array(json::strings(required))))
}

pub open spec fn tool_view(
    name: Seq<char>,
    description: Seq<char>,
    properties: Seq<(Seq<char>, JsonView)>,
    required: Seq<Seq<char>>,
) -> ToolView {
    ToolView {
        name,
        description,
        input_schema: JsonView::Object(object_schema(properties, required)),
    }
}

/// A tool whose input may hold further members.
pub open spec fn open_tool_view(
    name: Seq<char>,
    description: Seq<char>,
    properties: Seq<(Seq<char>, JsonView)>,
    required: Seq<Seq<char>>,
) -> ToolView {
    ToolView {
        name,
        description,
        input_schema: JsonView::Object(
            object_schema(properties, required).push(
                ("additionalProperties"@, JsonView::Bool(true)),
            ),
        ),
    }
}

/// A member of a plain type.
pub open spec fn prop_view(kind: Seq<char>, description: Seq<char>) -> JsonView {
    JsonView::Object(
        json::members()
            .push(("type"@, JsonView::Str(kind)))
            .push(("description"@, JsonView::Str(description))),
    )
}

/// The names of the memory types.
pub open spec fn memory_types() -> JsonView {
    JsonView::Array(
        seq![
            JsonView::Str("episodic"@),
            JsonView::Str("decision"@),
            JsonView::Str("failure"@),
            JsonView::Str("procedural"@),
        ],
    )
}

/// A member that names a memory type.
pub open spec fn kind_prop_view(description: Seq<char>) -> JsonView {
    JsonView::Object(
        json::members()
            .push(("type"@, JsonView::Str("string"@)))
            .push(("enum"@, memory_types()))
            .push(("description"@, JsonView::Str(description))),
    )
}

pub open spec fn bare_kind_prop_view() -> JsonView {
    JsonView::Object(json::members()
        .push(("type"@, JsonView::Str("string"@)))
        .push(("enum"@, memory_types())))
}

/// A whole number with a default.
pub open spec fn count_prop_view(description: Seq<char>, default: int) -> JsonView {
    JsonView::Object(
        json::members()
            .push(("type"@, JsonView::Str("integer"@)))
            .push(("description"@, JsonView::Str(description)))
            .push(("default"@, json::integer(default))),
    )
}

/// A switch that is off by default.
pub open spec fn flag_prop_view(description: Seq<char>) -> JsonView {
    JsonView::Object(
        json::members()
            .push(("type"@, JsonView::Str("boolean"@)))
            .push(("description"@, JsonView::Str(description)))
            .push(("default"@, JsonView::Bool(false))),
    )
}

/// A list of strings.
pub open spec fn list_prop_view(description: Seq<char>) -> JsonView {
    JsonView::Object(
        json::members()
            .push(("type"@, JsonView::Str("array"@)))
            .push(("items"@, JsonView::Object(json::members().push(("type"@, JsonView::Str("string"@))))))
            .push(("description"@, JsonView::Str(description))),
    )
}

// ---------------------------------------------------------------------------
// The table
// ---------------------------------------------------------------------------

/// The definition of the tool `search_memory`.
pub open spec fn search_memory_tool() -> ToolView {
    tool_view(
        "search_memory"@,
        "Search across all memory types using BM25 full-text search"@,
        json::members()
            .push(("project_id"@, prop_view("string"@, "Project identifier (required)"@)))
            .push(("query"@, prop_view("string"@, "Search query"@)))
            .push(("memory_type"@, kind_prop_view("Filter by memory type"@)))
            .push(("limit"@, count_prop_view("Max results"@, 10))),
        json::names()
            .push("project_id"@)
            .push("query"@),
    )
}

/// The definition of the tool `related_files`.
pub open spec fn related_files_tool() -> ToolView {
    tool_view(
        "related_files"@,
        "Find entities related to a specific file via the relationship graph"@,
        json::members()
            .push(("project_id"@, prop_view("string"@, "Project identifier (required)"@)))
            .push(("file"@, prop_view("string"@, "File name to find relations for"@))),
        json::names()
            .push("project_id"@)
            .push("file"@),
    )
}

/// The definition of the tool `timeline`.
pub open spec fn timeline_tool() -> ToolView {
    tool_view(
        "timeline"@,
        "Get a timeline of memory events for the past N days"@,
        json::members()
            .push(("project_id"@, prop_view("string"@, "Project identifier (required)"@)))
            .push(("days"@, count_prop_view("Number of days to look back"@, 7))),
        json::names().push("project_id"@),
    )
}

/// The definition of the tool `recent_failures`.
pub open spec fn recent_failures_tool() -> ToolView {
    tool_view(
        "recent_failures"@,
        "Get recent failure memories for a project"@,
        json::members()
            .push(("project_id"@, prop_view("string"@, "Project identifier (required)"@)))
            .push(("service"@, prop_view("string"@, "Filter by service name"@)))
            .push(("limit"@, count_prop_view("Max results"@, 10))),
        json::names().push("project_id"@),
    )
}

/// The definition of the tool `query_stats`.
pub open spec fn query_stats_tool() -> ToolView {
    tool_view(
        "query_stats"@,
        "Aggregate past search queries by frequency and average hit count — surfaces which queries are common and which return few results (retrieval feedback)"@,
        json::members()
            .push(("project_id"@, prop_view("string"@, "Project identifier (required)"@)))
            .push(("days"@, count_prop_view("Number of days to look back"@, 7)))
            .push(("limit"@, count_prop_view("Max distinct queries"@, 10))),
        json::names().push("project_id"@),
    )
}

/// The definition of the tool `architectural_decisions`.
pub open spec fn architectural_decisions_tool() -> ToolView {
    tool_view(
        "architectural_decisions"@,
        "Get architectural decision memories for a project"@,
        json::members()
            .push(("project_id"@, prop_view("string"@, "Project identifier (required)"@)))
            .push(("topic"@, prop_view("string"@, "Filter by topic keyword"@)))
            .push(("limit"@, count_prop_view("Max results"@, 10))),
        json::names().push("project_id"@),
    )
}

/// The definition of the tool `create_episodic`.
pub open spec fn create_episodic_tool() -> ToolView {
    tool_view(
        "create_episodic"@,
        "Create an episodic memory recording a task, debugging session, refactor, migration, deployment, or feature implementation"@,
        json::members()
            .push(("project_id"@, prop_view("string"@, "Project identifier (required)"@)))
            .push(("session_id"@, prop_view("string"@, "Session identifier"@)))
            .push(("summary"@, prop_view("string"@, "Brief summary of what happened"@)))
            .push(("content"@, prop_view("string"@, "Detailed description"@)))
            .push(("files_touched"@, list_prop_view("Files affected"@)))
            .push(("related_commits"@, list_prop_view("Related commit hashes"@)))
            .push(("importance"@, prop_view("number"@, "Importance score 0-1 (default 0.5)"@)))
            .push(("tags"@, list_prop_view("Tags for categorization"@))),
        json::names()
            .push("project_id"@)
            .push("session_id"@)
            .push("summary"@)
            .push("content"@),
    )
}

/// The definition of the tool `create_decision`.
pub open spec fn create_decision_tool() -> ToolView {
    tool_view(
        "create_decision"@,
        "Record an architectural or design decision with rationale and tradeoffs"@,
        json::members()
            .push(("project_id"@, prop_view("string"@, "Project identifier (required)"@)))
            .push(("title"@, prop_view("string"@, "Decision title"@)))
            .push(("context"@, prop_view("string"@, "Context and background"@)))
            .push(("rationale"@, prop_view("string"@, "Why this decision was made"@)))
            .push(("tradeoffs"@, prop_view("string"@, "Tradeoffs considered"@)))
            .push(("related_files"@, list_prop_view("Related files"@)))
            .push(("tags"@, list_prop_view("Tags for categorization"@))),
        json::names()
            .push("project_id"@)
            .push("title"@)
            .push("context"@)
            .push("rationale"@)
            .push("tradeoffs"@),
    )
}

/// The definition of the tool `create_failure`.
pub open spec fn create_failure_tool() -> ToolView {
    tool_view(
        "create_failure"@,
        "Record a failure, incident, or bug with root cause analysis and prevention measures"@,
        json::members()
            .push(("project_id"@, prop_view("string"@, "Project identifier (required)"@)))
            .push(("incident"@, prop_view("string"@, "What happened"@)))
            .push(("root_cause"@, prop_view("string"@, "Root cause analysis"@)))
            .push(("fix"@, prop_view("string"@, "How it was fixed"@)))
            .push(("prevention"@, prop_view("string"@, "How to prevent recurrence"@)))
            .push(("severity"@, prop_view("integer"@, "Severity 1-5 (default 3)"@)))
            .push(("tags"@, list_prop_view("Tags for categorization"@))),
        json::names()
            .push("project_id"@)
            .push("incident"@)
            .push("root_cause"@)
            .push("fix"@)
            .push("prevention"@),
    )
}

/// The definition of the tool `create_procedural`.
pub open spec fn create_procedural_tool() -> ToolView {
    tool_view(
        "create_procedural"@,
        "Record a workflow, process, or coding convention with step-by-step instructions"@,
        json::members()
            .push(("project_id"@, prop_view("string"@, "Project identifier (required)"@)))
            .push(("workflow_name"@, prop_view("string"@, "Name of the workflow"@)))
            .push(("steps"@, list_prop_view("Step-by-step instructions"@)))
            .push(("related_tools"@, list_prop_view("Tools used in this workflow"@)))
            .push(("tags"@, list_prop_view("Tags for categorization"@))),
        json::names()
            .push("project_id"@)
            .push("workflow_name"@)
            .push("steps"@),
    )
}

/// The definition of the tool `ingest_commits`.
pub open spec fn ingest_commits_tool() -> ToolView {
    tool_view(
        "ingest_commits"@,
        "Auto-generate episodic memories from recent git commits in a repository"@,
        json::members()
            .push(("project_id"@, prop_view("string"@, "Project identifier (required)"@)))
            .push(("repo_path"@, prop_view("string"@, "Path to the git repository"@)))
            .push(("count"@, prop_view("integer"@, "Number of recent commits to ingest (default 20)"@)))
            .push(("session_id"@, prop_view("string"@, "Optional session identifier"@))),
        json::names()
            .push("project_id"@)
            .push("repo_path"@),
    )
}

/// The definition of the tool `collect_sources`.
pub open spec fn collect_sources_tool() -> ToolView {
    tool_view(
        "collect_sources"@,
        "Gather structured evidence (git themes, docs, decisions, failures, workflows) from an existing project for memory bootstrap. Returns raw material only — does not write memories. Pair with the `engram.bootstrap` prompt."@,
        json::members()
            .push(("project_id"@, prop_view("string"@, "Project identifier (required)"@)))
            .push(("repo_path"@, prop_view("string"@, "Path to the project root (git optional)"@)))
            .push(("dimensions"@, prop_view("string"@, "Comma-separated: git,decisions,failures,workflow (default: all)"@)))
            .push(("max_commits"@, prop_view("integer"@, "Max commits to walk for the git dimension (default 200)"@))),
        json::names()
            .push("project_id"@)
            .push("repo_path"@),
    )
}

/// The definition of the tool `forget_memory`.
pub open spec fn forget_memory_tool() -> ToolView {
    tool_view(
        "forget_memory"@,
        "Soft-delete (archive) a memory by id. Reversible via restore_memory."@,
        json::members()
            .push(("project_id"@, prop_view("string"@, "Project identifier (required)"@)))
            .push(("memory_type"@, bare_kind_prop_view()))
            .push(("id"@, prop_view("string"@, "Memory id to archive"@))),
        json::names()
            .push("project_id"@)
            .push("memory_type"@)
            .push("id"@),
    )
}

/// The definition of the tool `restore_memory`.
pub open spec fn restore_memory_tool() -> ToolView {
    tool_view(
        "restore_memory"@,
        "Un-archive a previously forgotten memory by id."@,
        json::members()
            .push(("project_id"@, prop_view("string"@, "Project identifier (required)"@)))
            .push(("memory_type"@, bare_kind_prop_view()))
            .push(("id"@, prop_view("string"@, "Memory id to restore"@))),
        json::names()
            .push("project_id"@)
            .push("memory_type"@)
            .push("id"@),
    )
}

/// The definition of the tool `update_memory`.
pub open spec fn update_memory_tool() -> ToolView {
    open_tool_view(
        "update_memory"@,
        "Patch fields of an existing memory (correction). Provide memory_type, id, and any fields to change."@,
        json::members()
            .push(("project_id"@, prop_view("string"@, "Project identifier (required)"@)))
            .push(("memory_type"@, bare_kind_prop_view()))
            .push(("id"@, prop_view("string"@, "Memory id to update"@))),
        json::names()
            .push("project_id"@)
            .push("memory_type"@)
            .push("id"@),
    )
}

/// The definition of the tool `forget_batch`.
pub open spec fn forget_batch_tool() -> ToolView {
    tool_view(
        "forget_batch"@,
        "Archive memories matching tags and/or a before-timestamp. Dry-run by default (apply=true to archive)."@,
        json::members()
            .push(("project_id"@, prop_view("string"@, "Project identifier (required)"@)))
            .push(("memory_type"@, kind_prop_view("Omit for all types"@)))
            .push(("tags"@, list_prop_view("Archive memories carrying ANY of these tags"@)))
            .push(("before"@, prop_view("integer"@, "Archive memories created before this unix timestamp"@)))
            .push(("apply"@, flag_prop_view("false (default) = dry-run; true = archive"@))),
        json::names().push("project_id"@),
    )
}

/// The definition of the tool `list_archived`.
pub open spec fn list_archived_tool() -> ToolView {
    tool_view(
        "list_archived"@,
        "List archived (soft-deleted) memories for audit or restore."@,
        json::members()
            .push(("project_id"@, prop_view("string"@, "Project identifier (required)"@)))
            .push(("memory_type"@, kind_prop_view("Omit for all types"@)))
            .push(("limit"@, count_prop_view("Max results per type"@, 10))),
        json::names().push("project_id"@),
    )
}

/// The definition of the tool `consolidate_memories`.
pub open spec fn consolidate_memories_tool() -> ToolView {
    tool_view(
        "consolidate_memories"@,
        "Find duplicate memories (exact by default; include_near_dup for fuzzy). Dry-run by default; apply=true archives duplicates keeping the earliest."@,
        json::members()
            .push(("project_id"@, prop_view("string"@, "Project identifier (required)"@)))
            .push(("memory_type"@, kind_prop_view("Omit for all types"@)))
            .push(("include_near_dup"@, flag_prop_view("Also group near-duplicates (Jaccard)"@)))
            .push(("apply"@, flag_prop_view("false (default) = report only; true = archive duplicates"@))),
        json::names().push("project_id"@),
    )
}

/// Every tool, in the order in which they are listed.
pub open spec fn tool_table() -> Seq<ToolView> {
    seq![
        search_memory_tool(),
        related_files_tool(),
        timeline_tool(),
        recent_failures_tool(),
        query_stats_tool(),
        architectural_decisions_tool(),
        create_episodic_tool(),
        create_decision_tool(),
        create_failure_tool(),
        create_procedural_tool(),
        ingest_commits_tool(),
        collect_sources_tool(),
        forget_memory_tool(),
        restore_memory_tool(),
        update_memory_tool(),
        forget_batch_tool(),
        list_archived_tool(),
        consolidate_memories_tool(),
    ]
}

// ---------------------------------------------------------------------------
// Building definitions
// ---------------------------------------------------------------------------

fn no_names() -> (r: Vec<String>)
    ensures
        text::texts(r@) == Seq::<Seq<char>>::empty(),
{
    let r: Vec<String> = Vec::new();
    assert(text::texts(r@) =~= Seq::<Seq<char>>::empty());
    r
}

fn require(names: &mut Vec<String>, name: &str)
    ensures
        text::texts(final(names)@) == text::texts(old(names)@).push(name@),
{
    let ghost before = text::texts(names@);
    names.push(name.to_owned());
    assert(text::texts(names@) =~= before.push(name@));
}

fn schema_fields(properties: Vec<(String, Json)>, required: Vec<String>) -> (r: Vec<(String, Json)>)
    ensures
        json::field_views(r@) == object_schema(
            json::field_views(properties@),
            text::texts(required@),
        ),
{
    let mut fields = json::no_fields();
    json::put(&mut fields, "type", Json::str("object"));
    json::put(&mut fields, "properties", Json::object(properties));
    json::put(&mut fields, "required", json::string_array(&required));
    fields
}

fn tool(name: &str, description: &str, properties: Vec<(String, Json)>, required: Vec<String>) -> (r:
    ToolDefinition)
    ensures
        r@ == tool_view(
            name@,
            description@,
            json::field_views(properties@),
            text::texts(required@),
        ),
{
    ToolDefinition {
        name: name.to_owned(),
        description: description.to_owned(),
        input_schema: Json::object(schema_fields(properties, required)),
    }
}

fn open_tool(
    name: &str,
    description: &str,
    properties: Vec<(String, Json)>,
    required: Vec<String>,
) -> (r: ToolDefinition)
    ensures
        r@ == open_tool_view(
            name@,
            description@,
            json::field_views(properties@),
            text::texts(required@),
        ),
{
    let mut fields = schema_fields(properties, required);
    json::put(&mut fields, "additionalProperties", Json::Bool(true));
    ToolDefinition {
        name: name.to_owned(),
        description: description.to_owned(),
        input_schema: Json::object(fields),
    }
}

fn prop(kind: &str, description: &str) -> (r: Json)
    ensures
        r@ == prop_view(kind@, description@),
{
    let mut fields = json::no_fields();
    json::put(&mut fields, "type", Json::str(kind));
    json::put(&mut fields, "description", Json::str(description));
    Json::object(fields)
}

fn memory_type_names() -> (r: Json)
    ensures
        r@ == memory_types(),
{
    let items = vec![
        Json::str("episodic"),
        Json::str("decision"),
        Json::str("failure"),
        Json::str("procedural"),
    ];
    assert(json::views(items@) =~= memory_types()->Array_0);
    Json::array(items)
}

fn kind_prop(description: &str) -> (r: Json)
    ensures
        r@ == kind_prop_view(description@),
{
    let mut fields = json::no_fields();
    json::put(&mut fields, "type", Json::str("string"));
    json::put(&mut fields, "enum", memory_type_names());
    json::put(&mut fields, "description", Json::str(description));
    Json::object(fields)
}

fn bare_kind_prop() -> (r: Json)
    ensures
        r@ == bare_kind_prop_view(),
{
    let mut fields = json::no_fields();
    json::put(&mut fields, "type", Json::str("string"));
    json::put(&mut fields, "enum", memory_type_names());
    Json::object(fields)
}

fn count_prop(description: &str, default: i64) -> (r: Json)
    ensures
        r@ == count_prop_view(description@, default as int),
{
    let mut fields = json::no_fields();
    json::put(&mut fields, "type", Json::str("integer"));
    json::put(&mut fields, "description", Json::str(description));
    json::put(&mut fields, "default", Json::whole(default));
    Json::object(fields)
}

fn flag_prop(description: &str) -> (r: Json)
    ensures
        r@ == flag_prop_view(description@),
{
    let mut fields = json::no_fields();
    json::put(&mut fields, "type", Json::str("boolean"));
    json::put(&mut fields, "description", Json::str(description));
    json::put(&mut fields, "default", Json::Bool(false));
    Json::object(fields)
}

fn list_prop(description: &str) -> (r: Json)
    ensures
        r@ == list_prop_view(description@),
{
    let mut items = json::no_fields();
    json::put(&mut items, "type", Json::str("string"));
    let mut fields = json::no_fields();
    json::put(&mut fields, "type", Json::str("array"));
    json::put(&mut fields, "items", Json::object(items));
    json::put(&mut fields, "description", Json::str(description));
    Json::object(fields)
}

fn search_memory_definition() -> (r: ToolDefinition)
    ensures
        r@ == search_memory_tool(),
{
    let mut props = json::no_fields();
    json::put(&mut props, "project_id", prop("string", "Project identifier (required)"));
    json::put(&mut props, "query", prop("string", "Search query"));
    json::put(&mut props, "memory_type", kind_prop("Filter by memory type"));
    json::put(&mut props, "limit", count_prop("Max results", 10));
    let mut required = no_names();
    require(&mut required, "project_id");
    require(&mut required, "query");
    tool(
        "search_memory",
        "Search across all memory types using BM25 full-text search",
        props,
        required,
    )
}

fn related_files_definition() -> (r: ToolDefinition)
    ensures
        r@ == related_files_tool(),
{
    let mut props = json::no_fields();
    json::put(&mut props, "project_id", prop("string", "Project identifier (required)"));
    json::put(&mut props, "file", prop("string", "File name to find relations for"));
    let mut required = no_names();
    require(&mut required, "project_id");
    require(&mut required, "file");
    tool(
        "related_files",
        "Find entities related to a specific file via the relationship graph",
        props,
        required,
    )
}

fn timeline_definition() -> (r: ToolDefinition)
    ensures
        r@ == timeline_tool(),
{
    let mut props = json::no_fields();
    json::put(&mut props, "project_id", prop("string", "Project identifier (required)"));
    json::put(&mut props, "days", count_prop("Number of days to look back", 7));
    let mut required = no_names();
    require(&mut required, "project_id");
    tool(
        "timeline",
        "Get a timeline of memory events for the past N days",
        props,
        required,
    )
}

fn recent_failures_definition() -> (r: ToolDefinition)
    ensures
        r@ == recent_failures_tool(),
{
    let mut props = json::no_fields();
    json::put(&mut props, "project_id", prop("string", "Project identifier (required)"));
    json::put(&mut props, "service", prop("string", "Filter by service name"));
    json::put(&mut props, "limit", count_prop("Max results", 10));
    let mut required = no_names();
    require(&mut required, "project_id");
    tool(
        "recent_failures",
        "Get recent failure memories for a project",
        props,
        required,
    )
}

fn query_stats_definition() -> (r: ToolDefinition)
    ensures
        r@ == query_stats_tool(),
{
    let mut props = json::no_fields();
    json::put(&mut props, "project_id", prop("string", "Project identifier (required)"));
    json::put(&mut props, "days", count_prop("Number of days to look back", 7));
    json::put(&mut props, "limit", count_prop("Max distinct queries", 10));
    let mut required = no_names();
    require(&mut required, "project_id");
    tool(
        "query_stats",
        "Aggregate past search queries by frequency and average hit count — surfaces which queries are common and which return few results (retrieval feedback)",
        props,
        required,
    )
}

fn architectural_decisions_definition() -> (r: ToolDefinition)
    ensures
        r@ == architectural_decisions_tool(),
{
    let mut props = json::no_fields();
    json::put(&mut props, "project_id", prop("string", "Project identifier (required)"));
    json::put(&mut props, "topic", prop("string", "Filter by topic keyword"));
    json::put(&mut props, "limit", count_prop("Max results", 10));
    let mut required = no_names();
    require(&mut required, "project_id");
    tool(
        "architectural_decisions",
        "Get architectural decision memories for a project",
        props,
        required,
    )
}

fn create_episodic_definition() -> (r: ToolDefinition)
    ensures
        r@ == create_episodic_tool(),
{
    let mut props = json::no_fields();
    json::put(&mut props, "project_id", prop("string", "Project identifier (required)"));
    json::put(&mut props, "session_id", prop("string", "Session identifier"));
    json::put(&mut props, "summary", prop("string", "Brief summary of what happened"));
    json::put(&mut props, "content", prop("string", "Detailed description"));
    json::put(&mut props, "files_touched", list_prop("Files affected"));
    json::put(&mut props, "related_commits", list_prop("Related commit hashes"));
    json::put(&mut props, "importance", prop("number", "Importance score 0-1 (default 0.5)"));
    json::put(&mut props, "tags", list_prop("Tags for categorization"));
    let mut required = no_names();
    require(&mut required, "project_id");
    require(&mut required, "session_id");
    require(&mut required, "summary");
    require(&mut required, "content");
    tool(
        "create_episodic",
        "Create an episodic memory recording a task, debugging session, refactor, migration, deployment, or feature implementation",
        props,
        required,
    )
}

fn create_decision_definition() -> (r: ToolDefinition)
    ensures
        r@ == create_decision_tool(),
{
    let mut props = json::no_fields();
    json::put(&mut props, "project_id", prop("string", "Project identifier (required)"));
    json::put(&mut props, "title", prop("string", "Decision title"));
    json::put(&mut props, "context", prop("string", "Context and background"));
    json::put(&mut props, "rationale", prop("string", "Why this decision was made"));
    json::put(&mut props, "tradeoffs", prop("string", "Tradeoffs considered"));
    json::put(&mut props, "related_files", list_prop("Related files"));
    json::put(&mut props, "tags", list_prop("Tags for categorization"));
    let mut required = no_names();
    require(&mut required, "project_id");
    require(&mut required, "title");
    require(&mut required, "context");
    require(&mut required, "rationale");
    require(&mut required, "tradeoffs");
    tool(
        "create_decision",
        "Record an architectural or design decision with rationale and tradeoffs",
        props,
        required,
    )
}

fn create_failure_definition() -> (r: ToolDefinition)
    ensures
        r@ == create_failure_tool(),
{
    let mut props = json::no_fields();
    json::put(&mut props, "project_id", prop("string", "Project identifier (required)"));
    json::put(&mut props, "incident", prop("string", "What happened"));
    json::put(&mut props, "root_cause", prop("string", "Root cause analysis"));
    json::put(&mut props, "fix", prop("string", "How it was fixed"));
    json::put(&mut props, "prevention", prop("string", "How to prevent recurrence"));
    json::put(&mut props, "severity", prop("integer", "Severity 1-5 (default 3)"));
    json::put(&mut props, "tags", list_prop("Tags for categorization"));
    let mut required = no_names();
    require(&mut required, "project_id");
    require(&mut required, "incident");
    require(&mut required, "root_cause");
    require(&mut required, "fix");
    require(&mut required, "prevention");
    tool(
        "create_failure",
        "Record a failure, incident, or bug with root cause analysis and prevention measures",
        props,
        required,
    )
}

fn create_procedural_definition() -> (r: ToolDefinition)
    ensures
        r@ == create_procedural_tool(),
{
    let mut props = json::no_fields();
    json::put(&mut props, "project_id", prop("string", "Project identifier (required)"));
    json::put(&mut props, "workflow_name", prop("string", "Name of the workflow"));
    json::put(&mut props, "steps", list_prop("Step-by-step instructions"));
    json::put(&mut props, "related_tools", list_prop("Tools used in this workflow"));
    json::put(&mut props, "tags", list_prop("Tags for categorization"));
    let mut required = no_names();
    require(&mut required, "project_id");
    require(&mut required, "workflow_name");
    require(&mut required, "steps");
    tool(
        "create_procedural",
        "Record a workflow, process, or coding convention with step-by-step instructions",
        props,
        required,
    )
}

fn ingest_commits_definition() -> (r: ToolDefinition)
    ensures
        r@ == ingest_commits_tool(),
{
    let mut props = json::no_fields();
    json::put(&mut props, "project_id", prop("string", "Project identifier (required)"));
    json::put(&mut props, "repo_path", prop("string", "Path to the git repository"));
    json::put(&mut props, "count", prop("integer", "Number of recent commits to ingest (default 20)"));
    json::put(&mut props, "session_id", prop("string", "Optional session identifier"));
    let mut required = no_names();
    require(&mut required, "project_id");
    require(&mut required, "repo_path");
    tool(
        "ingest_commits",
        "Auto-generate episodic memories from recent git commits in a repository",
        props,
        required,
    )
}

fn collect_sources_definition() -> (r: ToolDefinition)
    ensures
        r@ == collect_sources_tool(),
{
    let mut props = json::no_fields();
    json::put(&mut props, "project_id", prop("string", "Project identifier (required)"));
    json::put(&mut props, "repo_path", prop("string", "Path to the project root (git optional)"));
    json::put(&mut props, "dimensions", prop("string", "Comma-separated: git,decisions,failures,workflow (default: all)"));
    json::put(&mut props, "max_commits", prop("integer", "Max commits to walk for the git dimension (default 200)"));
    let mut required = no_names();
    require(&mut required, "project_id");
    require(&mut required, "repo_path");
    tool(
        "collect_sources",
        "Gather structured evidence (git themes, docs, decisions, failures, workflows) from an existing project for memory bootstrap. Returns raw material only — does not write memories. Pair with the `engram.bootstrap` prompt.",
        props,
        required,
    )
}

fn forget_memory_definition() -> (r: ToolDefinition)
    ensures
        r@ == forget_memory_tool(),
{
    let mut props = json::no_fields();
    json::put(&mut props, "project_id", prop("string", "Project identifier (required)"));
    json::put(&mut props, "memory_type", bare_kind_prop());
    json::put(&mut props, "id", prop("string", "Memory id to archive"));
    let mut required = no_names();
    require(&mut required, "project_id");
    require(&mut required, "memory_type");
    require(&mut required, "id");
    tool(
        "forget_memory",
        "Soft-delete (archive) a memory by id. Reversible via restore_memory.",
        props,
        required,
    )
}

fn restore_memory_definition() -> (r: ToolDefinition)
    ensures
        r@ == restore_memory_tool(),
{
    let mut props = json::no_fields();
    json::put(&mut props, "project_id", prop("string", "Project identifier (required)"));
    json::put(&mut props, "memory_type", bare_kind_prop());
    json::put(&mut props, "id", prop("string", "Memory id to restore"));
    let mut required = no_names();
    require(&mut required, "project_id");
    require(&mut required, "memory_type");
    require(&mut required, "id");
    tool(
        "restore_memory",
        "Un-archive a previously forgotten memory by id.",
        props,
        required,
    )
}

fn update_memory_definition() -> (r: ToolDefinition)
    ensures
        r@ == update_memory_tool(),
{
    let mut props = json::no_fields();
    json::put(&mut props, "project_id", prop("string", "Project identifier (required)"));
    json::put(&mut props, "memory_type", bare_kind_prop());
    json::put(&mut props, "id", prop("string", "Memory id to update"));
    let mut required = no_names();
    require(&mut required, "project_id");
    require(&mut required, "memory_type");
    require(&mut required, "id");
    open_tool(
        "update_memory",
        "Patch fields of an existing memory (correction). Provide memory_type, id, and any fields to change.",
        props,
        required,
    )
}

fn forget_batch_definition() -> (r: ToolDefinition)
    ensures
        r@ == forget_batch_tool(),
{
    let mut props = json::no_fields();
    json::put(&mut props, "project_id", prop("string", "Project identifier (required)"));
    json::put(&mut props, "memory_type", kind_prop("Omit for all types"));
    json::put(&mut props, "tags", list_prop("Archive memories carrying ANY of these tags"));
    json::put(&mut props, "before", prop("integer", "Archive memories created before this unix timestamp"));
    json::put(&mut props, "apply", flag_prop("false (default) = dry-run; true = archive"));
    let mut required = no_names();
    require(&mut required, "project_id");
    tool(
        "forget_batch",
        "Archive memories matching tags and/or a before-timestamp. Dry-run by default (apply=true to archive).",
        props,
        required,
    )
}

fn list_archived_definition() -> (r: ToolDefinition)
    ensures
        r@ == list_archived_tool(),
{
    let mut props = json::no_fields();
    json::put(&mut props, "project_id", prop("string", "Project identifier (required)"));
    json::put(&mut props, "memory_type", kind_prop("Omit for all types"));
    json::put(&mut props, "limit", count_prop("Max results per type", 10));
    let mut required = no_names();
    require(&mut required, "project_id");
    tool(
        "list_archived",
        "List archived (soft-deleted) memories for audit or restore.",
        props,
        required,
    )
}

fn consolidate_memories_definition() -> (r: ToolDefinition)
    ensures
        r@ == consolidate_memories_tool(),
{
    let mut props = json::no_fields();
    json::put(&mut props, "project_id", prop("string", "Project identifier (required)"));
    json::put(&mut props, "memory_type", kind_prop("Omit for all types"));
    json::put(&mut props, "include_near_dup", flag_prop("Also group near-duplicates (Jaccard)"));
    json::put(&mut props, "apply", flag_prop("false (default) = report only; true = archive duplicates"));
    let mut required = no_names();
    require(&mut required, "project_id");
    tool(
        "consolidate_memories",
        "Find duplicate memories (exact by default; include_near_dup for fuzzy). Dry-run by default; apply=true archives duplicates keeping the earliest.",
        props,
        required,
    )
}

fn add_tool(tools: &mut Vec<ToolDefinition>, tool: ToolDefinition)
    ensures
        tool_views(final(tools)@) == tool_views(old(tools)@).push(tool@),
{
    let ghost before = tool_views(tools@);
    tools.push(tool);
    assert(tool_views(tools@) =~= before.push(tool@));
}

/// All tool definitions.
pub(crate) fn definitions() -> (r: Vec<ToolDefinition>)
    ensures
        tool_views(r@) == tool_table(),
{
    let mut tools: Vec<ToolDefinition> = Vec::new();
    assert(tool_views(tools@) =~= Seq::empty());
    add_tool(&mut tools, search_memory_definition());
    add_tool(&mut tools, related_files_definition());
    add_tool(&mut tools, timeline_definition());
    add_tool(&mut tools, recent_failures_definition());
    add_tool(&mut tools, query_stats_definition());
    add_tool(&mut tools, architectural_decisions_definition());
    add_tool(&mut tools, create_episodic_definition());
    add_tool(&mut tools, create_decision_definition());
    add_tool(&mut tools, create_failure_definition());
    add_tool(&mut tools, create_procedural_definition());
    add_tool(&mut tools, ingest_commits_definition());
    add_tool(&mut tools, collect_sources_definition());
    add_tool(&mut tools, forget_memory_definition());
    add_tool(&mut tools, restore_memory_definition());
    add_tool(&mut tools, update_memory_definition());
    add_tool(&mut tools, forget_batch_definition());
    add_tool(&mut tools, list_archived_definition());
    add_tool(&mut tools, consolidate_memories_definition());
    tools
}

// ---------------------------------------------------------------------------
// Tools by name
// ---------------------------------------------------------------------------

/// A tool that can be called.
#[derive(Clone, Copy, Debug, PartialEq, Eq, Structural)]
pub enum Tool {
    SearchMemory,
    RelatedFiles,
    Timeline,
    RecentFailures,
    QueryStats,
    ArchitecturalDecisions,
    CreateEpisodic,
    CreateDecision,
    CreateFailure,
    CreateProcedural,
    IngestCommits,
    CollectSources,
    ForgetMemory,
    RestoreMemory,
    UpdateMemory,
    ForgetBatch,
    ListArchived,
    ConsolidateMemories,
}

/// The tool that a name stands for.
pub open spec fn tool_of(name: Seq<char>) -> Option<Tool> {
    if name == "search_memory"@ {
        Some(Tool::SearchMemory)
    } else if name == "related_files"@ {
        Some(Tool::RelatedFiles)
    } else if name == "timeline"@ {
        Some(Tool::Timeline)
    } else if name == "recent_failures"@ {
        Some(Tool::RecentFailures)
    } else if name == "query_stats"@ {
        Some(Tool::QueryStats)
    } else if name == "architectural_decisions"@ {
        Some(Tool::ArchitecturalDecisions)
    } else if name == "create_episodic"@ {
        Some(Tool::CreateEpisodic)
    } else if name == "create_decision"@ {
        Some(Tool::CreateDecision)
    } else if name == "create_failure"@ {
        Some(Tool::CreateFailure)
    } else if name == "create_procedural"@ {
        Some(Tool::CreateProcedural)
    } else if name == "ingest_commits"@ {
        Some(Tool::IngestCommits)
    } else if name == "collect_sources"@ {
        Some(Tool::CollectSources)
    } else if name == "forget_memory"@ {
        Some(Tool::ForgetMemory)
    } else if name == "restore_memory"@ {
        Some(Tool::RestoreMemory)
    } else if name == "update_memory"@ {
        Some(Tool::UpdateMemory)
    } else if name == "forget_batch"@ {
        Some(Tool::ForgetBatch)
    } else if name == "list_archived"@ {
        Some(Tool::ListArchived)
    } else if name == "consolidate_memories"@ {
        Some(Tool::ConsolidateMemories)
    } else {
        None
    }
}

impl Tool {
    /// The tool with a name.
    pub fn from_name(name: &str) -> (r: Option<Tool>)
        ensures
            r == tool_of(name@),
    {
        if text::same(name, "search_memory") {
            Some(Tool::SearchMemory)
        } else if text::same(name, "related_files") {
            Some(Tool::RelatedFiles)
        } else if text::same(name, "timeline") {
            Some(Tool::Timeline)
        } else if text::same(name, "recent_failures") {
            Some(Tool::RecentFailures)
        } else if text::same(name, "query_stats") {
            Some(Tool::QueryStats)
        } else if text::same(name, "architectural_decisions") {
            Some(Tool::ArchitecturalDecisions)
        } else if text::same(name, "create_episodic") {
            Some(Tool::CreateEpisodic)
        } else if text::same(name, "create_decision") {
            Some(Tool::CreateDecision)
        } else if text::same(name, "create_failure") {
            Some(Tool::CreateFailure)
        } else if text::same(name, "create_procedural") {
            Some(Tool::CreateProcedural)
        } else if text::same(name, "ingest_commits") {
            Some(Tool::IngestCommits)
        } else if text::same(name, "collect_sources") {
            Some(Tool::CollectSources)
        } else if text::same(name, "forget_memory") {
            Some(Tool::ForgetMemory)
        } else if text::same(name, "restore_memory") {
            Some(Tool::RestoreMemory)
        } else if text::same(name, "update_memory") {
            Some(Tool::UpdateMemory)
        } else if text::same(name, "forget_batch") {
            Some(Tool::ForgetBatch)
        } else if text::same(name, "list_archived") {
            Some(Tool::ListArchived)
        } else if text::same(name, "consolidate_memories") {
            Some(Tool::ConsolidateMemories)
        } else {
            None
        }
    }
}

/// The tool at position `i` of the table.
pub open spec fn nth_tool(i: int) -> Tool {
    if i == 0 {
        Tool::SearchMemory
    } else if i == 1 {
        Tool::RelatedFiles
    } else if i == 2 {
        Tool::Timeline
    } else if i == 3 {
        Tool::RecentFailures
    } else if i == 4 {
        Tool::QueryStats
    } else if i == 5 {
        Tool::ArchitecturalDecisions
    } else if i == 6 {
        Tool::CreateEpisodic
    } else if i == 7 {
        Tool::CreateDecision
    } else if i == 8 {
        Tool::CreateFailure
    } else if i == 9 {
        Tool::CreateProcedural
    } else if i == 10 {
        Tool::IngestCommits
    } else if i == 11 {
        Tool::CollectSources
    } else if i == 12 {
        Tool::ForgetMemory
    } else if i == 13 {
        Tool::RestoreMemory
    } else if i == 14 {
        Tool::UpdateMemory
    } else if i == 15 {
        Tool::ForgetBatch
    } else if i == 16 {
        Tool::ListArchived
    } else {
        Tool::ConsolidateMemories
    }
}

/// Every tool that is listed can be called by its listed name, and no two share one.
pub proof fn listed_tools_can_be_called(i: int)
    requires
        0 <= i < tool_table().len(),
    ensures
        tool_of(tool_table()[i].name) == Some(nth_tool(i)),
{
    reveal_strlit("search_memory");
    reveal_strlit("related_files");
    reveal_strlit("timeline");
    reveal_strlit("recent_failures");
    reveal_strlit("query_stats");
    reveal_strlit("architectural_decisions");
    reveal_strlit("create_episodic");
    reveal_strlit("create_decision");
    reveal_strlit("create_failure");
    reveal_strlit("create_procedural");
    reveal_strlit("ingest_commits");
    reveal_strlit("collect_sources");
    reveal_strlit("forget_memory");
    reveal_strlit("restore_memory");
    reveal_strlit("update_memory");
    reveal_strlit("forget_batch");
    reveal_strlit("list_archived");
    reveal_strlit("consolidate_memories");
    assert("search_memory"@.len() == 13);
    assert("related_files"@.len() == 13);
    assert("timeline"@.len() == 8);
    assert("recent_failures"@.len() == 15);
    assert("query_stats"@.len() == 11);
    assert("architectural_decisions"@.len() == 23);
    assert("create_episodic"@.len() == 15);
    assert("create_decision"@.len() == 15);
    assert("create_failure"@.len() == 14);
    assert("create_procedural"@.len() == 17);
    assert("ingest_commits"@.len() == 14);
    assert("collect_sources"@.len() == 15);
    assert("forget_memory"@.len() == 13);
    assert("restore_memory"@.len() == 14);
    assert("update_memory"@.len() == 13);
    assert("forget_batch"@.len() == 12);
    assert("list_archived"@.len() == 13);
    assert("consolidate_memories"@.len() == 20);
    assert("related_files"@[0] != "search_memory"@[0]);
    assert("create_episodic"@[0] != "recent_failures"@[0]);
    assert("create_decision"@[0] != "recent_failures"@[0]);
    assert("create_decision"@[7] != "create_episodic"@[7]);
    assert("ingest_commits"@[0] != "create_failure"@[0]);
    assert("collect_sources"@[0] != "recent_failures"@[0]);
    assert("collect_sources"@[1] != "create_episodic"@[1]);
    assert("collect_sources"@[1] != "create_decision"@[1]);
    assert("forget_memory"@[0] != "search_memory"@[0]);
    assert("forget_memory"@[0] != "related_files"@[0]);
    assert("restore_memory"@[0] != "create_failure"@[0]);
    assert("restore_memory"@[0] != "ingest_commits"@[0]);
    assert("update_memory"@[0] != "search_memory"@[0]);
    assert("update_memory"@[0] != "related_files"@[0]);
    assert("update_memory"@[0] != "forget_memory"@[0]);
    assert("list_archived"@[0] != "search_memory"@[0]);
    assert("list_archived"@[0] != "related_files"@[0]);
    assert("list_archived"@[0] != "forget_memory"@[0]);
    assert("list_archived"@[0] != "update_memory"@[0]);
}

/// The members that a tool insists on.
pub open spec fn required_members(tool: ToolView) -> JsonView {
    json::member(tool.input_schema, "required"@)->0
}

/// Every tool insists on the project it works in.
pub proof fn every_tool_requires_a_project(i: int)
    requires
        0 <= i < tool_table().len(),
    ensures
        required_members(tool_table()[i]) is Array,
        required_members(tool_table()[i])->Array_0.contains(JsonView::Str("project_id"@)),
{
    reveal_strlit("type");
    reveal_strlit("properties");
    reveal_strlit("required");
    reveal_strlit("additionalProperties");
    let schema = tool_table()[i].input_schema;
    let fields = schema->Object_0;
    assert(fields[2].0 == "required"@);
    assert("type"@.len() == 4);
    assert("properties"@.len() == 10);
    assert("required"@.len() == 8);
    assert(fields[0].0 != "required"@);
    assert(fields[1].0 != "required"@);
    json::field_index_found(fields, "required"@);
    assert(json::field_index(fields, "required"@) == Some(2int));
    let names = fields[2].1->Array_0;
    assert(names[0] == JsonView::Str("project_id"@));
}

} // verus!
