//! The requests that the server understands, and what it answers.
use crate::json;
use crate::json::{Json, JsonView};
use crate::mcp::tools;
use crate::mcp::tools::{Tool, ToolDefinition, ToolView};
use crate::mcp::transport;
use crate::mcp::transport::{JsonRpcRequest, JsonRpcResponse, RequestView, ResponseView};
use crate::text;
use vstd::prelude::*;

verus! {

/// The name of the one prompt that the server offers.
pub open spec fn bootstrap_prompt_name() -> Seq<char> {
    "engram.bootstrap"@
}

/// The prompt template with the caller's arguments put in.
pub open spec fn rendered_prompt(
    template: Seq<char>,
    project_id: Seq<char>,
    repo_path: Seq<char>,
    dimensions: Seq<char>,
) -> Seq<char> {
    text::replaced(
        text::replaced(
            text::replaced(template, "{{PROJECT_ID}}"@, project_id),
            "{{REPO_PATH}}"@,
            repo_path,
        ),
        "{{DIMENSIONS}}"@,
        dimensions,
    )
}

/// Render the bootstrap prompt.
pub fn render_bootstrap_prompt(
    template: &str,
    project_id: &str,
    repo_path: &str,
    dimensions: &str,
) -> (r: String)
    ensures
        r@ == rendered_prompt(template@, project_id@, repo_path@, dimensions@),
{
    proof {
        reveal_strlit("{{PROJECT_ID}}");
        reveal_strlit("{{REPO_PATH}}");
        reveal_strlit("{{DIMENSIONS}}");
    }
    let s = text::replace(template, "{{PROJECT_ID}}", project_id);
    let s = text::replace(s.as_str(), "{{REPO_PATH}}", repo_path);
    text::replace(s.as_str(), "{{DIMENSIONS}}", dimensions)
}

// ---------------------------------------------------------------------------
// Requests
// ---------------------------------------------------------------------------

/// What a request leads to: an answer, or a call of a tool.
#[derive(Debug)]
pub enum Step {
    Respond(JsonRpcResponse),
    Call { id: Option<Json>, tool: Tool, arguments: Json },
}

pub enum StepView {
    Respond(ResponseView),
    Call { id: Option<JsonView>, tool: Tool, arguments: JsonView },
}

impl View for Step {
    type V = StepView;

    open spec fn view(&self) -> StepView {
        match self {
            Step::Respond(r) => StepView::Respond(r@),
            Step::Call { id, tool, arguments } => StepView::Call {
                id: json::opt_json(*id),
                tool: *tool,
                arguments: arguments@,
            },
        }
    }
}

/// The value, or null where there is none.
pub open spec fn or_null(v: Option<JsonView>) -> JsonView {
    match v {
        Some(j) => j,
        None => JsonView::Null,
    }
}

/// The text of a member, or another text where it is no string.
pub open spec fn text_or(j: JsonView, key: Seq<char>, other: Seq<char>) -> Seq<char> {
    match json::string_member(j, key) {
        Some(s) => s,
        None => other,
    }
}

/// The answer to `initialize`.
pub open spec fn handshake() -> JsonView {
    JsonView::Object(
        json::members()
            .push(("protocolVersion"@, JsonView::Str("2024-11-05"@)))
            .push((
                "capabilities"@,
                JsonView::Object(
                    json::members()
                        .push(("tools"@, JsonView::Object(json::members())))
                        .push(("prompts"@, JsonView::Object(json::members()))),
                ),
            ))
            .push((
                "serverInfo"@,
                JsonView::Object(
                    json::members()
                        .push(("name"@, JsonView::Str("engram"@)))
                        .push(("version"@, JsonView::Str("0.1.0"@))),
                ),
            )),
    )
}

/// A tool definition as it is sent.
pub open spec fn tool_json(t: ToolView) -> JsonView {
    JsonView::Object(
        json::members()
            .push(("name"@, JsonView::Str(t.name)))
            .push(("description"@, JsonView::Str(t.description)))
            .push(("inputSchema"@, t.input_schema)),
    )
}

/// The answer to `tools/list`.
pub open spec fn tool_list() -> JsonView {
    let table = tools::tool_table();
    JsonView::Object(
        json::members().push((
            "tools"@,
            JsonView::Array(Seq::new(table.len(), |i: int| tool_json(table[i]))),
        )),
    )
}

pub open spec fn prompt_argument(
    name: Seq<char>,
    description: Seq<char>,
    required: bool,
) -> JsonView {
    JsonView::Object(
        json::members()
            .push(("name"@, JsonView::Str(name)))
            .push(("description"@, JsonView::Str(description)))
            .push(("required"@, JsonView::Bool(required))),
    )
}

pub open spec fn bootstrap_prompt() -> JsonView {
    JsonView::Object(
        json::members()
            .push(("name"@, JsonView::Str(bootstrap_prompt_name())))
            .push((
                "description"@,
                JsonView::Str(
                    "Initialize engram memory for an existing project: collect evidence via collect_sources, then distill it into structured memories with quality bars."@,
                ),
            ))
            .push((
                "arguments"@,
                JsonView::Array(
                    Seq::empty()
                        .push(prompt_argument("project_id"@, "Project identifier (required)"@, true))
                        .push(
                            prompt_argument("repo_path"@, "Path to the project root (required)"@, true),
                        )
                        .push(
                            prompt_argument(
                                "dimensions"@,
                                "Comma-separated: git,decisions,failures,workflow (default: all)"@,
                                false,
                            ),
                        ),
                ),
            )),
    )
}

/// The answer to `prompts/list`.
pub open spec fn prompt_list() -> JsonView {
    JsonView::Object(
        json::members().push((
            "prompts"@,
            JsonView::Array(Seq::empty().push(bootstrap_prompt())),
        )),
    )
}

/// The answer that carries a rendered prompt.
pub open spec fn prompt_message(rendered: Seq<char>) -> JsonView {
    JsonView::Object(
        json::members()
            .push((
                "description"@,
                JsonView::Str("Initialize engram memory for an existing project"@),
            ))
            .push((
                "messages"@,
                JsonView::Array(
                    Seq::empty().push(
                        JsonView::Object(
                            json::members()
                                .push(("role"@, JsonView::Str("user"@)))
                                .push((
                                    "content"@,
                                    JsonView::Object(
                                        json::members()
                                            .push(("type"@, JsonView::Str("text"@)))
                                            .push(("text"@, JsonView::Str(rendered))),
                                    ),
                                )),
                        ),
                    ),
                ),
            )),
    )
}

/// What a request leads to.
pub open spec fn step_of(q: RequestView, template: Seq<char>) -> StepView {
    let params = or_null(q.params);
    if q.method == "initialize"@ {
        StepView::Respond(transport::success(q.id, handshake()))
    } else if q.method == "tools/list"@ {
        StepView::Respond(transport::success(q.id, tool_list()))
    } else if q.method == "prompts/list"@ {
        StepView::Respond(transport::success(q.id, prompt_list()))
    } else if q.method == "prompts/get"@ {
        let name = text_or(params, "name"@, ""@);
        if name != bootstrap_prompt_name() {
            StepView::Respond(transport::failure(q.id, -32601, "Unknown prompt: "@ + name))
        } else {
            let args = or_null(json::member(params, "arguments"@));
            StepView::Respond(
                transport::success(
                    q.id,
                    prompt_message(
                        rendered_prompt(
                            template,
                            text_or(args, "project_id"@, "<project_id>"@),
                            text_or(args, "repo_path"@, "<repo_path>"@),
                            text_or(args, "dimensions"@, "git, decisions, failures, workflow"@),
                        ),
                    ),
                ),
            )
        }
    } else if q.method == "tools/call"@ {
        let name = text_or(params, "name"@, ""@);
        match tools::tool_of(name) {
            Some(tool) => StepView::Call {
                id: q.id,
                tool,
                arguments: or_null(json::member(params, "arguments"@)),
            },
            None => StepView::Respond(
                transport::failure(q.id, -32601, "Unknown tool: "@ + name),
            ),
        }
    } else {
        StepView::Respond(transport::failure(q.id, -32601, "Method not found: "@ + q.method))
    }
}

/// How a call of a tool ended.
#[derive(Debug)]
pub enum ToolOutcome {
    /// The arguments were no input of the tool.
    InvalidParams(String),
    Done(Json),
    Failed(String),
}

pub enum ToolOutcomeView {
    InvalidParams(Seq<char>),
    Done(JsonView),
    Failed(Seq<char>),
}

impl View for ToolOutcome {
    type V = ToolOutcomeView;

    open spec fn view(&self) -> ToolOutcomeView {
        match self {
            ToolOutcome::InvalidParams(e) => ToolOutcomeView::InvalidParams(e@),
            ToolOutcome::Done(v) => ToolOutcomeView::Done(v@),
            ToolOutcome::Failed(e) => ToolOutcomeView::Failed(e@),
        }
    }
}

/// The result that wraps a text.
pub open spec fn text_content(s: Seq<char>) -> JsonView {
    JsonView::Object(
        json::members().push((
            "content"@,
            JsonView::Array(
                Seq::empty().push(
                    JsonView::Object(
                        json::members()
                            .push(("type"@, JsonView::Str("text"@)))
                            .push(("text"@, JsonView::Str(s))),
                    ),
                ),
            ),
        )),
    )
}

/// The answer to a call of a tool.
pub open spec fn tool_answer(id: Option<JsonView>, outcome: ToolOutcomeView) -> ResponseView {
    match outcome {
        ToolOutcomeView::InvalidParams(e) => transport::failure(
            id,
            -32602,
            "Invalid params: "@ + e,
        ),
        ToolOutcomeView::Done(v) => transport::success(id, text_content(json::json_printed(v))),
        ToolOutcomeView::Failed(e) => transport::failure(id, -32603, "Internal error: "@ + e),
    }
}

/// The id under which a step will be answered.
pub open spec fn step_id(s: StepView) -> Option<JsonView> {
    match s {
        StepView::Respond(r) => r.id,
        StepView::Call { id, .. } => id,
    }
}

/// Whatever a request asks for, it is answered under its own id.
pub proof fn answers_carry_the_request_id(
    q: RequestView,
    template: Seq<char>,
    outcome: ToolOutcomeView,
)
    ensures
        step_id(step_of(q, template)) == q.id,
        tool_answer(q.id, outcome).id == q.id,
{
}

/// A response holds a result or an error, never both and never neither.
pub proof fn answers_hold_result_or_error(
    q: RequestView,
    template: Seq<char>,
    outcome: ToolOutcomeView,
)
    ensures
        match step_of(q, template) {
            StepView::Respond(r) => r.result is Some <==> r.error is None,
            StepView::Call { .. } => true,
        },
        tool_answer(q.id, outcome).result is Some <==> tool_answer(q.id, outcome).error is None,
{
}

fn handshake_json() -> (r: Json)
    ensures
        r@ == handshake(),
{
    let mut capabilities = json::no_fields();
    json::put(&mut capabilities, "tools", Json::object(json::no_fields()));
    json::put(&mut capabilities, "prompts", Json::object(json::no_fields()));
    let mut info = json::no_fields();
    json::put(&mut info, "name", Json::str("engram"));
    json::put(&mut info, "version", Json::str("0.1.0"));
    let mut fields = json::no_fields();
    json::put(&mut fields, "protocolVersion", Json::str("2024-11-05"));
    json::put(&mut fields, "capabilities", Json::object(capabilities));
    json::put(&mut fields, "serverInfo", Json::object(info));
    Json::object(fields)
}

fn tool_list_json() -> (r: Json)
    ensures
        r@ == tool_list(),
{
    let mut rest = McpServer::list_tools();
    let ghost table = tools::tool_table();
    let ghost all = Seq::new(table.len(), |i: int| tool_json(table[i]));
    let ghost defs = rest@;
    let mut items: Vec<Json> = Vec::new();
    assert(defs.skip(0) =~= defs);
    while rest.len() > 0
        invariant
            table == tools::tool_views(defs),
            all == Seq::new(table.len(), |i: int| tool_json(table[i])),
            items@.len() + rest@.len() == defs.len(),
            rest@ == defs.skip(items@.len() as int),
            json::views(items@) == all.take(items@.len() as int),
        decreases rest@.len(),
    {
        let ghost n = items@.len() as int;
        let ghost before = json::views(items@);
        let t = rest.remove(0);
        assert(t == defs[n]);
        assert(table[n] == t@);
        let ghost seen = t@;
        let mut fields = json::no_fields();
        json::put(&mut fields, "name", Json::text(t.name));
        json::put(&mut fields, "description", Json::text(t.description));
        json::put(&mut fields, "inputSchema", t.input_schema);
        let item = Json::object(fields);
        assert(item@ == tool_json(seen));
        items.push(item);
        assert(json::views(items@) =~= before.push(tool_json(seen)));
        assert(all.take(n + 1) =~= all.take(n).push(all[n]));
        assert(rest@ =~= defs.skip(n + 1));
    }
    assert(all.take(items@.len() as int) =~= all);
    let mut fields = json::no_fields();
    json::put(&mut fields, "tools", Json::array(items));
    Json::object(fields)
}

fn argument_json(name: &str, description: &str, required: bool) -> (r: Json)
    ensures
        r@ == prompt_argument(name@, description@, required),
{
    let mut fields = json::no_fields();
    json::put(&mut fields, "name", Json::str(name));
    json::put(&mut fields, "description", Json::str(description));
    json::put(&mut fields, "required", Json::Bool(required));
    Json::object(fields)
}

fn prompt_list_json() -> (r: Json)
    ensures
        r@ == prompt_list(),
{
    let project = argument_json("project_id", "Project identifier (required)", true);
    let path = argument_json("repo_path", "Path to the project root (required)", true);
    let dims = argument_json(
        "dimensions",
        "Comma-separated: git,decisions,failures,workflow (default: all)",
        false,
    );
    let ghost wanted = Seq::empty().push(project@).push(path@).push(dims@);
    let mut args: Vec<Json> = Vec::new();
    args.push(project);
    args.push(path);
    args.push(dims);
    assert(json::views(args@) =~= wanted);
    let mut fields = json::no_fields();
    json::put(&mut fields, "name", Json::str("engram.bootstrap"));
    json::put(
        &mut fields,
        "description",
        Json::str(
            "Initialize engram memory for an existing project: collect evidence via collect_sources, then distill it into structured memories with quality bars.",
        ),
    );
    json::put(&mut fields, "arguments", Json::array(args));
    let prompt = Json::object(fields);
    assert(prompt@ == bootstrap_prompt());
    let mut fields = json::no_fields();
    json::put(&mut fields, "prompts", json::single(prompt));
    Json::object(fields)
}

fn prompt_message_json(rendered: String) -> (r: Json)
    ensures
        r@ == prompt_message(rendered@),
{
    let mut content = json::no_fields();
    json::put(&mut content, "type", Json::str("text"));
    json::put(&mut content, "text", Json::text(rendered));
    let mut message = json::no_fields();
    json::put(&mut message, "role", Json::str("user"));
    json::put(&mut message, "content", Json::object(content));
    let mut fields = json::no_fields();
    json::put(
        &mut fields,
        "description",
        Json::str("Initialize engram memory for an existing project"),
    );
    json::put(&mut fields, "messages", json::single(Json::object(message)));
    Json::object(fields)
}

fn text_content_json(s: String) -> (r: Json)
    ensures
        r@ == text_content(s@),
{
    let mut content = json::no_fields();
    json::put(&mut content, "type", Json::str("text"));
    json::put(&mut content, "text", Json::text(s));
    let mut fields = json::no_fields();
    json::put(&mut fields, "content", json::single(Json::object(content)));
    Json::object(fields)
}

/// The text of a member as an owned string, or another text.
fn member_text(j: &Json, key: &str, other: &str) -> (r: String)
    ensures
        r@ == text_or(j@, key@, other@),
{
    match j.get_str(key) {
        Some(s) => s.to_owned(),
        None => other.to_owned(),
    }
}

/// The server: its prompt template and the size of its worker pool.
#[derive(Debug)]
pub struct McpServer {
    pub prompt_template: String,
    pub worker_threads: usize,
}

impl McpServer {
    /// A server with one worker thread.
    pub fn new(prompt_template: String) -> (r: Self)
        ensures
            r.prompt_template == prompt_template,
            r.worker_threads == 1,
    {
        McpServer { prompt_template, worker_threads: 1 }
    }

    /// A server with a number of worker threads for the request loop; at least one.
    pub fn with_workers(prompt_template: String, worker_threads: usize) -> (r: Self)
        ensures
            r.prompt_template == prompt_template,
            r.worker_threads == vstd::math::max(worker_threads as int, 1),
    {
        McpServer { prompt_template, worker_threads: transport::worker_count(worker_threads) }
    }

    /// The list of available tools.
    pub fn list_tools() -> (r: Vec<ToolDefinition>)
        ensures
            tools::tool_views(r@) == tools::tool_table(),
    {
        tools::definitions()
    }

    /// Answer a request, or name the tool that it calls.
    pub fn handle_request(&self, request: JsonRpcRequest) -> (r: Step)
        ensures
            r@ == step_of(request@, self.prompt_template@),
    {
        let JsonRpcRequest { jsonrpc: _, id, method, params } = request;
        let params = match params {
            Some(p) => p,
            None => Json::Null,
        };
        if text::same(method.as_str(), "initialize") {
            Step::Respond(JsonRpcResponse::success(id, handshake_json()))
        } else if text::same(method.as_str(), "tools/list") {
            Step::Respond(JsonRpcResponse::success(id, tool_list_json()))
        } else if text::same(method.as_str(), "prompts/list") {
            Step::Respond(JsonRpcResponse::success(id, prompt_list_json()))
        } else if text::same(method.as_str(), "prompts/get") {
            let name = member_text(&params, "name", "");
            if !text::same(name.as_str(), "engram.bootstrap") {
                return Step::Respond(
                    JsonRpcResponse::failure(
                        id,
                        -32601,
                        transport::labelled("Unknown prompt: ", name.as_str()),
                    ),
                );
            }
            let args = match params.take("arguments") {
                Some(a) => a,
                None => Json::Null,
            };
            let project_id = member_text(&args, "project_id", "<project_id>");
            let repo_path = member_text(&args, "repo_path", "<repo_path>");
            let dimensions = member_text(
                &args,
                "dimensions",
                "git, decisions, failures, workflow",
            );
            let rendered = render_bootstrap_prompt(
                self.prompt_template.as_str(),
                project_id.as_str(),
                repo_path.as_str(),
                dimensions.as_str(),
            );
            Step::Respond(JsonRpcResponse::success(id, prompt_message_json(rendered)))
        } else if text::same(method.as_str(), "tools/call") {
            let name = member_text(&params, "name", "");
            match Tool::from_name(name.as_str()) {
                Some(tool) => {
                    let arguments = match params.take("arguments") {
                        Some(a) => a,
                        None => Json::Null,
                    };
                    Step::Call { id, tool, arguments }
                },
                None => Step::Respond(
                    JsonRpcResponse::failure(
                        id,
                        -32601,
                        transport::labelled("Unknown tool: ", name.as_str()),
                    ),
                ),
            }
        } else {
            Step::Respond(
                JsonRpcResponse::failure(
                    id,
                    -32601,
                    transport::labelled("Method not found: ", method.as_str()),
                ),
            )
        }
    }

    /// The answer to a call of a tool, once the tool has run.
    pub fn answer_tool_call(id: Option<Json>, outcome: ToolOutcome) -> (r: JsonRpcResponse)
        ensures
            r@ == tool_answer(json::opt_json(id), outcome@),
    {
        match outcome {
            ToolOutcome::InvalidParams(e) => JsonRpcResponse::failure(
                id,
                -32602,
                transport::labelled("Invalid params: ", e.as_str()),
            ),
            ToolOutcome::Done(v) => {
                let printed = v.print();
                JsonRpcResponse::success(id, text_content_json(printed))
            },
            ToolOutcome::Failed(e) => JsonRpcResponse::failure(
                id,
                -32603,
                transport::labelled("Internal error: ", e.as_str()),
            ),
        }
    }
}

// ---------------------------------------------------------------------------
// Lines
// ---------------------------------------------------------------------------

/// What becomes of a line of the simple request loop.
#[derive(Debug)]
pub enum LineStep {
    /// A blank line, or a notification, which gets no response.
    Skip,
    /// The answer to what is no request.
    Reply(JsonRpcResponse),
    /// A request for the worker pool.
    Queue(JsonRpcRequest),
}

pub enum LineStepView {
    Skip,
    Reply(ResponseView),
    Queue(RequestView),
}

impl View for LineStep {
    type V = LineStepView;

    open spec fn view(&self) -> LineStepView {
        match self {
            LineStep::Skip => LineStepView::Skip,
            LineStep::Reply(r) => LineStepView::Reply(r@),
            LineStep::Queue(q) => LineStepView::Queue(q@),
        }
    }
}

/// The fate of a line that is not blank, given what it was read as: first any document,
/// then a request. A document without an id is a notification; what is no request is
/// answered under the id that it has.
pub open spec fn line_step(
    read: Result<JsonView, Seq<char>>,
    typed: Result<RequestView, Seq<char>>,
) -> LineStepView {
    let id = match read {
        Ok(v) => json::member(v, "id"@),
        Err(_) => None,
    };
    if read is Ok && id is None {
        LineStepView::Skip
    } else {
        match typed {
            Ok(q) => LineStepView::Queue(q),
            Err(e) => LineStepView::Reply(transport::failure(id, -32700, "Parse error: "@ + e)),
        }
    }
}

/// Decide on a line, given what it was read as.
pub fn judge_line(read: Result<Json, String>, typed: Result<JsonRpcRequest, String>) -> (r: LineStep)
    ensures
        r@ == line_step(json::read_view(read), transport::typed_view(typed)),
{
    let id = match read {
        Ok(v) => match v.take("id") {
            Some(id) => Some(id),
            None => {
                return LineStep::Skip;
            },
        },
        Err(_) => None,
    };
    match typed {
        Ok(q) => LineStep::Queue(q),
        Err(e) => LineStep::Reply(
            JsonRpcResponse::failure(
                id,
                -32700,
                transport::labelled("Parse error: ", e.as_str()),
            ),
        ),
    }
}

/// Read one line of the simple request loop. `typed` is what the line was read as a
/// request.
pub fn read_line(line: &str, typed: Result<JsonRpcRequest, String>) -> (r: LineStep)
    ensures
        r@ == if text::trimmed(line@).len() == 0 {
            LineStepView::Skip
        } else {
            line_step(
                json::json_read(text::trimmed(line@)),
                transport::typed_view(typed),
            )
        },
{
    let line = text::trim(line);
    if line.as_str().is_empty() {
        return LineStep::Skip;
    }
    judge_line(Json::parse(line.as_str()), typed)
}

/// A document with an id never goes without an answer or a worker.
pub proof fn requests_with_an_id_are_answered(
    v: JsonView,
    typed: Result<RequestView, Seq<char>>,
)
    requires
        json::member(v, "id"@) is Some,
    ensures
        line_step(Ok(v), typed) != LineStepView::Skip,
        line_step(Ok(v), typed) matches LineStepView::Reply(r) ==> r.id == json::member(v, "id"@),
{
}

/// A call of a known tool reaches that tool with the arguments as they were sent; an
/// unknown tool, prompt or method is refused as such.
pub proof fn requests_are_routed(q: RequestView, template: Seq<char>, params: JsonView, tool: Tool)
    requires
        q.params == Some(params),
    ensures
        q.method == "tools/call"@ && json::string_member(params, "name"@) is Some
            && tools::tool_of(json::string_member(params, "name"@)->0) == Some(tool) ==> step_of(
            q,
            template,
        ) == (StepView::Call {
            id: q.id,
            tool,
            arguments: match json::member(params, "arguments"@) {
                Some(a) => a,
                None => JsonView::Null,
            },
        }),
        q.method == "tools/call"@ && json::string_member(params, "name"@) is Some
            && tools::tool_of(json::string_member(params, "name"@)->0) is None ==> step_of(
            q,
            template,
        ) is Respond && transport::has_code(step_of(q, template)->Respond_0, -32601),
        q.method != "tools/call"@ ==> step_of(q, template) is Respond,
        q.method != "initialize"@ && q.method != "tools/list"@ && q.method != "prompts/list"@
            && q.method != "prompts/get"@ && q.method != "tools/call"@ ==> step_of(
            q,
            template,
        ) is Respond && transport::has_code(step_of(q, template)->Respond_0, -32601),
        q.method == "initialize"@ || q.method == "tools/list"@ || q.method == "prompts/list"@
            ==> step_of(q, template) is Respond && step_of(q, template)->Respond_0.error is None,
{
    reveal_strlit("tools/call");
    reveal_strlit("tools/list");
    reveal_strlit("initialize");
    reveal_strlit("prompts/list");
    reveal_strlit("prompts/get");
    assert("tools/call"@.len() == 10 && "tools/list"@.len() == 10 && "initialize"@.len() == 10);
    assert("tools/call"@[6] == 'c' && "tools/list"@[6] == 'l' && "initialize"@[0] == 'i');
    assert("prompts/list"@.len() == 12 && "prompts/get"@.len() == 11);
}

/// What a tool did is answered by its kind: wrong arguments and failures as errors with
/// their own codes, a result as the text of its document.
pub proof fn outcomes_are_told_apart(id: Option<JsonView>, e: Seq<char>, v: JsonView)
    ensures
        transport::has_code(tool_answer(id, ToolOutcomeView::InvalidParams(e)), -32602),
        tool_answer(id, ToolOutcomeView::InvalidParams(e)).error->0.message
            == "Invalid params: "@ + e,
        transport::has_code(tool_answer(id, ToolOutcomeView::Failed(e)), -32603),
        tool_answer(id, ToolOutcomeView::Failed(e)).error->0.message == "Internal error: "@ + e,
        tool_answer(id, ToolOutcomeView::Done(v)).result == Some(
            text_content(json::json_printed(v)),
        ),
        tool_answer(id, ToolOutcomeView::Done(v)).error is None,
{
}

} // verus!
