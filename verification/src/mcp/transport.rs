//! The JSON-RPC messages of the server, and what becomes of a frame that is read.
use crate::json;
use crate::json::{Json, JsonView};
use crate::text;
use vstd::prelude::*;

verus! {

/// JSON-RPC request for MCP protocol.
#[derive(Debug)]
pub struct JsonRpcRequest {
    pub jsonrpc: String,
    pub id: Option<Json>,
    pub method: String,
    pub params: Option<Json>,
}

/// JSON-RPC response for MCP protocol.
#[derive(Debug)]
pub struct JsonRpcResponse {
    pub jsonrpc: String,
    pub id: Option<Json>,
    pub result: Option<Json>,
    pub error: Option<JsonRpcError>,
}

#[derive(Debug)]
pub struct JsonRpcError {
    pub code: i32,
    pub message: String,
    pub data: Option<Json>,
}

/// A request as a mathematical value.
pub struct RequestView {
    pub jsonrpc: Seq<char>,
    pub id: Option<JsonView>,
    pub method: Seq<char>,
    pub params: Option<JsonView>,
}

/// A response as a mathematical value.
pub struct ResponseView {
    pub jsonrpc: Seq<char>,
    pub id: Option<JsonView>,
    pub result: Option<JsonView>,
    pub error: Option<ErrorView>,
}

pub struct ErrorView {
    pub code: int,
    pub message: Seq<char>,
    pub data: Option<JsonView>,
}

impl View for JsonRpcRequest {
    type V = RequestView;

    open spec fn view(&self) -> RequestView {
        RequestView {
            jsonrpc: self.jsonrpc@,
            id: json::opt_json(self.id),
            method: self.method@,
            params: json::opt_json(self.params),
        }
    }
}

impl View for JsonRpcError {
    type V = ErrorView;

    open spec fn view(&self) -> ErrorView {
        ErrorView {
            code: self.code as int,
            message: self.message@,
            data: json::opt_json(self.data),
        }
    }
}

impl View for JsonRpcResponse {
    type V = ResponseView;

    open spec fn view(&self) -> ResponseView {
        ResponseView {
            jsonrpc: self.jsonrpc@,
            id: json::opt_json(self.id),
            result: json::opt_json(self.result),
            error: match self.error {
                Some(e) => Some(e@),
                None => None,
            },
        }
    }
}

/// A response that carries a result.
pub open spec fn success(id: Option<JsonView>, result: JsonView) -> ResponseView {
    ResponseView { jsonrpc: "2.0"@, id, result: Some(result), error: None }
}

/// A response that carries an error.
pub open spec fn failure(id: Option<JsonView>, code: int, message: Seq<char>) -> ResponseView {
    ResponseView {
        jsonrpc: "2.0"@,
        id,
        result: None,
        error: Some(ErrorView { code, message, data: None }),
    }
}

impl JsonRpcResponse {
    pub fn success(id: Option<Json>, result: Json) -> (r: JsonRpcResponse)
        ensures
            r@ == success(json::opt_json(id), result@),
    {
        JsonRpcResponse { jsonrpc: "2.0".to_owned(), id, result: Some(result), error: None }
    }

    pub fn failure(id: Option<Json>, code: i32, message: String) -> (r: JsonRpcResponse)
        ensures
            r@ == failure(json::opt_json(id), code as int, message@),
    {
        JsonRpcResponse {
            jsonrpc: "2.0".to_owned(),
            id,
            result: None,
            error: Some(JsonRpcError { code, message, data: None }),
        }
    }

    /// The answer to a request whose handler panicked.
    pub fn panicked(id: Option<Json>, panic: &str) -> (r: JsonRpcResponse)
        ensures
            r@ == panicked(json::opt_json(id), panic@),
    {
        let mut fields: Vec<(String, Json)> = Vec::new();
        fields.push(("panic".to_owned(), Json::str(panic)));
        assert(json::field_views(fields@) =~= seq![("panic"@, JsonView::Str(panic@))]);
        JsonRpcResponse {
            jsonrpc: "2.0".to_owned(),
            id,
            result: None,
            error: Some(
                JsonRpcError {
                    code: -32603,
                    message: "Internal error: request handler panicked".to_owned(),
                    data: Some(Json::object(fields)),
                },
            ),
        }
    }
}

pub open spec fn panicked(id: Option<JsonView>, panic: Seq<char>) -> ResponseView {
    ResponseView {
        jsonrpc: "2.0"@,
        id,
        result: None,
        error: Some(
            ErrorView {
                code: -32603,
                message: "Internal error: request handler panicked"@,
                data: Some(JsonView::Object(seq![("panic"@, JsonView::Str(panic))])),
            },
        ),
    }
}

/// A prefix and what follows it, as one string.
pub(crate) fn labelled(label: &str, rest: &str) -> (r: String)
    ensures
        r@ == label@ + rest@,
{
    let mut s = label.to_owned();
    s.append(rest);
    s
}

/// The largest frame that is parsed, in bytes: 16 MiB.
pub const MAX_REQ_BYTES: usize = 16_777_216;

/// The length of a text in UTF-8.
pub open spec fn byte_len(s: Seq<char>) -> usize {
    vstd::utf8::encode_utf8(s).len() as usize
}

/// What becomes of a line before its request is looked at.
#[derive(Debug)]
pub enum Frame {
    /// A blank line.
    Skip,
    /// The answer to a line that is refused.
    Reply(JsonRpcResponse),
    /// The JSON document that the line holds.
    Parsed(Json),
}

pub enum FrameView {
    Skip,
    Reply(ResponseView),
    Parsed(JsonView),
}

impl View for Frame {
    type V = FrameView;

    open spec fn view(&self) -> FrameView {
        match self {
            Frame::Skip => FrameView::Skip,
            Frame::Reply(r) => FrameView::Reply(r@),
            Frame::Parsed(v) => FrameView::Parsed(v@),
        }
    }
}

/// A frame that is no JSON is answered with a parse error under no id.
pub open spec fn parsed_frame(read: Result<JsonView, Seq<char>>) -> FrameView {
    match read {
        Ok(v) => FrameView::Parsed(v),
        Err(e) => FrameView::Reply(failure(None, -32700, "Parse error: "@ + e)),
    }
}

pub open spec fn too_large(bytes: usize) -> Seq<char> {
    "Parse error: request too large ("@ + text::decimal(bytes as nat) + " bytes; max "@
        + text::decimal(MAX_REQ_BYTES as nat) + ")"@
}

pub open spec fn frame_of(line: Seq<char>) -> FrameView {
    let frame = text::trimmed(line);
    if frame.len() == 0 {
        FrameView::Skip
    } else if byte_len(frame) > MAX_REQ_BYTES {
        FrameView::Reply(failure(None, -32700, too_large(byte_len(frame))))
    } else {
        parsed_frame(json::json_read(frame))
    }
}

/// Judge what the parser made of a frame.
pub fn judge_parse(read: Result<Json, String>) -> (r: Frame)
    ensures
        r@ == parsed_frame(json::read_view(read)),
{
    match read {
        Ok(v) => Frame::Parsed(v),
        Err(e) => Frame::Reply(
            JsonRpcResponse::failure(None, -32700, labelled("Parse error: ", e.as_str())),
        ),
    }
}

/// Read one line: blank lines are skipped, an oversized one is refused before it is
/// parsed.
pub fn read_frame(line: &str) -> (r: Frame)
    ensures
        r@ == frame_of(line@),
{
    let frame = text::trim(line);
    if frame.as_str().is_empty() {
        return Frame::Skip;
    }
    let bytes: usize = frame.as_str().len();
    if bytes > MAX_REQ_BYTES {
        let mut message = "Parse error: request too large (".to_owned();
        message.append(text::decimal_of(bytes as u64).as_str());
        message.append(" bytes; max ");
        message.append(text::decimal_of(MAX_REQ_BYTES as u64).as_str());
        message.append(")");
        return Frame::Reply(JsonRpcResponse::failure(None, -32700, message));
    }
    judge_parse(json::parse(frame.as_str()))
}

/// What becomes of a frame that is JSON.
#[derive(Debug)]
pub enum Admission {
    /// The answer to what is no compliant request.
    Reply(JsonRpcResponse),
    /// A notification, which gets no response.
    Ignore,
    /// A request to be answered by the reader itself.
    Inline(JsonRpcRequest),
    /// A request for the worker pool.
    Queue(JsonRpcRequest),
}

pub enum AdmissionView {
    Reply(ResponseView),
    Ignore,
    Inline(RequestView),
    Queue(RequestView),
}

impl View for Admission {
    type V = AdmissionView;

    open spec fn view(&self) -> AdmissionView {
        match self {
            Admission::Reply(r) => AdmissionView::Reply(r@),
            Admission::Ignore => AdmissionView::Ignore,
            Admission::Inline(q) => AdmissionView::Inline(q@),
            Admission::Queue(q) => AdmissionView::Queue(q@),
        }
    }
}

pub open spec fn typed_view(typed: Result<JsonRpcRequest, String>) -> Result<
    RequestView,
    Seq<char>,
> {
    match typed {
        Ok(q) => Ok(q@),
        Err(e) => Err(e@),
    }
}

/// The fate of a document, given the request that it was read as or the reason why
/// it is none.
pub open spec fn admission(
    value: JsonView,
    typed: Result<RequestView, Seq<char>>,
    fast_path: Seq<Seq<char>>,
) -> AdmissionView {
    match typed {
        Err(e) => AdmissionView::Reply(
            failure(json::member(value, "id"@), -32600, "Invalid Request: "@ + e),
        ),
        Ok(q) => if q.jsonrpc != "2.0"@ {
            AdmissionView::Reply(
                failure(
                    q.id,
                    -32600,
                    "Invalid Request: jsonrpc must be \"2.0\", got "@ + text::debug_quoted(
                        q.jsonrpc,
                    ),
                ),
            )
        } else if q.id is None {
            AdmissionView::Ignore
        } else if fast_path.contains(q.method) {
            AdmissionView::Inline(q)
        } else {
            AdmissionView::Queue(q)
        },
    }
}

/// Decide on a document: two failure classes are kept apart, and notifications are
/// dropped only once the frame is known to be a valid request.
pub fn decide(value: Json, typed: Result<JsonRpcRequest, String>, fast_path: &Vec<String>) -> (r:
    Admission)
    ensures
        r@ == admission(value@, typed_view(typed), text::texts(fast_path@)),
{
    match typed {
        Err(e) => Admission::Reply(
            JsonRpcResponse::failure(
                value.take("id"),
                -32600,
                labelled("Invalid Request: ", e.as_str()),
            ),
        ),
        Ok(q) => {
            if !text::same(q.jsonrpc.as_str(), "2.0") {
                let message = labelled(
                    "Invalid Request: jsonrpc must be \"2.0\", got ",
                    text::quoted(q.jsonrpc.as_str()).as_str(),
                );
                return Admission::Reply(JsonRpcResponse::failure(q.id, -32600, message));
            }
            if q.id.is_none() {
                return Admission::Ignore;
            }
            if text::has_text(fast_path, q.method.as_str()) {
                Admission::Inline(q)
            } else {
                Admission::Queue(q)
            }
        },
    }
}

/// Only a well-formed request with an id reaches a handler, and it arrives as it was
/// read.
pub proof fn handlers_see_valid_requests(
    value: JsonView,
    typed: Result<RequestView, Seq<char>>,
    fast_path: Seq<Seq<char>>,
    q: RequestView,
)
    requires
        admission(value, typed, fast_path) == AdmissionView::Inline(q) || admission(
            value,
            typed,
            fast_path,
        ) == AdmissionView::Queue(q),
    ensures
        typed == Ok::<RequestView, Seq<char>>(q),
        q.jsonrpc == "2.0"@,
        q.id is Some,
{
}

/// A document that is no request is answered under its own id, as an invalid
/// request and not as a parse error.
pub proof fn invalid_requests_keep_their_id(
    value: JsonView,
    reason: Seq<char>,
    fast_path: Seq<Seq<char>>,
)
    ensures
        admission(value, Err(reason), fast_path) == AdmissionView::Reply(
            failure(json::member(value, "id"@), -32600, "Invalid Request: "@ + reason),
        ),
{
}

/// The number of worker threads that run: at least one.
pub fn worker_count(worker_threads: usize) -> (r: usize)
    ensures
        r == vstd::math::max(worker_threads as int, 1),
{
    if worker_threads < 1 {
        1
    } else {
        worker_threads
    }
}

/// A response is an error with a code.
pub open spec fn has_code(r: ResponseView, code: int) -> bool {
    r.error is Some && r.error->0.code == code
}

/// A valid request with an id reaches a handler as it is, one without an id is passed
/// over, and one of another version is refused under its id.
pub proof fn valid_requests_are_admitted(
    value: JsonView,
    q: RequestView,
    fast_path: Seq<Seq<char>>,
)
    ensures
        q.jsonrpc == "2.0"@ && q.id is Some && fast_path.contains(q.method) ==> admission(
            value,
            Ok(q),
            fast_path,
        ) == AdmissionView::Inline(q),
        q.jsonrpc == "2.0"@ && q.id is Some && !fast_path.contains(q.method) ==> admission(
            value,
            Ok(q),
            fast_path,
        ) == AdmissionView::Queue(q),
        q.jsonrpc == "2.0"@ && q.id is None ==> admission(value, Ok(q), fast_path)
            == AdmissionView::Ignore,
        q.jsonrpc != "2.0"@ ==> {
            let a = admission(value, Ok(q), fast_path);
            a is Reply && a->Reply_0.id == q.id && has_code(a->Reply_0, -32600)
        },
{
}

/// A line is passed over where it is blank, refused where it is too long or no JSON, and
/// read otherwise.
pub proof fn lines_are_framed(line: Seq<char>, v: JsonView)
    ensures
        text::is_blank(line) <==> frame_of(line) == FrameView::Skip,
        !text::is_blank(line) && byte_len(text::trimmed(line)) > MAX_REQ_BYTES ==> frame_of(
            line,
        ) is Reply && has_code(frame_of(line)->Reply_0, -32700),
        !text::is_blank(line) && byte_len(text::trimmed(line)) <= MAX_REQ_BYTES && json::json_read(
            text::trimmed(line),
        ) == Ok::<JsonView, Seq<char>>(v) ==> frame_of(line) == FrameView::Parsed(v),
        !text::is_blank(line) && json::json_read(text::trimmed(line)) is Err ==> frame_of(
            line,
        ) is Reply && has_code(frame_of(line)->Reply_0, -32700),
{
    text::blank_trims_to_nothing(line);
}

} // verus!
