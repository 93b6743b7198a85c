//! The HTTP transport: who may talk to the server, and how it answers.
use crate::json;
use crate::json::{Json, JsonView};
use crate::mcp::transport;
use crate::mcp::transport::{JsonRpcRequest, JsonRpcResponse, RequestView, ResponseView};
use crate::text;
use vstd::prelude::*;

verus! {

/// Largest accepted request body in bytes, as large as a frame of the other
/// transport.
pub const MAX_BODY_BYTES: usize = 16_777_216;

/// An HTTP answer.
#[derive(Debug)]
pub enum HttpAnswer {
    /// A fixed text with its content type.
    Plain { status: u16, body: &'static str, content_type: &'static str },
    /// A JSON-RPC response.
    Rpc { status: u16, response: JsonRpcResponse },
}

pub enum HttpAnswerView {
    Plain { status: int, body: Seq<char>, content_type: Seq<char> },
    Rpc { status: int, response: ResponseView },
}

impl View for HttpAnswer {
    type V = HttpAnswerView;

    open spec fn view(&self) -> HttpAnswerView {
        match self {
            HttpAnswer::Plain { status, body, content_type } => HttpAnswerView::Plain {
                status: *status as int,
                body: body@,
                content_type: content_type@,
            },
            HttpAnswer::Rpc { status, response } => HttpAnswerView::Rpc {
                status: *status as int,
                response: response@,
            },
        }
    }
}

pub open spec fn opt_answer(a: Option<HttpAnswer>) -> Option<HttpAnswerView> {
    match a {
        Some(x) => Some(x@),
        None => None,
    }
}

/// An answer that reports an error of the transport itself.
pub open spec fn refusal(status: int, body: Seq<char>) -> HttpAnswerView {
    HttpAnswerView::Plain { status, body, content_type: "application/json"@ }
}

/// Some header is `Authorization` and holds the bearer token.
pub open spec fn authorized(headers: Seq<(String, String)>, token: Seq<char>) -> bool {
    exists|i: int|
        0 <= i < headers.len() && text::ascii_lowered((#[trigger] headers[i]).0@)
            == text::ascii_lowered("Authorization"@) && headers[i].1@ == "Bearer "@ + token
}

/// The refusal that the head of a request earns, if any: the token is asked for
/// before anything else.
pub open spec fn head_refusal(
    headers: Seq<(String, String)>,
    is_post: bool,
    token: Seq<char>,
) -> Option<HttpAnswerView> {
    if !authorized(headers, token) {
        Some(refusal(401, "{\"error\":\"unauthorized\"}"@))
    } else if !is_post {
        Some(refusal(405, "{\"error\":\"POST /mcp only\"}"@))
    } else {
        None
    }
}

/// Look at the head of a request; `None` lets the body be read.
pub fn check_head(headers: &Vec<(String, String)>, is_post: bool, token: &str) -> (r: Option<
    HttpAnswer,
>)
    ensures
        opt_answer(r) == head_refusal(headers@, is_post, token@),
{
    let bearer = transport::labelled("Bearer ", token);
    let mut granted = false;
    let mut i: usize = 0;
    while i < headers.len()
        invariant
            i <= headers@.len(),
            bearer@ == "Bearer "@ + token@,
            granted <==> exists|j: int|
                0 <= j < i && text::ascii_lowered((#[trigger] headers@[j]).0@)
                    == text::ascii_lowered("Authorization"@) && headers@[j].1@ == "Bearer "@
                    + token@,
        decreases headers@.len() - i,
    {
        if text::same_ignoring_case(headers[i].0.as_str(), "Authorization") && headers[i].1
            == bearer {
            granted = true;
        }
        i = i + 1;
    }
    if !granted {
        Some(
            HttpAnswer::Plain {
                status: 401,
                body: "{\"error\":\"unauthorized\"}",
                content_type: "application/json",
            },
        )
    } else if !is_post {
        Some(
            HttpAnswer::Plain {
                status: 405,
                body: "{\"error\":\"POST /mcp only\"}",
                content_type: "application/json",
            },
        )
    } else {
        None
    }
}

/// What becomes of a body.
#[derive(Debug)]
pub enum Body {
    Refuse(HttpAnswer),
    Parsed(Json),
}

pub enum BodyView {
    Refuse(HttpAnswerView),
    Parsed(JsonView),
}

impl View for Body {
    type V = BodyView;

    open spec fn view(&self) -> BodyView {
        match self {
            Body::Refuse(a) => BodyView::Refuse(a@),
            Body::Parsed(v) => BodyView::Parsed(v@),
        }
    }
}

pub open spec fn parsed_body(read: Result<JsonView, Seq<char>>) -> BodyView {
    match read {
        Ok(v) => BodyView::Parsed(v),
        Err(e) => BodyView::Refuse(
            HttpAnswerView::Rpc {
                status: 400,
                response: transport::failure(None, -32700, "Parse error: "@ + e),
            },
        ),
    }
}

pub open spec fn body_of(body: Option<Seq<u8>>) -> BodyView {
    match body {
        None => BodyView::Refuse(refusal(400, "{\"error\":\"unreadable body\"}"@)),
        Some(bytes) => if bytes.len() > MAX_BODY_BYTES {
            BodyView::Refuse(refusal(413, "{\"error\":\"body too large\"}"@))
        } else {
            parsed_body(json::json_read_bytes(bytes))
        },
    }
}

pub open spec fn opt_bytes(body: Option<Vec<u8>>) -> Option<Seq<u8>> {
    match body {
        Some(b) => Some(b@),
        None => None,
    }
}

/// Judge what the parser made of a body.
pub fn judge_body(read: Result<Json, String>) -> (r: Body)
    ensures
        r@ == parsed_body(json::read_view(read)),
{
    match read {
        Ok(v) => Body::Parsed(v),
        Err(e) => Body::Refuse(
            HttpAnswer::Rpc {
                status: 400,
                response: JsonRpcResponse::failure(
                    None,
                    -32700,
                    transport::labelled("Parse error: ", e.as_str()),
                ),
            },
        ),
    }
}

/// Look at the body that was read, `None` where reading failed.
pub fn check_body(body: Option<Vec<u8>>) -> (r: Body)
    ensures
        r@ == body_of(opt_bytes(body)),
{
    match body {
        None => Body::Refuse(
            HttpAnswer::Plain {
                status: 400,
                body: "{\"error\":\"unreadable body\"}",
                content_type: "application/json",
            },
        ),
        Some(bytes) => {
            if bytes.len() > MAX_BODY_BYTES {
                Body::Refuse(
                    HttpAnswer::Plain {
                        status: 413,
                        body: "{\"error\":\"body too large\"}",
                        content_type: "application/json",
                    },
                )
            } else {
                judge_body(json::parse_bytes(bytes.as_slice()))
            }
        },
    }
}

/// What becomes of a body that is JSON.
#[derive(Debug)]
pub enum HttpAdmission {
    Answer(HttpAnswer),
    Handle(JsonRpcRequest),
}

pub enum HttpAdmissionView {
    Answer(HttpAnswerView),
    Handle(RequestView),
}

impl View for HttpAdmission {
    type V = HttpAdmissionView;

    open spec fn view(&self) -> HttpAdmissionView {
        match self {
            HttpAdmission::Answer(a) => HttpAdmissionView::Answer(a@),
            HttpAdmission::Handle(q) => HttpAdmissionView::Handle(q@),
        }
    }
}

pub open spec fn http_admission(
    value: JsonView,
    typed: Result<RequestView, Seq<char>>,
) -> HttpAdmissionView {
    match typed {
        Err(e) => HttpAdmissionView::Answer(
            HttpAnswerView::Rpc {
                status: 400,
                response: transport::failure(
                    json::member(value, "id"@),
                    -32600,
                    "Invalid Request: "@ + e,
                ),
            },
        ),
        Ok(q) => if q.jsonrpc != "2.0"@ {
            HttpAdmissionView::Answer(
                HttpAnswerView::Rpc {
                    status: 400,
                    response: transport::failure(
                        q.id,
                        -32600,
                        "Invalid Request: jsonrpc must be \"2.0\""@,
                    ),
                },
            )
        } else if q.id is None {
            HttpAdmissionView::Answer(
                HttpAnswerView::Plain { status: 202, body: ""@, content_type: "text/plain"@ },
            )
        } else {
            HttpAdmissionView::Handle(q)
        },
    }
}

/// Decide on a document, given the request that it was read as or the reason why it
/// is none.
pub fn decide(value: Json, typed: Result<JsonRpcRequest, String>) -> (r: HttpAdmission)
    ensures
        r@ == http_admission(value@, transport::typed_view(typed)),
{
    match typed {
        Err(e) => HttpAdmission::Answer(
            HttpAnswer::Rpc {
                status: 400,
                response: JsonRpcResponse::failure(
                    value.take("id"),
                    -32600,
                    transport::labelled("Invalid Request: ", e.as_str()),
                ),
            },
        ),
        Ok(q) => {
            if !text::same(q.jsonrpc.as_str(), "2.0") {
                return HttpAdmission::Answer(
                    HttpAnswer::Rpc {
                        status: 400,
                        response: JsonRpcResponse::failure(
                            q.id,
                            -32600,
                            "Invalid Request: jsonrpc must be \"2.0\"".to_owned(),
                        ),
                    },
                );
            }
            if q.id.is_none() {
                return HttpAdmission::Answer(
                    HttpAnswer::Plain { status: 202, body: "", content_type: "text/plain" },
                );
            }
            HttpAdmission::Handle(q)
        },
    }
}

/// The answer that carries a handler's response, or stands for the panic of a
/// handler that gave none.
pub fn finish(id: Option<Json>, response: Option<JsonRpcResponse>) -> (r: HttpAnswer)
    ensures
        r@ == (HttpAnswerView::Rpc {
            status: 200,
            response: match response {
                Some(x) => x@,
                None => transport::failure(
                    json::opt_json(id),
                    -32603,
                    "Internal error: request handler panicked"@,
                ),
            },
        }),
{
    match response {
        Some(response) => HttpAnswer::Rpc { status: 200, response },
        None => HttpAnswer::Rpc {
            status: 200,
            response: JsonRpcResponse::failure(
                id,
                -32603,
                "Internal error: request handler panicked".to_owned(),
            ),
        },
    }
}

/// Both transports hand the same requests to their handler, and refuse the rest with
/// the same code.
pub proof fn transports_agree(
    value: JsonView,
    typed: Result<RequestView, Seq<char>>,
    fast_path: Seq<Seq<char>>,
)
    ensures
        match (http_admission(value, typed), transport::admission(value, typed, fast_path)) {
            (
                HttpAdmissionView::Handle(q),
                transport::AdmissionView::Inline(p),
            ) => p == q,
            (
                HttpAdmissionView::Handle(q),
                transport::AdmissionView::Queue(p),
            ) => p == q,
            (
                HttpAdmissionView::Answer(HttpAnswerView::Rpc { status, response }),
                transport::AdmissionView::Reply(reply),
            ) => {
                &&& status == 400
                &&& response.id == reply.id
                &&& response.error is Some && reply.error is Some
                &&& response.error->0.code == reply.error->0.code
            },
            (
                HttpAdmissionView::Answer(HttpAnswerView::Plain { status, .. }),
                transport::AdmissionView::Ignore,
            ) => status == 202,
            _ => false,
        },
{
}

/// Why the HTTP transport may not start.
#[derive(Clone, Copy, Debug, PartialEq, Eq, Structural)]
pub enum HttpConfigError {
    EmptyToken,
    EmptyBind,
}

impl HttpConfigError {
    pub fn message(&self) -> (r: &'static str)
        ensures
            r@ == match *self {
                HttpConfigError::EmptyToken =>
                    "[http] enabled but auth_token is empty — refusing to start an unauthenticated server"@,
                HttpConfigError::EmptyBind => "[http] enabled but bind is empty"@,
            },
    {
        match self {
            HttpConfigError::EmptyToken => {
                "[http] enabled but auth_token is empty — refusing to start an unauthenticated server"
            },
            HttpConfigError::EmptyBind => "[http] enabled but bind is empty",
        }
    }
}

/// The HTTP transport never starts without a token.
pub fn validate_http_config(enabled: bool, bind: &str, token: &str) -> (r: Result<
    (),
    HttpConfigError,
>)
    ensures
        r == if !enabled {
            Ok(())
        } else if text::is_blank(token@) {
            Err(HttpConfigError::EmptyToken)
        } else if text::is_blank(bind@) {
            Err(HttpConfigError::EmptyBind)
        } else {
            Ok::<(), HttpConfigError>(())
        },
{
    if !enabled {
        return Ok(());
    }
    if text::blank(token) {
        return Err(HttpConfigError::EmptyToken);
    }
    if text::blank(bind) {
        return Err(HttpConfigError::EmptyBind);
    }
    Ok(())
}

/// An answer is a refusal by the transport with a status.
pub open spec fn refused_with(a: Option<HttpAnswerView>, status: int) -> bool {
    a is Some && a->0 is Plain && a->0->Plain_status == status
}

/// Nothing but the token, behind `Bearer` in the header for authorization, lets a request
/// in; then only posts are read.
pub proof fn only_the_token_lets_in(
    headers: Seq<(String, String)>,
    is_post: bool,
    token: Seq<char>,
)
    ensures
        head_refusal(headers, is_post, token) is None <==> is_post && exists|i: int|
            0 <= i < headers.len() && text::ascii_lowered((#[trigger] headers[i]).0@)
                == text::ascii_lowered("Authorization"@) && headers[i].1@ == "Bearer "@ + token,
        !authorized(headers, token) ==> refused_with(head_refusal(headers, is_post, token), 401),
        authorized(headers, token) && !is_post ==> refused_with(
            head_refusal(headers, is_post, token),
            405,
        ),
{
}

/// A body is read where it is there, not too large and JSON.
pub proof fn bodies_are_read(bytes: Seq<u8>, v: JsonView)
    ensures
        bytes.len() <= MAX_BODY_BYTES && json::json_read_bytes(bytes) == Ok::<
            JsonView,
            Seq<char>,
        >(v) ==> body_of(Some(bytes)) == BodyView::Parsed(v),
        bytes.len() > MAX_BODY_BYTES ==> body_of(Some(bytes)) is Refuse && refused_with(
            Some(body_of(Some(bytes))->Refuse_0),
            413,
        ),
        body_of(None) is Refuse && refused_with(Some(body_of(None)->Refuse_0), 400),
        bytes.len() <= MAX_BODY_BYTES && json::json_read_bytes(bytes) is Err ==> {
            let r = body_of(Some(bytes));
            &&& r is Refuse && r->Refuse_0 is Rpc
            &&& r->Refuse_0->Rpc_status == 400
            &&& transport::has_code(r->Refuse_0->Rpc_response, -32700)
        },
{
}

} // verus!
