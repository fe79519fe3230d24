//! The errors of a run, what they say, and how they are reported.
use vstd::prelude::*;

use crate::json;
use crate::json::{Json, JsonView};
use crate::text;

verus! {

/// What can go wrong. Errors that come from outside carry the text they display.
#[derive(Debug)]
pub enum NpxcError {
    /// The configuration cannot be used.
    Config(String),
    /// The container runtime is missing or not running.
    RuntimeNotAvailable(String),
    /// The image build ended with this exit code, if it had one.
    BuildFailed { code: Option<i32> },
    /// The container runtime refused an operation.
    Runtime(String),
    /// A path that resolves outside the working directory.
    PathOutOfScope { path: String, cwd: String },
    /// A path that cannot be resolved.
    PathNotFound(String),
    /// An input or output error.
    Io(String),
    /// A JSON error.
    Json(String),
    /// A TOML text that cannot be read.
    TomlDe(String),
    /// A value that cannot be written as TOML.
    TomlSer(String),
    /// Anything else.
    Other(String),
}

/// `n` in decimal, with a minus sign where it is negative.
pub open spec fn signed_decimal(n: int) -> Seq<char> {
    if n < 0 {
        "-"@ + text::decimal((-n) as nat)
    } else {
        text::decimal(n as nat)
    }
}

/// What an error says.
pub open spec fn error_text(e: NpxcError) -> Seq<char> {
    match e {
        NpxcError::Config(s) => "Configuration error: "@ + s@,
        NpxcError::RuntimeNotAvailable(s) => "Container runtime not available: "@ + s@,
        NpxcError::BuildFailed { code } => "Image build failed (exit code: "@ + (match code {
            Some(c) => signed_decimal(c as int),
            None => "unknown"@,
        }) + ")"@,
        NpxcError::Runtime(s) => "Runtime error: "@ + s@,
        NpxcError::PathOutOfScope { path, cwd } => "Path outside CWD scope: "@ + path@ + " (cwd: "@
            + cwd@ + ")"@,
        NpxcError::PathNotFound(s) => "Path not found or unreadable: "@ + s@,
        NpxcError::Io(s) => s@,
        NpxcError::Json(s) => s@,
        NpxcError::TomlDe(s) => s@,
        NpxcError::TomlSer(s) => s@,
        NpxcError::Other(s) => s@,
    }
}

/// The process exit code of an error.
pub open spec fn exit_code_of(e: NpxcError) -> i32 {
    match e {
        NpxcError::RuntimeNotAvailable(_) => 2,
        NpxcError::BuildFailed { .. } => 3,
        NpxcError::Runtime(_) => 4,
        _ => 1,
    }
}

/// The `serde_json::Number` that an integer becomes.
pub uninterp spec fn integer_number(n: i64) -> serde_json::Number;

/// `serde_json::Number::from` on an `i64`: a function of the integer alone, which
/// the number holds.
#[verifier::external_body]
pub(crate) fn integer(n: i64) -> (r: serde_json::Number)
    ensures
        r == integer_number(n),
        json::integer_held(r) == Some(n as int),
{
    serde_json::Number::from(n)
}

/// The code of a JSON-RPC "invalid params" error.
pub const INVALID_PARAMS: i64 = -32602;

/// The JSON-RPC error response to the request `id`.
pub open spec fn refusal(
    id: JsonView,
    message: Seq<char>,
    data: Seq<(Seq<char>, JsonView)>,
) -> JsonView {
    JsonView::Object(
        seq![
            ("jsonrpc"@, JsonView::Text("2.0"@)),
            ("id"@, id),
            (
                "error"@,
                JsonView::Object(
                    seq![
                        ("code"@, JsonView::Number(integer_number(INVALID_PARAMS))),
                        ("message"@, JsonView::Text(message)),
                        ("data"@, JsonView::Object(data)),
                    ],
                ),
            ),
        ],
    )
}

/// The answer that an error owes the client that sent the request `id`: only the
/// two path errors have one.
pub open spec fn rpc_answer(e: NpxcError, id: JsonView) -> Option<JsonView> {
    match e {
        NpxcError::PathOutOfScope { path, cwd } => Some(
            refusal(
                id,
                "npxc: path outside CWD scope"@,
                seq![("path"@, JsonView::Text(path@)), ("cwd"@, JsonView::Text(cwd@))],
            ),
        ),
        NpxcError::PathNotFound(path) => Some(
            refusal(
                id,
                "npxc: path not found or unreadable"@,
                seq![("path"@, JsonView::Text(path@))],
            ),
        ),
        _ => None,
    }
}

/// Whether an id comes back as it was from the answer that it stands in.
pub open spec fn answerable(id: JsonView) -> bool {
    json::nested(id, (json::MAX_NESTING - 1) as nat) && json::integral(id)
}

/// `n` in decimal, with its sign.
pub fn signed_decimal_of(n: i32) -> (s: String)
    ensures
        s@ == signed_decimal(n as int),
{
    if n < 0 {
        let m: i64 = -(n as i64);
        text::cat("-", text::decimal_of(m as u64).as_str())
    } else {
        text::decimal_of(n as u64)
    }
}

/// The JSON-RPC error response to the request `id`.
fn refuse(id: &Json, message: &str, data: Vec<(String, Json)>) -> (r: Json)
    ensures
        r@ == refusal(id@, message@, json::member_views(data@)),
        json::integer_held(integer_number(INVALID_PARAMS)) is Some,
{
    let mut error: Vec<(String, Json)> = Vec::new();
    error.push(("code".to_owned(), Json::Number(integer(INVALID_PARAMS))));
    error.push(("message".to_owned(), Json::Text(message.to_owned())));
    let data = Json::Object(data);
    proof {
        json::object_view(&data);
    }
    error.push(("data".to_owned(), data));
    let error = Json::Object(error);
    proof {
        json::object_view(&error);
        assert(error@->Object_0 =~= seq![
            ("code"@, JsonView::Number(integer_number(INVALID_PARAMS))),
            ("message"@, JsonView::Text(message@)),
            ("data"@, data@),
        ]);
    }
    let mut whole: Vec<(String, Json)> = Vec::new();
    whole.push(("jsonrpc".to_owned(), Json::Text("2.0".to_owned())));
    whole.push(("id".to_owned(), id.clone()));
    whole.push(("error".to_owned(), error));
    let r = Json::Object(whole);
    proof {
        json::object_view(&r);
        assert(r@->Object_0 =~= seq![
            ("jsonrpc"@, JsonView::Text("2.0"@)),
            ("id"@, id@),
            ("error"@, error@),
        ]);
    }
    r
}

impl NpxcError {
    /// What the error says.
    pub fn to_string(&self) -> (s: String)
        ensures
            s@ == error_text(*self),
    {
        match self {
            NpxcError::Config(s) => text::cat("Configuration error: ", s.as_str()),
            NpxcError::RuntimeNotAvailable(s) => {
                text::cat("Container runtime not available: ", s.as_str())
            },
            NpxcError::BuildFailed { code } => {
                let shown = match code {
                    Some(c) => signed_decimal_of(*c),
                    None => "unknown".to_owned(),
                };
                let s = text::cat("Image build failed (exit code: ", shown.as_str());
                text::cat(s.as_str(), ")")
            },
            NpxcError::Runtime(s) => text::cat("Runtime error: ", s.as_str()),
            NpxcError::PathOutOfScope { path, cwd } => {
                let s = text::cat("Path outside CWD scope: ", path.as_str());
                let s = text::cat(s.as_str(), " (cwd: ");
                let s = text::cat(s.as_str(), cwd.as_str());
                text::cat(s.as_str(), ")")
            },
            NpxcError::PathNotFound(s) => text::cat("Path not found or unreadable: ", s.as_str()),
            NpxcError::Io(s) => s.clone(),
            NpxcError::Json(s) => s.clone(),
            NpxcError::TomlDe(s) => s.clone(),
            NpxcError::TomlSer(s) => s.clone(),
            NpxcError::Other(s) => s.clone(),
        }
    }

    /// The process exit code of the error.
    #[must_use]
    pub fn exit_code(&self) -> (r: i32)
        ensures
            r == exit_code_of(*self),
    {
        match self {
            NpxcError::RuntimeNotAvailable(_) => 2,
            NpxcError::BuildFailed { .. } => 3,
            NpxcError::Runtime(_) => 4,
            _ => 1,
        }
    }

    /// The response line that the error owes the client that sent the request
    /// `id`, for the errors that are answered rather than raised.
    #[must_use]
    pub fn to_rpc_error_response(&self, id: &Json) -> (r: Option<String>)
        ensures
            match r {
                Some(s) => rpc_answer(*self, id@) is Some && s@ == json::json_text(
                    rpc_answer(*self, id@)->0,
                ) && !s@.contains('\n') && (answerable(id@) ==> json::reads_back(
                    s@,
                    rpc_answer(*self, id@)->0,
                )),
                None => rpc_answer(*self, id@) is None,
            },
    {
        match self {
            NpxcError::PathOutOfScope { path, cwd } => {
                let mut data: Vec<(String, Json)> = Vec::new();
                data.push(("path".to_owned(), Json::Text(path.clone())));
                data.push(("cwd".to_owned(), Json::Text(cwd.clone())));
                assert(json::member_views(data@) =~= seq![
                    ("path"@, JsonView::Text(path@)),
                    ("cwd"@, JsonView::Text(cwd@)),
                ]);
                let answer = refuse(id, "npxc: path outside CWD scope", data);
                proof {
                    if answerable(id@) {
                        answers_travel(*self, id@);
                    }
                }
                Some(json::render(&answer))
            },
            NpxcError::PathNotFound(path) => {
                let mut data: Vec<(String, Json)> = Vec::new();
                data.push(("path".to_owned(), Json::Text(path.clone())));
                assert(json::member_views(data@) =~= seq![("path"@, JsonView::Text(path@))]);
                let answer = refuse(id, "npxc: path not found or unreadable", data);
                proof {
                    if answerable(id@) {
                        answers_travel(*self, id@);
                    }
                }
                Some(json::render(&answer))
            },
            _ => None,
        }
    }
}

/// An answer comes back as it was from its text if the id does.
proof fn answers_travel(e: NpxcError, id: JsonView)
    requires
        rpc_answer(e, id) is Some,
        answerable(id),
        json::integer_held(integer_number(INVALID_PARAMS)) is Some,
    ensures
        json::travels(rpc_answer(e, id)->0),
{
    reveal_strlit("jsonrpc");
    reveal_strlit("id");
    reveal_strlit("error");
    reveal_strlit("code");
    reveal_strlit("message");
    reveal_strlit("data");
    reveal_strlit("path");
    reveal_strlit("cwd");
    reveal_with_fuel(json::nested, 4);
    reveal_with_fuel(json::integral, 4);
    assert("jsonrpc"@.len() == 7 && "id"@.len() == 2 && "error"@.len() == 5);
    assert("code"@.len() == 4 && "message"@.len() == 7 && "data"@[0] == 'd' && "code"@[0] == 'c');
    assert("path"@.len() == 4 && "cwd"@.len() == 3);
    let members = (rpc_answer(e, id)->0)->Object_0;
    let error = members[2].1;
    let data = (error->Object_0)[2].1;
    assert(json::nested(data, 125) && json::integral(data));
    assert(json::nested(error, 126) && json::integral(error));
}

/// A refused request is answered under its own id, as invalid parameters, and the
/// answer names the path that was refused as the client wrote it.
pub proof fn refusal_answers_request(e: NpxcError, id: JsonView)
    requires
        e is PathOutOfScope || e is PathNotFound,
    ensures
        ({
            let answer = rpc_answer(e, id);
            let error = json::member_of(answer, "error"@);
            let path = match e {
                NpxcError::PathOutOfScope { path, .. } => path@,
                NpxcError::PathNotFound(path) => path@,
                _ => Seq::empty(),
            };
            &&& json::member_of(answer, "id"@) == Some(id)
            &&& json::member_of(answer, "method"@) is None
            &&& json::member_of(answer, "result"@) is None
            &&& json::member_of(error, "code"@) == Some(
                JsonView::Number(integer_number(INVALID_PARAMS)),
            )
            &&& json::member_of(json::member_of(error, "data"@), "path"@) == Some(
                JsonView::Text(path),
            )
        }),
{
    reveal_strlit("jsonrpc");
    reveal_strlit("id");
    reveal_strlit("error");
    reveal_strlit("method");
    reveal_strlit("result");
    reveal_strlit("code");
    reveal_strlit("message");
    reveal_strlit("data");
    reveal_strlit("path");
    reveal_with_fuel(json::lookup, 5);
    assert("jsonrpc"@.len() == 7 && "id"@.len() == 2 && "error"@.len() == 5 && "method"@.len() == 6
        && "result"@.len() == 6);
    assert("code"@.len() == 4 && "message"@.len() == 7 && "data"@[0] == 'd' && "code"@[0] == 'c');
    let answer = rpc_answer(e, id)->0;
    let members = answer->Object_0;
    assert(members.skip(1)[0] == members[1]);
    assert(members.skip(1).skip(1)[0] == members[2]);
    assert(members.skip(1).skip(1).skip(1).len() == 0);
    let error = members[2].1;
    let inner = error->Object_0;
    assert(inner.skip(1)[0] == inner[1]);
    assert(inner.skip(1).skip(1)[0] == inner[2]);
}

/// The client reads the refusal of its request under the id that it sent, with the
/// path that it named.
pub proof fn refusals_are_read_under_their_id(e: NpxcError, id: JsonView, line: Seq<char>)
    requires
        e is PathOutOfScope || e is PathNotFound,
        json::reads_back(line, rpc_answer(e, id)->0),
    ensures
        ({
            let read = Some(json::json_of(line)->Ok_0);
            let error = json::member_of(read, "error"@);
            let path = match e {
                NpxcError::PathOutOfScope { path, .. } => path@,
                NpxcError::PathNotFound(path) => path@,
                _ => Seq::empty(),
            };
            &&& json::member_of(read, "id"@) is Some
            &&& json::same(id, json::member_of(read, "id"@)->0)
            &&& json::member_of(error, "code"@) == Some(
                JsonView::Number(integer_number(INVALID_PARAMS)),
            )
            &&& json::member_of(json::member_of(error, "data"@), "path"@) == Some(
                JsonView::Text(path),
            )
        }),
{
    refusal_answers_request(e, id);
    let v = rpc_answer(e, id)->0;
    let w = json::json_of(line)->Ok_0;
    json::members_come_back(v, w, "id"@);
    json::members_come_back(v, w, "error"@);
    let (x, y) = (json::member(v, "error"@)->0, json::member(w, "error"@)->0);
    json::members_come_back(x, y, "code"@);
    json::members_come_back(x, y, "data"@);
    json::members_come_back(
        json::member(x, "data"@)->0,
        json::member(y, "data"@)->0,
        "path"@,
    );
}

/// The answer to a request whose path was refused is a JSON-RPC 2.0 error with the code
/// for invalid parameters, which says what was wrong and names the path as it was given;
/// other errors are not answered.
pub proof fn refusals_say_what_was_wrong(e: NpxcError, id: JsonView)
    ensures
        rpc_answer(e, id) is Some <==> e is PathOutOfScope || e is PathNotFound,
        ({
            let answer = rpc_answer(e, id);
            let error = json::member_of(answer, "error"@);
            &&& rpc_answer(e, id) is Some ==> json::member_of(answer, "jsonrpc"@) == Some(
                JsonView::Text("2.0"@),
            ) && json::member_of(error, "code"@) == Some(JsonView::Number(integer_number((-32602) as i64)))
            &&& e is PathOutOfScope ==> json::member_of(error, "message"@) == Some(
                JsonView::Text("npxc: path outside CWD scope"@),
            ) && json::member_of(json::member_of(error, "data"@), "path"@) == Some(
                JsonView::Text(e->path@),
            ) && json::member_of(json::member_of(error, "data"@), "cwd"@) == Some(
                JsonView::Text(e->cwd@),
            )
            &&& e is PathNotFound ==> json::member_of(error, "message"@) == Some(
                JsonView::Text("npxc: path not found or unreadable"@),
            ) && json::member_of(json::member_of(error, "data"@), "path"@) == Some(
                JsonView::Text(e->PathNotFound_0@),
            )
        }),
{
    reveal_strlit("jsonrpc");
    reveal_strlit("id");
    reveal_strlit("error");
    reveal_strlit("code");
    reveal_strlit("message");
    reveal_strlit("data");
    reveal_strlit("path");
    reveal_strlit("cwd");
    reveal_with_fuel(json::lookup, 5);
    assert("jsonrpc"@.len() == 7 && "id"@.len() == 2 && "error"@.len() == 5);
    assert("code"@.len() == 4 && "message"@.len() == 7 && "data"@[0] == 'd' && "code"@[0] == 'c');
    assert("path"@.len() == 4 && "cwd"@.len() == 3);
    if let Some(answer) = rpc_answer(e, id) {
        let members = answer->Object_0;
        assert(members.skip(1)[0] == members[1]);
        assert(members.skip(1).skip(1)[0] == members[2]);
        let inner = members[2].1->Object_0;
        assert(inner.skip(1)[0] == inner[1]);
        assert(inner.skip(1).skip(1)[0] == inner[2]);
        let data = inner[2].1->Object_0;
        if e is PathOutOfScope {
            assert(data.skip(1)[0] == data[1]);
        }
    }
}

/// Errors show what they carry, each after words of its own.
pub proof fn errors_show_what_they_carry(e: NpxcError)
    ensures
        e matches NpxcError::Config(s) ==> error_text(e) == "Configuration error: "@ + s@,
        e matches NpxcError::RuntimeNotAvailable(s) ==> error_text(e)
            == "Container runtime not available: "@ + s@,
        e matches NpxcError::Runtime(s) ==> error_text(e) == "Runtime error: "@ + s@,
        e matches NpxcError::PathNotFound(s) ==> error_text(e) == "Path not found or unreadable: "@
            + s@,
        e matches NpxcError::PathOutOfScope { path, cwd } ==> error_text(e)
            == "Path outside CWD scope: "@ + path@ + " (cwd: "@ + cwd@ + ")"@,
        e matches NpxcError::BuildFailed { code } ==> (code matches Some(c) ==> (c >= 0
            ==> error_text(e) == "Image build failed (exit code: "@ + text::decimal(c as nat)
            + ")"@)),
        e matches NpxcError::BuildFailed { code } ==> (code is None ==> error_text(e)
            == "Image build failed (exit code: "@ + "unknown"@ + ")"@),
        e matches NpxcError::Io(s) ==> error_text(e) == s@,
        e matches NpxcError::Json(s) ==> error_text(e) == s@,
        e matches NpxcError::Other(s) ==> error_text(e) == s@,
{
}

} // verus!
