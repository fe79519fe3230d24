//! What becomes of each message on its way between client and server.
//!
//! A message from the client may name host paths. They are resolved and published
//! outside; what came of that is handed back here, and the message is rewritten or
//! refused. A message from the server has its container paths turned back into host
//! paths.
use vstd::prelude::*;

use super::message;
use super::message::{KindView, MessageKind, SchemaView, ToolSchema};
use crate::config::merge::EffectiveConfig;
use crate::error;
use crate::error::NpxcError;
use crate::json;
use crate::json::{Json, JsonView};
use crate::paths::identify;
use crate::runtime::command;
use crate::runtime::command::Outcome;
use crate::table::Table;
use crate::text;

verus! {

// ---------------------------------------------------------------------------
// Client to server
// ---------------------------------------------------------------------------

/// What to do with a line from the client.
#[derive(Debug)]
pub enum ClientStep {
    /// Send this line to the server.
    Forward(String),
    /// Resolve and publish these arguments in order, up to the first failure, then
    /// call [`translate_tools_call`].
    ToolsCall { message: Json, paths: Vec<(String, String)> },
    /// Resolve and publish this URI, then call [`translate_resources_read`].
    ResourcesRead { message: Json, uri: String },
}

/// The model of [`ClientStep`].
pub ghost enum ClientView {
    Forward(Seq<char>),
    ToolsCall(JsonView, Seq<(Seq<char>, Seq<char>)>),
    ResourcesRead(JsonView, Seq<char>),
}

impl ClientStep {
    pub open spec fn view(&self) -> ClientView {
        match self {
            ClientStep::Forward(s) => ClientView::Forward(s@),
            ClientStep::ToolsCall { message, paths } => ClientView::ToolsCall(
                message@,
                message::pair_views(paths@),
            ),
            ClientStep::ResourcesRead { message, uri } => ClientView::ResourcesRead(
                message@,
                uri@,
            ),
        }
    }
}

/// What to do with a parsed message from the client.
pub open spec fn client_message(
    v: JsonView,
    no_isolate: bool,
    config: EffectiveConfig,
    schemas: Map<Seq<char>, ToolSchema>,
) -> ClientView {
    let pass = ClientView::Forward(json::json_text(v));
    if no_isolate {
        pass
    } else {
        match message::kind_of(v) {
            KindView::Request(method) => if method == "tools/call"@ {
                match message::called_tool(v) {
                    Some((tool, arguments)) => ClientView::ToolsCall(
                        v,
                        identify::identified(tool, arguments, config, schemas),
                    ),
                    None => pass,
                }
            } else if method == "resources/read"@ {
                match message::read_uri(v) {
                    Some(uri) => if "file://"@.is_prefix_of(uri) {
                        ClientView::ResourcesRead(v, uri)
                    } else {
                        pass
                    },
                    None => pass,
                }
            } else {
                pass
            },
            _ => pass,
        }
    }
}

/// What to do with a line from the client: a line that is not JSON passes as it
/// is.
pub open spec fn client_line(
    raw: Seq<char>,
    no_isolate: bool,
    config: EffectiveConfig,
    schemas: Map<Seq<char>, ToolSchema>,
) -> ClientView {
    match json::json_of(raw) {
        Ok(v) => client_message(v, no_isolate, config, schemas),
        Err(_) => ClientView::Forward(raw),
    }
}

/// Decides on a parsed message from the client. A message that passes is read from
/// its line as it was.
pub fn route_client_message(
    value: Json,
    no_isolate: bool,
    config: &EffectiveConfig,
    schemas: &Table<ToolSchema>,
) -> (r: ClientStep)
    ensures
        r@ == client_message(value@, no_isolate, *config, schemas@),
        r matches ClientStep::Forward(s) ==> (json::travels(value@) ==> json::reads_back(
            s@,
            value@,
        )),
{
    if no_isolate {
        return ClientStep::Forward(json::render(&value));
    }
    match message::message_kind(&value) {
        MessageKind::Request { method } => {
            if text::str_eq(method.as_str(), "tools/call") {
                let paths = match message::extract_tools_call(&value) {
                    Some((tool, arguments)) => Some(
                        identify::identify_path_args(tool, arguments, config, schemas),
                    ),
                    None => None,
                };
                match paths {
                    Some(paths) => ClientStep::ToolsCall { message: value, paths },
                    None => ClientStep::Forward(json::render(&value)),
                }
            } else if text::str_eq(method.as_str(), "resources/read") {
                let uri = match message::extract_resources_read_uri(&value) {
                    Some(uri) => if text::has_prefix(uri, "file://") {
                        Some(uri.to_owned())
                    } else {
                        None
                    },
                    None => None,
                };
                match uri {
                    Some(uri) => ClientStep::ResourcesRead { message: value, uri },
                    None => ClientStep::Forward(json::render(&value)),
                }
            } else {
                ClientStep::Forward(json::render(&value))
            }
        },
        _ => ClientStep::Forward(json::render(&value)),
    }
}

/// Decides on a line from the client. Paths are translated unless isolation is
/// disabled; only `tools/call` and `resources/read` requests carry any.
pub fn client_to_server(
    raw: &str,
    no_isolate: bool,
    config: &EffectiveConfig,
    schemas: &Table<ToolSchema>,
) -> (r: ClientStep)
    ensures
        r@ == client_line(raw@, no_isolate, *config, schemas@),
        !no_isolate ==> (json::json_of(raw@) matches Ok(v) ==> forall|
            tool: Seq<char>,
            arguments: Seq<(Seq<char>, JsonView)>,
            tokens: Seq<Seq<char>>,
        |
            #![trigger calls(v, tool, arguments), json::selected(JsonView::Object(arguments), tokens)]
            calls(v, tool, arguments) && identify::addressable(JsonView::Object(arguments)) ==> (
            json::selected(JsonView::Object(arguments), tokens) matches Some(JsonView::Text(s))
                ==> (r matches ClientStep::ToolsCall { message, paths } && message@ == v && (
            message::pair_views(paths@).contains((json::pointer_of(tokens), s))
                <==> identify::is_path_argument(tool, tokens, s, *config, schemas@))))),
        match (json::json_of(raw@), r) {
            (Ok(v), ClientStep::Forward(s)) => json::integral(v) ==> json::reads_back(s@, v),
            (Ok(_), ClientStep::ToolsCall { message, .. }) => json::nested(
                message@,
                json::MAX_NESTING as nat,
            ),
            (Ok(_), ClientStep::ResourcesRead { message, .. }) => json::nested(
                message@,
                json::MAX_NESTING as nat,
            ),
            (Err(_), _) => true,
        },
{
    proof {
        if json::json_of(raw@) is Ok && !no_isolate {
            let v = json::json_of(raw@)->Ok_0;
            assert forall|
                tool: Seq<char>,
                arguments: Seq<(Seq<char>, JsonView)>,
                tokens: Seq<Seq<char>>,
            |
                #![trigger calls(v, tool, arguments), json::selected(JsonView::Object(arguments), tokens)]
                calls(v, tool, arguments) && identify::addressable(
                    JsonView::Object(arguments),
                ) implies (json::selected(JsonView::Object(arguments), tokens) matches Some(
                JsonView::Text(s),
            ) ==> (client_line(raw@, no_isolate, *config, schemas@)
                matches ClientView::ToolsCall(w, paths) && w == v && (paths.contains(
                (json::pointer_of(tokens), s),
            ) <==> identify::is_path_argument(tool, tokens, s, *config, schemas@)))) by {
                if let Some(JsonView::Text(s)) = json::selected(
                    JsonView::Object(arguments),
                    tokens,
                ) {
                    calls_are_searched_for_paths(
                        raw@,
                        v,
                        tool,
                        arguments,
                        *config,
                        schemas@,
                        tokens,
                        s,
                    );
                }
            }
        }
    }
    match json::parse(raw) {
        Ok(value) => route_client_message(value, no_isolate, config, schemas),
        Err(_) => ClientStep::Forward(raw.to_owned()),
    }
}

/// What came of resolving and publishing one path.
#[derive(Debug)]
pub enum PathOutcome {
    /// The file is published under this container path.
    Published(String),
    /// The path was refused.
    Refused(NpxcError),
    /// The file could not be published.
    Failed,
}

/// Whether a message goes on to its peer.
#[derive(Debug, PartialEq)]
pub enum Disposition {
    /// Send this line.
    Forward(String),
    /// Send nothing on, but answer the client with this line, if there is one.
    Drop(Option<String>),
}

/// The model of [`Disposition`].
pub ghost enum DispositionView {
    Forward(Seq<char>),
    Drop(Option<Seq<char>>),
}

impl Disposition {
    pub open spec fn view(&self) -> DispositionView {
        match self {
            Disposition::Forward(s) => DispositionView::Forward(s@),
            Disposition::Drop(a) => DispositionView::Drop(text::opt(*a)),
        }
    }
}

/// What a request that cannot be carried out is answered.
pub open spec fn answer_to(o: PathOutcome, id: JsonView) -> Option<Seq<char>> {
    match o {
        PathOutcome::Refused(e) => match error::rpc_answer(e, id) {
            Some(answer) => Some(json::json_text(answer)),
            None => None,
        },
        _ => None,
    }
}

/// The pointer to an argument, from the top of the message.
pub open spec fn argument_pointer(pointer: Seq<char>) -> Seq<char> {
    "/params/arguments"@ + pointer
}

/// The message with the first `k` paths replaced by their container paths.
pub open spec fn with_container_paths(
    v: JsonView,
    paths: Seq<(Seq<char>, Seq<char>)>,
    outcomes: Seq<PathOutcome>,
    k: nat,
) -> JsonView
    decreases k,
{
    if k == 0 {
        v
    } else {
        let before = with_container_paths(v, paths, outcomes, (k - 1) as nat);
        match outcomes[k - 1] {
            PathOutcome::Published(c) => json::placed_at(
                before,
                argument_pointer(paths[k - 1].0),
                JsonView::Text(c@),
            ),
            _ => before,
        }
    }
}

/// The paths were handled in order, up to the first that could not be published.
pub open spec fn is_trail(outcomes: Seq<PathOutcome>, paths: nat) -> bool {
    &&& outcomes.len() <= paths
    &&& forall|i: int|
        0 <= i < outcomes.len() - 1 ==> (#[trigger] outcomes[i]) is Published
    &&& outcomes.len() < paths ==> outcomes.len() > 0 && !(outcomes.last() is Published)
}

/// What becomes of a `tools/call` request.
pub open spec fn tools_call_result(
    v: JsonView,
    paths: Seq<(Seq<char>, Seq<char>)>,
    outcomes: Seq<PathOutcome>,
) -> DispositionView {
    if outcomes.len() > 0 && !(outcomes.last() is Published) {
        DispositionView::Drop(answer_to(outcomes.last(), message::id_of(v)))
    } else {
        DispositionView::Forward(
            json::json_text(with_container_paths(v, paths, outcomes, outcomes.len())),
        )
    }
}

/// The lines of a disposition are read as what they carry: a forwarded line as
/// `sent`, an answer as the error response to the request `id`.
pub open spec fn says(r: Disposition, sent: JsonView, o: PathOutcome, id: JsonView) -> bool {
    match r {
        Disposition::Forward(s) => json::reads_back(s@, sent),
        Disposition::Drop(Some(s)) => o matches PathOutcome::Refused(e) && error::rpc_answer(
            e,
            id,
        ) is Some && json::reads_back(s@, error::rpc_answer(e, id)->0),
        Disposition::Drop(None) => true,
    }
}

/// The line that a request which cannot be carried out is answered with.
fn answer(o: &PathOutcome, value: &Json) -> (r: Option<String>)
    ensures
        text::opt(r) == answer_to(*o, message::id_of(value@)),
        match (r, *o) {
            (Some(s), PathOutcome::Refused(e)) => error::answerable(message::id_of(value@))
                ==> json::reads_back(s@, error::rpc_answer(e, message::id_of(value@))->0),
            _ => true,
        },
{
    match o {
        PathOutcome::Refused(e) => e.to_rpc_error_response(&message::message_id(value)),
        _ => None,
    }
}

/// Rewrites a `tools/call` request once its paths have been handled: each is
/// replaced by its container path. Where a path was refused or could not be
/// published the request is dropped, and a refusal is answered. The server reads the
/// request with the paths replaced, the client the error response.
pub fn translate_tools_call(
    value: Json,
    paths: &Vec<(String, String)>,
    outcomes: &Vec<PathOutcome>,
) -> (r: Disposition)
    requires
        is_trail(outcomes@, paths@.len()),
    ensures
        r@ == tools_call_result(value@, message::pair_views(paths@), outcomes@),
        json::travels(value@) ==> says(
            r,
            with_container_paths(
                value@,
                message::pair_views(paths@),
                outcomes@,
                outcomes@.len(),
            ),
            outcomes@.last(),
            message::id_of(value@),
        ),
{
    let ghost v = value@;
    let ghost all = message::pair_views(paths@);
    let mut current = value;
    let mut i: usize = 0;
    while i < outcomes.len()
        invariant
            is_trail(outcomes@, paths@.len()),
            v == value@,
            all == message::pair_views(paths@),
            i <= outcomes@.len(),
            forall|j: int| 0 <= j < i ==> (#[trigger] outcomes@[j]) is Published,
            current@ == with_container_paths(v, all, outcomes@, i as nat),
        decreases outcomes@.len() - i,
    {
        assert(all[i as int] == (paths@[i as int].0@, paths@[i as int].1@));
        match &outcomes[i] {
            PathOutcome::Published(c) => {
                let pointer = text::cat("/params/arguments", paths[i].0.as_str());
                current.set_at(pointer.as_str(), Json::Text(c.clone()));
            },
            o => {
                assert(i == outcomes@.len() - 1);
                proof {
                    paths_keep_id(v, all, outcomes@, i as nat);
                    if json::travels(v) {
                        ids_are_answerable(v);
                    }
                }
                return Disposition::Drop(answer(o, &current));
            },
        }
        i = i + 1;
    }
    proof {
        if json::travels(v) {
            container_paths_travel(v, all, outcomes@, outcomes@.len());
        }
    }
    Disposition::Forward(json::render(&current))
}

/// What becomes of a `resources/read` request.
pub open spec fn resources_read_result(v: JsonView, outcome: PathOutcome) -> DispositionView {
    match outcome {
        PathOutcome::Published(_) => DispositionView::Forward(
            json::json_text(with_container_uri(v, outcome)),
        ),
        _ => DispositionView::Drop(answer_to(outcome, message::id_of(v))),
    }
}

/// The request with its URI replaced by that of the container path.
pub open spec fn with_container_uri(v: JsonView, outcome: PathOutcome) -> JsonView {
    match outcome {
        PathOutcome::Published(c) => json::placed_at(
            v,
            "/params/uri"@,
            JsonView::Text("file://"@ + c@),
        ),
        _ => v,
    }
}

/// Rewrites a `resources/read` request once its URI has been handled.
pub fn translate_resources_read(value: Json, outcome: &PathOutcome) -> (r: Disposition)
    ensures
        r@ == resources_read_result(value@, *outcome),
        json::travels(value@) ==> says(
            r,
            with_container_uri(value@, *outcome),
            *outcome,
            message::id_of(value@),
        ),
{
    proof {
        if json::travels(value@) {
            ids_are_answerable(value@);
            if let PathOutcome::Published(c) = outcome {
                placed_at_travels(value@, "/params/uri"@, "file://"@ + c@);
            }
        }
    }
    match outcome {
        PathOutcome::Published(c) => {
            let uri = text::cat("file://", c.as_str());
            let mut current = value;
            current.set_at("/params/uri", Json::Text(uri));
            Disposition::Forward(json::render(&current))
        },
        o => Disposition::Drop(answer(o, &value)),
    }
}

// ---------------------------------------------------------------------------
// Server to client
// ---------------------------------------------------------------------------

/// The schemas by tool name, as models.
pub open spec fn schema_map(schemas: Map<Seq<char>, ToolSchema>) -> Map<Seq<char>, SchemaView> {
    schemas.map_values(|s: ToolSchema| s@)
}

/// The schemas with the first `k` of `listed` put in, each under its name.
pub open spec fn with_schemas(
    known: Map<Seq<char>, SchemaView>,
    listed: Seq<SchemaView>,
    k: nat,
) -> Map<Seq<char>, SchemaView>
    decreases k,
{
    if k == 0 {
        known
    } else {
        with_schemas(known, listed, (k - 1) as nat).insert(listed[k - 1].name, listed[k - 1])
    }
}

/// The schemas known after a message from the server.
pub open spec fn schemas_after(
    known: Map<Seq<char>, SchemaView>,
    v: JsonView,
) -> Map<Seq<char>, SchemaView> {
    if message::kind_of(v) == KindView::Response {
        let listed = message::listed_schemas(v);
        with_schemas(known, listed, listed.len())
    } else {
        known
    }
}

/// A message from the server with its container paths turned back.
pub open spec fn with_host_paths(v: JsonView, pairs: Seq<(Seq<char>, Seq<char>)>) -> JsonView {
    if pairs.len() == 0 {
        v
    } else {
        message::rewritten(v, pairs)
    }
}

/// The line for the client that a message from the server becomes.
pub open spec fn server_message(v: JsonView, pairs: Seq<(Seq<char>, Seq<char>)>) -> Seq<char> {
    json::json_text(with_host_paths(v, pairs))
}

/// Records the schemas of a message from the server and rewrites its container
/// paths. `snapshot` holds the container paths and what they stand for. The client
/// reads the message with its paths turned back.
pub fn route_server_message(
    value: Json,
    schemas: &mut Table<ToolSchema>,
    snapshot: &Vec<(String, String)>,
) -> (r: String)
    ensures
        r@ == server_message(value@, message::pair_views(snapshot@)),
        schema_map(final(schemas)@) == schemas_after(schema_map(old(schemas)@), value@),
        json::travels(value@) ==> json::reads_back(
            r@,
            with_host_paths(value@, message::pair_views(snapshot@)),
        ),
{
    let ghost v = value@;
    proof {
        if json::travels(v) {
            message::rewritten_travels(v, message::pair_views(snapshot@), json::MAX_NESTING as nat);
        }
    }
    let ghost known = schema_map(schemas@);
    let is_response = match message::message_kind(&value) {
        MessageKind::Response => true,
        _ => false,
    };
    if is_response {
        let listed = message::extract_tool_schemas(&value);
        let ghost all = message::schema_views(listed@);
        let mut i: usize = 0;
        while i < listed.len()
            invariant
                all == message::schema_views(listed@),
                i <= listed@.len(),
                schema_map(schemas@) == with_schemas(known, all, i as nat),
            decreases listed@.len() - i,
        {
            let ghost before = schemas@;
            let s = listed[i].clone();
            assert(all[i as int] == s@);
            let name = s.name.clone();
            schemas.insert(name, s);
            assert(schema_map(schemas@) =~= schema_map(before).insert(s.name@, s@));
            i = i + 1;
        }
    }
    let mut current = value;
    if snapshot.len() > 0 {
        message::replace_in_strings(&mut current, snapshot);
    }
    json::render(&current)
}

/// Whether the container path at `k` can be turned back for certain: no other container
/// path stands in it, nor in the host path that it stands for.
pub open spec fn turns_back(pairs: Seq<(Seq<char>, Seq<char>)>, k: int) -> bool {
    &&& pairs[k].0.len() > 0
    &&& forall|j: int|
        0 <= j < pairs.len() && j != k ==> !text::contains_text(
            pairs[k].0,
            (#[trigger] pairs[j]).0,
        ) && !text::contains_text(pairs[k].1, pairs[j].0)
}

/// Decides on a line from the server: the line for the client. A line that is not
/// JSON passes as it is; any other has its container paths turned back into host
/// paths, and a `tools/list` response leaves its schemas behind.
pub fn server_to_client(
    raw: &str,
    schemas: &mut Table<ToolSchema>,
    snapshot: &Vec<(String, String)>,
) -> (r: String)
    ensures
        match json::json_of(raw@) {
            Ok(v) => r@ == server_message(v, message::pair_views(snapshot@)) && schema_map(
                final(schemas)@,
            ) == schemas_after(schema_map(old(schemas)@), v) && (json::integral(v)
                ==> json::reads_back(
                r@,
                with_host_paths(v, message::pair_views(snapshot@)),
            )),
            Err(_) => r@ == raw@ && *final(schemas) == *old(schemas),
        },
        json::json_of(raw@) matches Ok(v) ==> (json::integral(v) ==> forall|
            k: int,
            tokens: Seq<Seq<char>>,
        |
            #![trigger snapshot@[k], json::selected(v, tokens)]
            0 <= k < snapshot@.len() && turns_back(message::pair_views(snapshot@), k)
                && json::selected(v, tokens) == Some(JsonView::Text(snapshot@[k].0@))
                ==> json::selected(json::json_of(r@)->Ok_0, tokens) == Some(
                JsonView::Text(snapshot@[k].1@),
            )),
{
    match json::parse(raw) {
        Ok(value) => {
            let ghost v = value@;
            let line = route_server_message(value, schemas, snapshot);
            proof {
                let pairs = message::pair_views(snapshot@);
                if json::integral(v) {
                    assert forall|k: int, tokens: Seq<Seq<char>>|
                        #![trigger snapshot@[k], json::selected(v, tokens)]
                        0 <= k < snapshot@.len() && turns_back(pairs, k) && json::selected(
                            v,
                            tokens,
                        ) == Some(JsonView::Text(snapshot@[k].0@)) implies json::selected(
                        json::json_of(line@)->Ok_0,
                        tokens,
                    ) == Some(JsonView::Text(snapshot@[k].1@)) by {
                        assert(pairs[k] == (snapshot@[k].0@, snapshot@[k].1@));
                        clients_read_the_host_path(v, pairs, k, tokens, line@);
                    }
                }
            }
            line
        },
        Err(_) => raw.to_owned(),
    }
}

// ---------------------------------------------------------------------------
// The loop of one direction
// ---------------------------------------------------------------------------

/// What a direction of the pipeline waited for and got.
#[derive(Debug)]
pub enum PumpEvent {
    /// A line.
    Line(String),
    /// The source is closed.
    Closed,
    /// The source failed.
    ReadFailed,
    /// The shutdown signal changed: to this value, or its sender is gone.
    Signal(Option<bool>),
}

/// What a direction of the pipeline does next.
#[derive(Debug, PartialEq)]
pub enum PumpAction {
    /// Handle this line, then wait again.
    Handle(String),
    /// Wait again.
    Wait,
    /// Stop, and signal the other direction to stop. True where the source is closed,
    /// which is how the pipeline ends in order.
    Stop(bool),
}

/// Whether a direction of the pipeline does `r` after an event.
pub open spec fn pumps(event: PumpEvent, r: PumpAction) -> bool {
    match event {
        PumpEvent::Line(s) => r matches PumpAction::Handle(t) && t@ == s@,
        PumpEvent::Signal(Some(false)) => r is Wait,
        PumpEvent::Closed => r == PumpAction::Stop(true),
        _ => r == PumpAction::Stop(false),
    }
}

/// What a direction of the pipeline does after an event: it stops when its source
/// ends or when it is told to.
pub fn pump(event: PumpEvent) -> (r: PumpAction)
    ensures
        pumps(event, r),
{
    match event {
        PumpEvent::Line(s) => PumpAction::Handle(s),
        PumpEvent::Closed => PumpAction::Stop(true),
        PumpEvent::ReadFailed => PumpAction::Stop(false),
        PumpEvent::Signal(signal) => match signal {
            Some(set) => if set {
                PumpAction::Stop(false)
            } else {
                PumpAction::Wait
            },
            None => PumpAction::Stop(false),
        },
    }
}

/// What is said of a container that did not end well.
pub open spec fn died_text(outcome: Outcome) -> Seq<char> {
    match outcome {
        Outcome::Exited(code) => "container exited unexpectedly (exit code: "@
            + command::debug_code(code) + ")"@,
        Outcome::NotStarted(e) => "container was not started: "@ + e@,
    }
}

/// Whether a pipeline came to `r` that ran until a side closed.
pub open spec fn comes_to(
    r: Result<(), NpxcError>,
    client_closed: bool,
    outcome: Outcome,
) -> bool {
    &&& r is Ok <==> client_closed || outcome.ok()
    &&& r matches Err(e) ==> (e matches NpxcError::Runtime(m) && m@ == died_text(outcome))
}

/// What a pipeline came to that ran until a side closed: it succeeded where the client
/// closed its side, or the container ended well.
pub fn pipeline_result(client_closed: bool, outcome: &Outcome) -> (r: Result<(), NpxcError>)
    ensures
        comes_to(r, client_closed, *outcome),
{
    if client_closed || outcome.success() {
        return Ok(());
    }
    match outcome {
        Outcome::Exited(code) => {
            let s = text::cat(
                "container exited unexpectedly (exit code: ",
                command::code_text(*code).as_str(),
            );
            Err(NpxcError::Runtime(text::cat(s.as_str(), ")")))
        },
        Outcome::NotStarted(e) => {
            Err(NpxcError::Runtime(text::cat("container was not started: ", e.as_str())))
        },
    }
}

// ---------------------------------------------------------------------------
// Laws
// ---------------------------------------------------------------------------

proof fn lookup_after_update(
    members: Seq<(Seq<char>, JsonView)>,
    k: int,
    new: JsonView,
    key: Seq<char>,
)
    requires
        0 <= k < members.len(),
        members[k].0 != key,
    ensures
        json::lookup(members.update(k, (members[k].0, new)), key) == json::lookup(members, key),
    decreases members.len(),
{
    let after = members.update(k, (members[k].0, new));
    if members[0].0 != key {
        if k == 0 {
            assert(after.skip(1) =~= members.skip(1));
        } else {
            assert(after.skip(1) =~= members.skip(1).update(
                k - 1,
                (members.skip(1)[k - 1].0, new),
            ));
            lookup_after_update(members.skip(1), k - 1, new, key);
        }
    }
}

/// A replacement below the member `name` leaves every other member as it is.
proof fn placed_below_keeps_members(
    v: JsonView,
    tokens: Seq<Seq<char>>,
    new: JsonView,
    key: Seq<char>,
)
    requires
        tokens.len() > 0,
        tokens[0] != key,
    ensures
        json::member(json::placed(v, tokens, new), key) == json::member(v, key),
{
    if let Some(k) = json::child_position(v, tokens[0]) {
        json::child_position_bound(v, tokens[0]);
        match v {
            JsonView::Object(members) => {
                let inner = json::placed(json::child(v, k), tokens.skip(1), new);
                lookup_after_update(members, k as int, inner, key);
            },
            _ => {},
        }
    }
}

/// The tokens of two pointers, one after the other.
proof fn joined_pointers(p: Seq<char>, q: Seq<char>)
    requires
        p.len() > 0,
        p[0] == '/',
        q.len() == 0 || q[0] == '/',
    ensures
        json::pointer_tokens(p + q) == Some(
            json::pointer_tokens(p)->0 + json::pointer_tokens(q)->0,
        ),
{
    let un = |t: Seq<char>| json::unescaped(t);
    if q.len() == 0 {
        assert(p + q =~= p);
        assert(json::pointer_tokens(p)->0 + Seq::<Seq<char>>::empty() =~= json::pointer_tokens(
            p,
        )->0);
    } else {
        split_joined(p, q);
        text::split_on_nonempty(p, '/');
        text::split_on_nonempty(q, '/');
        let a = text::split_on(p, '/');
        let b = text::split_on(q, '/').skip(1);
        assert((p + q)[0] == '/');
        assert((a + b).skip(1) =~= a.skip(1) + b);
        assert((a.skip(1) + b).map_values(un) =~= a.skip(1).map_values(un) + b.map_values(un));
    }
}

proof fn split_joined(p: Seq<char>, q: Seq<char>)
    requires
        q.len() > 0,
        q[0] == '/',
    ensures
        text::split_on(p + q, '/') == text::split_on(p, '/') + text::split_on(q, '/').skip(1),
        text::split_on(q, '/').len() >= 2,
    decreases q.len(),
{
    let whole = p + q;
    let nothing = Seq::<char>::empty();
    if q.len() == 1 {
        assert(whole.drop_last() =~= p);
        assert(q.drop_last() =~= nothing);
        assert(text::split_on(q, '/') =~= seq![nothing, nothing]);
        assert(text::split_on(whole, '/') =~= text::split_on(p, '/').push(nothing));
        assert(text::split_on(p, '/') + text::split_on(q, '/').skip(1) =~= text::split_on(
            p,
            '/',
        ).push(nothing));
    } else {
        let r = q.drop_last();
        assert(r[0] == '/');
        split_joined(p, r);
        assert(whole.drop_last() =~= p + r);
        assert(whole.last() == q.last());
        let a = text::split_on(p, '/');
        let b = text::split_on(r, '/');
        if q.last() == '/' {
            assert((a + b.skip(1)).push(nothing) =~= a + b.push(nothing).skip(1));
        } else {
            let c = b.update(b.len() - 1, b.last().push(q.last()));
            let d = a + b.skip(1);
            assert(d.last() == b.last());
            assert(d.update(d.len() - 1, d.last().push(q.last())) =~= a + c.skip(1));
        }
    }
}

/// The tokens of the pointer to the arguments.
proof fn arguments_tokens()
    ensures
        json::pointer_tokens("/params/arguments"@) == Some(seq!["params"@, "arguments"@]),
        "/params/arguments"@.len() > 0,
        "/params/arguments"@[0] == '/',
{
    reveal_strlit("/params/arguments");
    reveal_strlit("params");
    reveal_strlit("arguments");
    let nothing = Seq::<char>::empty();
    assert(json::pointer_tokens(nothing) == Some(Seq::<Seq<char>>::empty()));
    json::plain_keys_need_no_escapes("params"@);
    json::plain_keys_need_no_escapes("arguments"@);
    json::pointer_below(nothing, "params"@);
    let first = nothing.push('/') + "params"@;
    json::pointer_below(first, "arguments"@);
    assert(first.push('/') + "arguments"@ =~= "/params/arguments"@);
    assert(Seq::<Seq<char>>::empty().push("params"@).push("arguments"@) =~= seq![
        "params"@,
        "arguments"@,
    ]);
}

proof fn placed_argument_keeps_id(v: JsonView, pointer: Seq<char>, new: JsonView)
    ensures
        message::id_of(json::placed_at(v, argument_pointer(pointer), new)) == message::id_of(v),
{
    arguments_tokens();
    let whole = argument_pointer(pointer);
    assert(whole[0] == '/');
    reveal_strlit("params");
    reveal_strlit("id");
    assert("params"@.len() == 6 && "id"@.len() == 2);
    reveal_strlit("/params/arguments");
    first_token(whole);
    let tokens = json::pointer_tokens(whole)->0;
    placed_below_keeps_members(v, tokens, new, "id"@);
}

/// A pointer into the arguments enters the message through `params`, whatever
/// follows.
proof fn first_token(whole: Seq<char>)
    requires
        "/params/arguments"@.is_prefix_of(whole),
    ensures
        json::pointer_tokens(whole) is Some,
        json::pointer_tokens(whole)->0.len() > 0,
        json::pointer_tokens(whole)->0[0] == "params"@,
{
    arguments_tokens();
    let p = "/params/arguments"@;
    let n = p.len() as int;
    assert(whole.take(n) =~= p) by {
        assert(whole.subrange(0, n) =~= whole.take(n));
    }
    assert(whole[0] == p[0]) by {
        assert(whole.take(n)[0] == whole[0]);
    }
    let pieces = text::split_on(p, '/');
    let un = |t: Seq<char>| json::unescaped(t);
    let tokens = pieces.skip(1).map_values(un);
    assert(tokens == seq!["params"@, "arguments"@]);
    text::split_on_nonempty(p, '/');
    assert(tokens.len() == 2);
    assert(pieces.len() == 3);
    assert(tokens[0] == json::unescaped(pieces[1]));
    text::pieces_stay(whole, '/', n, 1);
    let more = text::split_on(whole, '/').skip(1).map_values(un);
    assert(more[0] == json::unescaped(text::split_on(whole, '/')[1]));
}

/// Translating paths never changes the id of a request.
pub proof fn paths_keep_id(
    v: JsonView,
    paths: Seq<(Seq<char>, Seq<char>)>,
    outcomes: Seq<PathOutcome>,
    k: nat,
)
    ensures
        message::id_of(with_container_paths(v, paths, outcomes, k)) == message::id_of(v),
    decreases k,
{
    if k > 0 {
        paths_keep_id(v, paths, outcomes, (k - 1) as nat);
        if let PathOutcome::Published(c) = outcomes[k - 1] {
            placed_argument_keeps_id(
                with_container_paths(v, paths, outcomes, (k - 1) as nat),
                paths[k - 1].0,
                JsonView::Text(c@),
            );
        }
    }
}

/// The id of a message that travels stands in an answer that does.
proof fn ids_are_answerable(v: JsonView)
    requires
        json::travels(v),
    ensures
        error::answerable(message::id_of(v)),
{
    if json::member(v, "id"@) is Some {
        json::members_travel(v, "id"@, json::MAX_NESTING as nat);
    }
}

proof fn placed_at_travels(v: JsonView, pointer: Seq<char>, new: Seq<char>)
    requires
        json::travels(v),
    ensures
        json::travels(json::placed_at(v, pointer, JsonView::Text(new))),
{
    if let Some(tokens) = json::pointer_tokens(pointer) {
        json::placed_text_travels(v, tokens, new, json::MAX_NESTING as nat);
    }
}

proof fn container_paths_travel(
    v: JsonView,
    paths: Seq<(Seq<char>, Seq<char>)>,
    outcomes: Seq<PathOutcome>,
    k: nat,
)
    requires
        json::travels(v),
    ensures
        json::travels(with_container_paths(v, paths, outcomes, k)),
    decreases k,
{
    if k > 0 {
        container_paths_travel(v, paths, outcomes, (k - 1) as nat);
        if let PathOutcome::Published(c) = outcomes[k - 1] {
            placed_at_travels(
                with_container_paths(v, paths, outcomes, (k - 1) as nat),
                argument_pointer(paths[k - 1].0),
                c@,
            );
        }
    }
}

/// The tokens of the pointer to an argument, from the top of the message.
pub open spec fn argument_tokens(pointer: Seq<char>) -> Seq<Seq<char>> {
    json::pointer_tokens(argument_pointer(pointer))->0
}

/// The arguments of a call stand where their pointers say.
#[verifier::spinoff_prover]
#[verifier::rlimit(60)]
proof fn argument_is_selected(
    v: JsonView,
    arguments: Seq<(Seq<char>, JsonView)>,
    e: (Seq<char>, Seq<char>),
)
    requires
        message::called_tool(v) matches Some((_, a)) && a == arguments,
        identify::leads_back(JsonView::Object(arguments), e),
    ensures
        json::pointer_tokens(argument_pointer(e.0)) is Some,
        argument_tokens(e.0) == seq!["params"@, "arguments"@] + json::pointer_tokens(e.0)->0,
        json::selected(v, argument_tokens(e.0)) == Some(JsonView::Text(e.1)),
{
    arguments_tokens();
    joined_pointers("/params/arguments"@, e.0);
    let params = json::member(v, "params"@)->0;
    let two = seq!["params"@, "arguments"@];
    json::member_is_selected(v, "params"@);
    json::member_is_selected(params, "arguments"@);
    json::selected_in_steps(v, seq!["params"@], seq!["arguments"@]);
    assert(seq!["params"@] + seq!["arguments"@] =~= two);
    assert(json::selected(v, two) == Some(JsonView::Object(arguments)));
    json::selected_in_steps(v, two, json::pointer_tokens(e.0)->0);
}

/// The state after `k` replacements: the first `k` arguments hold their container
/// paths, the others what they held; every other text is untouched.
#[verifier::spinoff_prover]
#[verifier::rlimit(40)]
proof fn after_replacements(
    v: JsonView,
    arguments: Seq<(Seq<char>, JsonView)>,
    paths: Seq<(Seq<char>, Seq<char>)>,
    outcomes: Seq<PathOutcome>,
    k: nat,
)
    requires
        message::called_tool(v) matches Some((_, a)) && a == arguments,
        identify::all_lead_back(JsonView::Object(arguments), paths),
        identify::distinct_pointers(paths),
        outcomes.len() == paths.len(),
        k <= paths.len(),
        forall|i: int| 0 <= i < outcomes.len() ==> (#[trigger] outcomes[i]) is Published,
    ensures
        forall|i: int|
            0 <= i < paths.len() ==> json::selected(
                with_container_paths(v, paths, outcomes, k),
                argument_tokens((#[trigger] paths[i]).0),
            ) == Some(
                JsonView::Text(
                    if i < k {
                        outcomes[i]->Published_0@
                    } else {
                        paths[i].1
                    },
                ),
            ),
        forall|b: Seq<Seq<char>>|
            json::selected(v, b) is Some && json::selected(v, b)->0 is Text && (forall|i: int|
                0 <= i < paths.len() ==> argument_tokens((#[trigger] paths[i]).0) != b)
                ==> #[trigger] json::selected(with_container_paths(v, paths, outcomes, k), b)
                == json::selected(v, b),
    decreases k,
{
    let now = with_container_paths(v, paths, outcomes, k);
    if k == 0 {
        assert forall|i: int| 0 <= i < paths.len() implies json::selected(
            now,
            argument_tokens((#[trigger] paths[i]).0),
        ) == Some(JsonView::Text(paths[i].1)) by {
            argument_is_selected(v, arguments, paths[i]);
        }
    } else {
        let n = k - 1;
        after_replacements(v, arguments, paths, outcomes, n as nat);
        let before = with_container_paths(v, paths, outcomes, n as nat);
        let new = JsonView::Text(outcomes[n]->Published_0@);
        let t = argument_tokens(paths[n].0);
        argument_is_selected(v, arguments, paths[n]);
        assert(now == json::placed(before, t, new));
        assert(json::selected(before, t) == Some(JsonView::Text(paths[n].1)));
        assert forall|i: int| 0 <= i < paths.len() implies json::selected(
            now,
            argument_tokens((#[trigger] paths[i]).0),
        ) == Some(
            JsonView::Text(
                if i < k {
                    outcomes[i]->Published_0@
                } else {
                    paths[i].1
                },
            ),
        ) by {
            let u = argument_tokens(paths[i].0);
            if i == n {
                json::placed_is_selected(before, t, new);
            } else {
                argument_is_selected(v, arguments, paths[i]);
                different_arguments(v, arguments, paths[i], paths[n], i, n, paths);
                json::placed_leaves_others(before, t, u, new);
            }
        }
        assert forall|b: Seq<Seq<char>>|
            json::selected(v, b) is Some && json::selected(v, b)->0 is Text && (forall|i: int|
                0 <= i < paths.len() ==> argument_tokens((#[trigger] paths[i]).0)
                    != b) implies #[trigger] json::selected(now, b) == json::selected(v, b) by {
            assert(json::selected(before, b) == json::selected(v, b));
            assert(argument_tokens(paths[n].0) != b);
            json::placed_leaves_others(before, t, b, new);
        }
    }
}

proof fn different_arguments(
    v: JsonView,
    arguments: Seq<(Seq<char>, JsonView)>,
    d: (Seq<char>, Seq<char>),
    e: (Seq<char>, Seq<char>),
    i: int,
    n: int,
    paths: Seq<(Seq<char>, Seq<char>)>,
)
    requires
        message::called_tool(v) matches Some((_, a)) && a == arguments,
        0 <= i < paths.len(),
        0 <= n < paths.len(),
        i != n,
        paths[i] == d,
        paths[n] == e,
        identify::distinct_pointers(paths),
        identify::leads_back(JsonView::Object(arguments), d),
        identify::leads_back(JsonView::Object(arguments), e),
    ensures
        argument_tokens(d.0) != argument_tokens(e.0),
{
    assert(d.0 != e.0) by {
        if i < n {
            assert(paths[i].0 != paths[n].0);
        } else {
            assert(paths[n].0 != paths[i].0);
        }
    }
    argument_is_selected(v, arguments, d);
    argument_is_selected(v, arguments, e);
    if argument_tokens(d.0) == argument_tokens(e.0) {
        let two = seq!["params"@, "arguments"@];
        let a = json::pointer_tokens(d.0)->0;
        let b = json::pointer_tokens(e.0)->0;
        assert(a =~= b) by {
            assert((two + a).skip(2) =~= a);
            assert((two + b).skip(2) =~= b);
        }
        assert(d.0 == json::pointer_of(a) && e.0 == json::pointer_of(b));
    }
}

/// A forwarded call holds, at every argument that was identified as a path, the
/// container path that the file was published under; every other text of the
/// message is untouched.
pub proof fn forwarded_calls_name_container_paths(
    v: JsonView,
    config: EffectiveConfig,
    schemas: Map<Seq<char>, ToolSchema>,
    outcomes: Seq<PathOutcome>,
)
    requires
        message::called_tool(v) is Some,
        identify::addressable(JsonView::Object((message::called_tool(v)->0).1)),
        outcomes.len() == identify::identified(
            (message::called_tool(v)->0).0,
            (message::called_tool(v)->0).1,
            config,
            schemas,
        ).len(),
        forall|i: int| 0 <= i < outcomes.len() ==> (#[trigger] outcomes[i]) is Published,
    ensures
        ({
            let (tool, arguments) = message::called_tool(v)->0;
            let paths = identify::identified(tool, arguments, config, schemas);
            let sent = with_container_paths(v, paths, outcomes, outcomes.len());
            &&& tools_call_result(v, paths, outcomes) == DispositionView::Forward(
                json::json_text(sent),
            )
            &&& forall|i: int|
                0 <= i < paths.len() ==> json::selected(
                    sent,
                    argument_tokens((#[trigger] paths[i]).0),
                ) == Some(JsonView::Text(outcomes[i]->Published_0@))
            &&& forall|b: Seq<Seq<char>>|
                json::selected(v, b) is Some && json::selected(v, b)->0 is Text && (forall|i: int|
                    0 <= i < paths.len() ==> argument_tokens((#[trigger] paths[i]).0) != b)
                    ==> #[trigger] json::selected(sent, b) == json::selected(v, b)
        }),
{
    let (tool, arguments) = message::called_tool(v)->0;
    let paths = identify::identified(tool, arguments, config, schemas);
    identify::identified_pointers_are_distinct(tool, arguments, config, schemas);
    identify::identified_pointers_lead_back(tool, arguments, config, schemas);
    after_replacements(v, arguments, paths, outcomes, paths.len());
}

/// A refused call is not forwarded: the client is answered, under the id of its
/// request, with the error that the path met.
pub proof fn refused_calls_are_answered(
    v: JsonView,
    paths: Seq<(Seq<char>, Seq<char>)>,
    outcomes: Seq<PathOutcome>,
    e: NpxcError,
)
    requires
        is_trail(outcomes, paths.len()),
        outcomes.len() > 0,
        outcomes.last() == PathOutcome::Refused(e),
        e is PathOutOfScope || e is PathNotFound,
    ensures
        tools_call_result(v, paths, outcomes) == DispositionView::Drop(
            Some(json::json_text(error::rpc_answer(e, message::id_of(v))->0)),
        ),
        json::member_of(error::rpc_answer(e, message::id_of(v)), "id"@) == Some(message::id_of(v)),
{
    error::refusal_answers_request(e, message::id_of(v));
}

/// With isolation disabled no message is translated, and messages other than the
/// two requests that name paths never are.
pub proof fn other_messages_pass(
    v: JsonView,
    no_isolate: bool,
    config: EffectiveConfig,
    schemas: Map<Seq<char>, ToolSchema>,
)
    requires
        no_isolate || !(message::kind_of(v) is Request),
    ensures
        client_message(v, no_isolate, config, schemas) == ClientView::Forward(json::json_text(v)),
{
}

/// Whether a message asks for a call of `tool` with these arguments.
pub open spec fn calls(
    v: JsonView,
    tool: Seq<char>,
    arguments: Seq<(Seq<char>, JsonView)>,
) -> bool {
    &&& json::member(v, "id"@) is Some
    &&& json::member(v, "method"@) == Some(JsonView::Text("tools/call"@))
    &&& json::member_of(json::member(v, "params"@), "name"@) == Some(JsonView::Text(tool))
    &&& json::member_of(json::member(v, "params"@), "arguments"@) == Some(
        JsonView::Object(arguments),
    )
}

/// A call is searched for paths, with the settings and with the schemas that are known:
/// the step names exactly the arguments that are to be taken for paths, and of each the
/// text that stands there.
pub proof fn calls_are_searched_for_paths(
    raw: Seq<char>,
    v: JsonView,
    tool: Seq<char>,
    arguments: Seq<(Seq<char>, JsonView)>,
    config: EffectiveConfig,
    schemas: Map<Seq<char>, ToolSchema>,
    tokens: Seq<Seq<char>>,
    s: Seq<char>,
)
    requires
        json::json_of(raw) == Ok::<JsonView, Seq<char>>(v),
        calls(v, tool, arguments),
        identify::addressable(JsonView::Object(arguments)),
        json::selected(JsonView::Object(arguments), tokens) == Some(JsonView::Text(s)),
    ensures
        client_line(raw, false, config, schemas) matches ClientView::ToolsCall(w, paths) && w == v
            && (paths.contains((json::pointer_of(tokens), s)) <==> identify::is_path_argument(
            tool,
            tokens,
            s,
            config,
            schemas,
        )) && identify::all_lead_back(JsonView::Object(arguments), paths)
            && identify::distinct_pointers(paths),
{
    identify::path_arguments_are_identified(tool, arguments, config, schemas, tokens, s);
    identify::identified_pointers_lead_back(tool, arguments, config, schemas);
    identify::identified_pointers_are_distinct(tool, arguments, config, schemas);
}

/// The schemas that are known decide: where the schema strategy is used, an argument
/// with a text value whose property in the schema of the called tool has the format
/// `path` or `uri` is among the paths, unless it is listed as something else; and where
/// no other strategy is used, one without a schema that says so is not.
pub proof fn known_schemas_find_paths(
    v: JsonView,
    tool: Seq<char>,
    arguments: Seq<(Seq<char>, JsonView)>,
    config: EffectiveConfig,
    schemas: Map<Seq<char>, ToolSchema>,
    key: Seq<char>,
    s: Seq<char>,
)
    requires
        calls(v, tool, arguments),
        identify::addressable(JsonView::Object(arguments)),
        json::member(JsonView::Object(arguments), key) == Some(JsonView::Text(s)),
        identify::has_strategy(config, "schema"@),
        !identify::is_listed(config.non_path_arguments@, tool, key),
    ensures
        client_message(v, false, config, schemas) is ToolsCall,
        ({
            let paths = client_message(v, false, config, schemas)->ToolsCall_1;
            let found = paths.contains((seq!['/'] + json::escaped(key), s));
            let prop = json::member_of(
                json::member(schemas[tool].input_schema@, "properties"@),
                key,
            );
            &&& (schemas.contains_key(tool) && (prop matches Some(p) && (json::member(
                p,
                "format"@,
            ) matches Some(JsonView::Text(f)) && (text::unicode_lowered(f) == "path"@
                || text::unicode_lowered(f) == "uri"@)))) ==> found
            &&& (!schemas.contains_key(tool) || prop is None) && !identify::has_strategy(
                config,
                "config"@,
            ) && !identify::has_strategy(config, "heuristic"@) ==> !found
        }),
{
    let root = JsonView::Object(arguments);
    let tokens = seq![key];
    json::member_is_selected(root, key);
    identify::path_arguments_are_identified(tool, arguments, config, schemas, tokens, s);
    assert(tokens.drop_last() =~= Seq::<Seq<char>>::empty());
    assert(json::pointer_of(tokens.drop_last()) =~= Seq::<char>::empty());
    assert(json::pointer_of(tokens) =~= seq!['/'] + json::escaped(key));
    assert(tokens.last() == key);
}

/// A request for a resource is looked into where its URI begins with `file://`, and
/// passes as it is where it does not.
pub proof fn file_resources_are_looked_into(
    v: JsonView,
    config: EffectiveConfig,
    schemas: Map<Seq<char>, ToolSchema>,
    uri: Seq<char>,
)
    requires
        json::member(v, "id"@) is Some,
        json::member(v, "method"@) == Some(JsonView::Text("resources/read"@)),
        json::member_of(json::member(v, "params"@), "uri"@) == Some(JsonView::Text(uri)),
    ensures
        client_message(v, false, config, schemas) == (if uri.len() >= 7 && uri.take(7)
            == "file://"@ {
            ClientView::ResourcesRead(v, uri)
        } else {
            ClientView::Forward(json::json_text(v))
        }),
{
    reveal_strlit("file://");
    reveal_strlit("tools/call");
    reveal_strlit("resources/read");
    assert("tools/call"@[0] == 't' && "resources/read"@[0] == 'r');
    assert(uri.len() >= 7 ==> uri.take(7) =~= uri.subrange(0, 7));
}

/// Requests with another method, notifications and responses pass as they are.
pub proof fn other_requests_pass(
    v: JsonView,
    config: EffectiveConfig,
    schemas: Map<Seq<char>, ToolSchema>,
)
    requires
        json::member(v, "id"@) is None || (json::member(v, "method"@) != Some(
            JsonView::Text("tools/call"@),
        ) && json::member(v, "method"@) != Some(JsonView::Text("resources/read"@))),
    ensures
        client_message(v, false, config, schemas) == ClientView::Forward(json::json_text(v)),
{
}

/// What the server reads of a call: at every argument that is to be taken for a path
/// stands the container path under which the file was published, and every other text
/// of the arguments stands as the client sent it.
pub proof fn servers_read_container_paths(
    v: JsonView,
    tool: Seq<char>,
    arguments: Seq<(Seq<char>, JsonView)>,
    config: EffectiveConfig,
    schemas: Map<Seq<char>, ToolSchema>,
    outcomes: Seq<PathOutcome>,
    line: Seq<char>,
    tokens: Seq<Seq<char>>,
    s: Seq<char>,
)
    requires
        calls(v, tool, arguments),
        identify::addressable(JsonView::Object(arguments)),
        client_message(v, false, config, schemas) is ToolsCall,
        outcomes.len() == client_message(v, false, config, schemas)->ToolsCall_1.len(),
        forall|i: int| 0 <= i < outcomes.len() ==> (#[trigger] outcomes[i]) is Published,
        json::reads_back(
            line,
            with_container_paths(
                v,
                client_message(v, false, config, schemas)->ToolsCall_1,
                outcomes,
                outcomes.len(),
            ),
        ),
        json::selected(JsonView::Object(arguments), tokens) == Some(JsonView::Text(s)),
    ensures
        ({
            let paths = client_message(v, false, config, schemas)->ToolsCall_1;
            let there = json::selected(
                json::json_of(line)->Ok_0,
                seq!["params"@, "arguments"@] + tokens,
            );
            &&& json::json_of(line) is Ok
            &&& identify::is_path_argument(tool, tokens, s, config, schemas) ==> exists|i: int|
                0 <= i < paths.len() && #[trigger] paths[i] == (json::pointer_of(tokens), s)
                    && there == Some(JsonView::Text(outcomes[i]->Published_0@))
            &&& !identify::is_path_argument(tool, tokens, s, config, schemas) ==> there == Some(
                JsonView::Text(s),
            )
        }),
{
    let root = JsonView::Object(arguments);
    let paths = identify::identified(tool, arguments, config, schemas);
    let sent = with_container_paths(v, paths, outcomes, outcomes.len());
    let e = (json::pointer_of(tokens), s);
    assert(message::called_tool(v) == Some((tool, arguments)));
    assert(client_message(v, false, config, schemas)->ToolsCall_1 == paths);
    identify::path_arguments_are_identified(tool, arguments, config, schemas, tokens, s);
    identify::identified_pointers_lead_back(tool, arguments, config, schemas);
    forwarded_calls_name_container_paths(v, config, schemas, outcomes);
    json::pointers_keep_their_tokens(tokens);
    let whole = seq!["params"@, "arguments"@] + tokens;
    assert(identify::leads_back(root, e));
    argument_is_selected(v, arguments, e);
    assert(argument_tokens(e.0) == whole);
    if paths.contains(e) {
        let i = choose|i: int| 0 <= i < paths.len() && paths[i] == e;
        assert(json::selected(sent, argument_tokens(paths[i].0)) == Some(
            JsonView::Text(outcomes[i]->Published_0@),
        ));
        json::places_come_back(sent, json::json_of(line)->Ok_0, whole);
        assert(paths[i] == (json::pointer_of(tokens), s));
    } else {
        assert forall|i: int| 0 <= i < paths.len() implies argument_tokens((#[trigger] paths[i]).0)
            != whole by {
            if argument_tokens(paths[i].0) == whole {
                argument_is_selected(v, arguments, paths[i]);
                let other = json::pointer_tokens(paths[i].0)->0;
                assert(other =~= tokens) by {
                    let two = seq!["params"@, "arguments"@];
                    assert((two + other).skip(2) =~= other);
                    assert((two + tokens).skip(2) =~= tokens);
                }
                assert(identify::leads_back(root, paths[i]));
                assert(paths[i] == e);
            }
        }
        assert(json::selected(sent, whole) == Some(JsonView::Text(s)));
        json::places_come_back(sent, json::json_of(line)->Ok_0, whole);
    }
}

/// What the server reads of a request for a file: its URI is that of the container path
/// under which the file was published, and every other text stands as the client sent
/// it.
pub proof fn servers_read_container_uris(
    v: JsonView,
    uri: Seq<char>,
    container: String,
    line: Seq<char>,
    tokens: Seq<Seq<char>>,
)
    requires
        json::member_of(json::member(v, "params"@), "uri"@) == Some(JsonView::Text(uri)),
        json::reads_back(line, with_container_uri(v, PathOutcome::Published(container))),
        json::selected(v, tokens) matches Some(JsonView::Text(_)),
        tokens != seq!["params"@, "uri"@],
    ensures
        json::json_of(line) is Ok,
        json::selected(json::json_of(line)->Ok_0, seq!["params"@, "uri"@]) == Some(
            JsonView::Text("file://"@ + container@),
        ),
        json::selected(json::json_of(line)->Ok_0, tokens) == json::selected(v, tokens),
{
    let sent = with_container_uri(v, PathOutcome::Published(container));
    let place = seq!["params"@, "uri"@];
    let new = JsonView::Text("file://"@ + container@);
    uri_tokens();
    json::member_is_selected(v, "params"@);
    json::member_is_selected(json::member(v, "params"@)->0, "uri"@);
    json::selected_in_steps(v, seq!["params"@], seq!["uri"@]);
    assert(seq!["params"@] + seq!["uri"@] =~= place);
    assert(sent == json::placed(v, place, new));
    json::placed_is_selected(v, place, new);
    json::placed_leaves_others(v, place, tokens, new);
    json::places_come_back(sent, json::json_of(line)->Ok_0, place);
    json::places_come_back(sent, json::json_of(line)->Ok_0, tokens);
}

proof fn uri_tokens()
    ensures
        json::pointer_tokens("/params/uri"@) == Some(seq!["params"@, "uri"@]),
{
    reveal_strlit("/params/uri");
    reveal_strlit("params");
    reveal_strlit("uri");
    let nothing = Seq::<char>::empty();
    assert(json::pointer_tokens(nothing) == Some(Seq::<Seq<char>>::empty()));
    json::plain_keys_need_no_escapes("params"@);
    json::plain_keys_need_no_escapes("uri"@);
    json::pointer_below(nothing, "params"@);
    let first = nothing.push('/') + "params"@;
    json::pointer_below(first, "uri"@);
    assert(first.push('/') + "uri"@ =~= "/params/uri"@);
    assert(Seq::<Seq<char>>::empty().push("params"@).push("uri"@) =~= seq!["params"@, "uri"@]);
}

/// A call whose paths were all published is forwarded, and one with a path that was
/// not is not: the line that goes on is that of the call with its paths replaced.
pub proof fn calls_go_on_when_all_is_published(
    v: JsonView,
    paths: Seq<(Seq<char>, Seq<char>)>,
    outcomes: Seq<PathOutcome>,
)
    requires
        is_trail(outcomes, paths.len()),
    ensures
        tools_call_result(v, paths, outcomes) is Forward <==> outcomes.len() == paths.len() && (
        forall|i: int| 0 <= i < outcomes.len() ==> (#[trigger] outcomes[i]) is Published),
        tools_call_result(v, paths, outcomes) matches DispositionView::Forward(line) ==> line
            == json::json_text(with_container_paths(v, paths, outcomes, paths.len())),
        paths.len() == 0 ==> tools_call_result(v, paths, outcomes) == DispositionView::Forward(
            json::json_text(v),
        ),
{
    if tools_call_result(v, paths, outcomes) is Forward {
        if outcomes.len() > 0 {
            assert(outcomes.last() is Published);
            assert forall|i: int| 0 <= i < outcomes.len() implies (
            #[trigger] outcomes[i]) is Published by {
                if i == outcomes.len() - 1 {
                    assert(outcomes.last() == outcomes[i]);
                }
            }
        }
    } else if forall|i: int| 0 <= i < outcomes.len() ==> (#[trigger] outcomes[i]) is Published {
        assert(outcomes[outcomes.len() - 1] is Published);
    }
}

/// What the client reads of a message from the server: the container path of any file
/// that was published, wherever it stands in a text, is the host path, provided that no
/// container path stands elsewhere in that text, and none in what it becomes but that of
/// the file itself.
pub proof fn clients_read_host_paths(
    v: JsonView,
    pairs: Seq<(Seq<char>, Seq<char>)>,
    k: int,
    before: Seq<char>,
    after: Seq<char>,
    tokens: Seq<Seq<char>>,
    line: Seq<char>,
)
    requires
        0 <= k < pairs.len(),
        pairs[k].0.len() > 0,
        json::selected(v, tokens) == Some(JsonView::Text(before + pairs[k].0 + after)),
        forall|j: int, i: int|
            0 <= j < pairs.len() && #[trigger] text::occurs_at(
                before + pairs[k].0 + after,
                pairs[j].0,
                i,
            ) ==> j == k && i == before.len(),
        forall|j: int|
            0 <= j < pairs.len() && j != k ==> !text::contains_text(
                before + pairs[k].1 + after,
                (#[trigger] pairs[j]).0,
            ),
        json::reads_back(line, with_host_paths(v, pairs)),
    ensures
        json::selected(with_host_paths(v, pairs), tokens) == Some(
            JsonView::Text(before + pairs[k].1 + after),
        ),
        json::json_of(line) is Ok,
        json::selected(json::json_of(line)->Ok_0, tokens) == Some(
            JsonView::Text(before + pairs[k].1 + after),
        ),
{
    message::rewritten_place_by_place(v, pairs, tokens);
    message::single_replacements_are_made(before, after, pairs, k);
    json::places_come_back(with_host_paths(v, pairs), json::json_of(line)->Ok_0, tokens);
}

/// A text that is the container path of a published file is its host path to the client.
pub proof fn clients_read_the_host_path(
    v: JsonView,
    pairs: Seq<(Seq<char>, Seq<char>)>,
    k: int,
    tokens: Seq<Seq<char>>,
    line: Seq<char>,
)
    requires
        0 <= k < pairs.len(),
        pairs[k].0.len() > 0,
        json::selected(v, tokens) == Some(JsonView::Text(pairs[k].0)),
        forall|j: int|
            0 <= j < pairs.len() && j != k ==> !text::contains_text(
                pairs[k].0,
                (#[trigger] pairs[j]).0,
            ) && !text::contains_text(pairs[k].1, pairs[j].0),
        json::reads_back(line, with_host_paths(v, pairs)),
    ensures
        json::json_of(line) is Ok,
        json::selected(json::json_of(line)->Ok_0, tokens) == Some(JsonView::Text(pairs[k].1)),
{
    let none = Seq::<char>::empty();
    let c = pairs[k].0;
    assert(none + c + none =~= c);
    assert(none + pairs[k].1 + none =~= pairs[k].1);
    assert forall|j: int, i: int|
        0 <= j < pairs.len() && #[trigger] text::occurs_at(
            none + c + none,
            pairs[j].0,
            i,
        ) implies j == k && i == none.len() by {
        if j != k {
            assert(text::contains_text(c, pairs[j].0));
        }
    }
    clients_read_host_paths(v, pairs, k, none, none, tokens, line);
}

/// Everything else of a message from the server is to the client as the server sent it:
/// texts in which no container path stands, and values that are no texts.
pub proof fn clients_read_all_else_unchanged(
    v: JsonView,
    pairs: Seq<(Seq<char>, Seq<char>)>,
    x: JsonView,
    tokens: Seq<Seq<char>>,
    line: Seq<char>,
)
    requires
        json::selected(v, tokens) == Some(x),
        !(x is Array),
        !(x is Object),
        x matches JsonView::Text(s) ==> forall|j: int|
            0 <= j < pairs.len() ==> !text::contains_text(s, (#[trigger] pairs[j]).0),
        json::reads_back(line, with_host_paths(v, pairs)),
    ensures
        json::json_of(line) is Ok,
        json::selected(json::json_of(line)->Ok_0, tokens) == Some(x),
{
    message::rewritten_place_by_place(v, pairs, tokens);
    message::other_values_are_not_rewritten(x, pairs);
    json::places_come_back(with_host_paths(v, pairs), json::json_of(line)->Ok_0, tokens);
}

proof fn with_schemas_learns(
    known: Map<Seq<char>, SchemaView>,
    listed: Seq<SchemaView>,
    n: nat,
    name: Seq<char>,
)
    requires
        n <= listed.len(),
    ensures
        (forall|j: int| 0 <= j < n ==> (#[trigger] listed[j]).name != name) ==> with_schemas(
            known,
            listed,
            n,
        ).contains_key(name) == known.contains_key(name) && with_schemas(known, listed, n)[name]
            == known[name],
        forall|i: int|
            0 <= i < n && (#[trigger] listed[i]).name == name && (forall|j: int|
                i < j < n ==> (#[trigger] listed[j]).name != name) ==> with_schemas(
                known,
                listed,
                n,
            ).contains_key(name) && with_schemas(known, listed, n)[name] == listed[i],
    decreases n,
{
    if n > 0 {
        with_schemas_learns(known, listed, (n - 1) as nat, name);
        assert(listed[n - 1].name == name || listed[n - 1].name != name);
    }
}

/// A response that lists tools leaves their schemas behind: each tool's input schema,
/// under the tool's name, the last where a name is listed twice; what is known of other
/// tools stays.
pub proof fn listed_tools_are_learned(
    known: Map<Seq<char>, SchemaView>,
    v: JsonView,
    tools: Seq<JsonView>,
    names: Seq<Seq<char>>,
    schemas: Seq<JsonView>,
    name: Seq<char>,
)
    requires
        json::member(v, "method"@) is None,
        json::member_of(json::member(v, "result"@), "tools"@) == Some(JsonView::Array(tools)),
        names.len() == tools.len(),
        schemas.len() == tools.len(),
        forall|i: int|
            0 <= i < tools.len() ==> json::member(#[trigger] tools[i], "name"@) == Some(
                JsonView::Text(names[i]),
            ) && json::member(tools[i], "inputSchema"@) == Some(schemas[i]),
    ensures
        forall|i: int|
            0 <= i < tools.len() && (#[trigger] names[i]) == name && (forall|j: int|
                i < j < tools.len() ==> #[trigger] names[j] != name) ==> schemas_after(
                known,
                v,
            ).contains_key(name) && schemas_after(known, v)[name].input_schema == schemas[i],
        !names.contains(name) ==> schemas_after(known, v).contains_key(name) == known.contains_key(
            name,
        ) && schemas_after(known, v)[name] == known[name],
{
    let listed = message::listed_schemas(v);
    assert forall|i: int| 0 <= i < tools.len() implies message::schema_of(#[trigger] tools[i])
        == Some(SchemaView { name: names[i], input_schema: schemas[i] }) by {}
    assert(listed == message::descriptions(tools));
    assert forall|i: int| 0 <= i < tools.len() implies (#[trigger] listed[i]).name == names[i]
        && listed[i].input_schema == schemas[i] by {
        assert(message::schema_of(tools[i]) is Some);
    }
    with_schemas_learns(known, listed, listed.len(), name);
    assert forall|i: int|
        0 <= i < tools.len() && (#[trigger] names[i]) == name && (forall|j: int|
            i < j < tools.len() ==> #[trigger] names[j] != name) implies schemas_after(
        known,
        v,
    ).contains_key(name) && schemas_after(known, v)[name].input_schema == schemas[i] by {
        assert(listed[i].name == name);
        assert forall|j: int| i < j < listed.len() implies (#[trigger] listed[j]).name != name by {
            assert(names[j] != name);
        }
    }
    if !names.contains(name) {
        assert forall|j: int| 0 <= j < listed.len() implies (#[trigger] listed[j]).name != name by {
            assert(names[j] == listed[j].name);
            assert(names.contains(names[j]));
        }
    }
}

/// No other message changes what is known of the tools: one with a method, one without
/// a list of tools, and one whose list has a tool without a name or an input schema.
pub proof fn other_messages_teach_nothing(known: Map<Seq<char>, SchemaView>, v: JsonView)
    requires
        json::member(v, "method"@) matches Some(JsonView::Text(_)) || !(json::member_of(
            json::member(v, "result"@),
            "tools"@,
        ) matches Some(JsonView::Array(tools)) && forall|i: int|
            0 <= i < tools.len() ==> (json::member(#[trigger] tools[i], "name"@) matches Some(
                JsonView::Text(_),
            )) && json::member(tools[i], "inputSchema"@) is Some),
    ensures
        schemas_after(known, v) == known,
{
    if let Some(JsonView::Array(tools)) = json::member_of(json::member(v, "result"@), "tools"@) {
        if message::all_described(tools) {
            assert forall|i: int| 0 <= i < tools.len() implies (json::member(
                #[trigger] tools[i],
                "name"@,
            ) matches Some(JsonView::Text(_))) && json::member(
                tools[i],
                "inputSchema"@,
            ) is Some by {
                assert(message::schema_of(tools[i]) is Some);
            }
        }
    }
}

/// A line that is no JSON passes to the server as it is.
pub proof fn other_lines_pass(
    raw: Seq<char>,
    no_isolate: bool,
    config: EffectiveConfig,
    schemas: Map<Seq<char>, ToolSchema>,
)
    requires
        json::json_of(raw) is Err,
    ensures
        client_line(raw, no_isolate, config, schemas) == ClientView::Forward(raw),
{
}

/// A request for a file goes on exactly where the file was published; where it was
/// refused the client is answered, under the id of its request, with the error that it
/// met, and a failure is not answered.
pub proof fn refused_reads_are_answered(v: JsonView, outcome: PathOutcome)
    ensures
        resources_read_result(v, outcome) is Forward <==> outcome is Published,
        outcome is Failed ==> resources_read_result(v, outcome) == DispositionView::Drop(None),
        outcome matches PathOutcome::Refused(e) ==> (e is PathOutOfScope || e is PathNotFound)
            ==> resources_read_result(v, outcome) == DispositionView::Drop(
            Some(json::json_text(error::rpc_answer(outcome->Refused_0, message::id_of(v))->0)),
        ) && json::member_of(
            error::rpc_answer(outcome->Refused_0, message::id_of(v)),
            "id"@,
        ) == Some(message::id_of(v)),
{
    if let PathOutcome::Refused(e) = outcome {
        if e is PathOutOfScope || e is PathNotFound {
            error::refusal_answers_request(e, message::id_of(v));
        }
    }
}

/// A call that does not name a tool and arguments, and a request for a resource that
/// does not name a URI, pass as they are.
pub proof fn malformed_requests_pass(
    v: JsonView,
    config: EffectiveConfig,
    schemas: Map<Seq<char>, ToolSchema>,
)
    requires
        json::member(v, "method"@) == Some(JsonView::Text("tools/call"@)) && !((json::member_of(
            json::member(v, "params"@),
            "name"@,
        ) matches Some(JsonView::Text(_))) && (json::member_of(
            json::member(v, "params"@),
            "arguments"@,
        ) matches Some(JsonView::Object(_)))) || json::member(v, "method"@) == Some(
            JsonView::Text("resources/read"@),
        ) && !(json::member_of(json::member(v, "params"@), "uri"@) matches Some(
            JsonView::Text(_),
        )),
    ensures
        client_message(v, false, config, schemas) == ClientView::Forward(json::json_text(v)),
{
    reveal_strlit("tools/call");
    reveal_strlit("resources/read");
    assert("tools/call"@[0] == 't' && "resources/read"@[0] == 'r');
}

/// A call with a path that could not be published, or that met an error which is not
/// about the path, is dropped without an answer.
pub proof fn failed_calls_are_dropped(
    v: JsonView,
    paths: Seq<(Seq<char>, Seq<char>)>,
    outcomes: Seq<PathOutcome>,
)
    requires
        is_trail(outcomes, paths.len()),
        outcomes.len() > 0,
        outcomes.last() is Failed || (outcomes.last() matches PathOutcome::Refused(e) && !(
        e is PathOutOfScope) && !(e is PathNotFound)),
    ensures
        tools_call_result(v, paths, outcomes) == DispositionView::Drop(None),
{
}

/// The paths of a call are those that are found among its arguments with the settings of
/// the session and the schemas that it knows: a call of a tool whose schema gives an
/// argument the format of a path names that argument, and a call with a text that begins
/// with a slash names that text.
pub proof fn calls_name_their_paths(
    raw: Seq<char>,
    v: JsonView,
    tool: Seq<char>,
    arguments: Seq<(Seq<char>, JsonView)>,
    config: EffectiveConfig,
    schemas: Map<Seq<char>, ToolSchema>,
    key: Seq<char>,
    prop: JsonView,
    word: Seq<char>,
    s: Seq<char>,
    tokens: Seq<Seq<char>>,
    t: Seq<char>,
)
    requires
        json::json_of(raw) == Ok::<JsonView, Seq<char>>(v),
        json::member(v, "id"@) is Some,
        json::member(v, "method"@) == Some(JsonView::Text("tools/call"@)),
        json::member_of(json::member(v, "params"@), "name"@) == Some(JsonView::Text(tool)),
        json::member_of(json::member(v, "params"@), "arguments"@) == Some(
            JsonView::Object(arguments),
        ),
        identify::addressable(JsonView::Object(arguments)),
        !config.non_path_arguments@.contains_key("*"@),
        !config.non_path_arguments@.contains_key(tool),
    ensures
        client_line(raw, false, config, schemas) matches ClientView::ToolsCall(w, paths) && w == v
            && (((exists|i: int|
            0 <= i < config.strategies@.len() && (#[trigger] config.strategies@[i])@ == "schema"@)
            && schemas.contains_key(tool) && json::member_of(
            json::member(schemas[tool].input_schema@, "properties"@),
            key,
        ) == Some(prop) && json::member(prop, "format"@) == Some(JsonView::Text(word)) && (
        text::unicode_lowered(word) == "path"@ || text::unicode_lowered(word) == "uri"@)
            && json::member(JsonView::Object(arguments), key) == Some(JsonView::Text(s)))
            ==> paths.contains((seq!['/'] + json::escaped(key), s))) && (((exists|i: int|
            0 <= i < config.strategies@.len() && (#[trigger] config.strategies@[i])@
                == "heuristic"@) && config.heuristic_absolute_prefix && t.len() > 0 && t[0] == '/'
            && json::selected(JsonView::Object(arguments), tokens) == Some(JsonView::Text(t)))
            ==> paths.contains((json::pointer_of(tokens), t))),
{
    if (exists|i: int|
        0 <= i < config.strategies@.len() && (#[trigger] config.strategies@[i])@ == "schema"@)
        && schemas.contains_key(tool) && json::member_of(
        json::member(schemas[tool].input_schema@, "properties"@),
        key,
    ) == Some(prop) && json::member(prop, "format"@) == Some(JsonView::Text(word)) && (
    text::unicode_lowered(word) == "path"@ || text::unicode_lowered(word) == "uri"@)
        && json::member(JsonView::Object(arguments), key) == Some(JsonView::Text(s)) {
        identify::described_arguments_are_found(
            tool,
            arguments,
            config,
            schemas,
            key,
            prop,
            word,
            Seq::empty(),
            Seq::empty(),
            Seq::empty(),
            s,
        );
    }
    if (exists|i: int|
        0 <= i < config.strategies@.len() && (#[trigger] config.strategies@[i])@ == "heuristic"@)
        && config.heuristic_absolute_prefix && t.len() > 0 && t[0] == '/' && json::selected(
        JsonView::Object(arguments),
        tokens,
    ) == Some(JsonView::Text(t)) {
        identify::texts_that_begin_like_paths_are_found(
            tool,
            arguments,
            config,
            schemas,
            tokens,
            t,
            -1,
        );
    }
}

/// A direction of the pipeline handles every line that comes, and goes on until its
/// source ends or fails, or it is told to stop.
pub proof fn lines_are_handled_until_the_end(event: PumpEvent, r: PumpAction)
    requires
        pumps(event, r),
    ensures
        r is Handle <==> event is Line,
        r matches PumpAction::Handle(t) ==> (event matches PumpEvent::Line(s) && t@ == s@),
        r is Wait <==> event == PumpEvent::Signal(Some(false)),
        event is Closed ==> r == PumpAction::Stop(true),
        event is ReadFailed || event == PumpEvent::Signal(Some(true)) || event
            == PumpEvent::Signal(None) ==> r == PumpAction::Stop(false),
{
}

/// A container that ends badly while the client is still there is an error of the run,
/// with an exit code of its own; a client that leaves is none.
pub proof fn dead_containers_are_errors(
    r: Result<(), NpxcError>,
    client_closed: bool,
    outcome: Outcome,
)
    requires
        comes_to(r, client_closed, outcome),
    ensures
        client_closed ==> r is Ok,
        outcome == Outcome::Exited(Some(0i32)) ==> r is Ok,
        !client_closed && outcome != Outcome::Exited(Some(0i32)) ==> (r matches Err(e)
            && error::exit_code_of(e) == 4),
{
}

} // verus!
