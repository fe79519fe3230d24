//! The parts of JSON-RPC messages that matter here: what kind a message is, what
//! it asks for, and how its strings are rewritten.
use vstd::prelude::*;

use crate::json;
use crate::json::{Json, JsonView};
use crate::text;

verus! {

/// What a message is, by the fields it has.
#[derive(Debug, PartialEq)]
pub enum MessageKind {
    /// A request: has both `"method"` and `"id"`.
    Request { method: String },
    /// A notification: has `"method"` but no `"id"`.
    Notification { method: String },
    /// A response: has `"result"` or `"error"` (but no `"method"`).
    Response,
    /// Does not match any of the above shapes.
    Unknown,
}

/// The model of [`MessageKind`].
pub ghost enum KindView {
    Request(Seq<char>),
    Notification(Seq<char>),
    Response,
    Unknown,
}

impl MessageKind {
    pub open spec fn view(&self) -> KindView {
        match self {
            MessageKind::Request { method } => KindView::Request(method@),
            MessageKind::Notification { method } => KindView::Notification(method@),
            MessageKind::Response => KindView::Response,
            MessageKind::Unknown => KindView::Unknown,
        }
    }
}

/// What a message is.
pub open spec fn kind_of(v: JsonView) -> KindView {
    match json::text_of(json::member(v, "method"@)) {
        Some(method) => if json::member(v, "id"@) is Some {
            KindView::Request(method)
        } else {
            KindView::Notification(method)
        },
        None => if json::member(v, "result"@) is Some || json::member(v, "error"@) is Some {
            KindView::Response
        } else {
            KindView::Unknown
        },
    }
}

/// The text member `key` of a value.
fn text_member<'a>(v: &'a Json, key: &str) -> (r: Option<&'a str>)
    ensures
        match r {
            Some(s) => json::text_of(json::member(v@, key@)) == Some(s@),
            None => json::text_of(json::member(v@, key@)) is None,
        },
{
    match v.get(key) {
        Some(j) => j.as_str(),
        None => None,
    }
}

/// Classifies a message.
#[must_use]
pub fn message_kind(value: &Json) -> (r: MessageKind)
    ensures
        r@ == kind_of(value@),
{
    match text_member(value, "method") {
        Some(method) => match value.get("id") {
            Some(_) => MessageKind::Request { method: method.to_owned() },
            None => MessageKind::Notification { method: method.to_owned() },
        },
        None => {
            let result = value.get("result");
            let error = value.get("error");
            if result.is_some() || error.is_some() {
                MessageKind::Response
            } else {
                MessageKind::Unknown
            }
        },
    }
}

/// A tool as a `tools/list` response describes it.
#[derive(Debug)]
pub struct ToolSchema {
    /// The tool's registered name.
    pub name: String,
    /// The tool's `inputSchema`.
    pub input_schema: Json,
}

/// The model of [`ToolSchema`].
pub ghost struct SchemaView {
    pub name: Seq<char>,
    pub input_schema: JsonView,
}

impl ToolSchema {
    pub open spec fn view(&self) -> SchemaView {
        SchemaView { name: self.name@, input_schema: self.input_schema@ }
    }
}

impl Clone for ToolSchema {
    fn clone(&self) -> (r: Self)
        ensures
            r@ == self@,
    {
        ToolSchema { name: self.name.clone(), input_schema: self.input_schema.clone() }
    }
}

pub open spec fn schema_views(v: Seq<ToolSchema>) -> Seq<SchemaView> {
    v.map_values(|s: ToolSchema| s@)
}

/// The description of a tool, if it has a name and an input schema.
pub open spec fn schema_of(tool: JsonView) -> Option<SchemaView> {
    match (json::text_of(json::member(tool, "name"@)), json::member(tool, "inputSchema"@)) {
        (Some(name), Some(input_schema)) => Some(SchemaView { name, input_schema }),
        _ => None,
    }
}

/// Whether every tool of a list has a description.
pub open spec fn all_described(tools: Seq<JsonView>) -> bool {
    forall|i: int| 0 <= i < tools.len() ==> schema_of(#[trigger] tools[i]) is Some
}

/// The descriptions of the tools of a list.
pub open spec fn descriptions(tools: Seq<JsonView>) -> Seq<SchemaView> {
    tools.map_values(|t: JsonView| schema_of(t)->0)
}

/// The tools that a well-formed `tools/list` response describes: none where an entry
/// has no name or no input schema.
pub open spec fn listed_schemas(v: JsonView) -> Seq<SchemaView> {
    match json::items_of(json::member_of(json::member(v, "result"@), "tools"@)) {
        Some(tools) => if all_described(tools) {
            descriptions(tools)
        } else {
            Seq::empty()
        },
        None => Seq::empty(),
    }
}

/// The tools that a `tools/list` response describes; none of any other message, nor of
/// a response with a malformed entry.
#[must_use]
pub fn extract_tool_schemas(value: &Json) -> (r: Vec<ToolSchema>)
    ensures
        schema_views(r@) == listed_schemas(value@),
{
    let mut r: Vec<ToolSchema> = Vec::new();
    assert(schema_views(r@) =~= Seq::empty());
    let tools = match value.get("result") {
        Some(result) => match result.get("tools") {
            Some(t) => match t.as_array() {
                Some(tools) => tools,
                None => return r,
            },
            None => return r,
        },
        None => return r,
    };
    let ghost all = json::item_views(tools@);
    let mut i: usize = 0;
    while i < tools.len()
        invariant
            all == json::item_views(tools@),
            json::items_of(json::member_of(json::member(value@, "result"@), "tools"@)) == Some(all),
            i <= tools@.len(),
            r@.len() == i,
            forall|j: int|
                0 <= j < i ==> schema_of(#[trigger] all[j]) == Some(schema_views(r@)[j]),
        decreases tools@.len() - i,
    {
        assert(all[i as int] == tools@[i as int]@);
        match (text_member(&tools[i], "name"), tools[i].get("inputSchema")) {
            (Some(name), Some(schema)) => {
                let s = ToolSchema { name: name.to_owned(), input_schema: schema.clone() };
                r.push(s);
            },
            _ => {
                let none: Vec<ToolSchema> = Vec::new();
                assert(schema_of(all[i as int]) is None);
                assert(schema_views(none@) =~= Seq::empty());
                return none;
            },
        }
        i = i + 1;
    }
    assert(schema_views(r@) =~= descriptions(all));
    r
}

/// The tool and the arguments that a `tools/call` request names.
pub open spec fn called_tool(v: JsonView) -> Option<(Seq<char>, Seq<(Seq<char>, JsonView)>)> {
    let params = json::member(v, "params"@);
    match (
        json::text_of(json::member_of(params, "name"@)),
        json::members_of(json::member_of(params, "arguments"@)),
    ) {
        (Some(name), Some(arguments)) => Some((name, arguments)),
        _ => None,
    }
}

/// The tool and the arguments that a `tools/call` request names, if it has the
/// shape of one.
#[must_use]
pub fn extract_tools_call(value: &Json) -> (r: Option<(&str, &Vec<(String, Json)>)>)
    ensures
        match r {
            Some((name, arguments)) => called_tool(value@) == Some(
                (name@, json::member_views(arguments@)),
            ),
            None => called_tool(value@) is None,
        },
{
    let params = match value.get("params") {
        Some(p) => p,
        None => return None,
    };
    match (text_member(params, "name"), params.get("arguments")) {
        (Some(name), Some(a)) => match a.as_object() {
            Some(arguments) => Some((name, arguments)),
            None => None,
        },
        _ => None,
    }
}

/// The URI that a `resources/read` request names.
pub open spec fn read_uri(v: JsonView) -> Option<Seq<char>> {
    json::text_of(json::member_of(json::member(v, "params"@), "uri"@))
}

/// The URI that a `resources/read` request names, if it has one.
#[must_use]
pub fn extract_resources_read_uri(value: &Json) -> (r: Option<&str>)
    ensures
        match r {
            Some(s) => read_uri(value@) == Some(s@),
            None => read_uri(value@) is None,
        },
{
    match value.get("params") {
        Some(p) => text_member(p, "uri"),
        None => None,
    }
}

/// The id of a message: `null` where it has none.
pub open spec fn id_of(v: JsonView) -> JsonView {
    match json::member(v, "id"@) {
        Some(id) => id,
        None => JsonView::Null,
    }
}

/// The id of a message, which may be a number, a string or `null`; `null` where
/// it has none.
#[must_use]
pub fn message_id(value: &Json) -> (r: Json)
    ensures
        r@ == id_of(value@),
{
    match value.get("id") {
        Some(id) => id.clone(),
        None => Json::Null,
    }
}

// ---------------------------------------------------------------------------
// Rewriting strings
// ---------------------------------------------------------------------------

/// The views of a list of replacements.
pub open spec fn pair_views(v: Seq<(String, String)>) -> Seq<(Seq<char>, Seq<char>)> {
    v.map_values(|p: (String, String)| (p.0@, p.1@))
}

/// `s` with the first `k` replacements made, one after the other.
pub open spec fn replaced_upto(s: Seq<char>, pairs: Seq<(Seq<char>, Seq<char>)>, k: nat) -> Seq<
    char,
>
    decreases k,
{
    if k == 0 {
        s
    } else {
        text::replaced(
            replaced_upto(s, pairs, (k - 1) as nat),
            pairs[k - 1].0,
            pairs[k - 1].1,
        )
    }
}

/// `v` with the replacements made in every string value; the names of members
/// stay as they are.
pub open spec fn rewritten(v: JsonView, pairs: Seq<(Seq<char>, Seq<char>)>) -> JsonView
    decreases v,
{
    match v {
        JsonView::Text(s) => JsonView::Text(replaced_upto(s, pairs, pairs.len())),
        JsonView::Array(items) => JsonView::Array(
            Seq::new(
                items.len(),
                |i: int|
                    if 0 <= i < items.len() {
                        rewritten(items[i], pairs)
                    } else {
                        JsonView::Null
                    },
            ),
        ),
        JsonView::Object(members) => JsonView::Object(
            Seq::new(
                members.len(),
                |i: int|
                    if 0 <= i < members.len() {
                        (members[i].0, rewritten(members[i].1, pairs))
                    } else {
                        (Seq::empty(), JsonView::Null)
                    },
            ),
        ),
        _ => v,
    }
}

/// Replacements in texts nest nothing deeper, name no member and are no number.
pub proof fn rewritten_travels(
    v: JsonView,
    pairs: Seq<(Seq<char>, Seq<char>)>,
    depth: nat,
)
    requires
        json::nested(v, depth),
        json::integral(v),
    ensures
        json::nested(rewritten(v, pairs), depth),
        json::integral(rewritten(v, pairs)),
    decreases v,
{
    let r = rewritten(v, pairs);
    match v {
        JsonView::Array(items) => {
            assert forall|i: int| 0 <= i < items.len() implies json::nested(
                #[trigger] (r->Array_0)[i],
                (depth - 1) as nat,
            ) && json::integral((r->Array_0)[i]) by {
                rewritten_travels(items[i], pairs, (depth - 1) as nat);
            }
        },
        JsonView::Object(members) => {
            assert forall|i: int| 0 <= i < members.len() implies json::nested(
                (#[trigger] (r->Object_0)[i]).1,
                (depth - 1) as nat,
            ) && json::integral((r->Object_0)[i].1) by {
                rewritten_travels(members[i].1, pairs, (depth - 1) as nat);
            }
            assert(forall|i: int|
                0 <= i < members.len() ==> (#[trigger] (r->Object_0)[i]).0 == members[i].0);
        },
        _ => {},
    }
}

/// Makes the replacements in one text.
fn replace_all(s: &String, replacements: &Vec<(String, String)>) -> (r: String)
    ensures
        r@ == replaced_upto(s@, pair_views(replacements@), replacements@.len()),
{
    let ghost pairs = pair_views(replacements@);
    let mut r = s.clone();
    let mut i: usize = 0;
    while i < replacements.len()
        invariant
            pairs == pair_views(replacements@),
            i <= replacements@.len(),
            r@ == replaced_upto(s@, pairs, i as nat),
        decreases replacements@.len() - i,
    {
        assert(pairs[i as int] == (replacements@[i as int].0@, replacements@[i as int].1@));
        let from = replacements[i].0.as_str();
        if text::has_text(r.as_str(), from) {
            r = text::replace(r.as_str(), from, replacements[i].1.as_str());
        } else {
            proof {
                text::replace_absent(r@, from@, replacements@[i as int].1@);
            }
        }
        i = i + 1;
    }
    r
}

/// Makes the replacements, in order, in every string value within `value`, however
/// deeply nested. Names of members are not modified.
pub fn replace_in_strings(value: &mut Json, replacements: &Vec<(String, String)>)
    ensures
        final(value)@ == rewritten(old(value)@, pair_views(replacements@)),
    decreases *old(value),
{
    let ghost pairs = pair_views(replacements@);
    let ghost before = *value;
    proof {
        json::object_view(&before);
    }
    match value {
        Json::Text(s) => {
            let r = replace_all(s, replacements);
            *s = r;
        },
        Json::Array(items) => {
            let ghost was = items@;
            let mut i: usize = 0;
            while i < items.len()
                invariant
                    before == *old(value),
                    before matches Json::Array(v) && v@ == was,
                    pairs == pair_views(replacements@),
                    items@.len() == was.len(),
                    i <= items@.len(),
                    forall|j: int|
                        0 <= j < i ==> (#[trigger] items@[j])@ == rewritten(was[j]@, pairs),
                    forall|j: int| i <= j < was.len() ==> items@[j] == was[j],
                decreases items@.len() - i,
            {
                assert(decreases_to!(before => was[i as int]));
                replace_in_strings(&mut items[i], replacements);
                i = i + 1;
            }
            assert(rewritten(before@, pairs)->Array_0 =~= json::item_views(items@));
        },
        Json::Object(members) => {
            let ghost was = members@;
            let mut i: usize = 0;
            while i < members.len()
                invariant
                    before == *old(value),
                    before matches Json::Object(v) && v@ == was,
                    pairs == pair_views(replacements@),
                    members@.len() == was.len(),
                    i <= members@.len(),
                    forall|j: int|
                        0 <= j < i ==> (#[trigger] members@[j]).0@ == was[j].0@ && members@[j].1@
                            == rewritten(was[j].1@, pairs),
                    forall|j: int| i <= j < was.len() ==> members@[j] == was[j],
                decreases members@.len() - i,
            {
                assert(decreases_to!(before => was[i as int].1));
                replace_in_strings(&mut members[i].1, replacements);
                i = i + 1;
            }
            assert(rewritten(before@, pairs)->Object_0 =~= json::member_views(members@));
        },
        _ => {},
    }
    proof {
        json::object_view(value);
    }
}

// ---------------------------------------------------------------------------
// Laws
// ---------------------------------------------------------------------------

/// Replacements are made where they stand: every place of the rewritten value holds
/// what the value holds there, rewritten, and there are no other places.
pub proof fn rewritten_place_by_place(
    v: JsonView,
    pairs: Seq<(Seq<char>, Seq<char>)>,
    tokens: Seq<Seq<char>>,
)
    ensures
        json::selected(rewritten(v, pairs), tokens) == match json::selected(v, tokens) {
            Some(x) => Some(rewritten(x, pairs)),
            None => None,
        },
    decreases tokens.len(),
{
    if tokens.len() > 0 {
        let w = rewritten(v, pairs);
        match v {
            JsonView::Object(members) => {
                let after = w->Object_0;
                assert forall|i: int| 0 <= i < members.len() implies (#[trigger] members[i]).0
                    == after[i].0 by {}
                json::key_position_by_names(members, after, tokens[0]);
                json::lookup_is_position(members, tokens[0]);
                if let Some(k) = json::child_position(v, tokens[0]) {
                    assert(json::child(w, k) == rewritten(json::child(v, k), pairs));
                    rewritten_place_by_place(json::child(v, k), pairs, tokens.skip(1));
                }
            },
            JsonView::Array(items) => {
                if let Some(k) = json::child_position(v, tokens[0]) {
                    assert(json::child(w, k) == rewritten(json::child(v, k), pairs));
                    rewritten_place_by_place(json::child(v, k), pairs, tokens.skip(1));
                }
            },
            _ => {},
        }
    }
}

proof fn replaced_upto_absent(s: Seq<char>, pairs: Seq<(Seq<char>, Seq<char>)>, k: nat)
    requires
        k <= pairs.len(),
        forall|j: int| 0 <= j < k ==> !text::contains_text(s, (#[trigger] pairs[j]).0),
    ensures
        replaced_upto(s, pairs, k) == s,
    decreases k,
{
    if k > 0 {
        replaced_upto_absent(s, pairs, (k - 1) as nat);
        assert(!text::contains_text(s, pairs[k - 1].0));
        text::replace_absent(s, pairs[k - 1].0, pairs[k - 1].1);
    }
}

/// A text in which a single replacement applies, in a single place, has it made there,
/// whichever of the replacements it is; a text in which none applies stays.
pub proof fn single_replacements_are_made(
    before: Seq<char>,
    after: Seq<char>,
    pairs: Seq<(Seq<char>, Seq<char>)>,
    k: int,
)
    requires
        0 <= k < pairs.len(),
        pairs[k].0.len() > 0,
        forall|j: int, i: int|
            0 <= j < pairs.len() && #[trigger] text::occurs_at(
                before + pairs[k].0 + after,
                pairs[j].0,
                i,
            ) ==> j == k && i == before.len(),
        forall|j: int|
            0 <= j < pairs.len() && j != k ==> !text::contains_text(
                before + pairs[k].1 + after,
                (#[trigger] pairs[j]).0,
            ),
    ensures
        rewritten(JsonView::Text(before + pairs[k].0 + after), pairs) == JsonView::Text(
            before + pairs[k].1 + after,
        ),
{
    let s = before + pairs[k].0 + after;
    let t = before + pairs[k].1 + after;
    assert forall|j: int| 0 <= j < k implies !text::contains_text(s, (#[trigger] pairs[j]).0) by {
        if text::contains_text(s, pairs[j].0) {
            let i = choose|i: int| text::occurs_at(s, pairs[j].0, i);
            assert(text::occurs_at(s, pairs[j].0, i));
        }
    }
    replaced_upto_absent(s, pairs, k as nat);
    assert forall|i: int| #[trigger] text::occurs_at(s, pairs[k].0, i) implies i
        == before.len() by {}
    text::replace_single(before, pairs[k].0, after, pairs[k].1);
    assert(replaced_upto(s, pairs, (k + 1) as nat) == t);
    later_replacements_are_absent(s, t, pairs, k, pairs.len());
}

proof fn later_replacements_are_absent(
    s: Seq<char>,
    t: Seq<char>,
    pairs: Seq<(Seq<char>, Seq<char>)>,
    k: int,
    n: nat,
)
    requires
        0 <= k < n <= pairs.len(),
        replaced_upto(s, pairs, (k + 1) as nat) == t,
        forall|j: int| k < j < pairs.len() ==> !text::contains_text(t, (#[trigger] pairs[j]).0),
    ensures
        replaced_upto(s, pairs, n) == t,
    decreases n,
{
    if n > k + 1 {
        later_replacements_are_absent(s, t, pairs, k, (n - 1) as nat);
        assert(!text::contains_text(t, pairs[n - 1].0));
        text::replace_absent(t, pairs[n - 1].0, pairs[n - 1].1);
    }
}

/// What no replacement applies to stays as it is: values other than texts, and texts
/// in which nothing to be replaced occurs.
pub proof fn other_values_are_not_rewritten(v: JsonView, pairs: Seq<(Seq<char>, Seq<char>)>)
    requires
        !(v is Array),
        !(v is Object),
        v matches JsonView::Text(s) ==> forall|j: int|
            0 <= j < pairs.len() ==> !text::contains_text(s, (#[trigger] pairs[j]).0),
    ensures
        rewritten(v, pairs) == v,
{
    if let JsonView::Text(s) = v {
        replaced_upto_absent(s, pairs, pairs.len());
    }
}

/// What a message is, by its members: with a method it is a request where it has an id,
/// else a notification; without one it is a response where it has a result or an error.
pub proof fn messages_are_told_by_their_members(v: JsonView, method: Seq<char>)
    ensures
        kind_of(v) == KindView::Request(method) <==> json::member(v, "method"@) == Some(
            JsonView::Text(method),
        ) && json::member(v, "id"@) is Some,
        kind_of(v) == KindView::Notification(method) <==> json::member(v, "method"@) == Some(
            JsonView::Text(method),
        ) && json::member(v, "id"@) is None,
        kind_of(v) == KindView::Response <==> !(json::member(v, "method"@) matches Some(
            JsonView::Text(_),
        )) && (json::member(v, "result"@) is Some || json::member(v, "error"@) is Some),
{
}

/// What requests name: a call its tool and arguments, a read its URI; and the id of a
/// message is the member of that name, or `null`.
pub proof fn requests_name_what_they_ask_for(
    v: JsonView,
    tool: Seq<char>,
    arguments: Seq<(Seq<char>, JsonView)>,
    uri: Seq<char>,
)
    ensures
        called_tool(v) == Some((tool, arguments)) <==> json::member_of(
            json::member(v, "params"@),
            "name"@,
        ) == Some(JsonView::Text(tool)) && json::member_of(
            json::member(v, "params"@),
            "arguments"@,
        ) == Some(JsonView::Object(arguments)),
        read_uri(v) == Some(uri) <==> json::member_of(json::member(v, "params"@), "uri"@) == Some(
            JsonView::Text(uri),
        ),
        json::member(v, "id"@) matches Some(id) ==> id_of(v) == id,
        json::member(v, "id"@) is None ==> id_of(v) == JsonView::Null,
{
}

/// The tools of a response are listed with their names and input schemas, in order;
/// where one of them lacks either, none is.
pub proof fn tools_are_listed_with_their_schemas(v: JsonView, tools: Seq<JsonView>, i: int)
    requires
        json::member_of(json::member(v, "result"@), "tools"@) == Some(JsonView::Array(tools)),
        0 <= i < tools.len(),
    ensures
        (exists|j: int|
            0 <= j < tools.len() && (!(json::member(#[trigger] tools[j], "name"@) matches Some(
                JsonView::Text(_),
            )) || json::member(tools[j], "inputSchema"@) is None)) ==> listed_schemas(v).len() == 0,
        listed_schemas(v).len() > 0 ==> listed_schemas(v).len() == tools.len() && json::member(
            tools[i],
            "name"@,
        ) == Some(JsonView::Text(listed_schemas(v)[i].name)) && json::member(
            tools[i],
            "inputSchema"@,
        ) == Some(listed_schemas(v)[i].input_schema),
        (forall|j: int|
            0 <= j < tools.len() ==> (json::member(#[trigger] tools[j], "name"@) matches Some(
                JsonView::Text(_),
            )) && json::member(tools[j], "inputSchema"@) is Some) ==> listed_schemas(v).len()
            == tools.len(),
{
    if exists|j: int|
        0 <= j < tools.len() && (!(json::member(#[trigger] tools[j], "name"@) matches Some(
            JsonView::Text(_),
        )) || json::member(tools[j], "inputSchema"@) is None) {
        let j = choose|j: int|
            0 <= j < tools.len() && (!(json::member(#[trigger] tools[j], "name"@) matches Some(
                JsonView::Text(_),
            )) || json::member(tools[j], "inputSchema"@) is None);
        assert(schema_of(tools[j]) is None);
    }
    if all_described(tools) {
        assert(schema_of(tools[i]) is Some);
        assert(descriptions(tools)[i] == schema_of(tools[i])->0);
    } else {
        assert(exists|j: int| 0 <= j < tools.len() && schema_of(#[trigger] tools[j]) is None);
    }
}

/// Every place where a replacement applies has it made: after the first one the rest of
/// the text is rewritten alike.
pub proof fn all_replacements_are_made(
    before: Seq<char>,
    after: Seq<char>,
    pairs: Seq<(Seq<char>, Seq<char>)>,
    k: int,
)
    requires
        0 <= k < pairs.len(),
        pairs[k].0.len() > 0,
        forall|i: int| #[trigger]
            text::occurs_at(before + pairs[k].0 + after, pairs[k].0, i) ==> i >= before.len(),
        forall|j: int|
            0 <= j < pairs.len() && j != k ==> !text::contains_text(
                before + pairs[k].0 + after,
                (#[trigger] pairs[j]).0,
            ) && !text::contains_text(
                before + pairs[k].1 + text::replaced(after, pairs[k].0, pairs[k].1),
                pairs[j].0,
            ),
    ensures
        rewritten(JsonView::Text(after), pairs) is Text,
        rewritten(JsonView::Text(before + pairs[k].0 + after), pairs) == JsonView::Text(
            before + pairs[k].1 + rewritten(JsonView::Text(after), pairs)->Text_0,
        ),
{
    let (c, h) = pairs[k];
    let s = before + c + after;
    let rest = text::replaced(after, c, h);
    let t = before + h + rest;
    text::replace_first(before, c, after, h);
    single_pair_applies(s, t, pairs, k);
    assert forall|j: int| 0 <= j < pairs.len() && j != k implies !text::contains_text(
        after,
        (#[trigger] pairs[j]).0,
    ) && !text::contains_text(rest, pairs[j].0) by {
        let n = (before + c).len() as int;
        let m = (before + h).len() as int;
        if text::contains_text(after, pairs[j].0) {
            let i = choose|i: int| text::occurs_at(after, pairs[j].0, i);
            let e = i + pairs[j].0.len();
            assert(s.subrange(n + i, n + e) =~= after.subrange(i, e));
            assert(text::occurs_at(s, pairs[j].0, n + i));
        }
        if text::contains_text(rest, pairs[j].0) {
            let i = choose|i: int| text::occurs_at(rest, pairs[j].0, i);
            let e = i + pairs[j].0.len();
            assert(t.subrange(m + i, m + e) =~= rest.subrange(i, e));
            assert(text::occurs_at(t, pairs[j].0, m + i));
        }
    }
    single_pair_applies(after, rest, pairs, k);
}

proof fn single_pair_applies(
    s: Seq<char>,
    t: Seq<char>,
    pairs: Seq<(Seq<char>, Seq<char>)>,
    k: int,
)
    requires
        0 <= k < pairs.len(),
        t == text::replaced(s, pairs[k].0, pairs[k].1),
        forall|j: int|
            0 <= j < pairs.len() && j != k ==> !text::contains_text(s, (#[trigger] pairs[j]).0)
                && !text::contains_text(t, pairs[j].0),
    ensures
        replaced_upto(s, pairs, pairs.len()) == t,
{
    replaced_upto_absent(s, pairs, k as nat);
    assert(replaced_upto(s, pairs, (k + 1) as nat) == t);
    later_replacements_are_absent(s, t, pairs, k, pairs.len());
}

} // verus!
