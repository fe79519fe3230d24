//! Finding the paths among the arguments of a tool call.
use vstd::prelude::*;

use crate::config::merge::EffectiveConfig;
use crate::json;
use crate::json::{Json, JsonView};
use crate::rpc::message;
use crate::rpc::message::ToolSchema;
use crate::table::Table;
use crate::text;

verus! {

// ---------------------------------------------------------------------------
// What the strategies find
// ---------------------------------------------------------------------------

/// The list under `key`; nothing where there is none.
pub open spec fn list_under(m: Map<Seq<char>, Vec<String>>, key: Seq<char>) -> Seq<Seq<char>> {
    if m.contains_key(key) {
        text::texts(m[key]@)
    } else {
        Seq::empty()
    }
}

/// The names listed for every tool and for this one.
pub open spec fn names_for(m: Map<Seq<char>, Vec<String>>, tool: Seq<char>) -> Seq<Seq<char>> {
    list_under(m, "*"@) + list_under(m, tool)
}

/// The pointer to the member `key` of what `pointer` points at.
pub open spec fn below(pointer: Seq<char>, key: Seq<char>) -> Seq<char> {
    pointer + "/"@ + json::escaped(key)
}

/// The config strategy: of the first `k` names, those that are arguments with a
/// text value.
pub open spec fn by_config(
    names: Seq<Seq<char>>,
    arguments: Seq<(Seq<char>, JsonView)>,
    k: nat,
) -> Seq<(Seq<char>, Seq<char>)>
    decreases k,
{
    if k == 0 {
        Seq::empty()
    } else {
        let before = by_config(names, arguments, (k - 1) as nat);
        match json::text_of(json::lookup(arguments, names[k - 1])) {
            Some(s) => before.push((below(""@, names[k - 1]), s)),
            None => before,
        }
    }
}

/// Whether a lowercase `format` marks a path.
pub open spec fn path_format(lowered: Seq<char>) -> bool {
    lowered == "path"@ || lowered == "uri"@
}

/// Whether a lowercase `description` marks a path.
pub open spec fn path_description(lowered: Seq<char>) -> bool {
    ||| text::contains_text(lowered, "file path"@)
    ||| text::contains_text(lowered, "filesystem path"@)
    ||| text::contains_text(lowered, "absolute path"@)
}

/// Whether a schema property describes a path.
pub open spec fn path_property(prop: JsonView) -> bool {
    ||| (json::text_of(json::member(prop, "format"@)) matches Some(f) && path_format(
        text::unicode_lowered(f),
    ))
    ||| (json::text_of(json::member(prop, "description"@)) matches Some(d) && path_description(
        text::unicode_lowered(d),
    ))
}

/// The schema strategy: of the first `k` arguments, those with a text value whose
/// property describes a path.
pub open spec fn by_schema(
    props: Seq<(Seq<char>, JsonView)>,
    arguments: Seq<(Seq<char>, JsonView)>,
    k: nat,
) -> Seq<(Seq<char>, Seq<char>)>
    decreases k,
{
    if k == 0 {
        Seq::empty()
    } else {
        let before = by_schema(props, arguments, (k - 1) as nat);
        let (key, value) = arguments[k - 1];
        match (json::text_of(Some(value)), json::lookup(props, key)) {
            (Some(s), Some(prop)) => if path_property(prop) {
                before.push((below(""@, key), s))
            } else {
                before
            },
            _ => before,
        }
    }
}

/// The properties of a tool's input schema.
pub open spec fn schema_props(
    schemas: Map<Seq<char>, ToolSchema>,
    tool: Seq<char>,
) -> Option<Seq<(Seq<char>, JsonView)>> {
    if schemas.contains_key(tool) {
        json::members_of(json::member(schemas[tool].input_schema@, "properties"@))
    } else {
        None
    }
}

/// Whether a text looks like a path.
pub open spec fn looks_like_path(s: Seq<char>, config: EffectiveConfig) -> bool {
    ||| config.heuristic_absolute_prefix && "/"@.is_prefix_of(s)
    ||| config.heuristic_home_prefix && "~/"@.is_prefix_of(s)
    ||| exists|i: int|
        0 <= i < config.heuristic_uri_prefix@.len() && (
        #[trigger] config.heuristic_uri_prefix@[i])@.is_prefix_of(s)
}

/// Whether the pointer is among those found.
pub open spec fn is_found(found: Seq<(Seq<char>, Seq<char>)>, pointer: Seq<char>) -> bool {
    exists|i: int| 0 <= i < found.len() && (#[trigger] found[i]).0 == pointer
}

/// The number of children of a value.
pub open spec fn child_count(v: JsonView) -> nat {
    match v {
        JsonView::Array(items) => items.len(),
        JsonView::Object(members) => members.len(),
        _ => 0,
    }
}

/// The heuristic strategy: the text values within `v`, in order, that look like
/// paths and whose pointers are not in `seen`.
pub open spec fn by_shape(
    v: JsonView,
    pointer: Seq<char>,
    config: EffectiveConfig,
    seen: Seq<(Seq<char>, Seq<char>)>,
) -> Seq<(Seq<char>, Seq<char>)>
    decreases v, child_count(v) + 1,
{
    match v {
        JsonView::Text(s) => if !is_found(seen, pointer) && looks_like_path(s, config) {
            seq![(pointer, s)]
        } else {
            Seq::empty()
        },
        _ => by_shape_among(v, child_count(v), pointer, config, seen),
    }
}

/// What [`by_shape`] finds in the first `k` children of `v`.
pub open spec fn by_shape_among(
    v: JsonView,
    k: nat,
    pointer: Seq<char>,
    config: EffectiveConfig,
    seen: Seq<(Seq<char>, Seq<char>)>,
) -> Seq<(Seq<char>, Seq<char>)>
    decreases v, k,
{
    if k == 0 || k > child_count(v) {
        Seq::empty()
    } else {
        let before = by_shape_among(v, (k - 1) as nat, pointer, config, seen);
        match v {
            JsonView::Array(items) => before + by_shape(
                items[k - 1],
                below(pointer, text::decimal((k - 1) as nat)),
                config,
                seen,
            ),
            JsonView::Object(members) => before + by_shape(
                members[k - 1].1,
                below(pointer, members[k - 1].0),
                config,
                seen,
            ),
            _ => before,
        }
    }
}

/// What one strategy finds, given what was found before it.
pub open spec fn by_strategy(
    strategy: Seq<char>,
    tool: Seq<char>,
    arguments: Seq<(Seq<char>, JsonView)>,
    config: EffectiveConfig,
    schemas: Map<Seq<char>, ToolSchema>,
    found: Seq<(Seq<char>, Seq<char>)>,
) -> Seq<(Seq<char>, Seq<char>)> {
    if strategy == "config"@ {
        let names = names_for(config.path_arguments@, tool);
        by_config(names, arguments, names.len())
    } else if strategy == "schema"@ {
        match schema_props(schemas, tool) {
            Some(props) => by_schema(props, arguments, arguments.len()),
            None => Seq::empty(),
        }
    } else if strategy == "heuristic"@ {
        by_shape(JsonView::Object(arguments), ""@, config, found)
    } else {
        Seq::empty()
    }
}

/// `found` and the first `k` results, without those whose pointer is there already.
pub open spec fn united(
    found: Seq<(Seq<char>, Seq<char>)>,
    results: Seq<(Seq<char>, Seq<char>)>,
    k: nat,
) -> Seq<(Seq<char>, Seq<char>)>
    decreases k,
{
    if k == 0 {
        found
    } else {
        let before = united(found, results, (k - 1) as nat);
        if is_found(before, results[k - 1].0) {
            before
        } else {
            before.push(results[k - 1])
        }
    }
}

/// What the first `k` strategies find together.
pub open spec fn found_by(
    strategies: Seq<Seq<char>>,
    tool: Seq<char>,
    arguments: Seq<(Seq<char>, JsonView)>,
    config: EffectiveConfig,
    schemas: Map<Seq<char>, ToolSchema>,
    k: nat,
) -> Seq<(Seq<char>, Seq<char>)>
    decreases k,
{
    if k == 0 {
        Seq::empty()
    } else {
        let before = found_by(strategies, tool, arguments, config, schemas, (k - 1) as nat);
        let results = by_strategy(
            strategies[k - 1],
            tool,
            arguments,
            config,
            schemas,
            before,
        );
        united(before, results, results.len())
    }
}

/// The last component of a pointer: the key or the position that it ends with.
pub open spec fn last_component(pointer: Seq<char>) -> Seq<char> {
    json::unescaped(text::split_on(pointer, '/').last())
}

/// The first `k` of `found` whose last pointer component is not among `names`.
pub open spec fn unsuppressed(
    found: Seq<(Seq<char>, Seq<char>)>,
    names: Seq<Seq<char>>,
    k: nat,
) -> Seq<(Seq<char>, Seq<char>)>
    decreases k,
{
    if k == 0 {
        Seq::empty()
    } else {
        let before = unsuppressed(found, names, (k - 1) as nat);
        if names.contains(last_component(found[k - 1].0)) {
            before
        } else {
            before.push(found[k - 1])
        }
    }
}

/// The paths among the arguments of a call: each a pointer into the arguments and
/// the text there.
pub open spec fn identified(
    tool: Seq<char>,
    arguments: Seq<(Seq<char>, JsonView)>,
    config: EffectiveConfig,
    schemas: Map<Seq<char>, ToolSchema>,
) -> Seq<(Seq<char>, Seq<char>)> {
    let strategies = text::texts(config.strategies@);
    let found = found_by(strategies, tool, arguments, config, schemas, strategies.len());
    unsuppressed(found, names_for(config.non_path_arguments@, tool), found.len())
}

// ---------------------------------------------------------------------------
// Finding them
// ---------------------------------------------------------------------------

/// The pointer to the member `key` of what `pointer` points at.
fn pointer_below(pointer: &str, key: &str) -> (r: String)
    ensures
        r@ == below(pointer@, key@),
{
    let s = text::cat(pointer, "/");
    text::cat(s.as_str(), json::escape(key).as_str())
}

/// Appends the list under `key`.
fn append_under(names: &mut Vec<String>, t: &Table<Vec<String>>, key: &str)
    ensures
        text::texts(final(names)@) == text::texts(old(names)@) + list_under(t@, key@),
{
    let ghost before = text::texts(names@);
    match t.get(key) {
        Some(list) => {
            let ghost all = text::texts(list@);
            let mut i: usize = 0;
            assert(before + all.take(0) =~= before);
            while i < list.len()
                invariant
                    all == text::texts(list@),
                    i <= list@.len(),
                    text::texts(names@) == before + all.take(i as int),
                decreases list@.len() - i,
            {
                let ghost so_far = names@;
                names.push(list[i].clone());
                assert(text::texts(names@) =~= text::texts(so_far).push(all[i as int]));
                assert(text::texts(names@) =~= before + all.take(i + 1));
                i = i + 1;
            }
            assert(all.take(i as int) =~= all);
        },
        None => {
            assert(before + Seq::<Seq<char>>::empty() =~= before);
        },
    }
}

/// The names listed for every tool and for this one.
fn names_of(t: &Table<Vec<String>>, tool: &str) -> (r: Vec<String>)
    ensures
        text::texts(r@) == names_for(t@, tool@),
{
    let mut r: Vec<String> = Vec::new();
    append_under(&mut r, t, "*");
    append_under(&mut r, t, tool);
    assert(text::texts(r@) =~= names_for(t@, tool@));
    r
}

/// The config strategy: the listed arguments, top level only.
fn apply_config_strategy(
    tool_name: &str,
    arguments: &Vec<(String, Json)>,
    config: &EffectiveConfig,
) -> (r: Vec<(String, String)>)
    ensures
        ({
            let names = names_for(config.path_arguments@, tool_name@);
            message::pair_views(r@) == by_config(
                names,
                json::member_views(arguments@),
                names.len(),
            )
        }),
{
    let names = names_of(&config.path_arguments, tool_name);
    let ghost all = text::texts(names@);
    let ghost args = json::member_views(arguments@);
    let mut r: Vec<(String, String)> = Vec::new();
    assert(message::pair_views(r@) =~= Seq::empty());
    let mut i: usize = 0;
    while i < names.len()
        invariant
            all == text::texts(names@),
            args == json::member_views(arguments@),
            i <= names@.len(),
            message::pair_views(r@) == by_config(all, args, i as nat),
        decreases names@.len() - i,
    {
        let ghost before = message::pair_views(r@);
        assert(all[i as int] == names@[i as int]@);
        match json::find_member(arguments, names[i].as_str()) {
            Some(value) => match value.as_str() {
                Some(s) => {
                    let pointer = pointer_below("", names[i].as_str());
                    r.push((pointer, s.to_owned()));
                    assert(message::pair_views(r@) =~= before.push((below(""@, all[i as int]), s@)));
                },
                None => {},
            },
            None => {},
        }
        i = i + 1;
    }
    r
}

/// Whether a lowercase `format` marks a path.
pub fn is_path_format(lowered: &str) -> (r: bool)
    ensures
        r == path_format(lowered@),
{
    text::str_eq(lowered, "path") || text::str_eq(lowered, "uri")
}

/// Whether a lowercase `description` marks a path.
pub fn is_path_description(lowered: &str) -> (r: bool)
    ensures
        r == path_description(lowered@),
{
    text::has_text(lowered, "file path") || text::has_text(lowered, "filesystem path")
        || text::has_text(lowered, "absolute path")
}

/// Whether a schema property describes a path.
fn is_path_property(prop: &Json) -> (r: bool)
    ensures
        r == path_property(prop@),
{
    match prop.get("format") {
        Some(j) => match j.as_str() {
            Some(f) => if is_path_format(text::to_lowercase(f).as_str()) {
                return true;
            },
            None => {},
        },
        None => {},
    }
    match prop.get("description") {
        Some(j) => match j.as_str() {
            Some(d) => is_path_description(text::to_lowercase(d).as_str()),
            None => false,
        },
        None => false,
    }
}

/// The schema strategy: the arguments that the tool's input schema describes as
/// paths, top level only.
fn apply_schema_strategy(
    tool_name: &str,
    arguments: &Vec<(String, Json)>,
    schemas: &Table<ToolSchema>,
) -> (r: Vec<(String, String)>)
    ensures
        message::pair_views(r@) == match schema_props(schemas@, tool_name@) {
            Some(props) => by_schema(props, json::member_views(arguments@), arguments@.len()),
            None => Seq::empty(),
        },
{
    let mut r: Vec<(String, String)> = Vec::new();
    assert(message::pair_views(r@) =~= Seq::empty());
    let schema = match schemas.get(tool_name) {
        Some(s) => s,
        None => return r,
    };
    let props = match schema.input_schema.get("properties") {
        Some(j) => match j.as_object() {
            Some(p) => p,
            None => return r,
        },
        None => return r,
    };
    let ghost all = json::member_views(props@);
    let ghost args = json::member_views(arguments@);
    let mut i: usize = 0;
    while i < arguments.len()
        invariant
            all == json::member_views(props@),
            args == json::member_views(arguments@),
            i <= arguments@.len(),
            message::pair_views(r@) == by_schema(all, args, i as nat),
        decreases arguments@.len() - i,
    {
        let ghost before = message::pair_views(r@);
        let key = arguments[i].0.as_str();
        assert(args[i as int] == (key@, arguments@[i as int].1@));
        match (arguments[i].1.as_str(), json::find_member(props, key)) {
            (Some(s), Some(prop)) => {
                if is_path_property(prop) {
                    let pointer = pointer_below("", key);
                    r.push((pointer, s.to_owned()));
                    assert(message::pair_views(r@) =~= before.push((below(""@, key@), s@)));
                }
            },
            _ => {},
        }
        i = i + 1;
    }
    r
}

/// Whether a text looks like a path.
fn is_path_by_heuristic(value: &str, config: &EffectiveConfig) -> (r: bool)
    ensures
        r == looks_like_path(value@, *config),
{
    if config.heuristic_absolute_prefix && text::has_prefix(value, "/") {
        return true;
    }
    if config.heuristic_home_prefix && text::has_prefix(value, "~/") {
        return true;
    }
    let mut i: usize = 0;
    while i < config.heuristic_uri_prefix.len()
        invariant
            i <= config.heuristic_uri_prefix@.len(),
            forall|j: int|
                0 <= j < i ==> !(#[trigger] config.heuristic_uri_prefix@[j])@.is_prefix_of(value@),
        decreases config.heuristic_uri_prefix@.len() - i,
    {
        if text::has_prefix(value, config.heuristic_uri_prefix[i].as_str()) {
            return true;
        }
        i = i + 1;
    }
    false
}

/// Whether the pointer is among those found.
fn has_pointer(found: &Vec<(String, String)>, pointer: &str) -> (r: bool)
    ensures
        r == is_found(message::pair_views(found@), pointer@),
{
    let ghost all = message::pair_views(found@);
    let mut i: usize = 0;
    while i < found.len()
        invariant
            all == message::pair_views(found@),
            i <= found@.len(),
            forall|j: int| 0 <= j < i ==> (#[trigger] all[j]).0 != pointer@,
        decreases found@.len() - i,
    {
        if text::str_eq(found[i].0.as_str(), pointer) {
            assert(all[i as int].0 == pointer@);
            return true;
        }
        i = i + 1;
    }
    false
}

/// Appends what the heuristic strategy finds in `value`.
fn collect_heuristic(
    value: &Json,
    pointer: &str,
    config: &EffectiveConfig,
    already_seen: &Vec<(String, String)>,
    out: &mut Vec<(String, String)>,
)
    ensures
        message::pair_views(final(out)@) == message::pair_views(old(out)@) + by_shape(
            value@,
            pointer@,
            *config,
            message::pair_views(already_seen@),
        ),
    decreases value,
{
    let ghost seen = message::pair_views(already_seen@);
    let ghost before = message::pair_views(out@);
    proof {
        json::object_view(value);
    }
    match value {
        Json::Text(s) => {
            if !has_pointer(already_seen, pointer) && is_path_by_heuristic(s.as_str(), config) {
                out.push((pointer.to_owned(), s.clone()));
                assert(message::pair_views(out@) =~= before + seq![(pointer@, s@)]);
            } else {
                assert(before + Seq::<(Seq<char>, Seq<char>)>::empty() =~= before);
            }
        },
        Json::Array(items) => {
            let mut i: usize = 0;
            assert(before + by_shape_among(value@, 0, pointer@, *config, seen) =~= before);
            while i < items.len()
                invariant
                    *value matches Json::Array(v) && v == *items,
                    value@ == JsonView::Array(json::item_views(items@)),
                    seen == message::pair_views(already_seen@),
                    i <= items@.len(),
                    message::pair_views(out@) == before + by_shape_among(
                        value@,
                        i as nat,
                        pointer@,
                        *config,
                        seen,
                    ),
                decreases items@.len() - i,
            {
                let here = pointer_below(pointer, text::decimal_of(i as u64).as_str());
                assert(json::item_views(items@)[i as int] == items@[i as int]@);
                collect_heuristic(&items[i], here.as_str(), config, already_seen, out);
                assert(message::pair_views(out@) =~= before + by_shape_among(
                    value@,
                    (i + 1) as nat,
                    pointer@,
                    *config,
                    seen,
                ));
                i = i + 1;
            }
        },
        Json::Object(members) => {
            let mut i: usize = 0;
            assert(before + by_shape_among(value@, 0, pointer@, *config, seen) =~= before);
            while i < members.len()
                invariant
                    *value matches Json::Object(v) && v == *members,
                    value@ == JsonView::Object(json::member_views(members@)),
                    seen == message::pair_views(already_seen@),
                    i <= members@.len(),
                    message::pair_views(out@) == before + by_shape_among(
                        value@,
                        i as nat,
                        pointer@,
                        *config,
                        seen,
                    ),
                decreases members@.len() - i,
            {
                let here = pointer_below(pointer, members[i].0.as_str());
                assert(json::member_views(members@)[i as int] == (
                    members@[i as int].0@,
                    members@[i as int].1@,
                ));
                collect_heuristic(&members[i].1, here.as_str(), config, already_seen, out);
                assert(message::pair_views(out@) =~= before + by_shape_among(
                    value@,
                    (i + 1) as nat,
                    pointer@,
                    *config,
                    seen,
                ));
                i = i + 1;
            }
        },
        _ => {
            assert(before + by_shape_among(value@, 0, pointer@, *config, seen) =~= before);
        },
    }
}

/// The heuristic strategy: every text value within the arguments, however deeply
/// nested, that looks like a path and is not in `already_seen`.
fn apply_heuristic_strategy(
    arguments: &Vec<(String, Json)>,
    config: &EffectiveConfig,
    already_seen: &Vec<(String, String)>,
) -> (r: Vec<(String, String)>)
    ensures
        message::pair_views(r@) == by_shape(
            JsonView::Object(json::member_views(arguments@)),
            ""@,
            *config,
            message::pair_views(already_seen@),
        ),
{
    let ghost seen = message::pair_views(already_seen@);
    let ghost args = json::member_views(arguments@);
    let ghost whole = JsonView::Object(args);
    let mut r: Vec<(String, String)> = Vec::new();
    assert(message::pair_views(r@) =~= by_shape_among(whole, 0, ""@, *config, seen));
    let mut i: usize = 0;
    while i < arguments.len()
        invariant
            seen == message::pair_views(already_seen@),
            args == json::member_views(arguments@),
            whole == JsonView::Object(args),
            i <= arguments@.len(),
            message::pair_views(r@) == by_shape_among(whole, i as nat, ""@, *config, seen),
        decreases arguments@.len() - i,
    {
        let here = pointer_below("", arguments[i].0.as_str());
        assert(args[i as int] == (arguments@[i as int].0@, arguments@[i as int].1@));
        collect_heuristic(&arguments[i].1, here.as_str(), config, already_seen, &mut r);
        i = i + 1;
    }
    r
}

/// Adds the results whose pointers are not there yet.
fn unite(found: &mut Vec<(String, String)>, results: &Vec<(String, String)>)
    ensures
        message::pair_views(final(found)@) == united(
            message::pair_views(old(found)@),
            message::pair_views(results@),
            results@.len(),
        ),
{
    let ghost before = message::pair_views(found@);
    let ghost all = message::pair_views(results@);
    let mut i: usize = 0;
    while i < results.len()
        invariant
            all == message::pair_views(results@),
            i <= results@.len(),
            message::pair_views(found@) == united(before, all, i as nat),
        decreases results@.len() - i,
    {
        let ghost so_far = message::pair_views(found@);
        assert(all[i as int] == (results@[i as int].0@, results@[i as int].1@));
        if !has_pointer(found, results[i].0.as_str()) {
            found.push((results[i].0.clone(), results[i].1.clone()));
            assert(message::pair_views(found@) =~= so_far.push(all[i as int]));
        }
        i = i + 1;
    }
}

/// The paths among `arguments`, as pairs of a JSON pointer and the text there. The
/// pointer is relative to the arguments (`"/path"` for a top-level argument,
/// `"/sources/0/path"` for a nested value).
///
/// The configured strategies are tried in order and their results united. An entry
/// whose last pointer component is listed as a non-path argument is left out.
pub fn identify_path_args(
    tool_name: &str,
    arguments: &Vec<(String, Json)>,
    config: &EffectiveConfig,
    schemas: &Table<ToolSchema>,
) -> (r: Vec<(String, String)>)
    ensures
        message::pair_views(r@) == identified(
            tool_name@,
            json::member_views(arguments@),
            *config,
            schemas@,
        ),
        addressable(JsonView::Object(json::member_views(arguments@))) ==> forall|
            tokens: Seq<Seq<char>>,
        | #[trigger]
            json::selected(JsonView::Object(json::member_views(arguments@)), tokens) matches Some(
                JsonView::Text(s),
            ) ==> (message::pair_views(r@).contains((json::pointer_of(tokens), s))
                <==> is_path_argument(tool_name@, tokens, s, *config, schemas@)),
{
    let ghost args = json::member_views(arguments@);
    let ghost strategies = text::texts(config.strategies@);
    let mut found: Vec<(String, String)> = Vec::new();
    assert(message::pair_views(found@) =~= Seq::empty());
    let mut i: usize = 0;
    while i < config.strategies.len()
        invariant
            args == json::member_views(arguments@),
            strategies == text::texts(config.strategies@),
            i <= config.strategies@.len(),
            message::pair_views(found@) == found_by(
                strategies,
                tool_name@,
                args,
                *config,
                schemas@,
                i as nat,
            ),
        decreases config.strategies@.len() - i,
    {
        let ghost before = message::pair_views(found@);
        let strategy = config.strategies[i].as_str();
        assert(strategies[i as int] == strategy@);
        let results = if text::str_eq(strategy, "config") {
            apply_config_strategy(tool_name, arguments, config)
        } else if text::str_eq(strategy, "schema") {
            apply_schema_strategy(tool_name, arguments, schemas)
        } else if text::str_eq(strategy, "heuristic") {
            apply_heuristic_strategy(arguments, config, &found)
        } else {
            Vec::new()
        };
        proof {
            let ghost all = by_strategy(strategy@, tool_name@, args, *config, schemas@, before);
            assert(message::pair_views(results@) =~= all);
        }
        unite(&mut found, &results);
        i = i + 1;
    }
    let suppressed = names_of(&config.non_path_arguments, tool_name);
    let ghost all = message::pair_views(found@);
    let ghost names = text::texts(suppressed@);
    let mut kept: Vec<(String, String)> = Vec::new();
    assert(message::pair_views(kept@) =~= Seq::empty());
    let mut j: usize = 0;
    while j < found.len()
        invariant
            all == message::pair_views(found@),
            names == text::texts(suppressed@),
            j <= found@.len(),
            message::pair_views(kept@) == unsuppressed(all, names, j as nat),
        decreases found@.len() - j,
    {
        let ghost before = message::pair_views(kept@);
        assert(all[j as int] == (found@[j as int].0@, found@[j as int].1@));
        let pieces = text::split(found[j].0.as_str(), '/');
        let piece = pieces[pieces.len() - 1].as_str();
        assert(text::split_on(all[j as int].0, '/').last() == piece@);
        let last = json::unescape(piece);
        if !text::list_has(&suppressed, last.as_str()) {
            kept.push((found[j].0.clone(), found[j].1.clone()));
            assert(message::pair_views(kept@) =~= before.push(all[j as int]));
        }
        j = j + 1;
    }
    proof {
        let root = JsonView::Object(args);
        if addressable(root) {
            assert forall|tokens: Seq<Seq<char>>| #[trigger]
                json::selected(root, tokens) matches Some(JsonView::Text(s)) ==> (identified(
                tool_name@,
                args,
                *config,
                schemas@,
            ).contains((json::pointer_of(tokens), s)) <==> is_path_argument(
                tool_name@,
                tokens,
                s,
                *config,
                schemas@,
            )) by {
                if let Some(JsonView::Text(s)) = json::selected(root, tokens) {
                    path_arguments_are_identified(tool_name@, args, *config, schemas@, tokens, s);
                }
            }
        }
    }
    kept
}

// ---------------------------------------------------------------------------
// Laws
// ---------------------------------------------------------------------------

/// No object within `v` has two members of one name, and no array is longer than an
/// index can count.
pub open spec fn addressable(v: JsonView) -> bool
    decreases v,
{
    match v {
        JsonView::Array(items) => {
            &&& items.len() <= usize::MAX
            &&& forall|i: int| 0 <= i < items.len() ==> addressable(#[trigger] items[i])
        },
        JsonView::Object(members) => {
            &&& forall|i: int| 0 <= i < members.len() ==> addressable((#[trigger] members[i]).1)
            &&& forall|i: int, j: int|
                0 <= i < j < members.len() ==> (#[trigger] members[i]).0 != (#[trigger] members[j]).0
        },
        _ => true,
    }
}

/// The pointer of a finding leads to the text that was found, and is written as
/// pointers are.
pub open spec fn leads_back(root: JsonView, e: (Seq<char>, Seq<char>)) -> bool {
    &&& json::pointer_tokens(e.0) is Some
    &&& e.0 == json::pointer_of(json::pointer_tokens(e.0)->0)
    &&& json::selected(root, json::pointer_tokens(e.0)->0) == Some(JsonView::Text(e.1))
}

pub open spec fn all_lead_back(root: JsonView, found: Seq<(Seq<char>, Seq<char>)>) -> bool {
    forall|i: int| 0 <= i < found.len() ==> leads_back(root, #[trigger] found[i])
}

/// No pointer is found twice.
pub open spec fn distinct_pointers(found: Seq<(Seq<char>, Seq<char>)>) -> bool {
    forall|i: int, j: int|
        0 <= i < j < found.len() ==> (#[trigger] found[i]).0 != (#[trigger] found[j]).0
}

proof fn position_of_distinct(members: Seq<(Seq<char>, JsonView)>, k: int)
    requires
        0 <= k < members.len(),
        forall|i: int, j: int|
            0 <= i < j < members.len() ==> (#[trigger] members[i]).0 != (#[trigger] members[j]).0,
    ensures
        json::key_position(members, members[k].0) == Some(k as nat),
    decreases members.len(),
{
    if k > 0 {
        assert(members[0].0 != members[k].0);
        let rest = members.skip(1);
        assert(rest[k - 1] == members[k]);
        assert forall|i: int, j: int| 0 <= i < j < rest.len() implies (#[trigger] rest[i]).0 != (
        #[trigger] rest[j]).0 by {
            assert(members[i + 1].0 != members[j + 1].0);
        }
        position_of_distinct(rest, k - 1);
    }
}

/// A child of a value is found under its pointer.
proof fn child_leads(root: JsonView, v: JsonView, pointer: Seq<char>, key: Seq<char>, k: nat)
    requires
        json::pointer_tokens(pointer) is Some,
        pointer == json::pointer_of(json::pointer_tokens(pointer)->0),
        json::selected(root, json::pointer_tokens(pointer)->0) == Some(v),
        json::child_position(v, key) == Some(k),
    ensures
        json::pointer_tokens(below(pointer, key)) is Some,
        below(pointer, key) == json::pointer_of(json::pointer_tokens(below(pointer, key))->0),
        json::selected(root, json::pointer_tokens(below(pointer, key))->0) == Some(
            json::child(v, k),
        ),
{
    reveal_strlit("/");
    let whole = below(pointer, key);
    assert(whole =~= pointer.push('/') + json::escaped(key));
    let tokens = json::pointer_tokens(pointer)->0;
    assert(tokens.push(key).drop_last() =~= tokens);
    json::pointer_below(pointer, key);
    json::selected_child(root, json::pointer_tokens(pointer)->0, key);
}

proof fn by_shape_leads(
    root: JsonView,
    v: JsonView,
    pointer: Seq<char>,
    config: EffectiveConfig,
    seen: Seq<(Seq<char>, Seq<char>)>,
)
    requires
        addressable(v),
        json::pointer_tokens(pointer) is Some,
        pointer == json::pointer_of(json::pointer_tokens(pointer)->0),
        json::selected(root, json::pointer_tokens(pointer)->0) == Some(v),
    ensures
        all_lead_back(root, by_shape(v, pointer, config, seen)),
    decreases v, child_count(v) + 1,
{
    if !(v is Text) {
        by_shape_among_leads(root, v, child_count(v), pointer, config, seen);
    }
}

proof fn by_shape_among_leads(
    root: JsonView,
    v: JsonView,
    k: nat,
    pointer: Seq<char>,
    config: EffectiveConfig,
    seen: Seq<(Seq<char>, Seq<char>)>,
)
    requires
        addressable(v),
        k <= child_count(v),
        json::pointer_tokens(pointer) is Some,
        pointer == json::pointer_of(json::pointer_tokens(pointer)->0),
        json::selected(root, json::pointer_tokens(pointer)->0) == Some(v),
    ensures
        all_lead_back(root, by_shape_among(v, k, pointer, config, seen)),
    decreases v, k,
{
    if k > 0 {
        let n = (k - 1) as nat;
        by_shape_among_leads(root, v, n, pointer, config, seen);
        match v {
            JsonView::Array(items) => {
                let key = text::decimal(n);
                text::decimal_is_digits(n);
                child_leads(root, v, pointer, key, n);
                by_shape_leads(root, items[n as int], below(pointer, key), config, seen);
            },
            JsonView::Object(members) => {
                let key = members[n as int].0;
                position_of_distinct(members, n as int);
                child_leads(root, v, pointer, key, n);
                by_shape_leads(root, members[n as int].1, below(pointer, key), config, seen);
            },
            _ => {},
        }
    }
}

proof fn top_level_leads(arguments: Seq<(Seq<char>, JsonView)>, key: Seq<char>, s: Seq<char>)
    requires
        addressable(JsonView::Object(arguments)),
        json::lookup(arguments, key) == Some(JsonView::Text(s)),
    ensures
        leads_back(JsonView::Object(arguments), (below(""@, key), s)),
{
    let root = JsonView::Object(arguments);
    reveal_strlit("");
    json::lookup_is_position(arguments, key);
    let k = json::key_position(arguments, key)->0;
    assert(json::pointer_tokens(""@) == Some(Seq::<Seq<char>>::empty()));
    assert(json::selected(root, Seq::<Seq<char>>::empty()) == Some(root));
    assert(""@ =~= json::pointer_of(Seq::empty()));
    child_leads(root, root, ""@, key, k);
}

proof fn by_config_leads(
    names: Seq<Seq<char>>,
    arguments: Seq<(Seq<char>, JsonView)>,
    k: nat,
)
    requires
        addressable(JsonView::Object(arguments)),
        k <= names.len(),
    ensures
        all_lead_back(JsonView::Object(arguments), by_config(names, arguments, k)),
    decreases k,
{
    if k > 0 {
        by_config_leads(names, arguments, (k - 1) as nat);
        if let Some(s) = json::text_of(json::lookup(arguments, names[k - 1])) {
            top_level_leads(arguments, names[k - 1], s);
        }
    }
}

proof fn by_schema_leads(
    props: Seq<(Seq<char>, JsonView)>,
    arguments: Seq<(Seq<char>, JsonView)>,
    k: nat,
)
    requires
        addressable(JsonView::Object(arguments)),
        k <= arguments.len(),
    ensures
        all_lead_back(JsonView::Object(arguments), by_schema(props, arguments, k)),
    decreases k,
{
    if k > 0 {
        by_schema_leads(props, arguments, (k - 1) as nat);
        let (key, value) = arguments[k - 1];
        if let Some(s) = json::text_of(Some(value)) {
            let root = JsonView::Object(arguments);
            assert(addressable(root) && root->Object_0 == arguments);
            position_of_distinct(arguments, k - 1);
            json::lookup_is_position(arguments, key);
            top_level_leads(arguments, key, s);
        }
    }
}

proof fn by_strategy_leads(
    strategy: Seq<char>,
    tool: Seq<char>,
    arguments: Seq<(Seq<char>, JsonView)>,
    config: EffectiveConfig,
    schemas: Map<Seq<char>, ToolSchema>,
    found: Seq<(Seq<char>, Seq<char>)>,
)
    requires
        addressable(JsonView::Object(arguments)),
    ensures
        all_lead_back(
            JsonView::Object(arguments),
            by_strategy(strategy, tool, arguments, config, schemas, found),
        ),
{
    let root = JsonView::Object(arguments);
    let names = names_for(config.path_arguments@, tool);
    by_config_leads(names, arguments, names.len());
    if let Some(props) = schema_props(schemas, tool) {
        by_schema_leads(props, arguments, arguments.len());
    }
    reveal_strlit("");
    assert(json::pointer_tokens(""@) == Some(Seq::<Seq<char>>::empty()));
    assert(json::selected(root, Seq::<Seq<char>>::empty()) == Some(root));
    assert(""@ =~= json::pointer_of(Seq::empty()));
    by_shape_leads(root, root, ""@, config, found);
}

proof fn united_keeps(
    root: JsonView,
    found: Seq<(Seq<char>, Seq<char>)>,
    results: Seq<(Seq<char>, Seq<char>)>,
    k: nat,
)
    requires
        k <= results.len(),
        distinct_pointers(found),
    ensures
        distinct_pointers(united(found, results, k)),
        all_lead_back(root, found) && all_lead_back(root, results) ==> all_lead_back(
            root,
            united(found, results, k),
        ),
    decreases k,
{
    if k > 0 {
        united_keeps(root, found, results, (k - 1) as nat);
        let before = united(found, results, (k - 1) as nat);
        let after = united(found, results, k);
        if !is_found(before, results[k - 1].0) {
            assert forall|i: int, j: int| 0 <= i < j < after.len() implies (#[trigger] after[i]).0
                != (#[trigger] after[j]).0 by {
                if j < before.len() {
                    assert(before[i].0 != before[j].0);
                } else {
                    assert(before[i].0 != results[k - 1].0);
                }
            }
        }
    }
}

proof fn found_by_keeps(
    strategies: Seq<Seq<char>>,
    tool: Seq<char>,
    arguments: Seq<(Seq<char>, JsonView)>,
    config: EffectiveConfig,
    schemas: Map<Seq<char>, ToolSchema>,
    k: nat,
)
    requires
        k <= strategies.len(),
    ensures
        distinct_pointers(found_by(strategies, tool, arguments, config, schemas, k)),
        addressable(JsonView::Object(arguments)) ==> all_lead_back(
            JsonView::Object(arguments),
            found_by(strategies, tool, arguments, config, schemas, k),
        ),
    decreases k,
{
    if k > 0 {
        found_by_keeps(strategies, tool, arguments, config, schemas, (k - 1) as nat);
        let before = found_by(strategies, tool, arguments, config, schemas, (k - 1) as nat);
        let results = by_strategy(strategies[k - 1], tool, arguments, config, schemas, before);
        if addressable(JsonView::Object(arguments)) {
            by_strategy_leads(strategies[k - 1], tool, arguments, config, schemas, before);
        }
        united_keeps(JsonView::Object(arguments), before, results, results.len());
    }
}

proof fn unsuppressed_keeps(
    root: JsonView,
    found: Seq<(Seq<char>, Seq<char>)>,
    names: Seq<Seq<char>>,
    k: nat,
)
    requires
        k <= found.len(),
        distinct_pointers(found),
    ensures
        ({
            let kept = unsuppressed(found, names, k);
            &&& distinct_pointers(kept)
            &&& all_lead_back(root, found) ==> all_lead_back(root, kept)
            &&& forall|i: int|
                0 <= i < kept.len() ==> !names.contains(last_component((#[trigger] kept[i]).0))
            &&& forall|i: int|
                0 <= i < kept.len() ==> exists|m: int| 0 <= m < k && found[m] == #[trigger] kept[i]
        }),
    decreases k,
{
    if k > 0 {
        unsuppressed_keeps(root, found, names, (k - 1) as nat);
        let before = unsuppressed(found, names, (k - 1) as nat);
        let kept = unsuppressed(found, names, k);
        assert forall|i: int| 0 <= i < kept.len() implies exists|m: int|
            0 <= m < k && found[m] == #[trigger] kept[i] by {
            if i < before.len() {
                assert(kept[i] == before[i]);
                let m = choose|m: int| 0 <= m < k - 1 && found[m] == before[i];
                assert(found[m] == kept[i]);
            } else {
                assert(found[k - 1] == kept[i]);
            }
        }
        assert forall|i: int, j: int| 0 <= i < j < kept.len() implies (#[trigger] kept[i]).0 != (
        #[trigger] kept[j]).0 by {
            if j < before.len() {
                assert(before[i].0 != before[j].0);
            } else {
                assert(before[i] == kept[i]);
                let m = choose|m: int| 0 <= m < k - 1 && found[m] == before[i];
                assert(found[m].0 != found[k - 1].0);
            }
        }
    }
}

/// No argument is identified twice.
pub proof fn identified_pointers_are_distinct(
    tool: Seq<char>,
    arguments: Seq<(Seq<char>, JsonView)>,
    config: EffectiveConfig,
    schemas: Map<Seq<char>, ToolSchema>,
)
    ensures
        distinct_pointers(identified(tool, arguments, config, schemas)),
{
    let strategies = text::texts(config.strategies@);
    let found = found_by(strategies, tool, arguments, config, schemas, strategies.len());
    found_by_keeps(strategies, tool, arguments, config, schemas, strategies.len());
    unsuppressed_keeps(
        JsonView::Object(arguments),
        found,
        names_for(config.non_path_arguments@, tool),
        found.len(),
    );
}

/// The last component of the pointer to a member is the member's name, whatever
/// characters it has.
pub proof fn pointers_end_with_their_keys(pointer: Seq<char>, key: Seq<char>)
    ensures
        last_component(below(pointer, key)) == key,
{
    reveal_strlit("/");
    let token = json::escaped(key);
    json::escapes_are_undone(key);
    text::split_append(pointer, '/', token);
    assert(below(pointer, key) =~= pointer.push('/') + token);
}

/// An argument listed as a non-path argument, for every tool or for this one, is
/// never identified, whichever strategy would find it.
pub proof fn non_path_arguments_are_never_identified(
    tool: Seq<char>,
    arguments: Seq<(Seq<char>, JsonView)>,
    config: EffectiveConfig,
    schemas: Map<Seq<char>, ToolSchema>,
    name: Seq<char>,
)
    requires
        list_under(config.non_path_arguments@, "*"@).contains(name) || list_under(
            config.non_path_arguments@,
            tool,
        ).contains(name),
    ensures
        forall|i: int|
            0 <= i < identified(tool, arguments, config, schemas).len() ==> last_component(
                (#[trigger] identified(tool, arguments, config, schemas)[i]).0,
            ) != name,
{
    let strategies = text::texts(config.strategies@);
    let found = found_by(strategies, tool, arguments, config, schemas, strategies.len());
    let names = names_for(config.non_path_arguments@, tool);
    found_by_keeps(strategies, tool, arguments, config, schemas, strategies.len());
    unsuppressed_keeps(JsonView::Object(arguments), found, names, found.len());
    let wild = list_under(config.non_path_arguments@, "*"@);
    let own = list_under(config.non_path_arguments@, tool);
    assert(names.contains(name)) by {
        if wild.contains(name) {
            let i = choose|i: int| 0 <= i < wild.len() && wild[i] == name;
            assert(names[i] == name);
        } else {
            let i = choose|i: int| 0 <= i < own.len() && own[i] == name;
            assert(names[wild.len() + i] == name);
        }
    }
}

/// The pointer of every identified argument leads to the very text that was
/// identified.
pub proof fn identified_pointers_lead_back(
    tool: Seq<char>,
    arguments: Seq<(Seq<char>, JsonView)>,
    config: EffectiveConfig,
    schemas: Map<Seq<char>, ToolSchema>,
)
    requires
        addressable(JsonView::Object(arguments)),
    ensures
        all_lead_back(
            JsonView::Object(arguments),
            identified(tool, arguments, config, schemas),
        ),
{
    let strategies = text::texts(config.strategies@);
    let found = found_by(strategies, tool, arguments, config, schemas, strategies.len());
    found_by_keeps(strategies, tool, arguments, config, schemas, strategies.len());
    unsuppressed_keeps(
        JsonView::Object(arguments),
        found,
        names_for(config.non_path_arguments@, tool),
        found.len(),
    );
}

/// What a strategy finds on its own.
pub open spec fn finds(
    strategy: Seq<char>,
    tool: Seq<char>,
    arguments: Seq<(Seq<char>, JsonView)>,
    config: EffectiveConfig,
    schemas: Map<Seq<char>, ToolSchema>,
) -> Seq<(Seq<char>, Seq<char>)> {
    by_strategy(strategy, tool, arguments, config, schemas, Seq::empty())
}

proof fn joined_contains(
    a: Seq<(Seq<char>, Seq<char>)>,
    b: Seq<(Seq<char>, Seq<char>)>,
    e: (Seq<char>, Seq<char>),
)
    ensures
        (a + b).contains(e) == (a.contains(e) || b.contains(e)),
{
    let whole = a + b;
    if a.contains(e) {
        let i = choose|i: int| 0 <= i < a.len() && a[i] == e;
        assert(whole[i] == e);
    }
    if b.contains(e) {
        let i = choose|i: int| 0 <= i < b.len() && b[i] == e;
        assert(whole[a.len() + i] == e);
    }
    if whole.contains(e) {
        let i = choose|i: int| 0 <= i < whole.len() && whole[i] == e;
        if i < a.len() {
            assert(a[i] == e);
        } else {
            assert(b[i - a.len()] == e);
        }
    }
}

/// The heuristic strategy leaves out what was seen, and nothing else.
proof fn by_shape_unseen(
    v: JsonView,
    pointer: Seq<char>,
    config: EffectiveConfig,
    seen: Seq<(Seq<char>, Seq<char>)>,
    e: (Seq<char>, Seq<char>),
)
    ensures
        by_shape(v, pointer, config, seen).contains(e) == (by_shape(
            v,
            pointer,
            config,
            Seq::empty(),
        ).contains(e) && !is_found(seen, e.0)),
    decreases v, child_count(v) + 1,
{
    match v {
        JsonView::Text(s) => {
            let one = seq![(pointer, s)];
            assert(one[0] == (pointer, s));
            assert(one.contains(e) == (e == (pointer, s)));
        },
        _ => {
            by_shape_among_unseen(v, child_count(v), pointer, config, seen, e);
        },
    }
}

proof fn by_shape_among_unseen(
    v: JsonView,
    k: nat,
    pointer: Seq<char>,
    config: EffectiveConfig,
    seen: Seq<(Seq<char>, Seq<char>)>,
    e: (Seq<char>, Seq<char>),
)
    ensures
        by_shape_among(v, k, pointer, config, seen).contains(e) == (by_shape_among(
            v,
            k,
            pointer,
            config,
            Seq::empty(),
        ).contains(e) && !is_found(seen, e.0)),
    decreases v, k,
{
    let none = Seq::<(Seq<char>, Seq<char>)>::empty();
    if 0 < k <= child_count(v) {
        let n = (k - 1) as nat;
        by_shape_among_unseen(v, n, pointer, config, seen, e);
        let (child, key) = match v {
            JsonView::Array(items) => (items[n as int], text::decimal(n)),
            JsonView::Object(members) => (members[n as int].1, members[n as int].0),
            _ => (v, Seq::empty()),
        };
        match v {
            JsonView::Array(items) => {
                by_shape_unseen(items[n as int], below(pointer, key), config, seen, e);
            },
            JsonView::Object(members) => {
                by_shape_unseen(members[n as int].1, below(pointer, key), config, seen, e);
            },
            _ => {},
        }
        joined_contains(
            by_shape_among(v, n, pointer, config, seen),
            by_shape(child, below(pointer, key), config, seen),
            e,
        );
        joined_contains(
            by_shape_among(v, n, pointer, config, none),
            by_shape(child, below(pointer, key), config, none),
            e,
        );
    }
}

proof fn united_holds(
    found: Seq<(Seq<char>, Seq<char>)>,
    results: Seq<(Seq<char>, Seq<char>)>,
    k: nat,
)
    requires
        k <= results.len(),
    ensures
        ({
            let all = united(found, results, k);
            &&& forall|i: int|
                0 <= i < all.len() ==> found.contains(#[trigger] all[i]) || results.contains(all[i])
            &&& forall|p: Seq<char>| #[trigger] is_found(found, p) ==> is_found(all, p)
            &&& forall|i: int| 0 <= i < k ==> is_found(all, (#[trigger] results[i]).0)
        }),
    decreases k,
{
    if k == 0 {
        assert forall|i: int| 0 <= i < found.len() implies found.contains(#[trigger] found[i]) by {
        }
    } else {
        united_holds(found, results, (k - 1) as nat);
        let before = united(found, results, (k - 1) as nat);
        let all = united(found, results, k);
        if !is_found(before, results[k - 1].0) {
            assert(all[before.len() as int] == results[k - 1]);
            assert(results.contains(results[k - 1]));
            assert forall|p: Seq<char>| is_found(before, p) implies #[trigger] is_found(all, p) by {
                let i = choose|i: int| 0 <= i < before.len() && (#[trigger] before[i]).0 == p;
                assert(all[i].0 == p);
            }
            assert forall|i: int| 0 <= i < all.len() implies found.contains(#[trigger] all[i])
                || results.contains(all[i]) by {
                if i < before.len() {
                    assert(all[i] == before[i]);
                }
            }
        }
    }
}

proof fn found_by_holds(
    strategies: Seq<Seq<char>>,
    tool: Seq<char>,
    arguments: Seq<(Seq<char>, JsonView)>,
    config: EffectiveConfig,
    schemas: Map<Seq<char>, ToolSchema>,
    k: nat,
)
    requires
        k <= strategies.len(),
    ensures
        ({
            let found = found_by(strategies, tool, arguments, config, schemas, k);
            &&& forall|i: int|
                0 <= i < found.len() ==> exists|j: int|
                    0 <= j < k && finds(
                        #[trigger] strategies[j],
                        tool,
                        arguments,
                        config,
                        schemas,
                    ).contains(#[trigger] found[i])
            &&& forall|j: int, e: (Seq<char>, Seq<char>)|
                0 <= j < k && #[trigger] finds(
                    strategies[j],
                    tool,
                    arguments,
                    config,
                    schemas,
                ).contains(e) ==> is_found(found, e.0)
        }),
    decreases k,
{
    if k > 0 {
        let n = k - 1;
        found_by_holds(strategies, tool, arguments, config, schemas, n as nat);
        let before = found_by(strategies, tool, arguments, config, schemas, n as nat);
        let found = found_by(strategies, tool, arguments, config, schemas, k);
        let results = by_strategy(strategies[n], tool, arguments, config, schemas, before);
        let own = finds(strategies[n], tool, arguments, config, schemas);
        united_holds(before, results, results.len());
        assert forall|e: (Seq<char>, Seq<char>)| results.contains(e) implies own.contains(e) by {
            by_shape_unseen(JsonView::Object(arguments), ""@, config, before, e);
        }
        assert forall|e: (Seq<char>, Seq<char>)| own.contains(e) implies is_found(found, e.0) by {
            by_shape_unseen(JsonView::Object(arguments), ""@, config, before, e);
            if results.contains(e) {
                let i = choose|i: int| 0 <= i < results.len() && results[i] == e;
                assert(is_found(found, results[i].0));
            } else {
                assert(is_found(before, e.0));
            }
        }
        assert forall|i: int| 0 <= i < found.len() implies exists|j: int|
            0 <= j < k && finds(
                #[trigger] strategies[j],
                tool,
                arguments,
                config,
                schemas,
            ).contains(#[trigger] found[i]) by {
            if before.contains(found[i]) {
                let m = choose|m: int| 0 <= m < before.len() && before[m] == found[i];
                let j = choose|j: int|
                    0 <= j < n && finds(
                        #[trigger] strategies[j],
                        tool,
                        arguments,
                        config,
                        schemas,
                    ).contains(before[m]);
                assert(finds(strategies[j], tool, arguments, config, schemas).contains(found[i]));
            } else {
                assert(finds(strategies[n], tool, arguments, config, schemas).contains(found[i]));
            }
        }
    }
}

proof fn unsuppressed_holds(
    found: Seq<(Seq<char>, Seq<char>)>,
    names: Seq<Seq<char>>,
    k: nat,
    m: int,
)
    requires
        0 <= m < k <= found.len(),
        !names.contains(last_component(found[m].0)),
    ensures
        is_found(unsuppressed(found, names, k), found[m].0),
    decreases k,
{
    let before = unsuppressed(found, names, (k - 1) as nat);
    let kept = unsuppressed(found, names, k);
    if m == k - 1 {
        assert(kept[before.len() as int].0 == found[m].0);
    } else {
        unsuppressed_holds(found, names, (k - 1) as nat, m);
        let i = choose|i: int| 0 <= i < before.len() && (#[trigger] before[i]).0 == found[m].0;
        assert(kept[i].0 == found[m].0);
    }
}

/// The results of the strategies are united: whatever is identified was found by one
/// of the configured strategies, and whatever one of them finds is identified unless
/// it is listed as a non-path argument.
pub proof fn strategies_are_united(
    tool: Seq<char>,
    arguments: Seq<(Seq<char>, JsonView)>,
    config: EffectiveConfig,
    schemas: Map<Seq<char>, ToolSchema>,
)
    ensures
        ({
            let all = identified(tool, arguments, config, schemas);
            let strategies = text::texts(config.strategies@);
            let suppressed = names_for(config.non_path_arguments@, tool);
            &&& forall|i: int|
                0 <= i < all.len() ==> exists|j: int|
                    0 <= j < strategies.len() && finds(
                        #[trigger] strategies[j],
                        tool,
                        arguments,
                        config,
                        schemas,
                    ).contains(#[trigger] all[i])
            &&& forall|j: int, e: (Seq<char>, Seq<char>)|
                0 <= j < strategies.len() && #[trigger] finds(
                    strategies[j],
                    tool,
                    arguments,
                    config,
                    schemas,
                ).contains(e) && !suppressed.contains(last_component(e.0)) ==> is_found(all, e.0)
        }),
{
    let all = identified(tool, arguments, config, schemas);
    let strategies = text::texts(config.strategies@);
    let suppressed = names_for(config.non_path_arguments@, tool);
    let found = found_by(strategies, tool, arguments, config, schemas, strategies.len());
    found_by_holds(strategies, tool, arguments, config, schemas, strategies.len());
    found_by_keeps(strategies, tool, arguments, config, schemas, strategies.len());
    unsuppressed_keeps(JsonView::Object(arguments), found, suppressed, found.len());
    assert forall|i: int| 0 <= i < all.len() implies exists|j: int|
        0 <= j < strategies.len() && finds(
            #[trigger] strategies[j],
            tool,
            arguments,
            config,
            schemas,
        ).contains(#[trigger] all[i]) by {
        let m = choose|m: int| 0 <= m < found.len() && found[m] == all[i];
        assert(found[m] == all[i]);
    }
    assert forall|j: int, e: (Seq<char>, Seq<char>)|
        0 <= j < strategies.len() && #[trigger] finds(
            strategies[j],
            tool,
            arguments,
            config,
            schemas,
        ).contains(e) && !suppressed.contains(last_component(e.0)) implies is_found(all, e.0) by {
        let m = choose|m: int| 0 <= m < found.len() && (#[trigger] found[m]).0 == e.0;
        unsuppressed_holds(found, suppressed, found.len(), m);
    }
}

/// Whether a name is listed for a tool: under the tool's own name, or under `*`.
pub open spec fn is_listed(
    m: Map<Seq<char>, Vec<String>>,
    tool: Seq<char>,
    name: Seq<char>,
) -> bool {
    ||| m.contains_key("*"@) && exists|i: int|
        0 <= i < m["*"@]@.len() && (#[trigger] m["*"@]@[i])@ == name
    ||| m.contains_key(tool) && exists|i: int|
        0 <= i < m[tool]@.len() && (#[trigger] m[tool]@[i])@ == name
}

/// Whether a property of a schema says that it is a path: its format is `path` or
/// `uri`, or its description speaks of a file path, a filesystem path or an absolute
/// path, in letters of any case.
pub open spec fn says_path(prop: JsonView) -> bool {
    ||| (json::member(prop, "format"@) matches Some(JsonView::Text(f)) && (text::unicode_lowered(f)
        == "path"@ || text::unicode_lowered(f) == "uri"@))
    ||| (json::member(prop, "description"@) matches Some(JsonView::Text(d)) && (
    text::contains_text(text::unicode_lowered(d), "file path"@) || text::contains_text(
        text::unicode_lowered(d),
        "filesystem path"@,
    ) || text::contains_text(text::unicode_lowered(d), "absolute path"@)))
}

/// Whether a text begins as paths do, as far as the settings look for it: with `/`,
/// with `~/`, or with one of the prefixes.
pub open spec fn begins_like_path(s: Seq<char>, config: EffectiveConfig) -> bool {
    ||| config.heuristic_absolute_prefix && s.len() >= 1 && s[0] == '/'
    ||| config.heuristic_home_prefix && s.len() >= 2 && s[0] == '~' && s[1] == '/'
    ||| exists|i: int|
        0 <= i < config.heuristic_uri_prefix@.len() && {
            let p = (#[trigger] config.heuristic_uri_prefix@[i])@;
            p.len() <= s.len() && forall|j: int| 0 <= j < p.len() ==> s[j] == p[j]
        }
}

/// Whether a strategy is among those of the settings.
pub open spec fn has_strategy(config: EffectiveConfig, strategy: Seq<char>) -> bool {
    exists|i: int|
        0 <= i < config.strategies@.len() && (#[trigger] config.strategies@[i])@ == strategy
}

/// Whether the text `s`, which stands among the arguments of a call where `tokens`
/// lead, is to be taken for a path: it is not listed as something else, and it is listed
/// as a path, or the tool's schema says so, or it begins like one. Lists and schemas
/// speak of the arguments themselves, not of what they hold.
pub open spec fn is_path_argument(
    tool: Seq<char>,
    tokens: Seq<Seq<char>>,
    s: Seq<char>,
    config: EffectiveConfig,
    schemas: Map<Seq<char>, ToolSchema>,
) -> bool {
    &&& !is_listed(config.non_path_arguments@, tool, tokens.last())
    &&& {
        ||| has_strategy(config, "config"@) && tokens.len() == 1 && is_listed(
            config.path_arguments@,
            tool,
            tokens[0],
        )
        ||| has_strategy(config, "schema"@) && tokens.len() == 1 && schemas.contains_key(tool) && (
        json::member_of(json::member(schemas[tool].input_schema@, "properties"@), tokens[0])
            matches Some(prop) && says_path(prop))
        ||| has_strategy(config, "heuristic"@) && begins_like_path(s, config)
    }
}

proof fn lists_are_names(m: Map<Seq<char>, Vec<String>>, tool: Seq<char>, name: Seq<char>)
    ensures
        names_for(m, tool).contains(name) <==> is_listed(m, tool, name),
{
    let (wild, own) = (list_under(m, "*"@), list_under(m, tool));
    let names = names_for(m, tool);
    if names.contains(name) {
        let i = choose|i: int| 0 <= i < names.len() && names[i] == name;
        if i < wild.len() {
            assert(wild[i] == m["*"@]@[i]@);
        } else {
            assert(own[i - wild.len()] == m[tool]@[i - wild.len()]@);
        }
    }
    if m.contains_key("*"@) && exists|i: int|
        0 <= i < m["*"@]@.len() && (#[trigger] m["*"@]@[i])@ == name {
        let i = choose|i: int| 0 <= i < m["*"@]@.len() && (#[trigger] m["*"@]@[i])@ == name;
        assert(wild[i] == name);
        assert(names[i] == name);
    }
    if m.contains_key(tool) && exists|i: int|
        0 <= i < m[tool]@.len() && (#[trigger] m[tool]@[i])@ == name {
        let i = choose|i: int| 0 <= i < m[tool]@.len() && (#[trigger] m[tool]@[i])@ == name;
        assert(own[i] == name);
        assert(names[wild.len() + i] == name);
    }
}

proof fn properties_say_paths(prop: JsonView)
    ensures
        path_property(prop) <==> says_path(prop),
{
}

proof fn shapes_begin_like_paths(s: Seq<char>, config: EffectiveConfig)
    ensures
        looks_like_path(s, config) <==> begins_like_path(s, config),
{
    reveal_strlit("/");
    reveal_strlit("~/");
    assert("/"@ =~= seq!['/']);
    assert("~/"@ =~= seq!['~', '/']);
    begins(s, "/"@);
    begins(s, "~/"@);
    assert forall|i: int| 0 <= i < config.heuristic_uri_prefix@.len() implies (
    #[trigger] config.heuristic_uri_prefix@[i])@.is_prefix_of(s) == ({
        let p = config.heuristic_uri_prefix@[i]@;
        p.len() <= s.len() && forall|j: int| 0 <= j < p.len() ==> s[j] == p[j]
    }) by {
        begins(s, config.heuristic_uri_prefix@[i]@);
    }
    if looks_like_path(s, config) {
        if exists|i: int|
            0 <= i < config.heuristic_uri_prefix@.len() && (
            #[trigger] config.heuristic_uri_prefix@[i])@.is_prefix_of(s) {
            let i = choose|i: int|
                0 <= i < config.heuristic_uri_prefix@.len() && (
                #[trigger] config.heuristic_uri_prefix@[i])@.is_prefix_of(s);
            assert(config.heuristic_uri_prefix@[i]@.is_prefix_of(s));
        }
    }
}

proof fn begins(s: Seq<char>, p: Seq<char>)
    ensures
        p.is_prefix_of(s) == (p.len() <= s.len() && forall|j: int|
            0 <= j < p.len() ==> s[j] == p[j]),
{
    if p.len() <= s.len() {
        let head = s.subrange(0, p.len() as int);
        if p.is_prefix_of(s) {
            assert forall|j: int| 0 <= j < p.len() implies s[j] == p[j] by {
                assert(head[j] == s[j]);
            }
        } else if forall|j: int| 0 <= j < p.len() ==> s[j] == p[j] {
            assert(head =~= p);
        }
    }
}

proof fn among_finds(
    v: JsonView,
    k: int,
    n: nat,
    pointer: Seq<char>,
    config: EffectiveConfig,
    e: (Seq<char>, Seq<char>),
)
    requires
        0 <= k < n <= child_count(v),
        v is Array || v is Object,
        match v {
            JsonView::Array(items) => by_shape(
                items[k],
                below(pointer, text::decimal(k as nat)),
                config,
                Seq::empty(),
            ).contains(e),
            JsonView::Object(members) => by_shape(
                members[k].1,
                below(pointer, members[k].0),
                config,
                Seq::empty(),
            ).contains(e),
            _ => false,
        },
    ensures
        by_shape_among(v, n, pointer, config, Seq::empty()).contains(e),
    decreases n,
{
    let none = Seq::<(Seq<char>, Seq<char>)>::empty();
    let m = (n - 1) as nat;
    let before = by_shape_among(v, m, pointer, config, none);
    if k < m {
        among_finds(v, k, m, pointer, config, e);
    }
    match v {
        JsonView::Array(items) => {
            joined_contains(
                before,
                by_shape(
                    items[m as int],
                    below(pointer, text::decimal(m)),
                    config,
                    none,
                ),
                e,
            );
        },
        JsonView::Object(members) => {
            joined_contains(
                before,
                by_shape(members[m as int].1, below(pointer, members[m as int].0), config, none),
                e,
            );
        },
        _ => {},
    }
}

/// The heuristic strategy finds every text that looks like a path, wherever it stands.
proof fn by_shape_finds(
    v: JsonView,
    base: Seq<Seq<char>>,
    tokens: Seq<Seq<char>>,
    s: Seq<char>,
    config: EffectiveConfig,
)
    requires
        json::selected(v, tokens) == Some(JsonView::Text(s)),
        looks_like_path(s, config),
    ensures
        by_shape(v, json::pointer_of(base), config, Seq::empty()).contains(
            (json::pointer_of(base + tokens), s),
        ),
    decreases tokens.len(),
{
    let e = (json::pointer_of(base + tokens), s);
    let pointer = json::pointer_of(base);
    if tokens.len() == 0 {
        assert(base + tokens =~= base);
        let one = seq![(pointer, s)];
        assert(one[0] == e);
    } else {
        let key = tokens[0];
        let k = json::child_position(v, key)->0;
        json::child_position_bound(v, key);
        let more = base.push(key);
        assert(more + tokens.skip(1) =~= base + tokens);
        assert(more.drop_last() =~= base);
        reveal_strlit("/");
        assert(below(pointer, key) =~= json::pointer_of(more));
        by_shape_finds(json::child(v, k), more, tokens.skip(1), s, config);
        among_finds(v, k as int, child_count(v), pointer, config, e);
    }
}

/// The heuristic strategy finds nothing but texts that look like paths.
proof fn by_shape_looks(
    v: JsonView,
    pointer: Seq<char>,
    config: EffectiveConfig,
    e: (Seq<char>, Seq<char>),
)
    requires
        by_shape(v, pointer, config, Seq::empty()).contains(e),
    ensures
        looks_like_path(e.1, config),
    decreases v, child_count(v) + 1,
{
    match v {
        JsonView::Text(_) => {},
        _ => {
            by_shape_among_looks(v, child_count(v), pointer, config, e);
        },
    }
}

proof fn by_shape_among_looks(
    v: JsonView,
    k: nat,
    pointer: Seq<char>,
    config: EffectiveConfig,
    e: (Seq<char>, Seq<char>),
)
    requires
        by_shape_among(v, k, pointer, config, Seq::empty()).contains(e),
    ensures
        looks_like_path(e.1, config),
    decreases v, k,
{
    let none = Seq::<(Seq<char>, Seq<char>)>::empty();
    if 0 < k <= child_count(v) {
        let n = (k - 1) as nat;
        let before = by_shape_among(v, n, pointer, config, none);
        match v {
            JsonView::Array(items) => {
                let here = below(pointer, text::decimal(n));
                joined_contains(before, by_shape(items[n as int], here, config, none), e);
                if before.contains(e) {
                    by_shape_among_looks(v, n, pointer, config, e);
                } else {
                    by_shape_looks(items[n as int], here, config, e);
                }
            },
            JsonView::Object(members) => {
                let here = below(pointer, members[n as int].0);
                joined_contains(before, by_shape(members[n as int].1, here, config, none), e);
                if before.contains(e) {
                    by_shape_among_looks(v, n, pointer, config, e);
                } else {
                    by_shape_looks(members[n as int].1, here, config, e);
                }
            },
            _ => {},
        }
    }
}

proof fn top_pointers(tokens: Seq<Seq<char>>, key: Seq<char>)
    ensures
        json::pointer_of(tokens) == below(""@, key) <==> tokens == seq![key],
{
    reveal_strlit("");
    reveal_strlit("/");
    let one = seq![key];
    assert(one.drop_last() =~= Seq::<Seq<char>>::empty());
    assert(one.last() == key);
    assert(json::pointer_of(one.drop_last()) =~= Seq::<char>::empty());
    assert(json::pointer_of(one) == json::pointer_of(one.drop_last()).push('/') + json::escaped(
        key,
    ));
    assert(below(""@, key) =~= json::pointer_of(one));
    json::pointers_keep_their_tokens(tokens);
    json::pointers_keep_their_tokens(one);
}

proof fn by_config_finds(
    names: Seq<Seq<char>>,
    arguments: Seq<(Seq<char>, JsonView)>,
    k: nat,
    tokens: Seq<Seq<char>>,
    s: Seq<char>,
)
    requires
        k <= names.len(),
    ensures
        by_config(names, arguments, k).contains((json::pointer_of(tokens), s)) <==> tokens.len()
            == 1 && names.take(k as int).contains(tokens[0]) && json::lookup(arguments, tokens[0])
            == Some(JsonView::Text(s)),
    decreases k,
{
    let e = (json::pointer_of(tokens), s);
    if k > 0 {
        let n = (k - 1) as nat;
        let name = names[n as int];
        by_config_finds(names, arguments, n, tokens, s);
        top_pointers(tokens, name);
        let before = by_config(names, arguments, n);
        assert(names.take(k as int) =~= names.take(n as int).push(name));
        pushed_contains(names.take(n as int), name, tokens[0]);
        if let Some(t) = json::text_of(json::lookup(arguments, name)) {
            pushed_contains(before, (below(""@, name), t), e);
        }
        if tokens.len() == 1 {
            assert(tokens =~= seq![tokens[0]]);
        }
    }
}

proof fn pushed_contains<A>(a: Seq<A>, x: A, e: A)
    ensures
        a.push(x).contains(e) == (a.contains(e) || x == e),
{
    let whole = a.push(x);
    if a.contains(e) {
        let i = choose|i: int| 0 <= i < a.len() && a[i] == e;
        assert(whole[i] == e);
    }
    if x == e {
        assert(whole[a.len() as int] == e);
    }
    if whole.contains(e) {
        let i = choose|i: int| 0 <= i < whole.len() && whole[i] == e;
        if i < a.len() {
            assert(a[i] == e);
        }
    }
}

proof fn by_schema_finds(
    props: Seq<(Seq<char>, JsonView)>,
    arguments: Seq<(Seq<char>, JsonView)>,
    k: nat,
    tokens: Seq<Seq<char>>,
    s: Seq<char>,
)
    requires
        k <= arguments.len(),
    ensures
        by_schema(props, arguments, k).contains((json::pointer_of(tokens), s)) <==> tokens.len()
            == 1 && arguments.take(k as int).contains((tokens[0], JsonView::Text(s))) && (
        json::lookup(props, tokens[0]) matches Some(prop) && path_property(prop)),
    decreases k,
{
    let e = (json::pointer_of(tokens), s);
    if k > 0 {
        let n = (k - 1) as nat;
        let (key, value) = arguments[n as int];
        by_schema_finds(props, arguments, n, tokens, s);
        top_pointers(tokens, key);
        let before = by_schema(props, arguments, n);
        assert(arguments.take(k as int) =~= arguments.take(n as int).push((key, value)));
        pushed_contains(arguments.take(n as int), (key, value), (tokens[0], JsonView::Text(s)));
        if let Some(t) = json::text_of(Some(value)) {
            pushed_contains(before, (below(""@, key), t), e);
        }
        if tokens.len() == 1 {
            assert(tokens =~= seq![tokens[0]]);
        }
    }
}

/// The arguments of a call that are taken for paths are exactly those that
/// [`is_path_argument`] tells, at every depth and every position, each with the pointer
/// that leads to it.
#[verifier::spinoff_prover]
#[verifier::rlimit(60)]
pub proof fn path_arguments_are_identified(
    tool: Seq<char>,
    arguments: Seq<(Seq<char>, JsonView)>,
    config: EffectiveConfig,
    schemas: Map<Seq<char>, ToolSchema>,
    tokens: Seq<Seq<char>>,
    s: Seq<char>,
)
    requires
        addressable(JsonView::Object(arguments)),
        json::selected(JsonView::Object(arguments), tokens) == Some(JsonView::Text(s)),
    ensures
        identified(tool, arguments, config, schemas).contains((json::pointer_of(tokens), s))
            <==> is_path_argument(tool, tokens, s, config, schemas),
{
    let root = JsonView::Object(arguments);
    let e = (json::pointer_of(tokens), s);
    let all = identified(tool, arguments, config, schemas);
    let strategies = text::texts(config.strategies@);
    let suppressed = names_for(config.non_path_arguments@, tool);
    let none = Seq::<(Seq<char>, Seq<char>)>::empty();
    assert(tokens.len() > 0);
    // The last component of the pointer is the last token.
    reveal_strlit("/");
    assert(e.0 =~= below(json::pointer_of(tokens.drop_last()), tokens.last()));
    pointers_end_with_their_keys(json::pointer_of(tokens.drop_last()), tokens.last());
    assert(last_component(e.0) == tokens.last());
    lists_are_names(config.non_path_arguments@, tool, tokens.last());
    // What each strategy finds.
    let names = names_for(config.path_arguments@, tool);
    by_config_finds(names, arguments, names.len(), tokens, s);
    assert(names.take(names.len() as int) =~= names);
    lists_are_names(config.path_arguments@, tool, tokens[0]);
    if tokens.len() == 1 {
        assert(tokens =~= seq![tokens[0]]);
        assert(tokens.skip(1) =~= Seq::<Seq<char>>::empty());
        let k = json::child_position(root, tokens[0])->0;
        json::child_position_bound(root, tokens[0]);
        assert(json::selected(json::child(root, k), tokens.skip(1)) == Some(json::child(root, k)));
        json::lookup_is_position(arguments, tokens[0]);
        assert(arguments[k as int] == (tokens[0], JsonView::Text(s)));
        assert(arguments.contains((tokens[0], JsonView::Text(s))));
    }
    if let Some(props) = schema_props(schemas, tool) {
        by_schema_finds(props, arguments, arguments.len(), tokens, s);
        assert(arguments.take(arguments.len() as int) =~= arguments);
        if let Some(prop) = json::lookup(props, tokens[0]) {
            properties_say_paths(prop);
        }
    }
    reveal_strlit("");
    shapes_begin_like_paths(s, config);
    assert(""@ =~= json::pointer_of(Seq::empty()));
    assert(Seq::<Seq<char>>::empty() + tokens =~= tokens);
    if looks_like_path(s, config) {
        by_shape_finds(root, Seq::empty(), tokens, s, config);
    }
    if by_shape(root, ""@, config, none).contains(e) {
        by_shape_looks(root, ""@, config, e);
    }
    let (c, d, h) = ("config"@, "schema"@, "heuristic"@);
    reveal_strlit("config");
    reveal_strlit("schema");
    reveal_strlit("heuristic");
    assert(c[0] == 'c' && d[0] == 's' && h[0] == 'h');
    assert(finds(c, tool, arguments, config, schemas).contains(e) <==> tokens.len() == 1
        && is_listed(config.path_arguments@, tool, tokens[0]));
    assert(finds(d, tool, arguments, config, schemas).contains(e) <==> tokens.len() == 1
        && schemas.contains_key(tool) && (json::member_of(
        json::member(schemas[tool].input_schema@, "properties"@),
        tokens[0],
    ) matches Some(prop) && says_path(prop)));
    assert(finds(h, tool, arguments, config, schemas).contains(e) <==> begins_like_path(
        s,
        config,
    ));
    assert forall|j: int| 0 <= j < strategies.len() implies #[trigger] strategies[j]
        == config.strategies@[j]@ by {}
    // What they find together.
    strategies_are_united(tool, arguments, config, schemas);
    identified_pointers_lead_back(tool, arguments, config, schemas);
    json::pointers_keep_their_tokens(tokens);
    if all.contains(e) {
        let i = choose|i: int| 0 <= i < all.len() && all[i] == e;
        let j = choose|j: int|
            0 <= j < strategies.len() && finds(
                #[trigger] strategies[j],
                tool,
                arguments,
                config,
                schemas,
            ).contains(all[i]);
        assert(config.strategies@[j]@ == strategies[j]);
        if suppressed.contains(tokens.last()) {
            identified_is_unsuppressed(tool, arguments, config, schemas, i);
        }
        assert(is_path_argument(tool, tokens, s, config, schemas));
    }
    if is_path_argument(tool, tokens, s, config, schemas) {
        let by = if has_strategy(config, c) && finds(c, tool, arguments, config, schemas).contains(
            e,
        ) {
            c
        } else if has_strategy(config, d) && finds(d, tool, arguments, config, schemas).contains(
            e,
        ) {
            d
        } else {
            h
        };
        let j = choose|j: int|
            0 <= j < config.strategies@.len() && (#[trigger] config.strategies@[j])@ == by;
        assert(strategies[j] == by);
        assert(finds(strategies[j], tool, arguments, config, schemas).contains(e));
        assert(is_found(all, e.0));
        let i = choose|i: int| 0 <= i < all.len() && (#[trigger] all[i]).0 == e.0;
        assert(leads_back(root, all[i]));
        assert(all[i] == e);
    }
}

proof fn identified_is_unsuppressed(
    tool: Seq<char>,
    arguments: Seq<(Seq<char>, JsonView)>,
    config: EffectiveConfig,
    schemas: Map<Seq<char>, ToolSchema>,
    i: int,
)
    requires
        0 <= i < identified(tool, arguments, config, schemas).len(),
    ensures
        !names_for(config.non_path_arguments@, tool).contains(
            last_component(identified(tool, arguments, config, schemas)[i].0),
        ),
{
    let strategies = text::texts(config.strategies@);
    let found = found_by(strategies, tool, arguments, config, schemas, strategies.len());
    found_by_keeps(strategies, tool, arguments, config, schemas, strategies.len());
    unsuppressed_keeps(
        JsonView::Object(arguments),
        found,
        names_for(config.non_path_arguments@, tool),
        found.len(),
    );
}

/// Whether `a` stands in the list before `b`.
pub open spec fn comes_before(
    list: Seq<(Seq<char>, Seq<char>)>,
    a: (Seq<char>, Seq<char>),
    b: (Seq<char>, Seq<char>),
) -> bool {
    exists|i: int, j: int| 0 <= i < j < list.len() && #[trigger] list[i] == a && #[trigger] list[j] == b
}

/// Whether the place where `a` leads stands in the value before the one of `b`: in a
/// child that comes earlier, at the first step where they part.
pub open spec fn stands_before(v: JsonView, a: Seq<Seq<char>>, b: Seq<Seq<char>>) -> bool
    decreases a.len(),
{
    if a.len() == 0 || b.len() == 0 {
        false
    } else {
        match (json::child_position(v, a[0]), json::child_position(v, b[0])) {
            (Some(i), Some(j)) => i < j || (i == j && stands_before(
                json::child(v, i),
                a.skip(1),
                b.skip(1),
            )),
            _ => false,
        }
    }
}

proof fn before_in_a_part(
    a: Seq<(Seq<char>, Seq<char>)>,
    b: Seq<(Seq<char>, Seq<char>)>,
    e: (Seq<char>, Seq<char>),
    f: (Seq<char>, Seq<char>),
)
    ensures
        comes_before(a, e, f) ==> comes_before(a + b, e, f),
        comes_before(b, e, f) ==> comes_before(a + b, e, f),
        a.contains(e) && b.contains(f) ==> comes_before(a + b, e, f),
{
    let all = a + b;
    if comes_before(a, e, f) {
        let (i, j) = choose|i: int, j: int|
            0 <= i < j < a.len() && #[trigger] a[i] == e && #[trigger] a[j] == f;
        assert(all[i] == e && all[j] == f);
    }
    if comes_before(b, e, f) {
        let (i, j) = choose|i: int, j: int|
            0 <= i < j < b.len() && #[trigger] b[i] == e && #[trigger] b[j] == f;
        assert(all[a.len() + i] == e && all[a.len() + j] == f);
    }
    if a.contains(e) && b.contains(f) {
        let i = choose|i: int| 0 <= i < a.len() && a[i] == e;
        let j = choose|j: int| 0 <= j < b.len() && b[j] == f;
        assert(all[i] == e && all[a.len() + j] == f);
    }
}

/// What the heuristic strategy finds in one child of a value.
spec fn in_child(
    v: JsonView,
    k: int,
    base: Seq<Seq<char>>,
    config: EffectiveConfig,
) -> Seq<(Seq<char>, Seq<char>)> {
    by_shape(
        json::child(v, k as nat),
        json::pointer_of(base.push(child_key(v, k))),
        config,
        Seq::empty(),
    )
}

/// The key or the position of a child, as pointers write it.
spec fn child_key(v: JsonView, k: int) -> Seq<char> {
    match v {
        JsonView::Object(members) => members[k].0,
        _ => text::decimal(k as nat),
    }
}

proof fn among_grows(
    v: JsonView,
    n: nat,
    base: Seq<Seq<char>>,
    config: EffectiveConfig,
)
    requires
        0 < n <= child_count(v),
    ensures
        by_shape_among(v, n, json::pointer_of(base), config, Seq::empty()) == by_shape_among(
            v,
            (n - 1) as nat,
            json::pointer_of(base),
            config,
            Seq::empty(),
        ) + in_child(v, n - 1, base, config),
{
    reveal_strlit("/");
    let k = n - 1;
    let more = base.push(child_key(v, k));
    assert(more.drop_last() =~= base);
    assert(below(json::pointer_of(base), child_key(v, k)) =~= json::pointer_of(more));
}

proof fn among_in_order(
    v: JsonView,
    n: nat,
    i: int,
    j: int,
    base: Seq<Seq<char>>,
    config: EffectiveConfig,
    e: (Seq<char>, Seq<char>),
    f: (Seq<char>, Seq<char>),
)
    requires
        0 <= i <= j < n <= child_count(v),
        i < j ==> in_child(v, i, base, config).contains(e) && in_child(
            v,
            j,
            base,
            config,
        ).contains(f),
        i == j ==> comes_before(in_child(v, i, base, config), e, f),
    ensures
        comes_before(by_shape_among(v, n, json::pointer_of(base), config, Seq::empty()), e, f),
    decreases n,
{
    among_grows(v, n, base, config);
    let pointer = json::pointer_of(base);
    let m = (n - 1) as nat;
    let before = by_shape_among(v, m, pointer, config, Seq::empty());
    if j < m {
        among_in_order(v, m, i, j, base, config, e, f);
    } else if i < j {
        among_holds(v, m, i, base, config, e);
    }
    before_in_a_part(before, in_child(v, m as int, base, config), e, f);
}

proof fn among_holds(
    v: JsonView,
    n: nat,
    i: int,
    base: Seq<Seq<char>>,
    config: EffectiveConfig,
    e: (Seq<char>, Seq<char>),
)
    requires
        0 <= i < n <= child_count(v),
        in_child(v, i, base, config).contains(e),
    ensures
        by_shape_among(v, n, json::pointer_of(base), config, Seq::empty()).contains(e),
    decreases n,
{
    among_grows(v, n, base, config);
    let m = (n - 1) as nat;
    if i < m {
        among_holds(v, m, i, base, config, e);
    }
    joined_contains(
        by_shape_among(v, m, json::pointer_of(base), config, Seq::empty()),
        in_child(v, m as int, base, config),
        e,
    );
}

/// The heuristic strategy finds texts in the order in which they stand.
proof fn by_shape_in_order(
    v: JsonView,
    base: Seq<Seq<char>>,
    a: Seq<Seq<char>>,
    b: Seq<Seq<char>>,
    s: Seq<char>,
    t: Seq<char>,
    config: EffectiveConfig,
)
    requires
        json::selected(v, a) == Some(JsonView::Text(s)),
        json::selected(v, b) == Some(JsonView::Text(t)),
        looks_like_path(s, config),
        looks_like_path(t, config),
        stands_before(v, a, b),
    ensures
        comes_before(
            by_shape(v, json::pointer_of(base), config, Seq::empty()),
            (json::pointer_of(base + a), s),
            (json::pointer_of(base + b), t),
        ),
    decreases a.len(),
{
    let (e, f) = ((json::pointer_of(base + a), s), (json::pointer_of(base + b), t));
    let i = json::child_position(v, a[0])->0;
    let j = json::child_position(v, b[0])->0;
    json::child_position_bound(v, a[0]);
    json::child_position_bound(v, b[0]);
    assert(child_key(v, i as int) == a[0] && child_key(v, j as int) == b[0]);
    assert(base.push(a[0]) + a.skip(1) =~= base + a);
    assert(base.push(b[0]) + b.skip(1) =~= base + b);
    if i == j {
        by_shape_in_order(
            json::child(v, i),
            base.push(a[0]),
            a.skip(1),
            b.skip(1),
            s,
            t,
            config,
        );
    } else {
        by_shape_finds(json::child(v, i), base.push(a[0]), a.skip(1), s, config);
        by_shape_finds(json::child(v, j), base.push(b[0]), b.skip(1), t, config);
    }
    among_in_order(v, child_count(v), i as int, j as int, base, config, e, f);
}

/// What the heuristic strategy finds in a value stands below it.
proof fn by_shape_below(
    v: JsonView,
    base: Seq<Seq<char>>,
    config: EffectiveConfig,
    e: (Seq<char>, Seq<char>),
) -> (rest: Seq<Seq<char>>)
    requires
        by_shape(v, json::pointer_of(base), config, Seq::empty()).contains(e),
    ensures
        e.0 == json::pointer_of(base + rest),
        (v is Array || v is Object) ==> rest.len() > 0,
    decreases v, child_count(v) + 1,
{
    match v {
        JsonView::Text(_) => {
            assert(base + Seq::<Seq<char>>::empty() =~= base);
            Seq::empty()
        },
        _ => {
            let (k, rest) = by_shape_among_below(v, child_count(v), base, config, e);
            rest
        },
    }
}

proof fn by_shape_among_below(
    v: JsonView,
    n: nat,
    base: Seq<Seq<char>>,
    config: EffectiveConfig,
    e: (Seq<char>, Seq<char>),
) -> (r: (int, Seq<Seq<char>>))
    requires
        n <= child_count(v),
        by_shape_among(v, n, json::pointer_of(base), config, Seq::empty()).contains(e),
    ensures
        0 <= r.0 < n,
        r.1.len() > 0,
        r.1[0] == child_key(v, r.0),
        e.0 == json::pointer_of(base + r.1),
    decreases v, n,
{
    among_grows(v, n, base, config);
    let m = (n - 1) as nat;
    let before = by_shape_among(v, m, json::pointer_of(base), config, Seq::empty());
    joined_contains(before, in_child(v, m as int, base, config), e);
    if before.contains(e) {
        by_shape_among_below(v, m, base, config, e)
    } else {
        let key = child_key(v, m as int);
        let rest = by_shape_below(json::child(v, m), base.push(key), config, e);
        let all = seq![key] + rest;
        assert(base.push(key) + rest =~= base + all);
        (m as int, all)
    }
}

proof fn children_have_their_keys(v: JsonView, i: int, j: int)
    requires
        addressable(v),
        0 <= i < j < child_count(v),
    ensures
        child_key(v, i) != child_key(v, j),
{
    match v {
        JsonView::Object(members) => {
            assert(members[i].0 != members[j].0);
        },
        _ => {
            text::decimal_is_digits(i as nat);
            text::decimal_is_digits(j as nat);
        },
    }
}

proof fn by_shape_distinct(v: JsonView, base: Seq<Seq<char>>, config: EffectiveConfig)
    requires
        addressable(v),
    ensures
        distinct_pointers(by_shape(v, json::pointer_of(base), config, Seq::empty())),
    decreases v, child_count(v) + 1,
{
    if !(v is Text) {
        by_shape_among_distinct(v, child_count(v), base, config);
    }
}

proof fn by_shape_among_distinct(
    v: JsonView,
    n: nat,
    base: Seq<Seq<char>>,
    config: EffectiveConfig,
)
    requires
        addressable(v),
        n <= child_count(v),
    ensures
        distinct_pointers(
            by_shape_among(v, n, json::pointer_of(base), config, Seq::empty()),
        ),
    decreases v, n,
{
    if n > 0 {
        let m = (n - 1) as nat;
        let key = child_key(v, m as int);
        by_shape_among_distinct(v, m, base, config);
        match v {
            JsonView::Array(items) => {
                by_shape_distinct(items[m as int], base.push(key), config);
            },
            JsonView::Object(members) => {
                by_shape_distinct(members[m as int].1, base.push(key), config);
            },
            _ => {},
        }
        among_grows(v, n, base, config);
        let before = by_shape_among(v, m, json::pointer_of(base), config, Seq::empty());
        let here = in_child(v, m as int, base, config);
        let all = before + here;
        assert forall|i: int, j: int| 0 <= i < j < all.len() implies (#[trigger] all[i]).0 != (
        #[trigger] all[j]).0 by {
            if j < before.len() {
                assert(before[i].0 != before[j].0);
            } else if i >= before.len() {
                assert(here[i - before.len()].0 != here[j - before.len()].0);
            } else {
                let (e, f) = (before[i], here[j - before.len()]);
                assert(before.contains(e) && here.contains(f));
                let (k, rest) = by_shape_among_below(v, m, base, config, e);
                let more = by_shape_below(json::child(v, m), base.push(key), config, f);
                children_have_their_keys(v, k, m as int);
                if e.0 == f.0 {
                    json::pointers_keep_their_tokens(base + rest);
                    json::pointers_keep_their_tokens(base.push(key) + more);
                    let x = base.len() as int;
                    assert((base + rest)[x] == rest[0]);
                    assert((base.push(key) + more)[x] == key);
                }
            }
        }
    }
}

proof fn distinct_are_united(results: Seq<(Seq<char>, Seq<char>)>, k: nat)
    requires
        distinct_pointers(results),
        k <= results.len(),
    ensures
        united(Seq::empty(), results, k) == results.take(k as int),
    decreases k,
{
    if k == 0 {
        assert(results.take(0) =~= Seq::empty());
    } else {
        distinct_are_united(results, (k - 1) as nat);
        let before = results.take(k - 1);
        if is_found(before, results[k - 1].0) {
            let i = choose|i: int|
                0 <= i < before.len() && (#[trigger] before[i]).0 == results[k - 1].0;
            assert(results[i].0 != results[k - 1].0);
        }
        assert(before.push(results[k - 1]) =~= results.take(k as int));
    }
}

proof fn unsuppressed_in_order(
    found: Seq<(Seq<char>, Seq<char>)>,
    names: Seq<Seq<char>>,
    k: nat,
    i: int,
    j: int,
)
    requires
        0 <= i < j < k <= found.len(),
        !names.contains(last_component(found[i].0)),
        !names.contains(last_component(found[j].0)),
    ensures
        comes_before(unsuppressed(found, names, k), found[i], found[j]),
    decreases k,
{
    let n = (k - 1) as nat;
    let before = unsuppressed(found, names, n);
    let all = unsuppressed(found, names, k);
    if j < n {
        unsuppressed_in_order(found, names, n, i, j);
        let (p, q) = choose|p: int, q: int|
            0 <= p < q < before.len() && #[trigger] before[p] == found[i] && #[trigger] before[q]
                == found[j];
        assert(all[p] == found[i] && all[q] == found[j]);
    } else {
        unsuppressed_contains(found, names, n, i);
        let p = choose|p: int| 0 <= p < before.len() && before[p] == found[i];
        assert(all[p] == found[i] && all[before.len() as int] == found[j]);
    }
}

proof fn unsuppressed_contains(
    found: Seq<(Seq<char>, Seq<char>)>,
    names: Seq<Seq<char>>,
    k: nat,
    i: int,
)
    requires
        0 <= i < k <= found.len(),
        !names.contains(last_component(found[i].0)),
    ensures
        unsuppressed(found, names, k).contains(found[i]),
    decreases k,
{
    let n = (k - 1) as nat;
    let before = unsuppressed(found, names, n);
    let all = unsuppressed(found, names, k);
    if i < n {
        unsuppressed_contains(found, names, n, i);
        let p = choose|p: int| 0 <= p < before.len() && before[p] == found[i];
        assert(all[p] == found[i]);
    } else {
        assert(all[before.len() as int] == found[i]);
    }
}

/// With the heuristic strategy the paths of a call come in the order in which they stand
/// among its arguments, at every depth.
#[verifier::spinoff_prover]
#[verifier::rlimit(60)]
pub proof fn paths_come_in_the_order_of_the_arguments(
    tool: Seq<char>,
    arguments: Seq<(Seq<char>, JsonView)>,
    config: EffectiveConfig,
    schemas: Map<Seq<char>, ToolSchema>,
    a: Seq<Seq<char>>,
    b: Seq<Seq<char>>,
    s: Seq<char>,
    t: Seq<char>,
)
    requires
        addressable(JsonView::Object(arguments)),
        config.strategies@.len() == 1,
        config.strategies@[0]@ == "heuristic"@,
        json::selected(JsonView::Object(arguments), a) == Some(JsonView::Text(s)),
        json::selected(JsonView::Object(arguments), b) == Some(JsonView::Text(t)),
        stands_before(JsonView::Object(arguments), a, b),
        is_path_argument(tool, a, s, config, schemas),
        is_path_argument(tool, b, t, config, schemas),
    ensures
        comes_before(
            identified(tool, arguments, config, schemas),
            (json::pointer_of(a), s),
            (json::pointer_of(b), t),
        ),
{
    let root = JsonView::Object(arguments);
    let none = Seq::<Seq<char>>::empty();
    let (e, f) = ((json::pointer_of(a), s), (json::pointer_of(b), t));
    reveal_strlit("");
    reveal_strlit("/");
    reveal_strlit("config");
    reveal_strlit("schema");
    reveal_strlit("heuristic");
    assert("config"@[0] == 'c' && "schema"@[0] == 's' && "heuristic"@[0] == 'h');
    assert(""@ =~= json::pointer_of(none));
    assert(none + a =~= a && none + b =~= b);
    shapes_begin_like_paths(s, config);
    shapes_begin_like_paths(t, config);
    only_the_heuristic(config);
    by_shape_in_order(root, none, a, b, s, t, config);
    by_shape_distinct(root, none, config);
    let results = by_shape(root, ""@, config, Seq::empty());
    distinct_are_united(results, results.len());
    assert(results.take(results.len() as int) =~= results);
    let strategies = text::texts(config.strategies@);
    assert(strategies[0] == "heuristic"@);
    assert(found_by(strategies, tool, arguments, config, schemas, 0) =~= Seq::empty());
    assert(found_by(strategies, tool, arguments, config, schemas, 1) == results);
    let suppressed = names_for(config.non_path_arguments@, tool);
    lists_are_names(config.non_path_arguments@, tool, a.last());
    lists_are_names(config.non_path_arguments@, tool, b.last());
    assert(e.0 =~= below(json::pointer_of(a.drop_last()), a.last()));
    assert(f.0 =~= below(json::pointer_of(b.drop_last()), b.last()));
    pointers_end_with_their_keys(json::pointer_of(a.drop_last()), a.last());
    pointers_end_with_their_keys(json::pointer_of(b.drop_last()), b.last());
    let (i, j) = choose|i: int, j: int|
        0 <= i < j < results.len() && #[trigger] results[i] == e && #[trigger] results[j] == f;
    unsuppressed_in_order(results, suppressed, results.len(), i, j);
}

proof fn only_the_heuristic(config: EffectiveConfig)
    requires
        config.strategies@.len() == 1,
        config.strategies@[0]@ == "heuristic"@,
    ensures
        !has_strategy(config, "config"@),
        !has_strategy(config, "schema"@),
{
    reveal_strlit("config");
    reveal_strlit("schema");
    reveal_strlit("heuristic");
    assert("config"@[0] == 'c' && "schema"@[0] == 's' && "heuristic"@[0] == 'h');
}

proof fn united_begins_with(
    found: Seq<(Seq<char>, Seq<char>)>,
    results: Seq<(Seq<char>, Seq<char>)>,
    k: nat,
)
    ensures
        found.len() <= united(found, results, k).len(),
        united(found, results, k).take(found.len() as int) == found,
    decreases k,
{
    if k == 0 {
        assert(found.take(found.len() as int) =~= found);
    } else {
        united_begins_with(found, results, (k - 1) as nat);
        let before = united(found, results, (k - 1) as nat);
        assert(before.push(results[k - 1]).take(found.len() as int) =~= before.take(
            found.len() as int,
        ));
    }
}

proof fn found_by_begins_with(
    strategies: Seq<Seq<char>>,
    tool: Seq<char>,
    arguments: Seq<(Seq<char>, JsonView)>,
    config: EffectiveConfig,
    schemas: Map<Seq<char>, ToolSchema>,
    k: nat,
    n: nat,
)
    requires
        k <= n,
    ensures
        ({
            let few = found_by(strategies, tool, arguments, config, schemas, k);
            let all = found_by(strategies, tool, arguments, config, schemas, n);
            few.len() <= all.len() && all.take(few.len() as int) == few
        }),
    decreases n,
{
    let few = found_by(strategies, tool, arguments, config, schemas, k);
    if k < n {
        let m = (n - 1) as nat;
        found_by_begins_with(strategies, tool, arguments, config, schemas, k, m);
        let before = found_by(strategies, tool, arguments, config, schemas, m);
        let results = by_strategy(strategies[m as int], tool, arguments, config, schemas, before);
        united_begins_with(before, results, results.len());
        let all = united(before, results, results.len());
        assert(all.take(few.len() as int) =~= all.take(before.len() as int).take(
            few.len() as int,
        ));
    } else {
        assert(few.take(few.len() as int) =~= few);
    }
}

/// The strategies are tried in order: what an earlier one finds comes before what only
/// later ones do.
#[verifier::spinoff_prover]
#[verifier::rlimit(60)]
pub proof fn earlier_strategies_come_first(
    tool: Seq<char>,
    arguments: Seq<(Seq<char>, JsonView)>,
    config: EffectiveConfig,
    schemas: Map<Seq<char>, ToolSchema>,
    k: int,
    e: (Seq<char>, Seq<char>),
    f: (Seq<char>, Seq<char>),
)
    requires
        addressable(JsonView::Object(arguments)),
        0 <= k < config.strategies@.len(),
        finds(config.strategies@[k]@, tool, arguments, config, schemas).contains(e),
        forall|j: int|
            0 <= j <= k ==> !finds(
                (#[trigger] config.strategies@[j])@,
                tool,
                arguments,
                config,
                schemas,
            ).contains(f),
        identified(tool, arguments, config, schemas).contains(e),
        identified(tool, arguments, config, schemas).contains(f),
    ensures
        comes_before(identified(tool, arguments, config, schemas), e, f),
{
    let root = JsonView::Object(arguments);
    let strategies = text::texts(config.strategies@);
    let n = strategies.len();
    let few = found_by(strategies, tool, arguments, config, schemas, (k + 1) as nat);
    let found = found_by(strategies, tool, arguments, config, schemas, n);
    let suppressed = names_for(config.non_path_arguments@, tool);
    found_by_begins_with(strategies, tool, arguments, config, schemas, (k + 1) as nat, n);
    found_by_holds(strategies, tool, arguments, config, schemas, (k + 1) as nat);
    found_by_keeps(strategies, tool, arguments, config, schemas, n);
    found_by_keeps(strategies, tool, arguments, config, schemas, (k + 1) as nat);
    unsuppressed_keeps(root, found, suppressed, found.len());
    let all = identified(tool, arguments, config, schemas);
    // Where the two stand among all that was found.
    assert(strategies[k] == config.strategies@[k]@);
    assert(finds(strategies[k], tool, arguments, config, schemas).contains(e));
    let i = choose|i: int| 0 <= i < few.len() && (#[trigger] few[i]).0 == e.0;
    let x = choose|x: int| 0 <= x < all.len() && all[x] == e;
    let y = choose|y: int| 0 <= y < all.len() && all[y] == f;
    identified_is_unsuppressed(tool, arguments, config, schemas, x);
    identified_is_unsuppressed(tool, arguments, config, schemas, y);
    assert(leads_back(root, few[i]));
    identified_pointers_lead_back(tool, arguments, config, schemas);
    assert(leads_back(root, all[x]));
    assert(few[i] == e);
    assert(found[i] == e) by {
        assert(found.take(few.len() as int)[i] == found[i]);
    }
    let j = choose|j: int| 0 <= j < found.len() && found[j] == all[y];
    if j < few.len() {
        assert(found.take(few.len() as int)[j] == found[j]);
        let m = choose|m: int|
            0 <= m < k + 1 && finds(
                #[trigger] strategies[m],
                tool,
                arguments,
                config,
                schemas,
            ).contains(few[j]);
        assert(strategies[m] == config.strategies@[m]@);
    }
    unsuppressed_in_order(found, suppressed, found.len(), i, j);
}

/// A text that begins like a path is among the paths of a call, wherever it stands among
/// the arguments and however deep, provided that the heuristic strategy is used and that
/// its key is not listed as something else: one that begins with `/` or `~/` where the
/// settings look for that, or with one of the prefixes.
pub proof fn texts_that_begin_like_paths_are_found(
    tool: Seq<char>,
    arguments: Seq<(Seq<char>, JsonView)>,
    config: EffectiveConfig,
    schemas: Map<Seq<char>, ToolSchema>,
    tokens: Seq<Seq<char>>,
    s: Seq<char>,
    n: int,
)
    requires
        addressable(JsonView::Object(arguments)),
        json::selected(JsonView::Object(arguments), tokens) == Some(JsonView::Text(s)),
        exists|i: int|
            0 <= i < config.strategies@.len() && (#[trigger] config.strategies@[i])@
                == "heuristic"@,
        config.non_path_arguments@.contains_key("*"@) ==> forall|i: int|
            0 <= i < config.non_path_arguments@["*"@]@.len() ==> (
            #[trigger] config.non_path_arguments@["*"@]@[i])@ != tokens.last(),
        config.non_path_arguments@.contains_key(tool) ==> forall|i: int|
            0 <= i < config.non_path_arguments@[tool]@.len() ==> (
            #[trigger] config.non_path_arguments@[tool]@[i])@ != tokens.last(),
        (config.heuristic_absolute_prefix && s.len() >= 1 && s[0] == '/') || (
        config.heuristic_home_prefix && s.len() >= 2 && s[0] == '~' && s[1] == '/') || (0 <= n
            < config.heuristic_uri_prefix@.len() && config.heuristic_uri_prefix@[n]@.len()
            <= s.len() && s.take(config.heuristic_uri_prefix@[n]@.len() as int)
            == config.heuristic_uri_prefix@[n]@),
    ensures
        identified(tool, arguments, config, schemas).contains((json::pointer_of(tokens), s)),
{
    if 0 <= n < config.heuristic_uri_prefix@.len() && config.heuristic_uri_prefix@[n]@.len()
        <= s.len() && s.take(config.heuristic_uri_prefix@[n]@.len() as int)
        == config.heuristic_uri_prefix@[n]@ {
        let p = config.heuristic_uri_prefix@[n]@;
        assert forall|j: int| 0 <= j < p.len() implies s[j] == p[j] by {
            assert(s.take(p.len() as int)[j] == s[j]);
        }
        assert(begins_like_path(s, config));
    }
    assert(has_strategy(config, "heuristic"@));
    assert(is_path_argument(tool, tokens, s, config, schemas));
    path_arguments_are_identified(tool, arguments, config, schemas, tokens, s);
}

/// An argument that is listed as a path, for its tool or for every tool, is among the
/// paths of a call where the config strategy is used, whatever its text; unless it is
/// listed as something else as well.
pub proof fn listed_arguments_are_found(
    tool: Seq<char>,
    arguments: Seq<(Seq<char>, JsonView)>,
    config: EffectiveConfig,
    schemas: Map<Seq<char>, ToolSchema>,
    under: Seq<char>,
    n: int,
    s: Seq<char>,
)
    requires
        addressable(JsonView::Object(arguments)),
        exists|i: int|
            0 <= i < config.strategies@.len() && (#[trigger] config.strategies@[i])@ == "config"@,
        under == tool || under == "*"@,
        config.path_arguments@.contains_key(under),
        0 <= n < config.path_arguments@[under]@.len(),
        json::member(JsonView::Object(arguments), config.path_arguments@[under]@[n]@) == Some(
            JsonView::Text(s),
        ),
        config.non_path_arguments@.contains_key("*"@) ==> forall|i: int|
            0 <= i < config.non_path_arguments@["*"@]@.len() ==> (
            #[trigger] config.non_path_arguments@["*"@]@[i])@
                != config.path_arguments@[under]@[n]@,
        config.non_path_arguments@.contains_key(tool) ==> forall|i: int|
            0 <= i < config.non_path_arguments@[tool]@.len() ==> (
            #[trigger] config.non_path_arguments@[tool]@[i])@
                != config.path_arguments@[under]@[n]@,
    ensures
        identified(tool, arguments, config, schemas).contains(
            (seq!['/'] + json::escaped(config.path_arguments@[under]@[n]@), s),
        ),
{
    let key = config.path_arguments@[under]@[n]@;
    let tokens = seq![key];
    json::member_is_selected(JsonView::Object(arguments), key);
    assert(has_strategy(config, "config"@));
    assert(is_listed(config.path_arguments@, tool, key));
    assert(tokens.last() == key);
    path_arguments_are_identified(tool, arguments, config, schemas, tokens, s);
    top_pointers(tokens, key);
    reveal_strlit("");
    reveal_strlit("/");
    assert(below(""@, key) =~= seq!['/'] + json::escaped(key));
}

/// An argument whose property in the schema of the called tool has the format of a path
/// or a URI, or whose description speaks of a file path, a filesystem path or an absolute
/// path, is among the paths of a call where the schema strategy is used, whatever its
/// text; unless it is listed as something else.
pub proof fn described_arguments_are_found(
    tool: Seq<char>,
    arguments: Seq<(Seq<char>, JsonView)>,
    config: EffectiveConfig,
    schemas: Map<Seq<char>, ToolSchema>,
    key: Seq<char>,
    prop: JsonView,
    word: Seq<char>,
    before: Seq<char>,
    phrase: Seq<char>,
    after: Seq<char>,
    s: Seq<char>,
)
    requires
        addressable(JsonView::Object(arguments)),
        exists|i: int|
            0 <= i < config.strategies@.len() && (#[trigger] config.strategies@[i])@ == "schema"@,
        schemas.contains_key(tool),
        json::member_of(json::member(schemas[tool].input_schema@, "properties"@), key) == Some(
            prop,
        ),
        (json::member(prop, "format"@) == Some(JsonView::Text(word)) && (text::unicode_lowered(word)
            == "path"@ || text::unicode_lowered(word) == "uri"@)) || (json::member(
            prop,
            "description"@,
        ) == Some(JsonView::Text(word)) && text::unicode_lowered(word) == before + phrase + after
            && (phrase == "file path"@ || phrase == "filesystem path"@ || phrase
            == "absolute path"@)),
        json::member(JsonView::Object(arguments), key) == Some(JsonView::Text(s)),
        config.non_path_arguments@.contains_key("*"@) ==> forall|i: int|
            0 <= i < config.non_path_arguments@["*"@]@.len() ==> (
            #[trigger] config.non_path_arguments@["*"@]@[i])@ != key,
        config.non_path_arguments@.contains_key(tool) ==> forall|i: int|
            0 <= i < config.non_path_arguments@[tool]@.len() ==> (
            #[trigger] config.non_path_arguments@[tool]@[i])@ != key,
    ensures
        identified(tool, arguments, config, schemas).contains(
            (seq!['/'] + json::escaped(key), s),
        ),
{
    let tokens = seq![key];
    let low = text::unicode_lowered(word);
    json::member_is_selected(JsonView::Object(arguments), key);
    assert(has_strategy(config, "schema"@));
    assert(tokens.last() == key);
    assert(says_path(prop)) by {
        if low == before + phrase + after {
            let i = before.len() as int;
            assert(low.subrange(i, i + phrase.len()) =~= phrase);
            assert(text::occurs_at(low, phrase, i));
        }
    }
    path_arguments_are_identified(tool, arguments, config, schemas, tokens, s);
    top_pointers(tokens, key);
    reveal_strlit("");
    reveal_strlit("/");
    assert(below(""@, key) =~= seq!['/'] + json::escaped(key));
}

/// Nothing else is among the paths of a call: not what is listed as something else, and
/// not a text that does not begin like a path where it is neither listed nor described
/// as one, or stands deeper than lists and schemas reach.
pub proof fn other_texts_are_not_found(
    tool: Seq<char>,
    arguments: Seq<(Seq<char>, JsonView)>,
    config: EffectiveConfig,
    schemas: Map<Seq<char>, ToolSchema>,
    tokens: Seq<Seq<char>>,
    s: Seq<char>,
    n: int,
)
    requires
        addressable(JsonView::Object(arguments)),
        json::selected(JsonView::Object(arguments), tokens) == Some(JsonView::Text(s)),
        (config.non_path_arguments@.contains_key(tool) && 0 <= n
            < config.non_path_arguments@[tool]@.len() && config.non_path_arguments@[tool]@[n]@
            == tokens.last()) || (config.non_path_arguments@.contains_key("*"@) && 0 <= n
            < config.non_path_arguments@["*"@]@.len() && config.non_path_arguments@["*"@]@[n]@
            == tokens.last()) || ((s.len() == 0 || (s[0] != '/' && s[0] != '~'))
            && config.heuristic_uri_prefix@.len() == 0 && (tokens.len() > 1 || (
        !config.path_arguments@.contains_key(tool) && !config.path_arguments@.contains_key("*"@)
            && !schemas.contains_key(tool)))),
    ensures
        !identified(tool, arguments, config, schemas).contains((json::pointer_of(tokens), s)),
{
    assert(!is_path_argument(tool, tokens, s, config, schemas)) by {
        if config.non_path_arguments@.contains_key(tool) && 0 <= n
            < config.non_path_arguments@[tool]@.len() && config.non_path_arguments@[tool]@[n]@
            == tokens.last() {
            assert(is_listed(config.non_path_arguments@, tool, tokens.last()));
        } else if config.non_path_arguments@.contains_key("*"@) && 0 <= n
            < config.non_path_arguments@["*"@]@.len() && config.non_path_arguments@["*"@]@[n]@
            == tokens.last() {
            assert(is_listed(config.non_path_arguments@, tool, tokens.last()));
        } else {
            assert(!begins_like_path(s, config));
        }
    }
    path_arguments_are_identified(tool, arguments, config, schemas, tokens, s);
}

} // verus!
