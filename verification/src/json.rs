//! JSON values as the pipeline reads and rewrites them.
use vstd::prelude::*;
use vstd::utf8::*;

use crate::text;

verus! {

/// `serde_json::Number`, carried through unread.
#[verifier::external_type_specification]
#[verifier::external_body]
pub struct ExNumber(serde_json::Number);

/// `serde_json::Value`, the tree that `serde_json` reads and writes.
#[verifier::external_type_specification]
#[verifier::external_body]
pub struct ExValue(serde_json::Value);

/// A JSON value. An object's members stand in the order in which
/// `serde_json` hands them out.
#[derive(Debug, PartialEq)]
pub enum Json {
    Null,
    Bool(bool),
    Number(serde_json::Number),
    Text(String),
    Array(Vec<Json>),
    Object(Vec<(String, Json)>),
}

/// The mathematical model of [`Json`].
pub ghost enum JsonView {
    Null,
    Bool(bool),
    Number(serde_json::Number),
    Text(Seq<char>),
    Array(Seq<JsonView>),
    Object(Seq<(Seq<char>, JsonView)>),
}

impl Json {
    pub open spec fn view(&self) -> JsonView
        decreases self,
    {
        match self {
            Json::Null => JsonView::Null,
            Json::Bool(b) => JsonView::Bool(*b),
            Json::Number(n) => JsonView::Number(*n),
            Json::Text(s) => JsonView::Text(s@),
            Json::Array(items) => JsonView::Array(
                Seq::new(
                    items@.len(),
                    |i: int|
                        if 0 <= i < items@.len() {
                            items@[i].view()
                        } else {
                            JsonView::Null
                        },
                ),
            ),
            Json::Object(members) => JsonView::Object(
                Seq::new(
                    members@.len(),
                    |i: int|
                        if 0 <= i < members@.len() {
                            (members@[i].0@, members@[i].1.view())
                        } else {
                            (Seq::empty(), JsonView::Null)
                        },
                ),
            ),
        }
    }
}

/// The value of the first member named `key`.
pub open spec fn lookup(members: Seq<(Seq<char>, JsonView)>, key: Seq<char>) -> Option<JsonView>
    decreases members.len(),
{
    if members.len() == 0 {
        None
    } else if members[0].0 == key {
        Some(members[0].1)
    } else {
        lookup(members.skip(1), key)
    }
}

/// The member `key` of a value: `None` unless the value is an object that has it.
pub open spec fn member(v: JsonView, key: Seq<char>) -> Option<JsonView> {
    match v {
        JsonView::Object(members) => lookup(members, key),
        _ => None,
    }
}

/// The text of a string value.
pub open spec fn text_of(v: Option<JsonView>) -> Option<Seq<char>> {
    match v {
        Some(JsonView::Text(s)) => Some(s),
        _ => None,
    }
}

/// The items of an array value.
pub open spec fn items_of(v: Option<JsonView>) -> Option<Seq<JsonView>> {
    match v {
        Some(JsonView::Array(items)) => Some(items),
        _ => None,
    }
}

/// The members of an object value.
pub open spec fn members_of(v: Option<JsonView>) -> Option<Seq<(Seq<char>, JsonView)>> {
    match v {
        Some(JsonView::Object(members)) => Some(members),
        _ => None,
    }
}

/// The member `key` of the value, if there is a value.
pub open spec fn member_of(v: Option<JsonView>, key: Seq<char>) -> Option<JsonView> {
    match v {
        Some(j) => member(j, key),
        None => None,
    }
}

/// The models of a list of members.
pub open spec fn member_views(members: Seq<(String, Json)>) -> Seq<(Seq<char>, JsonView)> {
    Seq::new(members.len(), |i: int| (members[i].0@, members[i].1@))
}

/// The models of a list of values.
pub open spec fn item_views(items: Seq<Json>) -> Seq<JsonView> {
    Seq::new(items.len(), |i: int| items[i]@)
}

/// The model of an object is that of its members.
pub proof fn object_view(j: &Json)
    ensures
        j matches Json::Object(members) ==> j@ == JsonView::Object(member_views(members@)),
        j matches Json::Array(items) ==> j@ == JsonView::Array(item_views(items@)),
{
    match j {
        Json::Object(members) => {
            assert(j@->Object_0 =~= member_views(members@));
        },
        Json::Array(items) => {
            assert(j@->Array_0 =~= item_views(items@));
        },
        _ => {},
    }
}

proof fn lookup_miss(members: Seq<(Seq<char>, JsonView)>, key: Seq<char>, i: int)
    requires
        0 <= i < members.len(),
        members[i].0 != key,
    ensures
        lookup(members.skip(i), key) == lookup(members.skip(i + 1), key),
{
    assert(members.skip(i).skip(1) =~= members.skip(i + 1));
}

/// The first member of `members` named `key`.
pub fn find_member<'a>(members: &'a Vec<(String, Json)>, key: &str) -> (r: Option<&'a Json>)
    ensures
        match r {
            Some(j) => lookup(member_views(members@), key@) == Some(j@),
            None => lookup(member_views(members@), key@) is None,
        },
{
    let ghost all = member_views(members@);
    let mut i: usize = 0;
    assert(all.skip(0) =~= all);
    while i < members.len()
        invariant
            i <= members@.len(),
            all == member_views(members@),
            lookup(all.skip(i as int), key@) == lookup(all, key@),
        decreases members@.len() - i,
    {
        if text::str_eq(members[i].0.as_str(), key) {
            return Some(&members[i].1);
        }
        proof {
            lookup_miss(all, key@, i as int);
        }
        i = i + 1;
    }
    assert(all.skip(i as int).len() == 0);
    None
}

impl Json {
    /// The member `key` of an object.
    pub fn get(&self, key: &str) -> (r: Option<&Json>)
        ensures
            match r {
                Some(j) => member(self@, key@) == Some(j@),
                None => member(self@, key@) is None,
            },
    {
        proof {
            object_view(self);
        }
        match self {
            Json::Object(members) => find_member(members, key),
            _ => None,
        }
    }

    /// The text of a string.
    pub fn as_str(&self) -> (r: Option<&str>)
        ensures
            match r {
                Some(s) => text_of(Some(self@)) == Some(s@),
                None => text_of(Some(self@)) is None,
            },
    {
        match self {
            Json::Text(s) => Some(s.as_str()),
            _ => None,
        }
    }

    /// The items of an array.
    pub fn as_array(&self) -> (r: Option<&Vec<Json>>)
        ensures
            match r {
                Some(v) => items_of(Some(self@)) == Some(item_views(v@)),
                None => items_of(Some(self@)) is None,
            },
    {
        proof {
            object_view(self);
        }
        match self {
            Json::Array(v) => Some(v),
            _ => None,
        }
    }

    /// The members of an object.
    pub fn as_object(&self) -> (r: Option<&Vec<(String, Json)>>)
        ensures
            match r {
                Some(v) => members_of(Some(self@)) == Some(member_views(v@)),
                None => members_of(Some(self@)) is None,
            },
    {
        proof {
            object_view(self);
        }
        match self {
            Json::Object(v) => Some(v),
            _ => None,
        }
    }
}

/// `serde_json::Number::clone` gives back an equal number.
pub assume_specification[ <serde_json::Number as Clone>::clone ](
    n: &serde_json::Number,
) -> (r: serde_json::Number)
    ensures
        r == *n,
;

impl Clone for Json {
    fn clone(&self) -> (r: Self)
        ensures
            r@ == self@,
        decreases self,
    {
        let r = match self {
            Json::Null => Json::Null,
            Json::Bool(b) => Json::Bool(*b),
            Json::Number(n) => Json::Number(n.clone()),
            Json::Text(s) => Json::Text(s.clone()),
            Json::Array(items) => {
                let mut out: Vec<Json> = Vec::new();
                let mut i: usize = 0;
                while i < items.len()
                    invariant
                        self matches Json::Array(v) && v == items,
                        i <= items@.len(),
                        out@.len() == i,
                        forall|j: int| 0 <= j < i ==> (#[trigger] out@[j])@ == items@[j]@,
                    decreases items@.len() - i,
                {
                    out.push(items[i].clone());
                    i = i + 1;
                }
                assert(item_views(out@) =~= item_views(items@));
                Json::Array(out)
            },
            Json::Object(members) => {
                let mut out: Vec<(String, Json)> = Vec::new();
                let mut i: usize = 0;
                while i < members.len()
                    invariant
                        self matches Json::Object(v) && v == members,
                        i <= members@.len(),
                        out@.len() == i,
                        forall|j: int|
                            0 <= j < i ==> (#[trigger] out@[j]).0@ == members@[j].0@ && out@[j].1@
                                == members@[j].1@,
                    decreases members@.len() - i,
                {
                    out.push((members[i].0.clone(), members[i].1.clone()));
                    i = i + 1;
                }
                assert(member_views(out@) =~= member_views(members@));
                Json::Object(out)
            },
        };
        proof {
            object_view(self);
            object_view(&r);
        }
        r
    }
}

// ---------------------------------------------------------------------------
// Reading and writing
// ---------------------------------------------------------------------------

/// What `serde_json::from_str` makes of a text: a value, or the text of its error.
pub uninterp spec fn parsed_value(s: Seq<char>) -> Result<serde_json::Value, Seq<char>>;

/// What a `serde_json::Value` holds.
pub uninterp spec fn value_held(v: serde_json::Value) -> JsonView;

/// The `serde_json::Value` built from a model, member by member, a later member
/// taking the place of an earlier one of the same name.
pub uninterp spec fn value_of(j: JsonView) -> serde_json::Value;

/// The compact text of a `serde_json::Value`.
pub uninterp spec fn rendered_value(v: serde_json::Value) -> Seq<char>;

/// What a text holds as JSON, or the text of the error.
pub open spec fn json_of(s: Seq<char>) -> Result<JsonView, Seq<char>> {
    match parsed_value(s) {
        Ok(v) => Ok(value_held(v)),
        Err(e) => Err(e),
    }
}

/// The compact JSON text of a value.
pub open spec fn json_text(j: JsonView) -> Seq<char> {
    rendered_value(value_of(j))
}

/// The integer that a `serde_json::Number` holds, if it holds one.
pub uninterp spec fn integer_held(n: serde_json::Number) -> Option<int>;

/// Whether a value is nested no deeper than `depth` and no object in it has two
/// members of one name.
pub open spec fn nested(v: JsonView, depth: nat) -> bool
    decreases v,
{
    match v {
        JsonView::Array(items) => depth > 0 && forall|i: int|
            0 <= i < items.len() ==> nested(#[trigger] items[i], (depth - 1) as nat),
        JsonView::Object(members) => {
            &&& depth > 0
            &&& forall|i: int, j: int|
                0 <= i < j < members.len() ==> (#[trigger] members[i]).0 != (
                #[trigger] members[j]).0
            &&& forall|i: int|
                0 <= i < members.len() ==> nested((#[trigger] members[i]).1, (depth - 1) as nat)
        },
        _ => true,
    }
}

/// Whether every number in a value is an integer.
pub open spec fn integral(v: JsonView) -> bool
    decreases v,
{
    match v {
        JsonView::Number(n) => integer_held(n) is Some,
        JsonView::Array(items) => forall|i: int|
            0 <= i < items.len() ==> integral(#[trigger] items[i]),
        JsonView::Object(members) => forall|i: int|
            0 <= i < members.len() ==> integral((#[trigger] members[i]).1),
        _ => true,
    }
}

/// How deep a text may be nested for `serde_json` to read it.
pub const MAX_NESTING: usize = 127;

/// Whether a value comes back as it was from its text.
pub open spec fn travels(v: JsonView) -> bool {
    nested(v, MAX_NESTING as nat) && integral(v)
}

/// Whether two values are equal up to the order of the members of objects.
pub open spec fn same(v: JsonView, w: JsonView) -> bool
    decreases v,
{
    match (v, w) {
        (JsonView::Array(x), JsonView::Array(y)) => x.len() == y.len() && forall|i: int|
            0 <= i < x.len() ==> same(#[trigger] x[i], y[i]),
        (JsonView::Object(m), JsonView::Object(n)) => m.len() == n.len() && forall|i: int|
            0 <= i < m.len() ==> lookup(n, (#[trigger] m[i]).0) is Some && same(
                m[i].1,
                lookup(n, m[i].0)->0,
            ),
        _ => v == w,
    }
}

/// Whether reading a text gives a value back, up to the order of members.
pub open spec fn reads_back(s: Seq<char>, v: JsonView) -> bool {
    json_of(s) is Ok && same(v, json_of(s)->Ok_0)
}

/// `serde_json::from_str` into a `Value`: a function of the text alone. An error
/// comes back as the text that it displays. A text that is nested too deep is an
/// error, and a `serde_json::Map` holds a name once.
#[verifier::external_body]
pub(crate) fn parse_value(s: &str) -> (r: Result<serde_json::Value, String>)
    ensures
        match r {
            Ok(v) => parsed_value(s@) == Ok::<serde_json::Value, Seq<char>>(v) && nested(
                value_held(v),
                MAX_NESTING as nat,
            ),
            Err(e) => parsed_value(s@) == Err::<serde_json::Value, Seq<char>>(e@),
        },
{
    serde_json::from_str(s).map_err(|e| e.to_string())
}

/// Takes a `serde_json::Value` apart, variant by variant; members come in the
/// order of `serde_json::Map::into_iter`.
#[verifier::external_body]
pub(crate) fn from_value(v: serde_json::Value) -> (r: Json)
    ensures
        r@ == value_held(v),
{
    match v {
        serde_json::Value::Null => Json::Null,
        serde_json::Value::Bool(b) => Json::Bool(b),
        serde_json::Value::Number(n) => Json::Number(n),
        serde_json::Value::String(s) => Json::Text(s),
        serde_json::Value::Array(a) => Json::Array(a.into_iter().map(from_value).collect()),
        serde_json::Value::Object(m) => {
            Json::Object(m.into_iter().map(|(k, x)| (k, from_value(x))).collect())
        },
    }
}

/// Builds a `serde_json::Value`, variant by variant: a function of what the
/// argument holds. Where no name stands twice in an object, the value holds the
/// same, nested as deep, though `serde_json::Map` may order members otherwise.
#[verifier::external_body]
pub(crate) fn to_value(j: &Json) -> (r: serde_json::Value)
    ensures
        r == value_of(j@),
        forall|d: nat| #[trigger]
            nested(j@, d) ==> same(j@, value_held(r)) && nested(value_held(r), d),
        integral(j@) ==> integral(value_held(r)),
{
    match j {
        Json::Null => serde_json::Value::Null,
        Json::Bool(b) => serde_json::Value::Bool(*b),
        Json::Number(n) => serde_json::Value::Number(n.clone()),
        Json::Text(s) => serde_json::Value::String(s.clone()),
        Json::Array(a) => serde_json::Value::Array(a.iter().map(to_value).collect()),
        Json::Object(m) => {
            serde_json::Value::Object(m.iter().map(|(k, x)| (k.clone(), to_value(x))).collect())
        },
    }
}

/// `serde_json::Value::to_string`, the compact form: a function of the value
/// alone, never empty, and on one line, since control characters in strings are
/// escaped and no layout is added. `serde_json::from_str` reads the same value from
/// it, provided that every number is an integer, for the last digit of another may
/// get lost, and that the value is not nested too deep to be read.
#[verifier::external_body]
pub(crate) fn value_text(v: &serde_json::Value) -> (r: String)
    ensures
        r@ == rendered_value(*v),
        r@.len() > 0,
        !r@.contains('\n'),
        !r@.contains('\r'),
        travels(value_held(*v)) ==> parsed_value(r@) is Ok && value_held(parsed_value(r@)->Ok_0)
            == value_held(*v),
{
    v.to_string()
}

/// `serde_json::Number::is_f64`: a number that is no integer, and no other, is a
/// floating-point number.
#[verifier::external_body]
fn is_fraction(n: &serde_json::Number) -> (r: bool)
    ensures
        r == (integer_held(*n) is None),
{
    n.is_f64()
}

impl Json {
    /// Whether every number within the value is an integer, so that the value, as far as
    /// nesting goes, is read back from its text.
    #[must_use]
    pub fn is_integral(&self) -> (r: bool)
        ensures
            r == integral(self@),
        decreases self,
    {
        proof {
            object_view(self);
        }
        match self {
            Json::Number(n) => !is_fraction(n),
            Json::Array(items) => {
                let mut i: usize = 0;
                while i < items.len()
                    invariant
                        self matches Json::Array(v) && v == items,
                        self@ == JsonView::Array(item_views(items@)),
                        i <= items@.len(),
                        forall|j: int| 0 <= j < i ==> integral(#[trigger] item_views(items@)[j]),
                    decreases items@.len() - i,
                {
                    assert(item_views(items@)[i as int] == items@[i as int]@);
                    if !items[i].is_integral() {
                        assert(!integral((self@->Array_0)[i as int]));
                        return false;
                    }
                    i = i + 1;
                }
                true
            },
            Json::Object(members) => {
                let mut i: usize = 0;
                while i < members.len()
                    invariant
                        self matches Json::Object(v) && v == members,
                        self@ == JsonView::Object(member_views(members@)),
                        i <= members@.len(),
                        forall|j: int|
                            0 <= j < i ==> integral((#[trigger] member_views(members@)[j]).1),
                    decreases members@.len() - i,
                {
                    assert(member_views(members@)[i as int].1 == members@[i as int].1@);
                    if !members[i].1.is_integral() {
                        assert(!integral((self@->Object_0)[i as int].1));
                        return false;
                    }
                    i = i + 1;
                }
                true
            },
            _ => true,
        }
    }
}

/// Reads a JSON text. What is read can be written again, as far as nesting goes.
pub fn parse(s: &str) -> (r: Result<Json, String>)
    ensures
        match r {
            Ok(j) => json_of(s@) == Ok::<JsonView, Seq<char>>(j@) && nested(
                j@,
                MAX_NESTING as nat,
            ),
            Err(e) => json_of(s@) == Err::<JsonView, Seq<char>>(e@),
        },
{
    match parse_value(s) {
        Ok(v) => Ok(from_value(v)),
        Err(e) => Err(e),
    }
}

/// Writes a value as compact JSON, on one line, from which the value is read back.
pub fn render(j: &Json) -> (r: String)
    ensures
        r@ == json_text(j@),
        r@.len() > 0,
        !r@.contains('\n'),
        !r@.contains('\r'),
        travels(j@) ==> reads_back(r@, j@),
{
    let value = to_value(j);
    value_text(&value)
}

/// What holds of every member holds of the one of this name.
pub proof fn lookup_is_a_member(members: Seq<(Seq<char>, JsonView)>, key: Seq<char>)
    ensures
        match lookup(members, key) {
            Some(v) => exists|i: int|
                0 <= i < members.len() && #[trigger] members[i] == (key, v),
            None => forall|i: int| 0 <= i < members.len() ==> (#[trigger] members[i]).0 != key,
        },
    decreases members.len(),
{
    if members.len() > 0 {
        let rest = members.skip(1);
        lookup_is_a_member(rest, key);
        if members[0].0 == key {
            assert(members[0] == (key, members[0].1));
        } else {
            match lookup(rest, key) {
                Some(v) => {
                    let i = choose|i: int| 0 <= i < rest.len() && #[trigger] rest[i] == (key, v);
                    assert(members[i + 1] == (key, v));
                },
                None => {
                    assert forall|i: int| 0 <= i < members.len() implies (
                    #[trigger] members[i]).0 != key by {
                        if i > 0 {
                            assert(rest[i - 1] == members[i]);
                        }
                    }
                },
            }
        }
    }
}

/// A value that comes back has the members that it had: what is written under a
/// name is read under it.
pub proof fn members_come_back(v: JsonView, w: JsonView, key: Seq<char>)
    requires
        same(v, w),
        member(v, key) is Some,
    ensures
        member(w, key) is Some,
        same(member(v, key)->0, member(w, key)->0),
{
    let members = v->Object_0;
    lookup_is_a_member(members, key);
    let i = choose|i: int|
        0 <= i < members.len() && #[trigger] members[i] == (key, lookup(members, key)->0);
    assert(members[i].0 == key);
}

/// The members of a value that travels do too, one level less deep.
pub proof fn members_travel(v: JsonView, key: Seq<char>, depth: nat)
    requires
        nested(v, depth),
        integral(v),
        member(v, key) is Some,
    ensures
        depth > 0,
        nested(member(v, key)->0, (depth - 1) as nat),
        integral(member(v, key)->0),
{
    let members = v->Object_0;
    lookup_is_a_member(members, key);
    let i = choose|i: int|
        0 <= i < members.len() && #[trigger] members[i] == (key, lookup(members, key)->0);
    assert(nested(members[i].1, (depth - 1) as nat));
}

// ---------------------------------------------------------------------------
// JSON pointers
// ---------------------------------------------------------------------------

/// A pointer's reference token with its escapes undone: `~1` is `/`, `~0` is `~`.
pub open spec fn unescaped(token: Seq<char>) -> Seq<char> {
    text::replaced(text::replaced(token, seq!['~', '1'], seq!['/']), seq!['~', '0'], seq!['~'])
}

/// How one character of a key is written in a pointer.
pub open spec fn escaped_char(c: char) -> Seq<char> {
    if c == '~' {
        seq!['~', '0']
    } else if c == '/' {
        seq!['~', '1']
    } else {
        seq![c]
    }
}

/// How a key is written in a pointer: `~` as `~0`, `/` as `~1`.
pub open spec fn escaped(key: Seq<char>) -> Seq<char>
    decreases key.len(),
{
    if key.len() == 0 {
        key
    } else {
        escaped_char(key[0]) + escaped(key.skip(1))
    }
}

/// The pointer made of the given tokens.
pub open spec fn pointer_of(tokens: Seq<Seq<char>>) -> Seq<char>
    decreases tokens.len(),
{
    if tokens.len() == 0 {
        Seq::empty()
    } else {
        pointer_of(tokens.drop_last()).push('/') + escaped(tokens.last())
    }
}

/// The reference tokens of a JSON pointer: none for the empty pointer; a pointer
/// that does not begin with `/` points at nothing.
pub open spec fn pointer_tokens(p: Seq<char>) -> Option<Seq<Seq<char>>> {
    if p.len() == 0 {
        Some(Seq::empty())
    } else if p[0] == '/' {
        Some(text::split_on(p, '/').skip(1).map_values(|t: Seq<char>| unescaped(t)))
    } else {
        None
    }
}

/// The array position that a token stands for: decimal digits without a leading
/// zero, within the machine's range.
pub open spec fn token_index(t: Seq<char>) -> Option<nat> {
    if text::is_digits(t) && (t.len() == 1 || t[0] != '0') && text::number_of(t) <= usize::MAX {
        Some(text::number_of(t))
    } else {
        None
    }
}

/// The position of the first member named `key`.
pub open spec fn key_position(members: Seq<(Seq<char>, JsonView)>, key: Seq<char>) -> Option<nat>
    decreases members.len(),
{
    if members.len() == 0 {
        None
    } else if members[0].0 == key {
        Some(0)
    } else {
        match key_position(members.skip(1), key) {
            Some(k) => Some(k + 1),
            None => None,
        }
    }
}

/// The child of `j` that `token` selects: a member by name, an item by position.
pub open spec fn child_position(j: JsonView, token: Seq<char>) -> Option<nat> {
    match j {
        JsonView::Object(members) => key_position(members, token),
        JsonView::Array(items) => match token_index(token) {
            Some(k) => if k < items.len() {
                Some(k)
            } else {
                None
            },
            None => None,
        },
        _ => None,
    }
}

/// The child at position `k`.
pub open spec fn child(j: JsonView, k: nat) -> JsonView {
    match j {
        JsonView::Object(members) => members[k as int].1,
        JsonView::Array(items) => items[k as int],
        _ => j,
    }
}

/// `j` with the child at position `k` replaced.
pub open spec fn with_child(j: JsonView, k: nat, new: JsonView) -> JsonView {
    match j {
        JsonView::Object(members) => JsonView::Object(
            members.update(k as int, (members[k as int].0, new)),
        ),
        JsonView::Array(items) => JsonView::Array(items.update(k as int, new)),
        _ => j,
    }
}

/// What the tokens select in `j`.
pub open spec fn selected(j: JsonView, tokens: Seq<Seq<char>>) -> Option<JsonView>
    decreases tokens.len(),
{
    if tokens.len() == 0 {
        Some(j)
    } else {
        match child_position(j, tokens[0]) {
            Some(k) => selected(child(j, k), tokens.skip(1)),
            None => None,
        }
    }
}

/// `j` with what the tokens select replaced by `new`; `j` itself where they
/// select nothing.
pub open spec fn placed(j: JsonView, tokens: Seq<Seq<char>>, new: JsonView) -> JsonView
    decreases tokens.len(),
{
    if tokens.len() == 0 {
        new
    } else {
        match child_position(j, tokens[0]) {
            Some(k) => with_child(j, k, placed(child(j, k), tokens.skip(1), new)),
            None => j,
        }
    }
}

/// `j` with what the pointer selects replaced by `new`; `j` itself where it
/// selects nothing.
pub open spec fn placed_at(j: JsonView, pointer: Seq<char>, new: JsonView) -> JsonView {
    match pointer_tokens(pointer) {
        Some(tokens) => placed(j, tokens, new),
        None => j,
    }
}

/// How a key is written in a pointer.
pub fn escape(key: &str) -> (r: String)
    ensures
        r@ == escaped(key@),
{
    let v = text::chars_of(key);
    let mut r = String::new();
    let mut i: usize = 0;
    assert(key@.skip(0) =~= key@);
    assert(r@ + escaped(key@.skip(0)) =~= escaped(key@));
    while i < v.len()
        invariant
            v@ == key@,
            i <= v@.len(),
            r@ + escaped(key@.skip(i as int)) == escaped(key@),
        decreases v@.len() - i,
    {
        let ghost before = r@;
        let c = v[i];
        if c == '~' {
            r.push('~');
            r.push('0');
        } else if c == '/' {
            r.push('~');
            r.push('1');
        } else {
            r.push(c);
        }
        assert(key@.skip(i as int).skip(1) =~= key@.skip(i + 1));
        assert(r@ =~= before + escaped_char(c));
        assert(before + (escaped_char(c) + escaped(key@.skip(i + 1))) =~= r@ + escaped(
            key@.skip(i + 1),
        ));
        i = i + 1;
    }
    assert(r@ + escaped(key@.skip(i as int)) =~= r@);
    r
}

/// A pointer's reference token with its escapes undone.
pub fn unescape(token: &str) -> (r: String)
    ensures
        r@ == unescaped(token@),
{
    proof {
        reveal_strlit("~1");
        reveal_strlit("~0");
        reveal_strlit("/");
        reveal_strlit("~");
        assert("~1"@ =~= seq!['~', '1']);
        assert("~0"@ =~= seq!['~', '0']);
        assert("/"@ =~= seq!['/']);
        assert("~"@ =~= seq!['~']);
    }
    let once = text::replace(token, "~1", "/");
    text::replace(once.as_str(), "~0", "~")
}

/// The array position that a token stands for.
fn index_of_token(t: &str) -> (r: Option<usize>)
    ensures
        match r {
            Some(k) => token_index(t@) == Some(k as nat),
            None => token_index(t@) is None,
        },
{
    let v = text::chars_of(t);
    if v.len() != 1 && v.len() > 0 && v[0] == '0' {
        return None;
    }
    match text::parse_decimal(t, usize::MAX as u64) {
        Some(n) => Some(n as usize),
        None => None,
    }
}

/// The position of the first member named `key`.
fn position_of_key(members: &Vec<(String, Json)>, key: &str) -> (r: Option<usize>)
    ensures
        match r {
            Some(k) => k < members@.len() && key_position(member_views(members@), key@) == Some(
                k as nat,
            ),
            None => key_position(member_views(members@), key@) is None,
        },
{
    let ghost all = member_views(members@);
    let mut i: usize = 0;
    assert(all.skip(0) =~= all);
    while i < members.len()
        invariant
            i <= members@.len(),
            all == member_views(members@),
            match key_position(all.skip(i as int), key@) {
                Some(k) => key_position(all, key@) == Some((k + i) as nat),
                None => key_position(all, key@) is None,
            },
        decreases members@.len() - i,
    {
        assert(all.skip(i as int).skip(1) =~= all.skip(i + 1));
        if text::str_eq(members[i].0.as_str(), key) {
            return Some(i);
        }
        i = i + 1;
    }
    assert(all.skip(i as int).len() == 0);
    None
}

impl Json {
    /// Replaces what `tokens[from..]` select.
    fn put(&mut self, tokens: &Vec<String>, from: usize, new: Json)
        requires
            from <= tokens@.len(),
        ensures
            final(self)@ == placed(old(self)@, text::texts(tokens@).skip(from as int), new@),
        decreases tokens@.len() - from,
    {
        let ghost before = *self;
        let ghost rest = text::texts(tokens@).skip(from as int);
        proof {
            object_view(&before);
        }
        if from == tokens.len() {
            *self = new;
            return;
        }
        assert(rest[0] == tokens@[from as int]@);
        assert(rest.skip(1) =~= text::texts(tokens@).skip(from + 1));
        match self {
            Json::Object(members) => {
                match position_of_key(members, tokens[from].as_str()) {
                    Some(k) => {
                        let ghost was = members@;
                        members[k].1.put(tokens, from + 1, new);
                        assert(member_views(members@) =~= member_views(was).update(
                            k as int,
                            (was[k as int].0@, members@[k as int].1@),
                        ));
                    },
                    None => {},
                }
            },
            Json::Array(items) => {
                match index_of_token(tokens[from].as_str()) {
                    Some(k) => {
                        if k < items.len() {
                            let ghost was = items@;
                            items[k].put(tokens, from + 1, new);
                            assert(item_views(items@) =~= item_views(was).update(
                                k as int,
                                items@[k as int]@,
                            ));
                        }
                    },
                    None => {},
                }
            },
            _ => {},
        }
        proof {
            object_view(self);
        }
    }

    /// Replaces what the JSON pointer selects, if it selects anything.
    pub fn set_at(&mut self, pointer: &str, new: Json)
        ensures
            final(self)@ == placed_at(old(self)@, pointer@, new@),
    {
        let v = text::chars_of(pointer);
        if v.len() == 0 {
            *self = new;
            return;
        }
        if v[0] != '/' {
            return;
        }
        let pieces = text::split(pointer, '/');
        let ghost all = text::split_on(pointer@, '/');
        let mut tokens: Vec<String> = Vec::new();
        let mut i: usize = 1;
        while i < pieces.len()
            invariant
                text::texts(pieces@) == all,
                1 <= i <= pieces@.len(),
                tokens@.len() == i - 1,
                forall|j: int| 0 <= j < i - 1 ==> (#[trigger] tokens@[j])@ == unescaped(all[j + 1]),
            decreases pieces@.len() - i,
        {
            assert(all[i as int] == pieces@[i as int]@);
            tokens.push(unescape(pieces[i].as_str()));
            i = i + 1;
        }
        assert(text::texts(tokens@) =~= all.skip(1).map_values(|t: Seq<char>| unescaped(t)));
        assert(text::texts(tokens@).skip(0) =~= text::texts(tokens@));
        self.put(&tokens, 0, new);
    }
}

// ---------------------------------------------------------------------------
// Laws
// ---------------------------------------------------------------------------

proof fn key_position_found(members: Seq<(Seq<char>, JsonView)>, key: Seq<char>)
    ensures
        key_position(members, key) matches Some(k) ==> k < members.len() && members[k as int].0
            == key,
    decreases members.len(),
{
    if members.len() > 0 && members[0].0 != key {
        key_position_found(members.skip(1), key);
    }
}

/// Which member a name selects depends on the names alone.
pub proof fn key_position_by_names(
    a: Seq<(Seq<char>, JsonView)>,
    b: Seq<(Seq<char>, JsonView)>,
    key: Seq<char>,
)
    requires
        a.len() == b.len(),
        forall|i: int| 0 <= i < a.len() ==> (#[trigger] a[i]).0 == b[i].0,
    ensures
        key_position(a, key) == key_position(b, key),
    decreases a.len(),
{
    if a.len() > 0 && a[0].0 != key {
        assert forall|i: int| 0 <= i < a.skip(1).len() implies (#[trigger] a.skip(1)[i]).0
            == b.skip(1)[i].0 by {
            assert(a[i + 1].0 == b[i + 1].0);
        }
        key_position_by_names(a.skip(1), b.skip(1), key);
    }
}

/// A selected child is a child.
pub proof fn child_position_bound(j: JsonView, token: Seq<char>)
    ensures
        child_position(j, token) matches Some(k) ==> match j {
            JsonView::Object(members) => k < members.len() && members[k as int].0 == token,
            JsonView::Array(items) => k < items.len() && token == text::decimal(k),
            _ => false,
        },
{
    match j {
        JsonView::Object(members) => {
            key_position_found(members, token);
        },
        JsonView::Array(_) => {
            if token_index(token) is Some {
                text::digits_are_decimal(token);
            }
        },
        _ => {},
    }
}

/// Replacing a child changes nothing about which tokens select which children.
pub proof fn with_child_positions(j: JsonView, k: nat, new: JsonView, token: Seq<char>)
    requires
        match j {
            JsonView::Object(members) => k < members.len(),
            JsonView::Array(items) => k < items.len(),
            _ => false,
        },
    ensures
        child_position(with_child(j, k, new), token) == child_position(j, token),
        child(with_child(j, k, new), k) == new,
        forall|i: nat|
            i != k && child_position(j, token) == Some(i) ==> #[trigger] child(
                with_child(j, k, new),
                i,
            ) == child(j, i),
{
    child_position_bound(j, token);
    match j {
        JsonView::Object(members) => {
            key_position_by_names(
                members,
                members.update(k as int, (members[k as int].0, new)),
                token,
            );
        },
        _ => {},
    }
}

/// A text put in place nests nothing deeper and is no number.
pub proof fn placed_text_travels(
    j: JsonView,
    tokens: Seq<Seq<char>>,
    new: Seq<char>,
    depth: nat,
)
    requires
        nested(j, depth),
        integral(j),
    ensures
        nested(placed(j, tokens, JsonView::Text(new)), depth),
        integral(placed(j, tokens, JsonView::Text(new))),
    decreases tokens.len(),
{
    if tokens.len() > 0 {
        if let Some(k) = child_position(j, tokens[0]) {
            child_position_bound(j, tokens[0]);
            let below = (depth - 1) as nat;
            assert(nested(child(j, k), below) && integral(child(j, k)));
            placed_text_travels(child(j, k), tokens.skip(1), new, below);
            let inner = placed(child(j, k), tokens.skip(1), JsonView::Text(new));
            match (j, with_child(j, k, inner)) {
                (JsonView::Object(before), JsonView::Object(after)) => {
                    assert(forall|i: int|
                        0 <= i < before.len() ==> (#[trigger] after[i]).0 == before[i].0);
                    assert(forall|i: int|
                        0 <= i < before.len() && i != k ==> #[trigger] after[i] == before[i]);
                },
                (JsonView::Array(before), JsonView::Array(after)) => {
                    assert(forall|i: int|
                        0 <= i < before.len() && i != k ==> #[trigger] after[i] == before[i]);
                },
                _ => {},
            }
        }
    }
}

/// What was put in place is what is then selected.
pub proof fn placed_is_selected(j: JsonView, tokens: Seq<Seq<char>>, new: JsonView)
    requires
        selected(j, tokens) is Some,
    ensures
        selected(placed(j, tokens, new), tokens) == Some(new),
    decreases tokens.len(),
{
    if tokens.len() > 0 {
        let k = child_position(j, tokens[0])->0;
        child_position_bound(j, tokens[0]);
        let inner = placed(child(j, k), tokens.skip(1), new);
        placed_is_selected(child(j, k), tokens.skip(1), new);
        with_child_positions(j, k, inner, tokens[0]);
    }
}

/// Replacing one text leaves every other text where it was.
pub proof fn placed_leaves_others(
    j: JsonView,
    a: Seq<Seq<char>>,
    b: Seq<Seq<char>>,
    new: JsonView,
)
    requires
        selected(j, a) matches Some(JsonView::Text(_)),
        selected(j, b) matches Some(JsonView::Text(_)),
        a != b,
    ensures
        selected(placed(j, a, new), b) == selected(j, b),
    decreases a.len(),
{
    if a.len() == 0 {
        if b.len() == 0 {
            assert(a =~= b);
        }
    } else if b.len() == 0 {
    } else {
        let ka = child_position(j, a[0])->0;
        let kb = child_position(j, b[0])->0;
        child_position_bound(j, a[0]);
        child_position_bound(j, b[0]);
        let inner = placed(child(j, ka), a.skip(1), new);
        with_child_positions(j, ka, inner, b[0]);
        if ka == kb {
            assert(a[0] == b[0]);
            assert(a.skip(1) != b.skip(1)) by {
                if a.skip(1) == b.skip(1) {
                    assert(a =~= seq![a[0]] + a.skip(1));
                    assert(b =~= seq![b[0]] + b.skip(1));
                }
            }
            placed_leaves_others(child(j, ka), a.skip(1), b.skip(1), new);
        } else {
            assert(child(with_child(j, ka, inner), kb) == child(j, kb));
        }
    }
}

/// One more token selects a child of what the others select.
pub proof fn selected_child(j: JsonView, tokens: Seq<Seq<char>>, token: Seq<char>)
    ensures
        selected(j, tokens.push(token)) == match selected(j, tokens) {
            Some(v) => match child_position(v, token) {
                Some(k) => Some(child(v, k)),
                None => None,
            },
            None => None,
        },
    decreases tokens.len(),
{
    let more = tokens.push(token);
    if tokens.len() == 0 {
        assert(more.skip(1) =~= Seq::<Seq<char>>::empty());
        assert(more[0] == token);
        if let Some(k) = child_position(j, token) {
            assert(selected(child(j, k), more.skip(1)) == Some(child(j, k)));
        }
    } else {
        assert(more[0] == tokens[0]);
        assert(more.skip(1) =~= tokens.skip(1).push(token));
        if let Some(k) = child_position(j, tokens[0]) {
            selected_child(child(j, k), tokens.skip(1), token);
        }
    }
}

/// Selecting by tokens in two steps.
pub proof fn selected_in_steps(j: JsonView, a: Seq<Seq<char>>, b: Seq<Seq<char>>)
    ensures
        selected(j, a + b) == match selected(j, a) {
            Some(v) => selected(v, b),
            None => None,
        },
    decreases a.len(),
{
    if a.len() == 0 {
        assert(a + b =~= b);
    } else {
        assert((a + b)[0] == a[0]);
        assert((a + b).skip(1) =~= a.skip(1) + b);
        if let Some(k) = child_position(j, a[0]) {
            selected_in_steps(child(j, k), a.skip(1), b);
        }
    }
}

/// A member is the child of its name.
pub proof fn member_is_selected(j: JsonView, key: Seq<char>)
    requires
        member(j, key) is Some,
    ensures
        selected(j, seq![key]) == member(j, key),
{
    match j {
        JsonView::Object(members) => {
            lookup_is_position(members, key);
            let k = key_position(members, key)->0;
            assert(seq![key].skip(1) =~= Seq::<Seq<char>>::empty());
            assert(selected(child(j, k), seq![key].skip(1)) == Some(child(j, k)));
        },
        _ => {},
    }
}

/// The value under a name is that of the member at its position.
pub proof fn lookup_is_position(members: Seq<(Seq<char>, JsonView)>, key: Seq<char>)
    ensures
        lookup(members, key) == match key_position(members, key) {
            Some(k) => Some(members[k as int].1),
            None => None,
        },
        key_position(members, key) matches Some(k) ==> k < members.len() && members[k as int].0
            == key,
    decreases members.len(),
{
    if members.len() > 0 && members[0].0 != key {
        lookup_is_position(members.skip(1), key);
    }
}

/// A first character that begins no occurrence stays.
proof fn replaced_first_stays(c: char, rest: Seq<char>, from: Seq<char>, to: Seq<char>)
    requires
        from.len() == 2,
        from[0] != c || rest.len() == 0 || from[1] != rest[0],
    ensures
        text::replaced(seq![c] + rest, from, to) == seq![c] + text::replaced(rest, from, to),
{
    let s = seq![c] + rest;
    assert(s.skip(1) =~= rest);
    if s.len() < 2 {
        assert(rest =~= Seq::empty());
    } else if from.is_prefix_of(s) {
        assert(s.subrange(0, 2)[0] == c);
        assert(s.subrange(0, 2)[1] == rest[0]);
    }
}

/// An occurrence at the beginning is replaced.
proof fn replaced_first_goes(from: Seq<char>, rest: Seq<char>, to: Seq<char>)
    requires
        from.len() == 2,
    ensures
        text::replaced(from + rest, from, to) == to + text::replaced(rest, from, to),
{
    let s = from + rest;
    assert(s.subrange(0, 2) =~= from);
    assert(s.skip(2) =~= rest);
}

/// A key with `~` alone escaped.
spec fn half_escaped(key: Seq<char>) -> Seq<char>
    decreases key.len(),
{
    if key.len() == 0 {
        key
    } else if key[0] == '~' {
        seq!['~', '0'] + half_escaped(key.skip(1))
    } else {
        seq![key[0]] + half_escaped(key.skip(1))
    }
}

proof fn half_unescaped(key: Seq<char>)
    ensures
        text::replaced(escaped(key), seq!['~', '1'], seq!['/']) == half_escaped(key),
    decreases key.len(),
{
    let (from, to) = (seq!['~', '1'], seq!['/']);
    if key.len() > 0 {
        let rest = escaped(key.skip(1));
        half_unescaped(key.skip(1));
        if key[0] == '/' {
            replaced_first_goes(from, rest, to);
        } else if key[0] == '~' {
            assert(escaped(key) =~= seq!['~'] + (seq!['0'] + rest));
            replaced_first_stays('~', seq!['0'] + rest, from, to);
            replaced_first_stays('0', rest, from, to);
            assert(seq!['~'] + (seq!['0'] + half_escaped(key.skip(1))) =~= half_escaped(key));
        } else {
            replaced_first_stays(key[0], rest, from, to);
        }
    }
}

proof fn wholly_unescaped(key: Seq<char>)
    ensures
        text::replaced(half_escaped(key), seq!['~', '0'], seq!['~']) == key,
    decreases key.len(),
{
    let (from, to) = (seq!['~', '0'], seq!['~']);
    if key.len() > 0 {
        let rest = half_escaped(key.skip(1));
        wholly_unescaped(key.skip(1));
        if key[0] == '~' {
            replaced_first_goes(from, rest, to);
        } else {
            replaced_first_stays(key[0], rest, from, to);
        }
        assert(seq![key[0]] + key.skip(1) =~= key);
    }
}

/// A key comes back from the way it is written in a pointer, which has no `/`.
pub proof fn escapes_are_undone(key: Seq<char>)
    ensures
        unescaped(escaped(key)) == key,
        !escaped(key).contains('/'),
    decreases key.len(),
{
    half_unescaped(key);
    wholly_unescaped(key);
    if key.len() > 0 {
        escapes_are_undone(key.skip(1));
        let (head, rest) = (escaped_char(key[0]), escaped(key.skip(1)));
        assert forall|i: int| 0 <= i < (head + rest).len() implies (head + rest)[i] != '/' by {
            if i >= head.len() {
                assert((head + rest)[i] == rest[i - head.len()]);
            }
        }
    }
}

/// A key without `/` and `~` is written as it is.
pub proof fn plain_keys_need_no_escapes(key: Seq<char>)
    requires
        !key.contains('/'),
        !key.contains('~'),
    ensures
        escaped(key) == key,
    decreases key.len(),
{
    if key.len() > 0 {
        let rest = key.skip(1);
        assert forall|i: int| 0 <= i < rest.len() implies rest[i] != '/' && rest[i] != '~' by {
            assert(rest[i] == key[i + 1]);
        }
        plain_keys_need_no_escapes(rest);
        assert(key[0] != '/' && key[0] != '~');
        assert(seq![key[0]] + rest =~= key);
    }
}

/// The tokens of a pointer followed by `/` and a key, as it is written there, are those
/// of the pointer and the key.
pub proof fn pointer_below(pointer: Seq<char>, key: Seq<char>)
    requires
        pointer_tokens(pointer) is Some,
    ensures
        pointer_tokens(pointer.push('/') + escaped(key)) == Some(
            pointer_tokens(pointer)->0.push(key),
        ),
{
    let token = escaped(key);
    let whole = pointer.push('/') + token;
    escapes_are_undone(key);
    text::split_append(pointer, '/', token);
    text::split_on_nonempty(pointer, '/');
    let pieces = text::split_on(pointer, '/');
    assert(whole[0] == '/');
    if pointer.len() == 0 {
        assert(pieces =~= seq![pointer]);
        assert(pieces.push(token).skip(1).map_values(|t: Seq<char>| unescaped(t)) =~= Seq::<
            Seq<char>,
        >::empty().push(key));
    } else {
        assert(pieces.push(token).skip(1) =~= pieces.skip(1).push(token));
        assert(pieces.skip(1).push(token).map_values(|t: Seq<char>| unescaped(t))
            =~= pieces.skip(1).map_values(|t: Seq<char>| unescaped(t)).push(key));
    }
}

/// The tokens of a pointer are those that it was made of.
pub proof fn pointers_keep_their_tokens(tokens: Seq<Seq<char>>)
    ensures
        pointer_tokens(pointer_of(tokens)) == Some(tokens),
    decreases tokens.len(),
{
    if tokens.len() == 0 {
        assert(tokens =~= Seq::<Seq<char>>::empty());
    } else {
        pointers_keep_their_tokens(tokens.drop_last());
        pointer_below(pointer_of(tokens.drop_last()), tokens.last());
        assert(tokens.drop_last().push(tokens.last()) =~= tokens);
    }
}

/// A value that comes back has, in every place, what it had there.
pub proof fn places_come_back(v: JsonView, w: JsonView, tokens: Seq<Seq<char>>)
    requires
        same(v, w),
        selected(v, tokens) is Some,
    ensures
        selected(w, tokens) is Some,
        same(selected(v, tokens)->0, selected(w, tokens)->0),
    decreases tokens.len(),
{
    if tokens.len() > 0 {
        let k = child_position(v, tokens[0])->0;
        child_position_bound(v, tokens[0]);
        match (v, w) {
            (JsonView::Object(m), JsonView::Object(n)) => {
                assert(m[k as int].0 == tokens[0]);
                lookup_is_position(n, tokens[0]);
                let j = key_position(n, tokens[0])->0;
                assert(same(child(v, k), child(w, j)));
                places_come_back(child(v, k), child(w, j), tokens.skip(1));
            },
            (JsonView::Array(x), JsonView::Array(y)) => {
                assert(same(x[k as int], y[k as int]));
                places_come_back(child(v, k), child(w, k), tokens.skip(1));
            },
            _ => {},
        }
    }
}

/// A member whose name stands once is the one that is found under its name, and what
/// is found under a name is such a member.
pub proof fn members_are_found_by_name(
    members: Seq<(Seq<char>, JsonView)>,
    i: int,
    key: Seq<char>,
)
    requires
        forall|a: int, b: int|
            0 <= a < b < members.len() ==> (#[trigger] members[a]).0 != (#[trigger] members[b]).0,
    ensures
        0 <= i < members.len() ==> member(JsonView::Object(members), members[i].0) == Some(
            members[i].1,
        ),
        (forall|a: int| 0 <= a < members.len() ==> (#[trigger] members[a]).0 != key) ==> member(
            JsonView::Object(members),
            key,
        ) is None,
{
    lookup_is_a_member(members, key);
    if 0 <= i < members.len() {
        lookup_is_a_member(members, members[i].0);
        let v = lookup(members, members[i].0)->0;
        let j = choose|j: int|
            0 <= j < members.len() && #[trigger] members[j] == (members[i].0, v);
        if j < i {
            assert(members[j].0 != members[i].0);
        }
        if i < j {
            assert(members[i].0 != members[j].0);
        }
    }
}

/// A place is reached child by child: a member by its name, an item by its position in
/// decimal.
pub proof fn places_are_reached_step_by_step(
    members: Seq<(Seq<char>, JsonView)>,
    items: Seq<JsonView>,
    i: int,
    rest: Seq<Seq<char>>,
)
    requires
        items.len() <= usize::MAX,
        forall|a: int, b: int|
            0 <= a < b < members.len() ==> (#[trigger] members[a]).0 != (#[trigger] members[b]).0,
    ensures
        0 <= i < members.len() ==> selected(
            JsonView::Object(members),
            seq![members[i].0] + rest,
        ) == selected(members[i].1, rest),
        0 <= i < items.len() ==> selected(
            JsonView::Array(items),
            seq![text::decimal(i as nat)] + rest,
        ) == selected(items[i], rest),
        selected(JsonView::Array(items), Seq::empty()) == Some(JsonView::Array(items)),
{
    if 0 <= i < members.len() {
        let key = members[i].0;
        let tokens = seq![key] + rest;
        members_are_found_by_name(members, i, key);
        lookup_is_position(members, key);
        assert(tokens[0] == key && tokens.skip(1) =~= rest);
    }
    if 0 <= i < items.len() {
        let key = text::decimal(i as nat);
        let tokens = seq![key] + rest;
        text::decimal_is_digits(i as nat);
        assert(tokens[0] == key && tokens.skip(1) =~= rest);
    }
}

/// What a pointer does not select is not put in place: the value stays as it is.
pub proof fn nothing_is_placed_nowhere(j: JsonView, tokens: Seq<Seq<char>>, new: JsonView)
    requires
        selected(j, tokens) is None,
    ensures
        placed(j, tokens, new) == j,
    decreases tokens.len(),
{
    if tokens.len() > 0 {
        if let Some(k) = child_position(j, tokens[0]) {
            child_position_bound(j, tokens[0]);
            nothing_is_placed_nowhere(child(j, k), tokens.skip(1), new);
            match j {
                JsonView::Object(members) => {
                    assert(members.update(k as int, (members[k as int].0, child(j, k)))
                        =~= members);
                },
                JsonView::Array(items) => {
                    assert(items.update(k as int, child(j, k)) =~= items);
                },
                _ => {},
            }
        }
    }
}

/// How keys are written in pointers: `~` as `~0`, `/` as `~1`, any other character as it
/// is, one after the other.
pub proof fn keys_are_written_character_by_character(key: Seq<char>, c: char)
    ensures
        escaped(Seq::empty()) == Seq::<char>::empty(),
        escaped(key.push('~')) == escaped(key) + seq!['~', '0'],
        escaped(key.push('/')) == escaped(key) + seq!['~', '1'],
        c != '~' && c != '/' ==> escaped(key.push(c)) == escaped(key) + seq![c],
    decreases key.len(),
{
    assert(escaped(Seq::empty()) =~= Seq::<char>::empty());
    if key.len() == 0 {
        escaped_alone(key, '~');
        escaped_alone(key, '/');
        escaped_alone(key, c);
    } else {
        let rest = key.skip(1);
        keys_are_written_character_by_character(rest, c);
        assert(key.push('~').skip(1) =~= rest.push('~'));
        assert(key.push('/').skip(1) =~= rest.push('/'));
        assert(key.push(c).skip(1) =~= rest.push(c));
        let head = escaped_char(key[0]);
        assert(escaped(key.push('~')) =~= escaped(key) + seq!['~', '0']);
        assert(escaped(key.push('/')) =~= escaped(key) + seq!['~', '1']);
        if c != '~' && c != '/' {
            assert(escaped(key.push(c)) =~= escaped(key) + seq![c]);
        }
    }
}

proof fn escaped_alone(key: Seq<char>, c: char)
    requires
        key.len() == 0,
    ensures
        escaped(key.push(c)) == escaped(key) + escaped_char(c),
{
    let one = key.push(c);
    assert(one.skip(1) =~= Seq::<char>::empty());
    assert(escaped(one.skip(1)) =~= Seq::<char>::empty());
    assert(escaped(one) =~= escaped(key) + escaped_char(c));
}

} // verus!
