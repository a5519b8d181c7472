//! JSON documents.

use vstd::prelude::*;

use crate::jsonc;
use crate::member_names;
use crate::text;

verus! {

/// A JSON number of `serde_json`.
#[verifier::external_type_specification]
#[verifier::external_body]
pub struct ExNumber(serde_json::Number);

/// A JSON value of `serde_json`.
#[verifier::external_type_specification]
#[verifier::external_body]
pub struct ExValue(serde_json::Value);

/// Why a JSON text could not be read or written: what is wrong, and the line and
/// column at which it was found.
#[derive(Debug, PartialEq, Eq)]
pub struct JsonError {
    pub message: String,
    pub line: usize,
    pub column: usize,
}

/// Why a JSON text could not be read or written.
pub struct JsonErrorView {
    pub message: Seq<char>,
    pub line: nat,
    pub column: nat,
}

impl View for JsonError {
    type V = JsonErrorView;

    open spec fn view(&self) -> JsonErrorView {
        JsonErrorView {
            message: self.message@,
            line: self.line as nat,
            column: self.column as nat,
        }
    }
}

/// The number that a JSON number stands for.
pub enum NumberView {
    Integer(int),
    /// A double precision number, by its bits.
    Float(u64),
}

/// A JSON document.
pub enum JsonView {
    Null,
    Bool(bool),
    Number(NumberView),
    Str(Seq<char>),
    Array(Seq<JsonView>),
    /// The members of an object in the order in which they stand.
    Object(Seq<(Seq<char>, JsonView)>),
}

/// The number that a `serde_json::Number` holds.
pub uninterp spec fn number_of(number: serde_json::Number) -> NumberView;

/// The document that a `serde_json::Value` holds.
pub uninterp spec fn json_of(value: serde_json::Value) -> JsonView;

/// A JSON document as a tree.  Two of them are equal where they hold the same:
/// the order of the members of an object makes no difference.
#[derive(Debug)]
pub enum Json {
    Null,
    Bool(bool),
    Number(serde_json::Number),
    Str(String),
    Array(Vec<Json>),
    /// The members of an object in the order in which they stand.
    Object(Vec<(String, Json)>),
}

/// The document that a tree stands for.
pub open spec fn json_view(json: Json) -> JsonView
    decreases json,
{
    match json {
        Json::Null => JsonView::Null,
        Json::Bool(value) => JsonView::Bool(value),
        Json::Number(number) => JsonView::Number(number_of(number)),
        Json::Str(text) => JsonView::Str(text@),
        Json::Array(items) => JsonView::Array(
            Seq::new(
                items@.len(),
                |i: int|
                    if 0 <= i < items@.len() {
                        json_view(items@[i])
                    } else {
                        JsonView::Null
                    },
            ),
        ),
        Json::Object(members) => JsonView::Object(
            Seq::new(
                members@.len(),
                |i: int|
                    if 0 <= i < members@.len() {
                        (members@[i].0@, json_view(members@[i].1))
                    } else {
                        (Seq::empty(), JsonView::Null)
                    },
            ),
        ),
    }
}

impl View for Json {
    type V = JsonView;

    open spec fn view(&self) -> JsonView {
        json_view(*self)
    }
}

/// The documents that a sequence of trees stands for.
pub open spec fn item_views(items: Seq<Json>) -> Seq<JsonView> {
    items.map_values(|item: Json| item@)
}

/// The members that a sequence of named trees stands for.
pub open spec fn member_views(members: Seq<(String, Json)>) -> Seq<(Seq<char>, JsonView)> {
    members.map_values(|member: (String, Json)| (member.0@, member.1@))
}

pub proof fn lemma_json_view(json: Json)
    ensures
        json matches Json::Array(items) ==> json@ == JsonView::Array(item_views(items@)),
        json matches Json::Object(members) ==> json@ == JsonView::Object(member_views(members@)),
{
    match json {
        Json::Array(items) => {
            assert(json@->Array_0 =~= item_views(items@));
        },
        Json::Object(members) => {
            assert(json@->Object_0 =~= member_views(members@));
        },
        _ => {},
    }
}

/// Whether no object in `json` has two members of one name.
pub open spec fn distinct_names(json: JsonView) -> bool
    decreases json,
{
    match json {
        JsonView::Array(items) => forall|i: int|
            0 <= i < items.len() ==> distinct_names(#[trigger] items[i]),
        JsonView::Object(members) => {
            &&& forall|i: int, j: int|
                0 <= i < j < members.len() ==> (#[trigger] members[i]).0 != (
                #[trigger] members[j]).0
            &&& forall|i: int| 0 <= i < members.len() ==> distinct_names((#[trigger] members[i]).1)
        },
        _ => true,
    }
}

proof fn lemma_distinct_items(items: Seq<JsonView>)
    requires
        distinct_names(JsonView::Array(items)),
    ensures
        forall|i: int| 0 <= i < items.len() ==> distinct_names(#[trigger] items[i]),
{
    assert(JsonView::Array(items)->Array_0 == items);
}

proof fn lemma_distinct_members(members: Seq<(Seq<char>, JsonView)>)
    requires
        distinct_names(JsonView::Object(members)),
    ensures
        forall|i: int, j: int|
            0 <= i < j < members.len() ==> (#[trigger] members[i]).0 != (#[trigger] members[j]).0,
        forall|i: int| 0 <= i < members.len() ==> distinct_names((#[trigger] members[i]).1),
{
    assert(JsonView::Object(members)->Object_0 == members);
}

/// Whether arrays and objects stand at most `depth` deep inside one another.
pub open spec fn nested_at_most(json: JsonView, depth: nat) -> bool
    decreases json,
{
    match json {
        JsonView::Array(items) => depth > 0 && forall|i: int|
            0 <= i < items.len() ==> nested_at_most(#[trigger] items[i], (depth - 1) as nat),
        JsonView::Object(members) => depth > 0 && forall|i: int|
            0 <= i < members.len() ==> nested_at_most(
                (#[trigger] members[i]).1,
                (depth - 1) as nat,
            ),
        _ => true,
    }
}

/// How deep arrays and objects may stand inside one another in a text that can
/// be read.
pub open spec fn readable_depth() -> nat {
    127
}

/// Whether `read` is what `written` reads back as: the same document, but for
/// the digits of its floats.
pub open spec fn reads_back(written: JsonView, read: JsonView) -> bool
    decreases written,
{
    match (written, read) {
        (JsonView::Null, JsonView::Null) => true,
        (JsonView::Bool(left), JsonView::Bool(right)) => left == right,
        (JsonView::Number(left), JsonView::Number(right)) => {
            left == right || left is Float && right is Float
        },
        (JsonView::Str(left), JsonView::Str(right)) => left == right,
        (JsonView::Array(left), JsonView::Array(right)) => {
            &&& left.len() == right.len()
            &&& forall|i: int|
                0 <= i < left.len() ==> reads_back(#[trigger] left[i], #[trigger] right[i])
        },
        (JsonView::Object(left), JsonView::Object(right)) => {
            &&& left.len() == right.len()
            &&& forall|i: int|
                0 <= i < left.len() ==> (#[trigger] left[i]).0 == (#[trigger] right[i]).0
                    && reads_back(left[i].1, right[i].1)
        },
        _ => false,
    }
}

/// What reading a JSON text gives: a document, or why there is none.
pub uninterp spec fn reading(text: Seq<char>) -> Result<JsonView, JsonErrorView>;

/// What reading the members of an object from a JSON text gives.
pub uninterp spec fn object_reading(text: Seq<char>) -> Result<
    Seq<(Seq<char>, JsonView)>,
    JsonErrorView,
>;

/// What reading a string or null at the beginning of a text gives, whatever
/// stands behind it.
pub uninterp spec fn text_reading(text: Seq<char>) -> Result<Option<Seq<char>>, JsonErrorView>;

/// The document that a JSON text holds; none where `text` is not JSON or is
/// nested too deeply.
pub open spec fn parsed(text: Seq<char>) -> Option<JsonView> {
    match reading(text) {
        Ok(json) => Some(json),
        Err(_) => None,
    }
}

/// The text of an object, indented, with one member on a line.
pub uninterp spec fn pretty(members: Seq<(Seq<char>, JsonView)>) -> Seq<char>;

/// One level of a `serde_json::Value`.
enum Node {
    Null,
    Bool(bool),
    Number(serde_json::Number),
    Str(String),
    Array(Vec<serde_json::Value>),
    Object(Vec<(String, serde_json::Value)>),
}

/// The members that a sequence of named values stands for.
spec fn value_member_views(members: Seq<(String, serde_json::Value)>) -> Seq<
    (Seq<char>, JsonView),
> {
    members.map_values(|member: (String, serde_json::Value)| (member.0@, json_of(member.1)))
}

/// Whether the members bear different names.
spec fn names_differ(members: Seq<(String, serde_json::Value)>) -> bool {
    forall|i: int, j: int|
        0 <= i < j < members.len() ==> (#[trigger] members[i]).0@ != (#[trigger] members[j]).0@
}

/// The document that one level of a value stands for.
spec fn node_view(node: Node) -> JsonView {
    match node {
        Node::Null => JsonView::Null,
        Node::Bool(value) => JsonView::Bool(value),
        Node::Number(number) => JsonView::Number(number_of(number)),
        Node::Str(text) => JsonView::Str(text@),
        Node::Array(values) => JsonView::Array(
            values@.map_values(|value: serde_json::Value| json_of(value)),
        ),
        Node::Object(members) => JsonView::Object(value_member_views(members@)),
    }
}

/// Opens one level of a `serde_json::Value`: the variant and what it holds, the
/// members of an object in the order of the map.
#[verifier::external_body]
fn unfold(value: serde_json::Value) -> (node: Node)
    ensures
        node_view(node) == json_of(value),
{
    match value {
        serde_json::Value::Null => Node::Null,
        serde_json::Value::Bool(value) => Node::Bool(value),
        serde_json::Value::Number(number) => Node::Number(number),
        serde_json::Value::String(text) => Node::Str(text),
        serde_json::Value::Array(values) => Node::Array(values),
        serde_json::Value::Object(members) => Node::Object(members.into_iter().collect()),
    }
}

/// Closes one level to a `serde_json::Value`.  A `serde_json::Map` that is made
/// of members with different names keeps all of them, in the given order.
#[verifier::external_body]
fn fold(node: Node) -> (value: serde_json::Value)
    requires
        node matches Node::Object(members) ==> names_differ(members@),
    ensures
        json_of(value) == node_view(node),
{
    match node {
        Node::Null => serde_json::Value::Null,
        Node::Bool(value) => serde_json::Value::Bool(value),
        Node::Number(number) => serde_json::Value::Number(number),
        Node::Str(text) => serde_json::Value::String(text),
        Node::Array(values) => serde_json::Value::Array(values),
        Node::Object(members) => serde_json::Value::Object(members.into_iter().collect()),
    }
}

/// `serde_json::from_str` for a `Value`.  What it gives, the error included, is a
/// function of the text.  It takes a slash nowhere but in a string literal.
#[verifier::external_body]
fn value_from_str(text: &str) -> (result: Result<serde_json::Value, JsonError>)
    ensures
        match result {
            Ok(value) => {
                &&& reading(text@) == Ok::<JsonView, JsonErrorView>(json_of(value))
                &&& jsonc::slashes_quoted(text@)
            },
            Err(error) => reading(text@) == Err::<JsonView, JsonErrorView>(error@),
        },
{
    serde_json::from_str::<serde_json::Value>(text).map_err(
        |error| JsonError {
            message: error.to_string(),
            line: error.line(),
            column: error.column(),
        },
    )
}

/// `serde_json::from_str` for a `Map<String, Value>`.  What it gives, the error
/// included, is a function of the text.  It reads the texts that hold an
/// object, and reads them as `from_str` for a `Value` does.  It takes a slash
/// nowhere but in a string literal.  An object that it gives has each name once,
/// and it gives up on a text that nests arrays and objects more than 127 deep.
/// Where the text has a name once, the value that it gives for it is the one that
/// stands behind the name.
#[verifier::external_body]
fn members_from_str(text: &str) -> (result: Result<
    Vec<(String, serde_json::Value)>,
    JsonError,
>)
    ensures
        match result {
            Ok(members) => {
                let json = JsonView::Object(value_member_views(members@));
                &&& object_reading(text@) == Ok::<Seq<(Seq<char>, JsonView)>, JsonErrorView>(
                    value_member_views(members@),
                )
                &&& reading(text@) == Ok::<JsonView, JsonErrorView>(json)
                &&& jsonc::slashes_quoted(text@)
                &&& distinct_names(json)
                &&& nested_at_most(json, readable_depth())
                &&& forall|name: Seq<char>|
                    !member_names::named_twice(text@, name) ==> member_names::stands_for(
                        #[trigger] member_names::value_reading(text@, name),
                        member(value_member_views(members@), name),
                    )
            },
            Err(error) => {
                &&& object_reading(text@) == Err::<Seq<(Seq<char>, JsonView)>, JsonErrorView>(
                    error@,
                )
                &&& !(parsed(text@) matches Some(JsonView::Object(_)))
            },
        },
{
    serde_json::from_str::<serde_json::Map<String, serde_json::Value>>(text).map(
        |members| members.into_iter().collect(),
    ).map_err(
        |error| JsonError {
            message: error.to_string(),
            line: error.line(),
            column: error.column(),
        },
    )
}

/// `Option<String>`'s `deserialize` on a `serde_json::Deserializer` for the text,
/// which reads no further than the value.  What it gives, the error included, is
/// a function of the text.
#[verifier::external_body]
pub(crate) fn text_from_start(text: &str) -> (result: Result<Option<String>, JsonError>)
    ensures
        match result {
            Ok(read) => text_reading(text@) == Ok::<Option<Seq<char>>, JsonErrorView>(
                text::option_view(read),
            ),
            Err(error) => text_reading(text@) == Err::<Option<Seq<char>>, JsonErrorView>(error@),
        },
{
    let mut deserializer = serde_json::Deserializer::from_str(text);
    <Option<String> as serde::Deserialize>::deserialize(&mut deserializer).map_err(
        |error| JsonError {
            message: error.to_string(),
            line: error.line(),
            column: error.column(),
        },
    )
}

/// `serde_json::to_string_pretty` for a `Map<String, Value>`.  It does not fail
/// on values and names that are strings, and what it writes is a function of
/// the members.  Each member is written once, so no name stands in the text
/// twice.  The text can be read again where the depth allows it, the largest
/// float included, and it then gives the same document but for the digits of
/// floats, which are read with less than full precision.
#[verifier::external_body]
fn members_to_string_pretty(members: Vec<(String, serde_json::Value)>) -> (result: Result<
    String,
    JsonError,
>)
    requires
        names_differ(members@),
    ensures
        result is Ok,
        result->Ok_0@ == pretty(value_member_views(members@)),
        parsed(result->Ok_0@) matches Some(read) ==> reads_back(
            JsonView::Object(value_member_views(members@)),
            read,
        ),
        ({
            let json = JsonView::Object(value_member_views(members@));
            nested_at_most(json, readable_depth()) ==> parsed(result->Ok_0@) is Some
        }),
        forall|name: Seq<char>| !#[trigger] member_names::named_twice(result->Ok_0@, name),
{
    let members: serde_json::Map<String, serde_json::Value> = members.into_iter().collect();
    serde_json::to_string_pretty(&members).map_err(
        |error| JsonError {
            message: error.to_string(),
            line: error.line(),
            column: error.column(),
        },
    )
}

/// The tree of a value.
fn from_value(value: serde_json::Value) -> (json: Json)
    ensures
        json@ == json_of(value),
    decreases json_of(value),
{
    let ghost whole = json_of(value);
    match unfold(value) {
        Node::Null => Json::Null,
        Node::Bool(value) => Json::Bool(value),
        Node::Number(number) => Json::Number(number),
        Node::Str(text) => Json::Str(text),
        Node::Array(values) => {
            let mut items: Vec<Json> = Vec::new();
            for item in iter: values
                invariant
                    iter.seq() == values@,
                    whole == json_of(value),
                    whole == node_view(Node::Array(values)),
                    items.len() == iter.index(),
                    forall|i: int|
                        0 <= i < items.len() ==> (#[trigger] items[i])@ == json_of(values[i]),
            {
                assert(whole->Array_0[iter.index() as int] == json_of(item));
                assert(decreases_to!(whole => whole->Array_0[iter.index() as int]));
                items.push(from_value(item));
            }
            let json = Json::Array(items);
            proof {
                lemma_json_view(json);
                assert(item_views(items@) =~= whole->Array_0);
            }
            json
        },
        Node::Object(fields) => {
            let mut members: Vec<(String, Json)> = Vec::new();
            for field in iter: fields
                invariant
                    iter.seq() == fields@,
                    whole == json_of(value),
                    whole == node_view(Node::Object(fields)),
                    members.len() == iter.index(),
                    forall|i: int|
                        0 <= i < members.len() ==> (#[trigger] members[i]).0@ == fields[i].0@
                            && members[i].1@ == json_of(fields[i].1),
            {
                assert(whole->Object_0[iter.index() as int].1 == json_of(field.1));
                assert(decreases_to!(whole => whole->Object_0[iter.index() as int].1));
                members.push((field.0, from_value(field.1)));
            }
            let json = Json::Object(members);
            proof {
                lemma_json_view(json);
                assert(member_views(members@) =~= whole->Object_0);
            }
            json
        },
    }
}

/// The value of a tree.
fn to_value(json: Json) -> (value: serde_json::Value)
    requires
        distinct_names(json@),
    ensures
        json_of(value) == json@,
    decreases json,
{
    proof {
        lemma_json_view(json);
    }
    match json {
        Json::Null => fold(Node::Null),
        Json::Bool(value) => fold(Node::Bool(value)),
        Json::Number(number) => fold(Node::Number(number)),
        Json::Str(text) => fold(Node::Str(text)),
        Json::Array(items) => {
            let mut values: Vec<serde_json::Value> = Vec::new();
            for item in iter: items
                invariant
                    iter.seq() == items@,
                    json == Json::Array(items),
                    distinct_names(JsonView::Array(item_views(items@))),
                    values.len() == iter.index(),
                    forall|i: int|
                        0 <= i < values.len() ==> json_of(#[trigger] values[i]) == items[i]@,
            {
                proof {
                    lemma_distinct_items(item_views(items@));
                    assert(item_views(items@)[iter.index() as int] == item@);
                    assert(json->Array_0 == items);
                    assert(decreases_to!(json => json->Array_0@[iter.index() as int]));
                }
                values.push(to_value(item));
            }
            let ghost views = values@.map_values(|value: serde_json::Value| json_of(value));
            assert(views =~= item_views(items@));
            fold(Node::Array(values))
        },
        Json::Object(members) => {
            let values = to_value_members(members);
            fold(Node::Object(values))
        },
    }
}

/// The values of named trees.
fn to_value_members(members: Vec<(String, Json)>) -> (values: Vec<(String, serde_json::Value)>)
    requires
        distinct_names(JsonView::Object(member_views(members@))),
    ensures
        value_member_views(values@) == member_views(members@),
        names_differ(values@),
    decreases members,
{
    let ghost views = member_views(members@);
    proof {
        lemma_distinct_members(views);
    }
    let mut values: Vec<(String, serde_json::Value)> = Vec::new();
    for member in iter: members
        invariant
            iter.seq() == members@,
            views == member_views(members@),
            forall|i: int| 0 <= i < views.len() ==> distinct_names((#[trigger] views[i]).1),
            values.len() == iter.index(),
            forall|i: int|
                0 <= i < values.len() ==> (#[trigger] values[i]).0@ == views[i].0 && json_of(
                    values[i].1,
                ) == views[i].1,
    {
        assert(views[iter.index() as int] == (member.0@, member.1@));
        assert(decreases_to!(members => members@[iter.index() as int].1));
        values.push((member.0, to_value(member.1)));
    }
    assert(value_member_views(values@) =~= views);
    assert(values.len() == views.len());
    values
}

/// The value of the first member called `name`.
pub open spec fn member(members: Seq<(Seq<char>, JsonView)>, name: Seq<char>) -> Option<JsonView>
    decreases members.len(),
{
    if members.len() == 0 {
        None
    } else if members[0].0 == name {
        Some(members[0].1)
    } else {
        member(members.drop_first(), name)
    }
}

/// `members` with `value` as the value of `name`: in its old place where there
/// is such a member, at the end where there is none.
pub open spec fn with_member(
    members: Seq<(Seq<char>, JsonView)>,
    name: Seq<char>,
    value: JsonView,
) -> Seq<(Seq<char>, JsonView)>
    decreases members.len(),
{
    if members.len() == 0 {
        seq![(name, value)]
    } else if members[0].0 == name {
        seq![(name, value)] + members.drop_first()
    } else {
        seq![members[0]] + with_member(members.drop_first(), name, value)
    }
}

/// What `json` holds under `name`, where it is an object that has it.
pub open spec fn field(json: JsonView, name: Seq<char>) -> Option<JsonView> {
    match json {
        JsonView::Object(members) => member(members, name),
        _ => None,
    }
}

/// The text of `json` where it is a string.
pub open spec fn text_of(json: JsonView) -> Option<Seq<char>> {
    match json {
        JsonView::Str(text) => Some(text),
        _ => None,
    }
}

/// Replacing a member's value leaves the other members alone.
pub proof fn law_with_member_reads_back(
    members: Seq<(Seq<char>, JsonView)>,
    name: Seq<char>,
    value: JsonView,
    other: Seq<char>,
)
    ensures
        member(with_member(members, name, value), name) == Some(value),
        other != name ==> member(with_member(members, name, value), other) == member(
            members,
            other,
        ),
    decreases members.len(),
{
    let changed = with_member(members, name, value);
    if members.len() == 0 {
        assert(changed.drop_first() =~= members);
    } else if members[0].0 == name {
        assert(changed.drop_first() =~= members.drop_first());
    } else {
        law_with_member_reads_back(members.drop_first(), name, value, other);
        assert(changed.drop_first() =~= with_member(members.drop_first(), name, value));
    }
}

/// A second value for a member replaces the first.
pub proof fn law_with_member_twice(
    members: Seq<(Seq<char>, JsonView)>,
    name: Seq<char>,
    first: JsonView,
    second: JsonView,
)
    ensures
        with_member(with_member(members, name, first), name, second) == with_member(
            members,
            name,
            second,
        ),
    decreases members.len(),
{
    let once = with_member(members, name, first);
    let twice = with_member(once, name, second);
    if members.len() == 0 || members[0].0 == name {
        assert(once.drop_first() =~= if members.len() == 0 {
            members
        } else {
            members.drop_first()
        });
        assert(twice =~= with_member(members, name, second));
    } else {
        law_with_member_twice(members.drop_first(), name, first, second);
        assert(once.drop_first() =~= with_member(members.drop_first(), name, first));
        assert(twice =~= with_member(members, name, second));
    }
}

/// Where the member called `name` stands.
fn position(members: &Vec<(String, Json)>, name: &str) -> (found: Option<usize>)
    ensures
        match found {
            Some(at) => {
                &&& at < members.len()
                &&& members[at as int].0@ == name@
                &&& forall|i: int| 0 <= i < at ==> (#[trigger] members[i]).0@ != name@
            },
            None => forall|i: int| 0 <= i < members.len() ==> (#[trigger] members[i]).0@ != name@,
        },
{
    let mut at: usize = 0;
    while at < members.len()
        invariant
            at <= members.len(),
            forall|i: int| 0 <= i < at ==> (#[trigger] members[i]).0@ != name@,
        decreases members.len() - at,
    {
        if members[at].0.as_str().eq(name) {
            return Some(at);
        }
        at = at + 1;
    }
    None
}

proof fn lemma_member_found(members: Seq<(Seq<char>, JsonView)>, name: Seq<char>, at: int)
    requires
        0 <= at < members.len(),
        members[at].0 == name,
        forall|i: int| 0 <= i < at ==> (#[trigger] members[i]).0 != name,
    ensures
        member(members, name) == Some(members[at].1),
        forall|value: JsonView|
            #[trigger] with_member(members, name, value) == members.update(at, (name, value)),
    decreases members.len(),
{
    let rest = members.drop_first();
    if at > 0 {
        assert(members[0].0 != name);
        assert forall|i: int| 0 <= i < at - 1 implies (#[trigger] rest[i]).0 != name by {
            assert(rest[i] == members[i + 1]);
        }
        lemma_member_found(rest, name, at - 1);
    }
    assert forall|value: JsonView|
        #[trigger] with_member(members, name, value) == members.update(at, (name, value)) by {
        if at > 0 {
            assert(with_member(rest, name, value) == rest.update(at - 1, (name, value)));
        }
        assert(with_member(members, name, value) =~= members.update(at, (name, value)));
    }
}

proof fn lemma_member_absent(members: Seq<(Seq<char>, JsonView)>, name: Seq<char>)
    requires
        forall|i: int| 0 <= i < members.len() ==> (#[trigger] members[i]).0 != name,
    ensures
        member(members, name) is None,
        forall|value: JsonView|
            #[trigger] with_member(members, name, value) == members.push((name, value)),
    decreases members.len(),
{
    if members.len() > 0 {
        let rest = members.drop_first();
        assert(members[0].0 != name);
        assert forall|i: int| 0 <= i < rest.len() implies (#[trigger] rest[i]).0 != name by {
            assert(rest[i] == members[i + 1]);
        }
        lemma_member_absent(rest, name);
    }
    assert forall|value: JsonView|
        #[trigger] with_member(members, name, value) == members.push((name, value)) by {
        if members.len() > 0 {
            let rest = members.drop_first();
            assert(with_member(rest, name, value) == rest.push((name, value)));
        }
        assert(with_member(members, name, value) =~= members.push((name, value)));
    }
}

/// The value of the member called `name`.
pub fn get_member<'a>(members: &'a Vec<(String, Json)>, name: &str) -> (found: Option<&'a Json>)
    ensures
        match found {
            Some(json) => member(member_views(members@), name@) == Some(json@),
            None => member(member_views(members@), name@) is None,
        },
{
    let ghost views = member_views(members@);
    match position(members, name) {
        Some(at) => {
            proof {
                lemma_member_found(views, name@, at as int);
            }
            Some(&members[at].1)
        },
        None => {
            proof {
                lemma_member_absent(views, name@);
            }
            None
        },
    }
}

/// Gives the member called `name` a value.
pub fn set_member(members: &mut Vec<(String, Json)>, name: &str, value: Json)
    ensures
        member_views(final(members)@) == with_member(member_views(old(members)@), name@, value@),
{
    let ghost before = members@;
    let ghost views = member_views(before);
    match position(members, name) {
        Some(at) => {
            proof {
                lemma_member_found(views, name@, at as int);
            }
            members.set(at, (name.to_string(), value));
            assert(member_views(members@) =~= views.update(at as int, (name@, value@)));
        },
        None => {
            proof {
                lemma_member_absent(views, name@);
            }
            members.push((name.to_string(), value));
            assert(member_views(members@) =~= views.push((name@, value@)));
        },
    }
}

/// Gives the member called `name` of the member called `outer` a value, where
/// `outer` is an object that has it, and tells whether it is.
pub fn replace_inner(
    members: &mut Vec<(String, Json)>,
    outer: &str,
    name: &str,
    value: Json,
) -> (replaced: bool)
    ensures
        match member(member_views(old(members)@), outer@) {
            Some(JsonView::Object(inner)) => if member(inner, name@) is Some {
                &&& replaced
                &&& member_views(final(members)@) == with_member(
                    member_views(old(members)@),
                    outer@,
                    JsonView::Object(with_member(inner, name@, value@)),
                )
            } else {
                !replaced && final(members)@ == old(members)@
            },
            _ => !replaced && final(members)@ == old(members)@,
        },
{
    let ghost views = member_views(members@);
    let at = match position(members, outer) {
        Some(at) => at,
        None => {
            proof {
                lemma_member_absent(views, outer@);
            }
            return false;
        },
    };
    proof {
        lemma_member_found(views, outer@, at as int);
        lemma_json_view(members@[at as int].1);
    }
    match &mut members[at].1 {
        Json::Object(inner) => {
            if get_member(inner, name).is_none() {
                return false;
            }
            set_member(inner, name, value);
        },
        _ => {
            return false;
        },
    }
    proof {
        lemma_json_view(members@[at as int].1);
        assert(member_views(members@) =~= views.update(
            at as int,
            (outer@, members@[at as int].1@),
        ));
    }
    true
}

impl Json {
    /// The value of the member called `name`, where this is an object.
    pub fn get(&self, name: &str) -> (found: Option<&Json>)
        ensures
            match found {
                Some(json) => field(self@, name@) == Some(json@),
                None => field(self@, name@) is None,
            },
    {
        proof {
            lemma_json_view(*self);
        }
        match self {
            Json::Object(members) => get_member(members, name),
            _ => None,
        }
    }

    /// The text, where this is a string.
    pub fn as_str(&self) -> (text: Option<&String>)
        ensures
            match text {
                Some(text) => text_of(self@) == Some(text@),
                None => text_of(self@) is None,
            },
    {
        match self {
            Json::Str(text) => Some(text),
            _ => None,
        }
    }

    /// The items, where this is an array.
    pub fn as_array(&self) -> (found: Option<&Vec<Json>>)
        ensures
            match found {
                Some(items) => self@ == JsonView::Array(item_views(items@)),
                None => !(self@ is Array),
            },
    {
        proof {
            lemma_json_view(*self);
        }
        match self {
            Json::Array(items) => Some(items),
            _ => None,
        }
    }
}

/// Reads a JSON text.  In a text that can be read, every slash stands in a string
/// literal, so that stripping it of comments leaves it as it is.
pub fn parse(text: &str) -> (result: Result<Json, JsonError>)
    ensures
        match result {
            Ok(json) => {
                &&& reading(text@) == Ok::<JsonView, JsonErrorView>(json@)
                &&& jsonc::slashes_quoted(text@)
                &&& jsonc::stripped(text@) == text@
            },
            Err(error) => reading(text@) == Err::<JsonView, JsonErrorView>(error@),
        },
{
    match value_from_str(text) {
        Ok(value) => {
            proof {
                jsonc::law_quoted_slashes_open_no_comment(text@);
            }
            Ok(from_value(value))
        },
        Err(error) => Err(error),
    }
}

/// Reads a JSON text that holds an object.
pub fn parse_members(text: &str) -> (result: Result<Vec<(String, Json)>, JsonError>)
    ensures
        match result {
            Ok(members) => {
                let json = JsonView::Object(member_views(members@));
                &&& object_reading(text@) == Ok::<Seq<(Seq<char>, JsonView)>, JsonErrorView>(
                    member_views(members@),
                )
                &&& parsed(text@) == Some(json)
                &&& jsonc::slashes_quoted(text@)
                &&& distinct_names(json)
                &&& nested_at_most(json, readable_depth())
                &&& forall|name: Seq<char>|
                    !member_names::named_twice(text@, name) ==> member_names::stands_for(
                        #[trigger] member_names::value_reading(text@, name),
                        member(member_views(members@), name),
                    )
            },
            Err(error) => {
                &&& object_reading(text@) == Err::<Seq<(Seq<char>, JsonView)>, JsonErrorView>(
                    error@,
                )
                &&& !(parsed(text@) matches Some(JsonView::Object(_)))
            },
        },
{
    match members_from_str(text) {
        Ok(values) => {
            let ghost views = value_member_views(values@);
            let mut members: Vec<(String, Json)> = Vec::new();
            for value in iter: values
                invariant
                    iter.seq() == values@,
                    views == value_member_views(values@),
                    members.len() == iter.index(),
                    forall|i: int|
                        0 <= i < members.len() ==> (#[trigger] members[i]).0@ == views[i].0
                            && members[i].1@ == views[i].1,
            {
                assert(views[iter.index() as int] == (value.0@, json_of(value.1)));
                members.push((value.0, from_value(value.1)));
            }
            assert(member_views(members@) =~= views);
            Ok(members)
        },
        Err(error) => Err(error),
    }
}

/// Writes an object as indented text.  What is written can be read again where
/// it is not nested too deeply, and it then gives the same document but for the
/// digits of floats.  No name stands in the text twice.
pub fn print_members(members: Vec<(String, Json)>) -> (result: Result<String, JsonError>)
    requires
        distinct_names(JsonView::Object(member_views(members@))),
    ensures
        result is Ok,
        result->Ok_0@ == pretty(member_views(members@)),
        parsed(result->Ok_0@) matches Some(read) ==> reads_back(
            JsonView::Object(member_views(members@)),
            read,
        ),
        ({
            let json = JsonView::Object(member_views(members@));
            nested_at_most(json, readable_depth()) ==> parsed(result->Ok_0@) is Some
        }),
        forall|name: Seq<char>| !#[trigger] member_names::named_twice(result->Ok_0@, name),
{
    members_to_string_pretty(to_value_members(members))
}

/// A new member value keeps the names of an object different.
pub proof fn lemma_with_member_distinct(
    members: Seq<(Seq<char>, JsonView)>,
    name: Seq<char>,
    value: JsonView,
)
    requires
        distinct_names(JsonView::Object(members)),
        distinct_names(value),
    ensures
        distinct_names(JsonView::Object(with_member(members, name, value))),
{
    lemma_distinct_members(members);
    lemma_with_member_shape(members, name, value);
    let changed = with_member(members, name, value);
    assert(JsonView::Object(changed)->Object_0 == changed);
}

/// The members that a new member value leaves: each old member in its place,
/// but for the value of `name`.
proof fn lemma_with_member_shape(
    members: Seq<(Seq<char>, JsonView)>,
    name: Seq<char>,
    value: JsonView,
)
    ensures
        with_member(members, name, value) == members.push((name, value)) && (forall|i: int|
            0 <= i < members.len() ==> (#[trigger] members[i]).0 != name) || exists|at: int|
            0 <= at < members.len() && (#[trigger] members[at]).0 == name && with_member(
                members,
                name,
                value,
            ) == members.update(at, (name, value)),
    decreases members.len(),
{
    if exists|i: int| 0 <= i < members.len() && (#[trigger] members[i]).0 == name {
        let at = lemma_first_position(members, name);
        lemma_member_found(members, name, at);
    } else {
        lemma_member_absent(members, name);
    }
}

proof fn lemma_first_position(members: Seq<(Seq<char>, JsonView)>, name: Seq<char>) -> (at: int)
    requires
        exists|i: int| 0 <= i < members.len() && (#[trigger] members[i]).0 == name,
    ensures
        0 <= at < members.len(),
        members[at].0 == name,
        forall|i: int| 0 <= i < at ==> (#[trigger] members[i]).0 != name,
    decreases members.len(),
{
    if members[0].0 == name {
        0
    } else {
        let rest = members.drop_first();
        let i = choose|i: int| 0 <= i < members.len() && (#[trigger] members[i]).0 == name;
        assert(rest[i - 1] == members[i]);
        let at = lemma_first_position(rest, name) + 1;
        assert forall|i: int| 0 <= i < at implies (#[trigger] members[i]).0 != name by {
            if i > 0 {
                assert(rest[i - 1] == members[i]);
            }
        }
        assert(rest[at - 1] == members[at]);
        at
    }
}

/// A new member value that is no deeper keeps the depth of an object.
pub proof fn lemma_with_member_nested(
    members: Seq<(Seq<char>, JsonView)>,
    name: Seq<char>,
    value: JsonView,
    depth: nat,
)
    requires
        depth > 0,
        nested_at_most(JsonView::Object(members), depth),
        nested_at_most(value, (depth - 1) as nat),
    ensures
        nested_at_most(JsonView::Object(with_member(members, name, value)), depth),
{
    assert(JsonView::Object(members)->Object_0 == members);
    lemma_with_member_shape(members, name, value);
    let changed = with_member(members, name, value);
    assert(JsonView::Object(changed)->Object_0 == changed);
}

/// A member that is written reads back under the same name, and no other does.
pub proof fn lemma_member_reads_back(
    written: Seq<(Seq<char>, JsonView)>,
    read: Seq<(Seq<char>, JsonView)>,
    name: Seq<char>,
)
    requires
        reads_back(JsonView::Object(written), JsonView::Object(read)),
    ensures
        member(written, name) is Some <==> member(read, name) is Some,
        member(written, name) matches Some(value) ==> reads_back(value, member(read, name)->0),
    decreases written.len(),
{
    assert(JsonView::Object(written)->Object_0 == written);
    assert(JsonView::Object(read)->Object_0 == read);
    if written.len() > 0 {
        assert(written[0].0 == read[0].0);
        assert(reads_back(written[0].1, read[0].1));
        let left = written.drop_first();
        let right = read.drop_first();
        assert(JsonView::Object(left)->Object_0 == left);
        assert(JsonView::Object(right)->Object_0 == right);
        assert forall|i: int| 0 <= i < left.len() implies (#[trigger] left[i]).0 == (
        #[trigger] right[i]).0 && reads_back(left[i].1, right[i].1) by {
            assert(left[i] == written[i + 1]);
            assert(right[i] == read[i + 1]);
        }
        lemma_member_reads_back(left, right, name);
    }
}

/// A member of an object has what the object has: different names and less depth.
pub proof fn lemma_member_parts(
    members: Seq<(Seq<char>, JsonView)>,
    name: Seq<char>,
    depth: nat,
)
    requires
        member(members, name) is Some,
        distinct_names(JsonView::Object(members)),
        nested_at_most(JsonView::Object(members), depth),
    ensures
        depth > 0,
        distinct_names(member(members, name)->0),
        nested_at_most(member(members, name)->0, (depth - 1) as nat),
{
    lemma_distinct_members(members);
    assert(JsonView::Object(members)->Object_0 == members);
    if forall|i: int| 0 <= i < members.len() ==> (#[trigger] members[i]).0 != name {
        lemma_member_absent(members, name);
    }
    let at = lemma_first_position(members, name);
    lemma_member_found(members, name, at);
}

/// What reading a JSON text or, failing that, a JSONC text gives.
pub open spec fn reading_commented(text: Seq<char>) -> Result<JsonView, JsonErrorView> {
    match reading(text) {
        Ok(json) => Ok(json),
        Err(_) => reading(jsonc::stripped(text)),
    }
}

/// Reads a JSON text or, failing that, a JSONC text: either way what the text
/// without its comments gives.
pub fn parse_commented(text: &str) -> (result: Result<Json, JsonError>)
    ensures
        match result {
            Ok(json) => {
                &&& reading_commented(text@) == Ok::<JsonView, JsonErrorView>(json@)
                &&& reading(jsonc::stripped(text@)) == Ok::<JsonView, JsonErrorView>(json@)
            },
            Err(error) => {
                &&& reading_commented(text@) == Err::<JsonView, JsonErrorView>(error@)
                &&& reading(jsonc::stripped(text@)) == Err::<JsonView, JsonErrorView>(error@)
            },
        },
{
    match parse(text) {
        Ok(json) => Ok(json),
        Err(_) => {
            let stripped = jsonc::strip_json_comments(text);
            parse(stripped.as_str())
        },
    }
}

/// Whether no number in `json` is a float.
pub open spec fn float_free(json: JsonView) -> bool
    decreases json,
{
    match json {
        JsonView::Number(number) => number is Integer,
        JsonView::Array(items) => forall|i: int|
            0 <= i < items.len() ==> float_free(#[trigger] items[i]),
        JsonView::Object(members) => forall|i: int|
            0 <= i < members.len() ==> float_free((#[trigger] members[i]).1),
        _ => true,
    }
}

/// A document without floats reads back as it is.
pub proof fn lemma_float_free_reads_back(written: JsonView, read: JsonView)
    requires
        float_free(written),
        reads_back(written, read),
    ensures
        read == written,
    decreases written,
{
    match (written, read) {
        (JsonView::Array(left), JsonView::Array(right)) => {
            assert forall|i: int| 0 <= i < left.len() implies left[i] == right[i] by {
                assert(reads_back(left[i], right[i]));
                lemma_float_free_reads_back(left[i], right[i]);
            }
            assert(left =~= right);
        },
        (JsonView::Object(left), JsonView::Object(right)) => {
            assert forall|i: int| 0 <= i < left.len() implies left[i] == right[i] by {
                assert(left[i].0 == right[i].0);
                assert(reads_back(left[i].1, right[i].1));
                lemma_float_free_reads_back(left[i].1, right[i].1);
            }
            assert(left =~= right);
        },
        _ => {},
    }
}

/// A new member value without floats adds no float to an object.
pub proof fn lemma_with_member_float_free(
    members: Seq<(Seq<char>, JsonView)>,
    name: Seq<char>,
    value: JsonView,
)
    requires
        float_free(JsonView::Object(members)),
        float_free(value),
    ensures
        float_free(JsonView::Object(with_member(members, name, value))),
{
    assert(JsonView::Object(members)->Object_0 == members);
    lemma_with_member_shape(members, name, value);
    let changed = with_member(members, name, value);
    assert(JsonView::Object(changed)->Object_0 == changed);
}

/// The members without those called `name`.
pub open spec fn without_member(members: Seq<(Seq<char>, JsonView)>, name: Seq<char>) -> Seq<
    (Seq<char>, JsonView),
>
    decreases members.len(),
{
    if members.len() == 0 {
        members
    } else {
        let before = without_member(members.drop_last(), name);
        if members.last().0 == name {
            before
        } else {
            before.push(members.last())
        }
    }
}

/// The members without those called `name`.
pub fn remove_member(members: Vec<(String, Json)>, name: &str) -> (rest: Vec<(String, Json)>)
    ensures
        member_views(rest@) == without_member(member_views(members@), name@),
{
    let ghost views = member_views(members@);
    let mut rest: Vec<(String, Json)> = Vec::new();
    assert(member_views(rest@) =~= views.take(0));
    for member in iter: members
        invariant
            iter.seq() == members@,
            views == member_views(members@),
            member_views(rest@) == without_member(views.take(iter.index() as int), name@),
    {
        let ghost at = iter.index() as int;
        let ghost before = member_views(rest@);
        assert(views.take(at + 1).drop_last() =~= views.take(at));
        assert(views.take(at + 1).last() == (member.0@, member.1@));
        if !member.0.as_str().eq(name) {
            rest.push(member);
            assert(member_views(rest@) =~= before.push((member.0@, member.1@)));
        }
    }
    assert(views.take(views.len() as int) =~= views);
    rest
}

/// `serde_json::Number`'s `clone` gives the same number.
pub assume_specification[ <serde_json::Number as Clone>::clone ](
    number: &serde_json::Number,
) -> (copy: serde_json::Number)
    ensures
        number_of(copy) == number_of(*number),
;

/// A copy of a tree.
fn copy_json(json: &Json) -> (copy: Json)
    ensures
        copy@ == json@,
    decreases json,
{
    proof {
        lemma_json_view(*json);
    }
    match json {
        Json::Null => Json::Null,
        Json::Bool(value) => Json::Bool(*value),
        Json::Number(number) => Json::Number(number.clone()),
        Json::Str(text) => Json::Str(text.clone()),
        Json::Array(items) => {
            let mut copies: Vec<Json> = Vec::new();
            let mut at: usize = 0;
            while at < items.len()
                invariant
                    *json == Json::Array(*items),
                    at <= items.len(),
                    copies.len() == at,
                    forall|i: int| 0 <= i < at ==> (#[trigger] copies[i])@ == items[i]@,
                decreases items.len() - at,
            {
                assert(json->Array_0 == *items);
                assert(decreases_to!(json => json->Array_0@[at as int]));
                copies.push(copy_json(&items[at]));
                at = at + 1;
            }
            let copy = Json::Array(copies);
            proof {
                lemma_json_view(copy);
                assert(item_views(copies@) =~= item_views(items@));
            }
            copy
        },
        Json::Object(members) => {
            let mut copies: Vec<(String, Json)> = Vec::new();
            let mut at: usize = 0;
            while at < members.len()
                invariant
                    *json == Json::Object(*members),
                    at <= members.len(),
                    copies.len() == at,
                    forall|i: int|
                        0 <= i < at ==> (#[trigger] copies[i]).0@ == members[i].0@
                            && copies[i].1@ == members[i].1@,
                decreases members.len() - at,
            {
                assert(json->Object_0 == *members);
                assert(decreases_to!(json => json->Object_0@[at as int].1));
                let copy = copy_json(&members[at].1);
                copies.push((members[at].0.clone(), copy));
                at = at + 1;
            }
            let copy = Json::Object(copies);
            proof {
                lemma_json_view(copy);
                assert(member_views(copies@) =~= member_views(members@));
            }
            copy
        },
    }
}

impl Clone for Json {
    fn clone(&self) -> (json: Json)
        ensures
            json@ == self@,
    {
        copy_json(self)
    }
}

/// Whether two numbers are the same: as integers, or as floats, of which the two
/// zeros are one.
pub open spec fn same_number(left: NumberView, right: NumberView) -> bool {
    match (left, right) {
        (NumberView::Float(left), NumberView::Float(right)) => {
            left == right || is_zero(left) && is_zero(right)
        },
        _ => left == right,
    }
}

/// Whether these are the bits of a float that is zero, with either sign.
pub open spec fn is_zero(bits: u64) -> bool {
    bits == 0 || bits == 0x8000_0000_0000_0000
}

/// Whether two documents hold the same, whatever the order of the members of
/// their objects.
pub open spec fn same_json(left: JsonView, right: JsonView) -> bool
    decreases left,
{
    match (left, right) {
        (JsonView::Null, JsonView::Null) => true,
        (JsonView::Bool(left), JsonView::Bool(right)) => left == right,
        (JsonView::Number(left), JsonView::Number(right)) => same_number(left, right),
        (JsonView::Str(left), JsonView::Str(right)) => left == right,
        (JsonView::Array(left), JsonView::Array(right)) => {
            &&& left.len() == right.len()
            &&& forall|i: int|
                0 <= i < left.len() ==> same_json(#[trigger] left[i], right[i])
        },
        (JsonView::Object(left), JsonView::Object(right)) => {
            &&& left.len() == right.len()
            &&& forall|i: int|
                0 <= i < left.len() ==> (member(right, (#[trigger] left[i]).0) matches Some(value)
                    && same_json(left[i].1, value))
        },
        _ => false,
    }
}

/// `serde_json::Number`'s `==`.
#[verifier::external_body]
fn check_same_number(left: &serde_json::Number, right: &serde_json::Number) -> (same: bool)
    ensures
        same == same_number(number_of(*left), number_of(*right)),
{
    left == right
}

/// Whether two trees hold the same.
fn check_same(left: &Json, right: &Json) -> (same: bool)
    ensures
        same == same_json(left@, right@),
    decreases left,
{
    proof {
        lemma_json_view(*left);
        lemma_json_view(*right);
    }
    match (left, right) {
        (Json::Null, Json::Null) => true,
        (Json::Bool(left), Json::Bool(right)) => *left == *right,
        (Json::Number(left), Json::Number(right)) => check_same_number(left, right),
        (Json::Str(left), Json::Str(right)) => left.as_str().eq(right.as_str()),
        (Json::Array(left), Json::Array(right)) => check_same_items(left, right),
        (Json::Object(left), Json::Object(right)) => check_same_members(left, right),
        _ => false,
    }
}

fn check_same_items(left: &Vec<Json>, right: &Vec<Json>) -> (same: bool)
    ensures
        same == same_json(
            JsonView::Array(item_views(left@)),
            JsonView::Array(item_views(right@)),
        ),
    decreases left,
{
    let ghost lefts = item_views(left@);
    let ghost rights = item_views(right@);
    assert(JsonView::Array(lefts)->Array_0 == lefts);
    assert(JsonView::Array(rights)->Array_0 == rights);
    if left.len() != right.len() {
        return false;
    }
    let mut at: usize = 0;
    while at < left.len()
        invariant
            at <= left.len(),
            left.len() == right.len(),
            lefts == item_views(left@),
            rights == item_views(right@),
            forall|i: int| 0 <= i < at ==> same_json(#[trigger] lefts[i], rights[i]),
        decreases left.len() - at,
    {
        assert(lefts[at as int] == left@[at as int]@);
        assert(decreases_to!(left => left@[at as int]));
        if !check_same(&left[at], &right[at]) {
            return false;
        }
        at = at + 1;
    }
    true
}

fn check_same_members(left: &Vec<(String, Json)>, right: &Vec<(String, Json)>) -> (same: bool)
    ensures
        same == same_json(
            JsonView::Object(member_views(left@)),
            JsonView::Object(member_views(right@)),
        ),
    decreases left,
{
    let ghost lefts = member_views(left@);
    let ghost rights = member_views(right@);
    assert(JsonView::Object(lefts)->Object_0 == lefts);
    assert(JsonView::Object(rights)->Object_0 == rights);
    if left.len() != right.len() {
        return false;
    }
    let mut at: usize = 0;
    while at < left.len()
        invariant
            at <= left.len(),
            left.len() == right.len(),
            lefts == member_views(left@),
            rights == member_views(right@),
            forall|i: int|
                0 <= i < at ==> (member(rights, (#[trigger] lefts[i]).0) matches Some(value)
                    && same_json(lefts[i].1, value)),
        decreases left.len() - at,
    {
        assert(lefts[at as int] == (left@[at as int].0@, left@[at as int].1@));
        assert(decreases_to!(left => left@[at as int].1));
        match get_member(right, left[at].0.as_str()) {
            Some(value) => {
                if !check_same(&left[at].1, value) {
                    return false;
                }
            },
            None => {
                return false;
            },
        }
        at = at + 1;
    }
    true
}

impl PartialEq for Json {
    fn eq(&self, other: &Json) -> (equal: bool) {
        check_same(self, other)
    }
}

impl vstd::std_specs::cmp::PartialEqSpecImpl for Json {
    open spec fn obeys_eq_spec() -> bool {
        true
    }

    open spec fn eq_spec(&self, other: &Json) -> bool {
        same_json(self@, other@)
    }
}

impl Eq for Json {

}

/// A member is looked up by its name: the value is that of the first member of
/// that name, and there is none exactly where no member has the name.
pub proof fn law_member_is_the_first_of_its_name(
    members: Seq<(Seq<char>, JsonView)>,
    name: Seq<char>,
)
    ensures
        match member(members, name) {
            Some(value) => exists|at: int|
                0 <= at < members.len() && #[trigger] members[at] == (name, value) && forall|i: int|
                    0 <= i < at ==> (#[trigger] members[i]).0 != name,
            None => forall|i: int| 0 <= i < members.len() ==> (#[trigger] members[i]).0 != name,
        },
{
    if exists|i: int| 0 <= i < members.len() && (#[trigger] members[i]).0 == name {
        let at = lemma_first_position(members, name);
        lemma_member_found(members, name, at);
        assert(members[at] == (name, members[at].1));
    } else {
        lemma_member_absent(members, name);
    }
}

/// Only an object has fields, and its fields are its members.
pub proof fn law_fields_are_members(json: JsonView, name: Seq<char>)
    ensures
        json matches JsonView::Object(members) ==> field(json, name) == member(members, name),
        !(json is Object) ==> field(json, name) is None,
{
}

/// Giving a member a value changes one place: every other member stays where it
/// is and as it is, and a member that was not there comes last.
pub proof fn law_with_member_changes_one_place(
    members: Seq<(Seq<char>, JsonView)>,
    name: Seq<char>,
    value: JsonView,
)
    ensures
        ({
            let changed = with_member(members, name, value);
            &&& changed.len() == members.len() + (if member(members, name) is Some {
                0int
            } else {
                1int
            })
            &&& exists|at: int|
                0 <= at < changed.len() && #[trigger] changed[at] == (name, value) && forall|i: int|
                    0 <= i < members.len() && i != at ==> #[trigger] changed[i] == members[i]
            &&& forall|i: int|
                0 <= i < members.len() ==> (#[trigger] changed[i]).0 == members[i].0
        }),
{
    let changed = with_member(members, name, value);
    law_member_is_the_first_of_its_name(members, name);
    if exists|i: int| 0 <= i < members.len() && (#[trigger] members[i]).0 == name {
        let at = lemma_first_position(members, name);
        lemma_member_found(members, name, at);
        assert(changed[at] == (name, value));
    } else {
        lemma_member_absent(members, name);
        assert(changed[members.len() as int] == (name, value));
    }
}

/// What is left without a name are all members of other names, in order.
pub proof fn law_without_member_keeps_the_others(
    members: Seq<(Seq<char>, JsonView)>,
    name: Seq<char>,
)
    ensures
        without_member(members, name) == members.filter(
            |member: (Seq<char>, JsonView)| member.0 != name,
        ),
    decreases members.len(),
{
    reveal(Seq::filter);
    if members.len() > 0 {
        law_without_member_keeps_the_others(members.drop_last(), name);
    }
}

/// A document holds the same as itself.
pub proof fn law_document_is_the_same_as_itself(json: JsonView)
    requires
        distinct_names(json),
    ensures
        same_json(json, json),
    decreases json,
{
    match json {
        JsonView::Array(items) => {
            assert forall|i: int| 0 <= i < items.len() implies same_json(
                #[trigger] items[i],
                items[i],
            ) by {
                law_document_is_the_same_as_itself(items[i]);
            }
        },
        JsonView::Object(members) => {
            assert forall|i: int| 0 <= i < members.len() implies (member(
                members,
                (#[trigger] members[i]).0,
            ) matches Some(value) && same_json(members[i].1, value)) by {
                assert forall|j: int| 0 <= j < i implies (#[trigger] members[j]).0
                    != members[i].0 by {}
                lemma_member_found(members, members[i].0, i);
                law_document_is_the_same_as_itself(members[i].1);
            }
        },
        _ => {},
    }
}

/// Documents that hold the same have the same text, as many members or items, and
/// the same in every field.
pub proof fn law_same_documents_have_the_same_fields(
    left: JsonView,
    right: JsonView,
    name: Seq<char>,
)
    requires
        same_json(left, right),
    ensures
        text_of(left) == text_of(right),
        field(left, name) matches Some(value) ==> (field(right, name) matches Some(other)
            && same_json(value, other)),
        left is Object <==> right is Object,
        left is Object ==> left->Object_0.len() == right->Object_0.len(),
        left is Array <==> right is Array,
        left is Array ==> left->Array_0.len() == right->Array_0.len(),
{
    if let (JsonView::Object(l), JsonView::Object(r)) = (left, right) {
        assert(JsonView::Object(l)->Object_0 == l);
        assert(JsonView::Object(r)->Object_0 == r);
        law_member_is_the_first_of_its_name(l, name);
        if let Some(value) = member(l, name) {
            let at = choose|at: int| 0 <= at < l.len() && #[trigger] l[at] == (name, value);
            assert(member(r, l[at].0) matches Some(other) && same_json(l[at].1, other));
        }
    }
}

/// Floats are the same where their bits are, or where neither has a bit set but
/// that of the sign; integers are the same where they are of one kind and equal,
/// and no float is the same as an integer.
pub proof fn law_same_numbers_are_equal(left: NumberView, right: NumberView)
    ensures
        left is Float && right is Float ==> (same_number(left, right) <==> left == right
            || left->Float_0 % 0x8000_0000_0000_0000 == 0 && right->Float_0 % 0x8000_0000_0000_0000
            == 0),
        !(left is Float && right is Float) ==> (same_number(left, right) <==> left == right),
{
    if left is Float && right is Float {
        let first = left->Float_0;
        let second = right->Float_0;
        assert(first % 0x8000_0000_0000_0000 == 0 <==> first == 0 || first
            == 0x8000_0000_0000_0000);
        assert(second % 0x8000_0000_0000_0000 == 0 <==> second == 0 || second
            == 0x8000_0000_0000_0000);
    }
}

} // verus!
