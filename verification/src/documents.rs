//! JSON and YAML documents, read by `serde_json` and `serde_yaml`.

use vstd::prelude::*;

verus! {

/// A document as a tree. Null, booleans and numbers are not told apart.
pub enum Json {
    /// An object: its members in order.
    Object(Vec<(String, Json)>),
    /// An array.
    Array(Vec<Json>),
    /// A string.
    Text(String),
    /// Null, a boolean or a number.
    Scalar,
}

/// What a document is, as a mathematical tree.
pub enum JsonView {
    Object(Seq<(Seq<char>, JsonView)>),
    Array(Seq<JsonView>),
    Text(Seq<char>),
    Scalar,
}

/// One level of a `serde_json::Value`.
pub enum JsonNode<'a> {
    Object(Vec<(&'a String, &'a serde_json::Value)>),
    Array(Vec<&'a serde_json::Value>),
    Text(&'a String),
    Scalar,
}

impl Json {
    /// The tree that this document is.
    pub open spec fn tree(self) -> JsonView
        decreases self, 1nat,
    {
        match self {
            Json::Object(members) => JsonView::Object(Json::members_tree(members@)),
            Json::Array(items) => JsonView::Array(Json::items_tree(items@)),
            Json::Text(s) => JsonView::Text(s@),
            Json::Scalar => JsonView::Scalar,
        }
    }

    /// The trees of the members of an object, with their names.
    pub open spec fn members_tree(members: Seq<(String, Json)>) -> Seq<(Seq<char>, JsonView)>
        decreases members, 0nat,
    {
        Seq::new(
            members.len(),
            |i: int|
                if 0 <= i < members.len() {
                    (members[i].0@, members[i].1.tree())
                } else {
                    (Seq::empty(), JsonView::Scalar)
                },
        )
    }

    /// The trees of the items of an array.
    pub open spec fn items_tree(items: Seq<Json>) -> Seq<JsonView>
        decreases items, 0nat,
    {
        Seq::new(
            items.len(),
            |i: int|
                if 0 <= i < items.len() {
                    items[i].tree()
                } else {
                    JsonView::Scalar
                },
        )
    }
}

/// No two members of the same object in `v` have the same name.
pub open spec fn well_named(v: JsonView) -> bool
    decreases v, 1nat,
{
    match v {
        JsonView::Object(members) => names_distinct(members) && members_named(members),
        JsonView::Array(items) => items_named(items),
        JsonView::Text(_) => true,
        JsonView::Scalar => true,
    }
}

/// The values of `members` are well named.
pub open spec fn members_named(members: Seq<(Seq<char>, JsonView)>) -> bool
    decreases members, 0nat,
{
    forall|i: int| 0 <= i < members.len() ==> well_named((#[trigger] members[i]).1)
}

/// `items` are well named.
pub open spec fn items_named(items: Seq<JsonView>) -> bool
    decreases items, 0nat,
{
    forall|i: int| 0 <= i < items.len() ==> well_named(#[trigger] items[i])
}

/// No two of `members` have the same name.
pub open spec fn names_distinct(members: Seq<(Seq<char>, JsonView)>) -> bool {
    forall|i: int, j: int|
        0 <= i < j < members.len() ==> (#[trigger] members[i]).0 != (#[trigger] members[j]).0
}

/// `serde_json::Value`.
#[verifier::external_type_specification]
#[verifier::external_body]
pub struct ExValue(serde_json::Value);

/// What a `serde_json::Value` holds: the members of an object in the order in
/// which its map is walked, the items of an array, the text of a string.
pub uninterp spec fn value_content(v: serde_json::Value) -> JsonView;

/// What `serde_json::from_str` reads from `source` into a `serde_json::Value`;
/// none where it reports an error.
pub uninterp spec fn json_document(source: Seq<char>) -> Option<JsonView>;

/// What `serde_yaml::from_str` reads from `source` into a `serde_json::Value`;
/// none where it reports an error.
pub uninterp spec fn yaml_document(source: Seq<char>) -> Option<JsonView>;

/// What `o` holds, if any.
pub open spec fn opt_content(o: Option<serde_json::Value>) -> Option<JsonView> {
    match o {
        Some(v) => Some(value_content(v)),
        None => None,
    }
}

/// What `n` and the values below it hold.
pub open spec fn node_content(n: JsonNode) -> JsonView {
    match n {
        JsonNode::Object(members) => JsonView::Object(
            members@.map_values(|m: (&String, &serde_json::Value)| (m.0@, value_content(*m.1))),
        ),
        JsonNode::Array(items) => JsonView::Array(
            items@.map_values(|v: &serde_json::Value| value_content(*v)),
        ),
        JsonNode::Text(s) => JsonView::Text(s@),
        JsonNode::Scalar => JsonView::Scalar,
    }
}

/// `serde_json::from_str` into a `serde_json::Value`. What it reads is named;
/// nothing is claimed of the grammar.
#[verifier::external_body]
fn read_json(source: &str) -> (r: Option<serde_json::Value>)
    ensures
        opt_content(r) == json_document(source@),
{
    serde_json::from_str(source).ok()
}

/// `serde_yaml::from_str` into a `serde_json::Value`. What it reads is named;
/// nothing is claimed of the grammar.
#[verifier::external_body]
fn read_yaml(source: &str) -> (r: Option<serde_json::Value>)
    ensures
        opt_content(r) == yaml_document(source@),
{
    serde_yaml::from_str(source).ok()
}

/// Tells the variants of a `serde_json::Value` apart, and gives the members of
/// its `serde_json::Map` by `Map::iter`. The names of the members are distinct,
/// as they are the keys of a map.
#[verifier::external_body]
fn node_of(v: &serde_json::Value) -> (r: JsonNode<'_>)
    ensures
        node_content(r) == value_content(*v),
        node_content(r) matches JsonView::Object(members) ==> names_distinct(members),
{
    match v {
        serde_json::Value::Object(members) => JsonNode::Object(members.iter().collect()),
        serde_json::Value::Array(items) => JsonNode::Array(items.iter().collect()),
        serde_json::Value::String(s) => JsonNode::Text(s),
        serde_json::Value::Null => JsonNode::Scalar,
        serde_json::Value::Bool(_) => JsonNode::Scalar,
        serde_json::Value::Number(_) => JsonNode::Scalar,
    }
}

/// The document that `v` is.
fn import(v: &serde_json::Value) -> (r: Json)
    ensures
        r.tree() == value_content(*v),
        well_named(r.tree()),
    decreases value_content(*v),
{
    match node_of(v) {
        JsonNode::Object(members) => {
            let ghost content = value_content(*v)->Object_0;
            let mut r: Vec<(String, Json)> = Vec::new();
            let mut i: usize = 0;
            while i < members.len()
                invariant
                    value_content(*v) == JsonView::Object(content),
                    content == members@.map_values(
                        |m: (&String, &serde_json::Value)| (m.0@, value_content(*m.1)),
                    ),
                    i <= members@.len(),
                    r@.len() == i,
                    forall|j: int| 0 <= j < i ==> (#[trigger] r@[j]).0@ == content[j].0
                        && r@[j].1.tree() == content[j].1,
                    forall|j: int| 0 <= j < i ==> well_named((#[trigger] content[j]).1),
                decreases members@.len() - i,
            {
                let m = members[i];
                assert(content[i as int] == (m.0@, value_content(*m.1)));
                assert(decreases_to!(value_content(*v) => value_content(*v)->Object_0));
                assert(decreases_to!(content => content[i as int]));
                assert(decreases_to!(content[i as int] => content[i as int].1));
                r.push((m.0.clone(), import(m.1)));
                i = i + 1;
            }
            let d = Json::Object(r);
            assert(d.tree()->Object_0 == content);
            d
        },
        JsonNode::Array(items) => {
            let ghost content = value_content(*v)->Array_0;
            let mut r: Vec<Json> = Vec::new();
            let mut i: usize = 0;
            while i < items.len()
                invariant
                    value_content(*v) == JsonView::Array(content),
                    content == items@.map_values(|v: &serde_json::Value| value_content(*v)),
                    i <= items@.len(),
                    r@.len() == i,
                    forall|j: int| 0 <= j < i ==> (#[trigger] r@[j]).tree() == content[j],
                    forall|j: int| 0 <= j < i ==> well_named(#[trigger] content[j]),
                decreases items@.len() - i,
            {
                assert(content[i as int] == value_content(*items@[i as int]));
                assert(decreases_to!(value_content(*v) => value_content(*v)->Array_0));
                assert(decreases_to!(content => content[i as int]));
                r.push(import(items[i]));
                i = i + 1;
            }
            let d = Json::Array(r);
            assert(d.tree()->Array_0 == content);
            d
        },
        JsonNode::Text(s) => Json::Text(s.clone()),
        JsonNode::Scalar => Json::Scalar,
    }
}

/// The tree of `o`, if any.
pub open spec fn opt_tree(o: Option<Json>) -> Option<JsonView> {
    match o {
        Some(d) => Some(d.tree()),
        None => None,
    }
}

/// The JSON document that `source` is.
pub fn parse_json(source: &str) -> (r: Option<Json>)
    ensures
        opt_tree(r) == json_document(source@),
        r matches Some(d) ==> well_named(d.tree()),
{
    match read_json(source) {
        Some(v) => Some(import(&v)),
        None => None,
    }
}

/// The YAML document that `source` is.
pub fn parse_yaml(source: &str) -> (r: Option<Json>)
    ensures
        opt_tree(r) == yaml_document(source@),
        r matches Some(d) ==> well_named(d.tree()),
{
    match read_yaml(source) {
        Some(v) => Some(import(&v)),
        None => None,
    }
}

} // verus!
