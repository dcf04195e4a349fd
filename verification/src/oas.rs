//! Endpoints of OpenAPI documents.

use crate::documents;
use crate::documents::{Json, JsonView};
use crate::model;
use crate::model::{EndpointRecord, EndpointView};
use crate::oas_laws;
use crate::strings;
use crate::text;
use vstd::prelude::*;

verus! {

/// The members of an object.
pub type Members = Seq<(Seq<char>, JsonView)>;

/// The value of the first of `members` with the name `key`.
pub open spec fn lookup(members: Members, key: Seq<char>) -> Option<JsonView>
    decreases members.len(),
{
    if members.len() == 0 {
        None
    } else if members[0].0 == key {
        Some(members[0].1)
    } else {
        lookup(members.skip(1), key)
    }
}

/// The members of `v`, if it is an object.
pub open spec fn object_of(v: Option<JsonView>) -> Option<Members> {
    match v {
        Some(JsonView::Object(members)) => Some(members),
        _ => None,
    }
}

/// The value of the member `key` of `v`, if `v` is an object that has one.
pub open spec fn member(v: JsonView, key: Seq<char>) -> Option<JsonView> {
    match v {
        JsonView::Object(members) => lookup(members, key),
        _ => None,
    }
}

/// The text of `v`, if it is a string.
pub open spec fn text_of(v: Option<JsonView>) -> Option<Seq<char>> {
    match v {
        Some(JsonView::Text(s)) => Some(s),
        _ => None,
    }
}

/// The names of `members`.
pub open spec fn names(members: Members) -> Seq<Seq<char>> {
    members.map_values(|m: (Seq<char>, JsonView)| m.0)
}

/// The names of the members of the objects in `entries`, each once, in order.
pub open spec fn scheme_names(entries: Seq<JsonView>) -> Seq<Seq<char>>
    decreases entries.len(),
{
    if entries.len() == 0 {
        Seq::empty()
    } else {
        let front = scheme_names(entries.drop_last());
        match entries.last() {
            JsonView::Object(members) => text::union_of(front, names(members)),
            _ => front,
        }
    }
}

/// What the security requirements `v` of an operation say: whether it requires
/// authorization, whether it allows anonymous access, and its schemes. An empty
/// list lifts the requirements; anything but a list says nothing.
pub open spec fn security(v: Option<JsonView>) -> (bool, bool, Seq<Seq<char>>) {
    match v {
        Some(JsonView::Array(entries)) => if entries.len() == 0 {
            (false, true, Seq::empty())
        } else {
            (true, false, scheme_names(entries))
        },
        _ => (false, false, Seq::empty()),
    }
}

/// The HTTP methods of a path item, in the order in which they are listed.
pub open spec fn oas_verbs() -> Seq<Seq<char>> {
    seq!["get"@, "post"@, "put"@, "delete"@, "patch"@, "head"@, "options"@]
}

/// The endpoint of the operation `op` for `verb` on `route`, where `general` are
/// the security requirements of the document, which hold where `op` has none.
pub open spec fn operation_endpoint(
    project_id: Seq<char>,
    source_path: Seq<char>,
    general: Option<JsonView>,
    route: Seq<char>,
    verb: Seq<char>,
    op: Members,
) -> EndpointView {
    let own = lookup(op, "security"@);
    let (requires_auth, allows_anonymous, auth_schemes) = security(
        if own is Some {
            own
        } else {
            general
        },
    );
    let operation_id = text_of(lookup(op, "operationId"@));
    EndpointView {
        id: project_id + ":"@ + source_path + ":oas:"@ + text::upper(verb) + ":"@ + route,
        project_id,
        method: text::upper(verb),
        route,
        source_path,
        line: 1,
        style: "oas"@,
        symbol: if operation_id is Some {
            operation_id
        } else {
            text_of(lookup(op, "summary"@))
        },
        requires_auth,
        allows_anonymous,
        auth_schemes,
    }
}

/// The endpoints of the first `n` methods of the path item of `route`.
pub open spec fn path_endpoints(
    project_id: Seq<char>,
    source_path: Seq<char>,
    general: Option<JsonView>,
    route: Seq<char>,
    item: JsonView,
    n: int,
) -> Seq<EndpointView>
    decreases n,
{
    if n <= 0 {
        Seq::empty()
    } else {
        let front = path_endpoints(project_id, source_path, general, route, item, n - 1);
        let verb = oas_verbs()[n - 1];
        match object_of(member(item, verb)) {
            Some(op) => front.push(
                operation_endpoint(project_id, source_path, general, route, verb, op),
            ),
            None => front,
        }
    }
}

/// The endpoints of `paths`.
pub open spec fn paths_endpoints(
    project_id: Seq<char>,
    source_path: Seq<char>,
    general: Option<JsonView>,
    paths: Members,
) -> Seq<EndpointView>
    decreases paths.len(),
{
    if paths.len() == 0 {
        Seq::empty()
    } else {
        paths_endpoints(project_id, source_path, general, paths.drop_last()) + path_endpoints(
            project_id,
            source_path,
            general,
            paths.last().0,
            paths.last().1,
            7,
        )
    }
}

/// The endpoints of the document `doc`: for each of its paths those of its
/// methods.
pub open spec fn document_endpoints(
    project_id: Seq<char>,
    source_path: Seq<char>,
    doc: JsonView,
) -> Seq<EndpointView> {
    match object_of(member(doc, "paths"@)) {
        Some(paths) => paths_endpoints(project_id, source_path, member(doc, "security"@), paths),
        None => Seq::empty(),
    }
}

/// The document in `source`: JSON or YAML, going by the name of its file.
pub open spec fn oas_document(source_path: Seq<char>, source: Seq<char>) -> Option<JsonView> {
    if text::ends(source_path, ".json"@) {
        documents::json_document(source)
    } else {
        documents::yaml_document(source)
    }
}

/// The endpoints of the OpenAPI document in `source`; none if it is no document.
pub open spec fn oas_endpoints(
    project_id: Seq<char>,
    source_path: Seq<char>,
    source: Seq<char>,
) -> Seq<EndpointView> {
    match oas_document(source_path, source) {
        Some(doc) => document_endpoints(project_id, source_path, doc),
        None => Seq::empty(),
    }
}

/// The method and the route of `e`.
pub open spec fn pair_of(e: EndpointView) -> (Seq<char>, Seq<char>) {
    (e.method, e.route)
}

/// No two of `es` have the same method and the same route.
pub open spec fn pairs_distinct(es: Seq<EndpointView>) -> bool {
    forall|i: int, j: int|
        0 <= i < j < es.len() ==> pair_of(#[trigger] es[i]) != pair_of(#[trigger] es[j])
}

/// The tree of `o`, if any.
pub open spec fn opt_ref_tree(o: Option<&Json>) -> Option<JsonView> {
    match o {
        Some(d) => Some(d.tree()),
        None => None,
    }
}

/// The value of the first of `members` with the name `key`.
fn find_member<'a>(members: &'a Vec<(String, Json)>, key: &str) -> (r: Option<&'a Json>)
    ensures
        opt_ref_tree(r) == lookup(Json::members_tree(members@), key@),
{
    let ghost trees = Json::members_tree(members@);
    let mut i: usize = 0;
    assert(trees.skip(0) == trees);
    while i < members.len()
        invariant
            trees == Json::members_tree(members@),
            i <= members@.len(),
            lookup(trees.skip(i as int), key@) == lookup(trees, key@),
        decreases members@.len() - i,
    {
        assert(trees.skip(i as int)[0] == (members@[i as int].0@, members@[i as int].1.tree()));
        assert(trees.skip(i as int).skip(1) == trees.skip(i + 1));
        if strings::same_text(members[i].0.as_str(), key) {
            return Some(&members[i].1);
        }
        i = i + 1;
    }
    None
}

/// The value of the member `key` of `v`, if `v` is an object that has one.
fn get_member<'a>(v: &'a Json, key: &str) -> (r: Option<&'a Json>)
    ensures
        opt_ref_tree(r) == member(v.tree(), key@),
{
    match v {
        Json::Object(members) => find_member(members, key),
        _ => None,
    }
}

/// The text of `v`, if it is a string.
fn as_text(v: Option<&Json>) -> (r: Option<String>)
    ensures
        text::opt_text(r) == text_of(opt_ref_tree(v)),
{
    match v {
        Some(Json::Text(s)) => Some(s.clone()),
        _ => None,
    }
}

/// Puts the names of `members` that `schemes` lacks at its end.
fn add_names(schemes: &mut Vec<String>, members: &Vec<(String, Json)>)
    ensures
        text::texts(final(schemes)@) == text::union_of(
            text::texts(old(schemes)@),
            names(Json::members_tree(members@)),
        ),
{
    let ghost ns = names(Json::members_tree(members@));
    let mut i: usize = 0;
    while i < members.len()
        invariant
            ns == names(Json::members_tree(members@)),
            i <= members@.len(),
            text::texts(schemes@) == text::union_of(text::texts(old(schemes)@), ns.take(i as int)),
        decreases members@.len() - i,
    {
        assert(ns.take(i + 1).drop_last() == ns.take(i as int));
        assert(ns.take(i + 1).last() == members@[i as int].0@);
        strings::push_missing(schemes, members[i].0.as_str());
        i = i + 1;
    }
    assert(ns.take(i as int) == ns);
}

/// What the security requirements `value` say: whether authorization is
/// required, whether anonymous access is allowed, and the schemes.
pub fn security_metadata(value: Option<&Json>) -> (r: (bool, bool, Vec<String>))
    ensures
        (r.0, r.1, text::texts(r.2@)) == security(opt_ref_tree(value)),
{
    let mut schemes: Vec<String> = Vec::new();
    assert(text::texts(schemes@) == Seq::<Seq<char>>::empty());
    match value {
        Some(Json::Array(entries)) => {
            if entries.len() == 0 {
                return (false, true, schemes);
            }
            let ghost trees = Json::items_tree(entries@);
            let mut i: usize = 0;
            while i < entries.len()
                invariant
                    trees == Json::items_tree(entries@),
                    i <= entries@.len(),
                    text::texts(schemes@) == scheme_names(trees.take(i as int)),
                decreases entries@.len() - i,
            {
                assert(trees.take(i + 1).drop_last() == trees.take(i as int));
                assert(trees.take(i + 1).last() == entries@[i as int].tree());
                match &entries[i] {
                    Json::Object(members) => add_names(&mut schemes, members),
                    _ => {},
                }
                i = i + 1;
            }
            assert(trees.take(i as int) == trees);
            (true, false, schemes)
        },
        _ => (false, false, schemes),
    }
}

/// The endpoint of the operation `op` for `verb` on `route`.
fn endpoint_of_operation(
    project_id: &str,
    source_path: &str,
    general: Option<&Json>,
    route: &str,
    verb: &str,
    op: &Vec<(String, Json)>,
) -> (r: EndpointRecord)
    ensures
        r@ == operation_endpoint(
            project_id@,
            source_path@,
            opt_ref_tree(general),
            route@,
            verb@,
            Json::members_tree(op@),
        ),
{
    let own = find_member(op, "security");
    let (requires_auth, allows_anonymous, auth_schemes) = security_metadata(
        if own.is_some() {
            own
        } else {
            general
        },
    );
    let operation_id = as_text(find_member(op, "operationId"));
    let symbol = if operation_id.is_some() {
        operation_id
    } else {
        as_text(find_member(op, "summary"))
    };
    let method = strings::to_upper(verb);
    let mut id = project_id.to_owned();
    id.append(":");
    id.append(source_path);
    id.append(":oas:");
    id.append(method.as_str());
    id.append(":");
    id.append(route);
    EndpointRecord {
        id,
        project_id: project_id.to_owned(),
        method,
        route: route.to_owned(),
        source_path: source_path.to_owned(),
        line: 1,
        style: "oas".to_owned(),
        symbol,
        requires_auth,
        allows_anonymous,
        auth_schemes,
    }
}

/// Puts the endpoints of the path item of `route` at the end of `endpoints`.
fn add_path_endpoints(
    endpoints: &mut Vec<EndpointRecord>,
    project_id: &str,
    source_path: &str,
    general: Option<&Json>,
    route: &str,
    item: &Json,
)
    ensures
        model::endpoint_views(final(endpoints)@) == model::endpoint_views(old(endpoints)@)
            + path_endpoints(
            project_id@,
            source_path@,
            opt_ref_tree(general),
            route@,
            item.tree(),
            7,
        ),
{
    let verbs: [&str; 7] = ["get", "post", "put", "delete", "patch", "head", "options"];
    let ghost before = model::endpoint_views(endpoints@);
    let mut i: usize = 0;
    assert(before + Seq::<EndpointView>::empty() == before);
    while i < 7
        invariant
            i <= 7,
            verbs@.len() == 7,
            forall|k: int| 0 <= k < 7 ==> (#[trigger] verbs@[k])@ == oas_verbs()[k],
            before == model::endpoint_views(old(endpoints)@),
            model::endpoint_views(endpoints@) == before + path_endpoints(
                project_id@,
                source_path@,
                opt_ref_tree(general),
                route@,
                item.tree(),
                i as int,
            ),
        decreases 7 - i,
    {
        let ghost front = model::endpoint_views(endpoints@);
        let verb = verbs[i];
        assert(verb@ == oas_verbs()[i as int]);
        match get_member(item, verb) {
            Some(Json::Object(op)) => {
                let e = endpoint_of_operation(project_id, source_path, general, route, verb, op);
                let ghost v = e@;
                endpoints.push(e);
                assert(model::endpoint_views(endpoints@) == front.push(v));
            },
            _ => {},
        }
        i = i + 1;
    }
}

/// The endpoints of the document `doc`.
pub fn endpoints_of_document(project_id: &str, source_path: &str, doc: &Json) -> (r: Vec<
    EndpointRecord,
>)
    ensures
        model::endpoint_views(r@) == document_endpoints(project_id@, source_path@, doc.tree()),
{
    let mut endpoints: Vec<EndpointRecord> = Vec::new();
    assert(model::endpoint_views(endpoints@) == Seq::<EndpointView>::empty());
    match get_member(doc, "paths") {
        Some(Json::Object(paths)) => {
            let general = get_member(doc, "security");
            let ghost trees = Json::members_tree(paths@);
            let mut i: usize = 0;
            while i < paths.len()
                invariant
                    trees == Json::members_tree(paths@),
                    i <= paths@.len(),
                    model::endpoint_views(endpoints@) == paths_endpoints(
                        project_id@,
                        source_path@,
                        opt_ref_tree(general),
                        trees.take(i as int),
                    ),
                decreases paths@.len() - i,
            {
                assert(trees.take(i + 1).drop_last() == trees.take(i as int));
                assert(trees.take(i + 1).last() == (
                    paths@[i as int].0@,
                    paths@[i as int].1.tree(),
                ));
                add_path_endpoints(
                    &mut endpoints,
                    project_id,
                    source_path,
                    general,
                    paths[i].0.as_str(),
                    &paths[i].1,
                );
                i = i + 1;
            }
            assert(trees.take(i as int) == trees);
        },
        _ => {},
    }
    endpoints
}

/// The endpoints of the OpenAPI document in `source`.
pub fn parse_oas_endpoints(project_id: &str, source_path: &str, source: &str) -> (r: Vec<
    EndpointRecord,
>)
    ensures
        model::endpoint_views(r@) == oas_endpoints(project_id@, source_path@, source@),
        pairs_distinct(model::endpoint_views(r@)),
{
    let doc = if strings::ends_with(source_path, ".json") {
        documents::parse_json(source)
    } else {
        documents::parse_yaml(source)
    };
    match doc {
        Some(d) => {
            proof {
                oas_laws::law_document_pairs_distinct(project_id@, source_path@, d.tree());
            }
            endpoints_of_document(project_id, source_path, &d)
        },
        None => {
            let none: Vec<EndpointRecord> = Vec::new();
            assert(model::endpoint_views(none@) == Seq::<EndpointView>::empty());
            none
        },
    }
}

} // verus!
