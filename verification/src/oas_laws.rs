//! Laws of OpenAPI documents.

use crate::documents;
use crate::documents::JsonView;
use crate::model::EndpointView;
use crate::oas;
use crate::oas::Members;
use crate::text;
use vstd::prelude::*;

verus! {

/// The methods of a path item are different.
proof fn lemma_verbs_distinct(i: int, j: int)
    requires
        0 <= i < j < 7,
    ensures
        text::upper(oas::oas_verbs()[i]) != text::upper(oas::oas_verbs()[j]),
{
    reveal_strlit("get");
    reveal_strlit("post");
    reveal_strlit("put");
    reveal_strlit("delete");
    reveal_strlit("patch");
    reveal_strlit("head");
    reveal_strlit("options");
    let a = oas::oas_verbs()[i];
    let b = oas::oas_verbs()[j];
    assert(text::upper(a).len() == a.len());
    assert(text::upper(b).len() == b.len());
    assert(text::upper(a)[0] == text::upper_char(a[0]));
    assert(text::upper(b)[0] == text::upper_char(b[0]));
}

/// `e` is an endpoint of `route` for one of the first `n` methods.
spec fn on_route(e: EndpointView, route: Seq<char>, n: int) -> bool {
    e.route == route && exists|k: int|
        0 <= k < n && e.method == text::upper(#[trigger] oas::oas_verbs()[k])
}

/// A path item gives each method once.
proof fn lemma_path_distinct(
    project_id: Seq<char>,
    source_path: Seq<char>,
    general: Option<JsonView>,
    route: Seq<char>,
    item: JsonView,
    n: int,
)
    requires
        0 <= n <= 7,
    ensures
        ({
            let es = oas::path_endpoints(project_id, source_path, general, route, item, n);
            &&& oas::pairs_distinct(es)
            &&& forall|i: int| 0 <= i < es.len() ==> on_route(#[trigger] es[i], route, n)
        }),
    decreases n,
{
    if n > 0 {
        let front = oas::path_endpoints(project_id, source_path, general, route, item, n - 1);
        let es = oas::path_endpoints(project_id, source_path, general, route, item, n);
        lemma_path_distinct(project_id, source_path, general, route, item, n - 1);
        let verb = oas::oas_verbs()[n - 1];
        assert forall|i: int| 0 <= i < es.len() implies on_route(#[trigger] es[i], route, n) by {
            if i < front.len() {
                assert(on_route(front[i], route, n - 1));
                let k = choose|k: int|
                    0 <= k < n - 1 && front[i].method == text::upper(
                        #[trigger] oas::oas_verbs()[k],
                    );
                assert(es[i].method == text::upper(oas::oas_verbs()[k]));
            } else {
                assert(es[i].method == text::upper(oas::oas_verbs()[n - 1]));
            }
        }
        assert forall|i: int, j: int| 0 <= i < j < es.len() implies oas::pair_of(
            #[trigger] es[i],
        ) != oas::pair_of(#[trigger] es[j]) by {
            if j < front.len() {
                assert(oas::pair_of(front[i]) != oas::pair_of(front[j]));
            } else {
                assert(on_route(front[i], route, n - 1));
                let k = choose|k: int|
                    0 <= k < n - 1 && front[i].method == text::upper(
                        #[trigger] oas::oas_verbs()[k],
                    );
                lemma_verbs_distinct(k, n - 1);
            }
        }
    }
}

/// Paths with distinct names give each pair of method and route once.
proof fn lemma_paths_distinct(
    project_id: Seq<char>,
    source_path: Seq<char>,
    general: Option<JsonView>,
    paths: Members,
)
    requires
        documents::names_distinct(paths),
    ensures
        ({
            let es = oas::paths_endpoints(project_id, source_path, general, paths);
            &&& oas::pairs_distinct(es)
            &&& forall|i: int| 0 <= i < es.len() ==> has_name(paths, (#[trigger] es[i]).route)
        }),
    decreases paths.len(),
{
    if paths.len() > 0 {
        let rest = paths.drop_last();
        let route = paths.last().0;
        let item = paths.last().1;
        assert forall|i: int, j: int| 0 <= i < j < rest.len() implies (#[trigger] rest[i]).0 != (
        #[trigger] rest[j]).0 by {
            assert(rest[i] == paths[i] && rest[j] == paths[j]);
        }
        lemma_paths_distinct(project_id, source_path, general, rest);
        lemma_path_distinct(project_id, source_path, general, route, item, 7);
        let a = oas::paths_endpoints(project_id, source_path, general, rest);
        let b = oas::path_endpoints(project_id, source_path, general, route, item, 7);
        let es = oas::paths_endpoints(project_id, source_path, general, paths);
        assert(es == a + b);
        assert forall|i: int| 0 <= i < es.len() implies has_name(
            paths,
            (#[trigger] es[i]).route,
        ) by {
            if i < a.len() {
                assert(has_name(rest, a[i].route));
                let k = choose|k: int|
                    0 <= k < rest.len() && (#[trigger] rest[k]).0 == a[i].route;
                assert(paths[k].0 == es[i].route);
            } else {
                assert(on_route(b[i - a.len()], route, 7));
                assert(paths[paths.len() - 1].0 == es[i].route);
            }
        }
        assert forall|i: int, j: int| 0 <= i < j < es.len() implies oas::pair_of(
            #[trigger] es[i],
        ) != oas::pair_of(#[trigger] es[j]) by {
            if j < a.len() {
                assert(oas::pair_of(a[i]) != oas::pair_of(a[j]));
            } else if i >= a.len() {
                assert(oas::pair_of(b[i - a.len()]) != oas::pair_of(b[j - a.len()]));
            } else {
                assert(on_route(b[j - a.len()], route, 7));
                assert(has_name(rest, a[i].route));
                let k = choose|k: int|
                    0 <= k < rest.len() && (#[trigger] rest[k]).0 == a[i].route;
                assert(paths[k].0 != paths[paths.len() - 1].0);
            }
        }
    }
}

/// One of `members` has the name `name`.
spec fn has_name(members: Members, name: Seq<char>) -> bool {
    exists|k: int| 0 <= k < members.len() && (#[trigger] members[k]).0 == name
}

/// The members of well named objects are well named.
proof fn lemma_lookup_named(members: Members, key: Seq<char>)
    requires
        documents::members_named(members),
    ensures
        oas::lookup(members, key) matches Some(v) ==> documents::well_named(v),
    decreases members.len(),
{
    if members.len() > 0 {
        assert(documents::well_named(members[0].1));
        assert forall|i: int| 0 <= i < members.skip(1).len() implies documents::well_named(
            (#[trigger] members.skip(1)[i]).1,
        ) by {
            assert(members.skip(1)[i] == members[i + 1]);
        }
        lemma_lookup_named(members.skip(1), key);
    }
}

/// A document gives each pair of method and route at most once. Documents that
/// are read are well named.
pub proof fn law_document_pairs_distinct(
    project_id: Seq<char>,
    source_path: Seq<char>,
    doc: JsonView,
)
    requires
        documents::well_named(doc),
    ensures
        oas::pairs_distinct(oas::document_endpoints(project_id, source_path, doc)),
{
    match doc {
        JsonView::Object(members) => {
            lemma_lookup_named(members, "paths"@);
            match oas::lookup(members, "paths"@) {
                Some(JsonView::Object(paths)) => {
                    lemma_paths_distinct(
                        project_id,
                        source_path,
                        oas::member(doc, "security"@),
                        paths,
                    );
                },
                _ => {},
            }
        },
        _ => {},
    }
}

/// The first member with a name counts; without one there is none.
pub proof fn law_lookup(members: Members, key: Seq<char>, i: int)
    requires
        0 <= i <= members.len(),
        forall|j: int| 0 <= j < i ==> (#[trigger] members[j]).0 != key,
        i < members.len() ==> members[i].0 == key,
    ensures
        oas::lookup(members, key) == (if i < members.len() {
            Some(members[i].1)
        } else {
            None
        }),
        oas::member(JsonView::Object(members), key) == oas::lookup(members, key),
    decreases members.len(),
{
    if members.len() > 0 && i > 0 {
        assert(members[0].0 != key);
        let rest = members.skip(1);
        assert forall|j: int| 0 <= j < i - 1 implies (#[trigger] rest[j]).0 != key by {
            assert(rest[j] == members[j + 1]);
        }
        law_lookup(rest, key, i - 1);
    }
}

/// Only an object has members, and only a string has a text.
pub proof fn law_shapes(v: JsonView, key: Seq<char>)
    ensures
        !(v is Object) ==> oas::member(v, key) is None,
        oas::object_of(Some(v)) is Some <==> v is Object,
        v matches JsonView::Object(members) ==> oas::object_of(Some(v)) == Some(members),
        oas::text_of(Some(v)) is Some <==> v is Text,
        v matches JsonView::Text(s) ==> oas::text_of(Some(v)) == Some(s),
        oas::text_of(None) is None,
{
}

/// The methods that operations are listed for.
pub open spec fn operation_verbs() -> Seq<Seq<char>> {
    seq!["get"@, "post"@, "put"@, "delete"@, "patch"@, "head"@, "options"@]
}

/// What the security requirements say: without a list nothing is said, an empty
/// list allows anonymous access, and any other list requires authorization by
/// the schemes that it names.
pub proof fn law_security(v: Option<JsonView>)
    ensures
        ({
            let (requires_auth, allows_anonymous, schemes) = oas::security(v);
            match v {
                Some(JsonView::Array(entries)) => {
                    &&& requires_auth == (entries.len() > 0)
                    &&& allows_anonymous == (entries.len() == 0)
                    &&& entries.len() > 0 ==> schemes == oas::scheme_names(entries)
                    &&& entries.len() == 0 ==> schemes.len() == 0
                },
                _ => !requires_auth && !allows_anonymous && schemes.len() == 0,
            }
        }),
{
}

/// Each entry adds the names of its members, if it is an object, as far as they
/// are new.
pub proof fn law_scheme_names(entries: Seq<JsonView>, entry: JsonView)
    ensures
        oas::scheme_names(Seq::<JsonView>::empty()).len() == 0,
        match entry {
            JsonView::Object(members) => oas::scheme_names(entries.push(entry))
                == text::union_of(
                oas::scheme_names(entries),
                Seq::new(members.len(), |i: int| members[i].0),
            ),
            _ => oas::scheme_names(entries.push(entry)) == oas::scheme_names(entries),
        },
{
    assert(entries.push(entry).drop_last() =~= entries);
    match entry {
        JsonView::Object(members) => {
            assert(oas::names(members) =~= Seq::new(members.len(), |i: int| members[i].0));
        },
        _ => {},
    }
}

/// `e` is the endpoint of the operation `op` for `verb` on `route`: named by its
/// operation id or else its summary, with its own security requirements or else
/// those of the document.
pub open spec fn is_operation(
    e: EndpointView,
    project_id: Seq<char>,
    source_path: Seq<char>,
    general: Option<JsonView>,
    route: Seq<char>,
    verb: Seq<char>,
    op: Members,
) -> bool {
    let own = oas::lookup(op, "security"@);
    let said = oas::security(if own is Some { own } else { general });
    let by_id = oas::text_of(oas::lookup(op, "operationId"@));
    let colon = seq![':'];
    &&& e.id == project_id + colon + source_path + colon + "oas"@ + colon + text::upper(verb)
        + colon + route
    &&& e.project_id == project_id
    &&& e.method == text::upper(verb)
    &&& e.route == route
    &&& e.source_path == source_path
    &&& e.line == 1
    &&& e.style == "oas"@
    &&& e.symbol == (if by_id is Some {
        by_id
    } else {
        oas::text_of(oas::lookup(op, "summary"@))
    })
    &&& e.requires_auth == said.0
    &&& e.allows_anonymous == said.1
    &&& e.auth_schemes == said.2
}

/// An operation gives its endpoint.
proof fn lemma_operation(
    project_id: Seq<char>,
    source_path: Seq<char>,
    general: Option<JsonView>,
    route: Seq<char>,
    verb: Seq<char>,
    op: Members,
)
    ensures
        is_operation(
            oas::operation_endpoint(project_id, source_path, general, route, verb, op),
            project_id,
            source_path,
            general,
            route,
            verb,
            op,
        ),
{
    reveal_strlit(":");
    reveal_strlit(":oas:");
    reveal_strlit("oas");
    assert(":"@ =~= seq![':']);
    let colon = seq![':'];
    let a = project_id + colon + source_path;
    assert(a + ":oas:"@ =~= a + colon + "oas"@ + colon);
}

/// `e` is the endpoint of the operation under verb `k` of path `i` of the
/// document whose members are `doc`.
pub open spec fn is_operation_at(
    e: EndpointView,
    project_id: Seq<char>,
    source_path: Seq<char>,
    doc: Members,
    paths: Members,
    i: int,
    k: int,
) -> bool {
    &&& 0 <= i < paths.len()
    &&& 0 <= k < 7
    &&& paths[i].1 matches JsonView::Object(item) && oas::lookup(item, operation_verbs()[k])
        matches Some(JsonView::Object(op)) && is_operation(
        e,
        project_id,
        source_path,
        oas::lookup(doc, "security"@),
        paths[i].0,
        operation_verbs()[k],
        op,
    )
}

/// Every operation of every path of a document is listed, whatever else the
/// document holds.
pub proof fn law_operations_listed(
    project_id: Seq<char>,
    source_path: Seq<char>,
    doc: Members,
    paths: Members,
    i: int,
    item: Members,
    k: int,
    op: Members,
)
    requires
        oas::lookup(doc, "paths"@) == Some(JsonView::Object(paths)),
        0 <= i < paths.len(),
        paths[i].1 == JsonView::Object(item),
        0 <= k < 7,
        oas::lookup(item, operation_verbs()[k]) == Some(JsonView::Object(op)),
    ensures
        exists|j: int|
            0 <= j < oas::document_endpoints(
                project_id,
                source_path,
                JsonView::Object(doc),
            ).len() && is_operation_at(
                #[trigger] oas::document_endpoints(
                    project_id,
                    source_path,
                    JsonView::Object(doc),
                )[j],
                project_id,
                source_path,
                doc,
                paths,
                i,
                k,
            ),
{
    let general = oas::lookup(doc, "security"@);
    lemma_path_lists(project_id, source_path, general, paths[i].0, paths[i].1, 7, k, op);
    lemma_paths_list(project_id, source_path, general, paths, i, k, op);
    let all = oas::document_endpoints(project_id, source_path, JsonView::Object(doc));
    assert(all == oas::paths_endpoints(project_id, source_path, general, paths));
    let j = choose|j: int|
        0 <= j < all.len() && is_operation(
            #[trigger] all[j],
            project_id,
            source_path,
            general,
            paths[i].0,
            operation_verbs()[k],
            op,
        );
    assert(is_operation_at(all[j], project_id, source_path, doc, paths, i, k));
}

/// `es` has the endpoint of the operation `op`.
spec fn has_operation(
    es: Seq<EndpointView>,
    project_id: Seq<char>,
    source_path: Seq<char>,
    general: Option<JsonView>,
    route: Seq<char>,
    verb: Seq<char>,
    op: Members,
) -> bool {
    exists|j: int|
        0 <= j < es.len() && is_operation(
            #[trigger] es[j],
            project_id,
            source_path,
            general,
            route,
            verb,
            op,
        )
}

proof fn lemma_path_lists(
    project_id: Seq<char>,
    source_path: Seq<char>,
    general: Option<JsonView>,
    route: Seq<char>,
    item: JsonView,
    n: int,
    k: int,
    op: Members,
)
    requires
        0 <= k < n <= 7,
        oas::member(item, operation_verbs()[k]) == Some(JsonView::Object(op)),
    ensures
        has_operation(
            oas::path_endpoints(project_id, source_path, general, route, item, n),
            project_id,
            source_path,
            general,
            route,
            operation_verbs()[k],
            op,
        ),
    decreases n,
{
    let front = oas::path_endpoints(project_id, source_path, general, route, item, n - 1);
    let es = oas::path_endpoints(project_id, source_path, general, route, item, n);
    assert(oas::oas_verbs() =~= operation_verbs());
    let verb = operation_verbs()[k];
    if k < n - 1 {
        lemma_path_lists(project_id, source_path, general, route, item, n - 1, k, op);
        let j = choose|j: int|
            0 <= j < front.len() && is_operation(
                #[trigger] front[j],
                project_id,
                source_path,
                general,
                route,
                verb,
                op,
            );
        assert(es[j] == front[j]);
        assert(is_operation(es[j], project_id, source_path, general, route, verb, op));
    } else {
        lemma_operation(project_id, source_path, general, route, verb, op);
        let j = front.len() as int;
        assert(is_operation(es[j], project_id, source_path, general, route, verb, op));
    }
}

proof fn lemma_paths_list(
    project_id: Seq<char>,
    source_path: Seq<char>,
    general: Option<JsonView>,
    paths: Members,
    i: int,
    k: int,
    op: Members,
)
    requires
        0 <= i < paths.len(),
        0 <= k < 7,
        oas::member(paths[i].1, operation_verbs()[k]) == Some(JsonView::Object(op)),
    ensures
        has_operation(
            oas::paths_endpoints(project_id, source_path, general, paths),
            project_id,
            source_path,
            general,
            paths[i].0,
            operation_verbs()[k],
            op,
        ),
    decreases paths.len(),
{
    let rest = paths.drop_last();
    let a = oas::paths_endpoints(project_id, source_path, general, rest);
    let b = oas::path_endpoints(
        project_id,
        source_path,
        general,
        paths.last().0,
        paths.last().1,
        7,
    );
    let es = oas::paths_endpoints(project_id, source_path, general, paths);
    assert(es == a + b);
    let verb = operation_verbs()[k];
    let route = paths[i].0;
    if i < rest.len() {
        assert(rest[i] == paths[i]);
        lemma_paths_list(project_id, source_path, general, rest, i, k, op);
        let j = choose|j: int|
            0 <= j < a.len() && is_operation(
                #[trigger] a[j],
                project_id,
                source_path,
                general,
                route,
                verb,
                op,
            );
        assert(is_operation(es[j], project_id, source_path, general, route, verb, op));
    } else {
        lemma_path_lists(project_id, source_path, general, route, paths[i].1, 7, k, op);
        let j = choose|j: int|
            0 <= j < b.len() && is_operation(
                #[trigger] b[j],
                project_id,
                source_path,
                general,
                route,
                verb,
                op,
            );
        assert(is_operation(es[a.len() + j], project_id, source_path, general, route, verb, op));
    }
}

/// `e` is the endpoint of some operation of `paths`.
pub open spec fn is_some_operation(
    e: EndpointView,
    project_id: Seq<char>,
    source_path: Seq<char>,
    doc: Members,
    paths: Members,
) -> bool {
    exists|i: int, k: int| is_operation_at(e, project_id, source_path, doc, paths, i, k)
}

/// Nothing else is listed: every endpoint is that of an operation of a path of
/// the document, and a document without paths has none.
pub proof fn law_only_operations_listed(
    project_id: Seq<char>,
    source_path: Seq<char>,
    doc: JsonView,
    j: int,
)
    requires
        0 <= j < oas::document_endpoints(project_id, source_path, doc).len(),
    ensures
        doc matches JsonView::Object(members) && oas::lookup(members, "paths"@) matches Some(
            JsonView::Object(paths),
        ) && is_some_operation(
            oas::document_endpoints(project_id, source_path, doc)[j],
            project_id,
            source_path,
            members,
            paths,
        ),
{
    match doc {
        JsonView::Object(members) => match oas::lookup(members, "paths"@) {
            Some(JsonView::Object(paths)) => {
                assert(paths.take(paths.len() as int) =~= paths);
                lemma_only_paths(project_id, source_path, members, paths, paths.len() as int, j);
            },
            _ => {},
        },
        _ => {},
    }
}

proof fn lemma_only_paths(
    project_id: Seq<char>,
    source_path: Seq<char>,
    doc: Members,
    paths: Members,
    n: int,
    j: int,
)
    requires
        0 <= n <= paths.len(),
        0 <= j < oas::paths_endpoints(
            project_id,
            source_path,
            oas::lookup(doc, "security"@),
            paths.take(n),
        ).len(),
    ensures
        is_some_operation(
            oas::paths_endpoints(
                project_id,
                source_path,
                oas::lookup(doc, "security"@),
                paths.take(n),
            )[j],
            project_id,
            source_path,
            doc,
            paths,
        ),
    decreases n,
{
    let general = oas::lookup(doc, "security"@);
    let part = paths.take(n);
    let es = oas::paths_endpoints(project_id, source_path, general, part);
    if n > 0 {
        assert(part.drop_last() =~= paths.take(n - 1));
        assert(part.last() == paths[n - 1]);
        let a = oas::paths_endpoints(project_id, source_path, general, paths.take(n - 1));
        if j < a.len() {
            lemma_only_paths(project_id, source_path, doc, paths, n - 1, j);
            assert(es[j] == a[j]);
        } else {
            let k = lemma_only_path(
                project_id,
                source_path,
                doc,
                paths,
                n - 1,
                7,
                j - a.len(),
            );
            assert(is_operation_at(es[j], project_id, source_path, doc, paths, n - 1, k));
        }
    }
}

proof fn lemma_only_path(
    project_id: Seq<char>,
    source_path: Seq<char>,
    doc: Members,
    paths: Members,
    i: int,
    n: int,
    j: int,
) -> (k: int)
    requires
        0 <= i < paths.len(),
        0 <= n <= 7,
        0 <= j < oas::path_endpoints(
            project_id,
            source_path,
            oas::lookup(doc, "security"@),
            paths[i].0,
            paths[i].1,
            n,
        ).len(),
    ensures
        is_operation_at(
            oas::path_endpoints(
                project_id,
                source_path,
                oas::lookup(doc, "security"@),
                paths[i].0,
                paths[i].1,
                n,
            )[j],
            project_id,
            source_path,
            doc,
            paths,
            i,
            k,
        ),
    decreases n,
{
    let general = oas::lookup(doc, "security"@);
    let front = oas::path_endpoints(
        project_id,
        source_path,
        general,
        paths[i].0,
        paths[i].1,
        n - 1,
    );
    assert(oas::oas_verbs() =~= operation_verbs());
    if j < front.len() {
        lemma_only_path(project_id, source_path, doc, paths, i, n - 1, j)
    } else {
        match oas::object_of(oas::member(paths[i].1, operation_verbs()[n - 1])) {
            Some(op) => {
                lemma_operation(
                    project_id,
                    source_path,
                    general,
                    paths[i].0,
                    operation_verbs()[n - 1],
                    op,
                );
            },
            None => {},
        }
        n - 1
    }
}

/// A file whose name ends in `.json` is read as JSON, any other as YAML; its
/// endpoints are those of the document, and none if it is none.
pub proof fn law_document_format(
    project_id: Seq<char>,
    source_path: Seq<char>,
    source: Seq<char>,
    stem: Seq<char>,
)
    ensures
        ({
            let doc = if text::ends(source_path, ".json"@) {
                documents::json_document(source)
            } else {
                documents::yaml_document(source)
            };
            &&& doc matches Some(d) ==> oas::oas_endpoints(project_id, source_path, source)
                == oas::document_endpoints(project_id, source_path, d)
            &&& doc is None ==> oas::oas_endpoints(project_id, source_path, source).len() == 0
        }),
        oas::oas_document(stem + ".json"@, source) == documents::json_document(source),
{
    assert((stem + ".json"@).subrange(
        stem.len() as int,
        (stem.len() + ".json"@.len()) as int,
    ) =~= ".json"@);
}

} // verus!
