//! Laws of the records and of the index.

use crate::auth_laws;
use crate::controllers;
use crate::documents::JsonView;
use crate::host;
use crate::host::HostView;
use crate::index;
use crate::manifest;
use crate::merge;
use crate::merge_laws;
use crate::minimal;
use crate::model::EndpointView;
use crate::oas;
use crate::paths;
use crate::project;
use crate::route_laws;
use crate::routes;
use crate::text;
use vstd::prelude::*;

verus! {

/// `e` is an endpoint of the project `project_id` that comes from a source,
/// where `code` is true, or else from an OpenAPI document, and has each scheme
/// once.
pub open spec fn belongs(code: bool, project_id: Seq<char>, e: EndpointView) -> bool {
    &&& e.project_id == project_id
    &&& (e.style == "oas"@) == !code
    &&& code ==> text::begins(e.route, "/"@)
    &&& e.auth_schemes.no_duplicates()
}

/// All of `es` belong.
pub open spec fn all_belong(code: bool, project_id: Seq<char>, es: Seq<EndpointView>) -> bool {
    forall|i: int| 0 <= i < es.len() ==> belongs(code, project_id, #[trigger] es[i])
}

/// The styles are different.
proof fn lemma_styles()
    ensures
        "minimal-api"@ != "oas"@,
        "controller"@ != "oas"@,
{
    reveal_strlit("minimal-api");
    reveal_strlit("controller");
    reveal_strlit("oas");
    assert("minimal-api"@.len() != "oas"@.len());
    assert("controller"@.len() != "oas"@.len());
}

/// The endpoints that the calls in a source map belong to its project.
proof fn lemma_minimal_belong(pid: Seq<char>, path: Seq<char>, source: Seq<char>, n: int)
    ensures
        all_belong(true, pid, minimal::endpoints_until(pid, path, source, n)),
    decreases n,
{
    if n > 0 {
        lemma_minimal_belong(pid, path, source, n - 1);
        lemma_styles();
        let lines = text::lines_of(source);
        let groups = minimal::group_table(lines, n);
        let t = text::trimmed(lines[n - 1]);
        match minimal::minimal_call(t) {
            Some((receiver, method, route)) => {
                route_laws::law_combined_rooted(
                    routes::group_prefix(receiver, groups),
                    route,
                    None,
                    None,
                    None,
                );
            },
            None => {},
        }
    }
}

/// The endpoints that the controllers in a source declare belong to its project.
proof fn lemma_controllers_belong(pid: Seq<char>, path: Seq<char>, source: Seq<char>, n: int)
    ensures
        all_belong(true, pid, controllers::endpoints_until(pid, path, source, n)),
    decreases n,
{
    if n > 0 {
        lemma_controllers_belong(pid, path, source, n - 1);
        lemma_styles();
        let front = controllers::endpoints_until(pid, path, source, n - 1);
        let all = controllers::endpoints_until(pid, path, source, n);
        assert forall|i: int| 0 <= i < all.len() implies belongs(true, pid, #[trigger] all[i]) by {
            if i < front.len() {
                assert(all[i] == front[i]);
            } else {
                lemma_line_belongs(pid, path, source, n, i - front.len());
            }
        }
    }
}

/// The endpoints that line `n` of a source declares belong to its project.
proof fn lemma_line_belongs(pid: Seq<char>, path: Seq<char>, source: Seq<char>, n: int, i: int)
    requires
        n > 0,
        controllers::endpoints_until(pid, path, source, n - 1).len() <= controllers::endpoints_until(
            pid,
            path,
            source,
            n - 1,
        ).len() + i < controllers::endpoints_until(pid, path, source, n).len(),
    ensures
        belongs(
            true,
            pid,
            controllers::endpoints_until(pid, path, source, n)[controllers::endpoints_until(
                pid,
                path,
                source,
                n - 1,
            ).len() + i],
        ),
{
    lemma_styles();
    let lines = text::lines_of(source);
    let line = lines[n - 1];
    let scope = controllers::scope_until(lines, n - 1);
    let number = crate::source::line_number(
        source,
        crate::source::line_offset(lines, n - 1) as int,
    );
    let c = controllers::controller_at(scope, line)->0;
    let found = crate::patterns::regex_captures(controllers::METHOD_DECLARATION@, line)->0;
    let name = crate::patterns::group_text(found, 1);
    let http = crate::attributes::http_methods(scope.pending)[i];
    let route = match http.1 {
        Some(r) => r,
        None => text::or_empty(crate::attributes::marked_literal(scope.pending, "[Route("@)),
    };
    route_laws::law_combined_rooted(c.base_route, route, Some(c.token), Some(name), c.area);
    lemma_scope_distinct(lines, n - 1);
    auth_laws::law_effective_schemes_distinct(c.auth, scope.pending);
    assert(belongs(
        true,
        pid,
        controllers::method_endpoint(pid, path, number, c, scope.pending, name, http),
    ));
}

/// The controller that a line stands in names each scheme once.
proof fn lemma_scope_distinct(lines: Seq<Seq<char>>, n: int)
    ensures
        controllers::scope_until(lines, n).controller matches Some(c)
            ==> c.auth.schemes.no_duplicates(),
    decreases n,
{
    if n > 0 {
        lemma_scope_distinct(lines, n - 1);
        auth_laws::law_schemes_distinct(controllers::scope_until(lines, n - 1).pending);
    }
}

/// Security requirements name each scheme once.
proof fn lemma_scheme_names_distinct(entries: Seq<JsonView>)
    ensures
        oas::scheme_names(entries).no_duplicates(),
    decreases entries.len(),
{
    if entries.len() > 0 {
        lemma_scheme_names_distinct(entries.drop_last());
        match entries.last() {
            JsonView::Object(members) => {
                merge_laws::law_union_distinct(
                    oas::scheme_names(entries.drop_last()),
                    oas::names(members),
                );
            },
            _ => {},
        }
    }
}

/// The endpoints of a path item belong to the project.
proof fn lemma_path_belongs(
    pid: Seq<char>,
    path: Seq<char>,
    general: Option<JsonView>,
    route: Seq<char>,
    item: JsonView,
    n: int,
)
    ensures
        all_belong(false, pid, oas::path_endpoints(pid, path, general, route, item, n)),
    decreases n,
{
    if n > 0 {
        lemma_path_belongs(pid, path, general, route, item, n - 1);
        match oas::object_of(oas::member(item, oas::oas_verbs()[n - 1])) {
            Some(op) => {
                let own = oas::lookup(op, "security"@);
                match if own is Some {
                    own
                } else {
                    general
                } {
                    Some(JsonView::Array(entries)) => {
                        lemma_scheme_names_distinct(entries);
                    },
                    _ => {},
                }
            },
            None => {},
        }
    }
}

/// The endpoints of the paths of a document belong to the project.
proof fn lemma_paths_belong(
    pid: Seq<char>,
    path: Seq<char>,
    general: Option<JsonView>,
    items: oas::Members,
)
    ensures
        all_belong(false, pid, oas::paths_endpoints(pid, path, general, items)),
    decreases items.len(),
{
    if items.len() > 0 {
        lemma_paths_belong(pid, path, general, items.drop_last());
        lemma_path_belongs(pid, path, general, items.last().0, items.last().1, 7);
    }
}

/// The endpoints in a file belong to its project.
proof fn lemma_file_belongs(
    code: bool,
    pid: Seq<char>,
    root: Seq<char>,
    rel: Seq<char>,
    content: Option<Seq<char>>,
)
    ensures
        all_belong(code, pid, project::file_endpoints(code, pid, root, rel, content)),
{
    let path = paths::source_path(root, rel);
    match content {
        Some(s) => if code {
            let n = text::lines_of(s).len() as int;
            lemma_minimal_belong(pid, path, s, n);
            lemma_controllers_belong(pid, path, s, n);
        } else {
            match oas::oas_document(path, s) {
                Some(doc) => match oas::object_of(oas::member(doc, "paths"@)) {
                    Some(items) => {
                        lemma_paths_belong(pid, path, oas::member(doc, "security"@), items);
                    },
                    None => {},
                },
                None => {},
            }
        },
        None => {},
    }
}

/// The endpoints in the files of a project belong to it.
proof fn lemma_gathered_belong(
    host: HostView,
    code: bool,
    pid: Seq<char>,
    root: Seq<char>,
    dir: Seq<char>,
    rels: Seq<Seq<char>>,
)
    ensures
        all_belong(code, pid, project::gathered(host, code, pid, root, dir, rels)),
    decreases rels.len(),
{
    if rels.len() > 0 {
        lemma_file_belongs(
            code,
            pid,
            root,
            rels[0],
            host::read(host, paths::path_below(dir, rels[0])),
        );
        lemma_gathered_belong(host, code, pid, root, dir, rels.skip(1));
    }
}

/// Merging endpoints that belong leaves endpoints that belong.
proof fn lemma_merged_belong(code: bool, pid: Seq<char>, es: Seq<EndpointView>)
    requires
        all_belong(code, pid, es),
    ensures
        ({
            let m = merge::merged_all(project::nothing_merged(), es);
            forall|k: (Seq<char>, Seq<char>)| #[trigger]
                m.contains_key(k) ==> belongs(code, pid, m[k])
        }),
    decreases es.len(),
{
    if es.len() > 0 {
        assert forall|i: int| 0 <= i < es.drop_last().len() implies belongs(
            code,
            pid,
            #[trigger] es.drop_last()[i],
        ) by {
            assert(es.drop_last()[i] == es[i]);
        }
        lemma_merged_belong(code, pid, es.drop_last());
        let front = merge::merged_all(project::nothing_merged(), es.drop_last());
        let m = merge::merged_all(project::nothing_merged(), es);
        let e = es[es.len() - 1];
        assert(belongs(code, pid, e));
        assert forall|k: (Seq<char>, Seq<char>)| #[trigger] m.contains_key(k) implies belongs(
            code,
            pid,
            m[k],
        ) by {
            if k != merge::key_of(e) {
                assert(front.contains_key(k));
            } else if front.contains_key(k) {
                assert(belongs(code, pid, front[k]));
                merge_laws::law_union_distinct(front[k].auth_schemes, e.auth_schemes);
                merge_laws::law_union_distinct(e.auth_schemes, front[k].auth_schemes);
            }
        }
    }
}

/// A listing of endpoints that belong is not empty and has only such endpoints.
proof fn lemma_listing_belongs(code: bool, pid: Seq<char>, es: Seq<EndpointView>)
    requires
        all_belong(code, pid, es),
        es.len() > 0,
    ensures
        ({
            let s = merge::listing(merge::merged_all(project::nothing_merged(), es));
            s.len() > 0 && all_belong(code, pid, s)
        }),
{
    let m = merge::merged_all(project::nothing_merged(), es);
    let s = merge::listing(m);
    merge_laws::law_listing(es);
    lemma_merged_belong(code, pid, es);
    assert forall|i: int| 0 <= i < s.len() implies belongs(code, pid, #[trigger] s[i]) by {
        assert(s.contains(s[i]));
        let k = choose|k: (Seq<char>, Seq<char>)| #[trigger] m.contains_key(k) && m[k] == s[i];
        assert(belongs(code, pid, m[k]));
    }
    let k = merge::key_of(es.last());
    assert(m.contains_key(k));
    assert(merge::in_merged(m, m[k]));
    assert(s.contains(m[k]));
}

/// The endpoints in all OpenAPI documents of a project belong to it.
proof fn lemma_documented_belong(
    host: HostView,
    manifest: Seq<char>,
    pid: Seq<char>,
    root: Seq<char>,
    dir: Seq<char>,
)
    ensures
        all_belong(
            false,
            pid,
            project::documented_endpoints(host, manifest, pid, root, dir),
        ),
{
    lemma_gathered_belong(
        host,
        false,
        pid,
        root,
        dir,
        project::oas_files(host::list(host, dir)),
    );
    match project::openapi_dir(manifest, dir) {
        Some(out) => {
            lemma_gathered_belong(
                host,
                false,
                pid,
                root,
                out,
                project::oas_files(host::list(host, out)),
            );
        },
        None => {},
    }
}

/// A record has endpoints, and all of them are of its project and have each
/// scheme once. Either all come from OpenAPI documents or none does: documents
/// suppress what sources say.
pub proof fn law_record_endpoints(
    host: HostView,
    manifest_path: Seq<char>,
    fallback_name: Option<Seq<char>>,
    root_path: Seq<char>,
)
    requires
        project::project_record(host, manifest_path, fallback_name, root_path) is Some,
    ensures
        ({
            let p = project::project_record(host, manifest_path, fallback_name, root_path)->0;
            &&& p.endpoints.len() > 0
            &&& all_belong(false, p.id, p.endpoints) || all_belong(true, p.id, p.endpoints)
        }),
{
    let m = host::read(host, manifest_path)->0;
    let id = manifest::id_of(project::project_name(m, fallback_name, manifest_path));
    let dir = paths::parent(manifest_path);
    let documented = project::documented_endpoints(host, m, id, root_path, dir);
    let sources = project::code_files(host::list(host, dir));
    if documented.len() > 0 {
        lemma_documented_belong(host, m, id, root_path, dir);
        lemma_listing_belongs(false, id, documented);
    } else {
        lemma_gathered_belong(host, true, id, root_path, dir, sources);
        lemma_listing_belongs(
            true,
            id,
            project::gathered(host, true, id, root_path, dir, sources),
        );
    }
}

/// The endpoints of a record are in ascending order, and no two of them have the
/// same merge key.
pub proof fn law_record_order(
    host: HostView,
    manifest_path: Seq<char>,
    fallback_name: Option<Seq<char>>,
    root_path: Seq<char>,
)
    requires
        project::project_record(host, manifest_path, fallback_name, root_path) is Some,
    ensures
        ({
            let p = project::project_record(host, manifest_path, fallback_name, root_path)->0;
            &&& merge::ascending(p.endpoints)
            &&& forall|i: int, j: int|
                0 <= i < j < p.endpoints.len() ==> merge::key_of(#[trigger] p.endpoints[i])
                    != merge::key_of(#[trigger] p.endpoints[j])
        }),
{
    let p = project::project_record(host, manifest_path, fallback_name, root_path)->0;
    let m = host::read(host, manifest_path)->0;
    let id = manifest::id_of(project::project_name(m, fallback_name, manifest_path));
    let dir = paths::parent(manifest_path);
    let documented = project::documented_endpoints(host, m, id, root_path, dir);
    let sources = project::code_files(host::list(host, dir));
    let found = if documented.len() > 0 {
        documented
    } else {
        project::gathered(host, true, id, root_path, dir, sources)
    };
    merge_laws::law_listing(found);
    assert forall|i: int, j: int| 0 <= i < j < p.endpoints.len() implies merge::key_of(
        #[trigger] p.endpoints[i],
    ) != merge::key_of(#[trigger] p.endpoints[j]) by {
        merge_laws::law_listing_distinct(found, i, j);
    }
}

/// An index is one of .NET projects in the first version of its schema. It has
/// projects, and each of them has endpoints.
pub proof fn law_index_shape(host: HostView, root: Seq<char>)
    requires
        index::workspace_index(host, root) is Some,
    ensures
        ({
            let d = index::workspace_index(host, root)->0;
            &&& d.schema_version == 1
            &&& d.ecosystem == "dotnet"@
            &&& d.projects.len() > 0
            &&& forall|i: int|
                0 <= i < d.projects.len() ==> (#[trigger] d.projects[i]).endpoints.len() > 0
        }),
{
    let path = if paths::solution_path(root) || paths::project_path(root) {
        root
    } else {
        index::discovered(root, host::list(host, root))->0
    };
    let entries = if paths::solution_path(path) {
        index::solution_entries(
            path,
            manifest::solution_projects(host::read(host, path)->0),
        )
    } else {
        seq![index::own_entry(path)]
    };
    lemma_records_not_empty(host, entries);
}

/// Each of the records of `entries` has endpoints.
proof fn lemma_records_not_empty(host: HostView, entries: Seq<index::EntryView>)
    ensures
        forall|i: int|
            0 <= i < index::records(host, entries).len() ==> (#[trigger] index::records(
                host,
                entries,
            )[i]).endpoints.len() > 0,
    decreases entries.len(),
{
    if entries.len() > 0 {
        let e = entries[0];
        lemma_records_not_empty(host, entries.skip(1));
        let rest = index::records(host, entries.skip(1));
        let all = index::records(host, entries);
        match project::project_record(host, e.manifest_path, Some(e.name), e.root_path) {
            Some(p) => {
                law_record_endpoints(host, e.manifest_path, Some(e.name), e.root_path);
                assert forall|i: int| 0 <= i < all.len() implies (
                #[trigger] all[i]).endpoints.len() > 0 by {
                    if i > 0 {
                        assert(all[i] == rest[i - 1]);
                    }
                }
            },
            None => {},
        }
    }
}

/// A workspace with a solution is indexed by a solution: projects count only
/// where there is none.
pub proof fn law_solution_preferred(root: Seq<char>, files: Seq<Seq<char>>, i: int)
    requires
        0 <= i < files.len(),
        paths::solution_path(paths::normal_relative(files[i])),
    ensures
        index::discovered(root, files) matches Some(path) && paths::solution_path(path),
{
    lemma_first_solution(files, i);
    let rel = index::first_solution(files)->0;
    let path = paths::path_below(root, rel);
    let n = ".sln"@.len();
    reveal_strlit(".sln");
    assert(path.subrange(path.len() - n, path.len() as int) =~= rel.subrange(
        rel.len() - n,
        rel.len() as int,
    ));
}

/// Where one of `files` names a solution, the first that does is found.
proof fn lemma_first_solution(files: Seq<Seq<char>>, i: int)
    requires
        0 <= i < files.len(),
        paths::solution_path(paths::normal_relative(files[i])),
    ensures
        index::first_solution(files) matches Some(rel) && paths::solution_path(rel),
    decreases files.len(),
{
    if !paths::solution_path(paths::normal_relative(files[0])) {
        lemma_first_solution(files.skip(1), i - 1);
    }
}

} // verus!
