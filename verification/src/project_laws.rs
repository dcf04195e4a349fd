//! Laws of projects: what is read, and what becomes of it.

use crate::controllers;
use crate::host;
use crate::host::{HostView, ReplyView, RequestView};
use crate::manifest;
use crate::merge;
use crate::merge_laws;
use crate::minimal;
use crate::model::{EndpointView, ProjectView};
use crate::oas;
use crate::paths;
use crate::project;
use crate::project::{ScanView, Stage};
use crate::text;
use crate::text::CharClass;
use crate::text_laws;
use vstd::prelude::*;

verus! {

/// What a host gives for a file is its text, unless that is empty, and for a
/// directory its files.
pub proof fn law_host(host: HostView, path: Seq<char>)
    ensures
        ({
            let readable = host.files.contains_key(path) && host.files[path].len() > 0;
            &&& readable ==> host::read(host, path) == Some(host.files[path])
            &&& !readable ==> host::read(host, path) is None
        }),
        host.listings.contains_key(path) ==> host::list(host, path) == host.listings[path],
        !host.listings.contains_key(path) ==> host::list(host, path).len() == 0,
{
}

/// A listing has a path on each line that is not blank.
pub proof fn law_listed_paths(w1: Seq<char>, path: Seq<char>, w2: Seq<char>, rest: Seq<char>)
    requires
        text_laws::all_of(w1, CharClass::White),
        text_laws::all_of(w2, CharClass::White),
        text_laws::bare_of(path, CharClass::White),
        !(w1 + path + w2).contains('\n'),
    ensures
        host::listed_paths(Seq::<char>::empty()).len() == 0,
        host::listed_paths(w1 + path + w2 + seq!['\n'] + rest) == (if path.len() > 0 {
            seq![path]
        } else {
            Seq::empty()
        }) + host::listed_paths(rest),
        host::listed_paths(w1 + path + w2) == (if path.len() > 0 {
            seq![path]
        } else {
            Seq::empty()
        }),
{
    let l = w1 + path + w2;
    let own = if path.len() > 0 {
        seq![path]
    } else {
        Seq::empty()
    };
    let e = Seq::<Seq<char>>::empty();
    text_laws::law_strip(w1, path, w2, CharClass::White);
    text_laws::law_lines(l, rest);
    text_laws::law_lines(Seq::empty(), rest);
    assert(text::all_trimmed(text::lines_of(Seq::<char>::empty())) =~= e);
    // A carriage return at the end of the line is white space.
    let first = if l.len() > 0 && l.last() == '\r' {
        l.drop_last()
    } else {
        l
    };
    if l.len() > 0 && l.last() == '\r' {
        assert(!first.contains('\n')) by {
            if first.contains('\n') {
                let i = choose|i: int| 0 <= i < first.len() && first[i] == '\n';
                assert(l[i] == '\n');
            }
        }
        text_laws::law_lines(first, rest);
        assert(first + seq!['\r', '\n'] + rest =~= l + seq!['\n'] + rest);
        lemma_trim_return(w1, path, w2);
    }
    let lines = text::lines_of(l + seq!['\n'] + rest);
    assert(lines == seq![first] + text::lines_of(rest));
    assert(text::trimmed(first) == path);
    let tail = text::all_trimmed(text::lines_of(rest));
    assert(text::all_trimmed(lines) =~= e + seq![path] + tail);
    text_laws::law_nonempty(e, path, tail);
    assert(text::nonempty(e) + own + text::nonempty(tail) =~= own + text::nonempty(tail));
    if l.len() > 0 {
        assert(text::all_trimmed(text::lines_of(l)) =~= e + seq![path] + e);
        text_laws::law_nonempty(e, path, e);
        assert(text::nonempty(e) + own + text::nonempty(e) =~= own);
    } else {
        assert(l =~= Seq::empty());
        assert(text::nonempty(e) =~= own);
    }
}

/// Trimming does not depend on a carriage return at the end.
proof fn lemma_trim_return(w1: Seq<char>, path: Seq<char>, w2: Seq<char>)
    requires
        text_laws::all_of(w1, CharClass::White),
        text_laws::all_of(w2, CharClass::White),
        text_laws::bare_of(path, CharClass::White),
        (w1 + path + w2).len() > 0,
        (w1 + path + w2).last() == '\r',
    ensures
        text::trimmed((w1 + path + w2).drop_last()) == path,
{
    let l = w1 + path + w2;
    if w2.len() > 0 {
        assert(l.drop_last() =~= w1 + path + w2.drop_last());
        assert(text_laws::all_of(w2.drop_last(), CharClass::White)) by {
            assert forall|i: int| 0 <= i < w2.drop_last().len() implies text::is_white(
                #[trigger] w2.drop_last()[i],
            ) by {
                assert(text::is_white(w2[i]));
            }
        }
        text_laws::law_strip(w1, path, w2.drop_last(), CharClass::White);
    } else if path.len() > 0 {
        assert(l.last() == path.last());
        let s = seq![path.last()];
        assert(text::is_white(s[0]));
        assert(text_laws::all_of(s, CharClass::White));
    } else {
        assert(l.drop_last() =~= w1.drop_last() + path + w2);
        assert(text_laws::all_of(w1.drop_last(), CharClass::White)) by {
            assert forall|i: int| 0 <= i < w1.drop_last().len() implies text::is_white(
                #[trigger] w1.drop_last()[i],
            ) by {
                assert(text::is_white(w1[i]));
            }
        }
        text_laws::law_strip(w1.drop_last(), path, w2, CharClass::White);
    }
}

/// A file is a source that counts exactly if its name ends in `.cs` and it lies
/// in no directory of build results or version control, in whatever other
/// directory it lies.
pub open spec fn is_source(path: Seq<char>) -> bool {
    &&& text::ends(path, ".cs"@)
    &&& !text::begins(path, "obj/"@)
    &&& !text::begins(path, "bin/"@)
    &&& !text::occurs(path, "/obj/"@)
    &&& !text::occurs(path, "/bin/"@)
    &&& !text::occurs(path, "/.git/"@)
}

/// All sources are picked from a list of files, in order, and nothing else.
pub proof fn law_sources_picked(a: Seq<Seq<char>>, f: Seq<char>, b: Seq<Seq<char>>)
    ensures
        project::code_files(Seq::<Seq<char>>::empty()).len() == 0,
        project::code_files(a + seq![f] + b) == project::code_files(a) + (if is_source(f) {
            seq![f]
        } else {
            Seq::empty()
        }) + project::code_files(b),
    decreases b.len(),
{
    let all = a + seq![f] + b;
    let own = if is_source(f) {
        seq![f]
    } else {
        Seq::empty()
    };
    if b.len() == 0 {
        assert(all.drop_last() =~= a);
        assert(project::code_files(all) =~= project::code_files(a) + own + project::code_files(
            b,
        ));
    } else {
        law_sources_picked(a, f, b.drop_last());
        assert(all.drop_last() =~= a + seq![f] + b.drop_last());
        assert(project::code_files(all) =~= project::code_files(a) + own + project::code_files(
            b,
        ));
    }
}

/// All files that may be OpenAPI documents are picked from a list, in order, and
/// nothing else.
pub proof fn law_documents_picked(a: Seq<Seq<char>>, f: Seq<char>, b: Seq<Seq<char>>)
    ensures
        project::oas_files(Seq::<Seq<char>>::empty()).len() == 0,
        project::oas_files(a + seq![f] + b) == project::oas_files(a) + (if paths::oas_path(f) {
            seq![f]
        } else {
            Seq::empty()
        }) + project::oas_files(b),
    decreases b.len(),
{
    let all = a + seq![f] + b;
    let own = if paths::oas_path(f) {
        seq![f]
    } else {
        Seq::empty()
    };
    if b.len() == 0 {
        assert(all.drop_last() =~= a);
        assert(project::oas_files(all) =~= project::oas_files(a) + own + project::oas_files(b));
    } else {
        law_documents_picked(a, f, b.drop_last());
        assert(all.drop_last() =~= a + seq![f] + b.drop_last());
        assert(project::oas_files(all) =~= project::oas_files(a) + own + project::oas_files(b));
    }
}

/// A file of a list, with what stands on both sides of it.
proof fn lemma_split(files: Seq<Seq<char>>, f: Seq<char>) -> (r: (Seq<Seq<char>>, Seq<Seq<char>>))
    requires
        files.contains(f),
    ensures
        files == r.0 + seq![f] + r.1,
{
    let i = choose|i: int| 0 <= i < files.len() && files[i] == f;
    let a = files.take(i);
    let b = files.skip(i + 1);
    assert(files =~= a + seq![f] + b);
    (a, b)
}

/// Every source that is listed is picked.
proof fn lemma_source_picked(files: Seq<Seq<char>>, f: Seq<char>)
    requires
        files.contains(f),
        is_source(f),
    ensures
        project::code_files(files).contains(f),
{
    let (a, b) = lemma_split(files, f);
    law_sources_picked(a, f, b);
    assert(project::code_files(files)[project::code_files(a).len() as int] == f);
}

/// Every file that is listed and may be an OpenAPI document is picked.
proof fn lemma_document_picked(files: Seq<Seq<char>>, f: Seq<char>)
    requires
        files.contains(f),
        paths::oas_path(f),
    ensures
        project::oas_files(files).contains(f),
{
    let (a, b) = lemma_split(files, f);
    law_documents_picked(a, f, b);
    assert(project::oas_files(files)[project::oas_files(a).len() as int] == f);
}

/// The endpoints of a file are those of its text, at its path in the workspace: a
/// source gives its calls and then its controllers, a document its operations.
pub proof fn law_file_endpoints(
    project_id: Seq<char>,
    root: Seq<char>,
    rel: Seq<char>,
    content: Seq<char>,
    code: bool,
)
    ensures
        ({
            let path = paths::source_path(root, rel);
            &&& project::file_endpoints(true, project_id, root, rel, Some(content))
                == minimal::minimal_endpoints(project_id, path, content)
                + controllers::controller_endpoints(project_id, path, content)
            &&& project::file_endpoints(false, project_id, root, rel, Some(content))
                == oas::oas_endpoints(project_id, path, content)
            &&& project::file_endpoints(code, project_id, root, rel, None).len() == 0
        }),
{
}

/// Endpoints are gathered file by file, in order.
pub proof fn law_gathered(
    host: HostView,
    code: bool,
    project_id: Seq<char>,
    root: Seq<char>,
    dir: Seq<char>,
    a: Seq<Seq<char>>,
    f: Seq<char>,
    b: Seq<Seq<char>>,
)
    ensures
        project::gathered(host, code, project_id, root, dir, Seq::empty()).len() == 0,
        project::gathered(host, code, project_id, root, dir, a + seq![f] + b)
            == project::gathered(host, code, project_id, root, dir, a) + project::file_endpoints(
            code,
            project_id,
            root,
            f,
            host::read(host, paths::path_below(dir, f)),
        ) + project::gathered(host, code, project_id, root, dir, b),
    decreases a.len(),
{
    let all = a + seq![f] + b;
    let own = project::file_endpoints(
        code,
        project_id,
        root,
        f,
        host::read(host, paths::path_below(dir, f)),
    );
    let gb = project::gathered(host, code, project_id, root, dir, b);
    if a.len() == 0 {
        assert(all.skip(1) =~= b);
        assert(all[0] == f);
        assert(project::gathered(host, code, project_id, root, dir, all) =~= project::gathered(
            host,
            code,
            project_id,
            root,
            dir,
            a,
        ) + own + gb);
    } else {
        law_gathered(host, code, project_id, root, dir, a.skip(1), f, b);
        assert(all.skip(1) =~= a.skip(1) + seq![f] + b);
        assert(all[0] == a[0]);
        assert(project::gathered(host, code, project_id, root, dir, all) =~= project::gathered(
            host,
            code,
            project_id,
            root,
            dir,
            a,
        ) + own + gb);
    }
}

/// What a file gives is gathered.
proof fn lemma_gathered_has(
    host: HostView,
    code: bool,
    project_id: Seq<char>,
    root: Seq<char>,
    dir: Seq<char>,
    rels: Seq<Seq<char>>,
    f: Seq<char>,
    e: EndpointView,
)
    requires
        rels.contains(f),
        project::file_endpoints(
            code,
            project_id,
            root,
            f,
            host::read(host, paths::path_below(dir, f)),
        ).contains(e),
    ensures
        project::gathered(host, code, project_id, root, dir, rels).contains(e),
{
    let (a, b) = lemma_split(rels, f);
    law_gathered(host, code, project_id, root, dir, a, f, b);
    let own = project::file_endpoints(
        code,
        project_id,
        root,
        f,
        host::read(host, paths::path_below(dir, f)),
    );
    let i = choose|i: int| 0 <= i < own.len() && own[i] == e;
    let n = project::gathered(host, code, project_id, root, dir, a).len() as int;
    assert(project::gathered(host, code, project_id, root, dir, rels)[n + i] == e);
}

/// `p` has the endpoint that `e` is a find of, with what `e` says of access.
pub open spec fn has_find(p: ProjectView, e: EndpointView) -> bool {
    exists|j: int|
        0 <= j < p.endpoints.len() && merge::key_of(#[trigger] p.endpoints[j]) == merge::key_of(e)
            && merge_laws::keeps(p.endpoints[j], e)
}

/// The id of the project with this manifest.
pub open spec fn id_for(
    manifest: Seq<char>,
    fallback: Option<Seq<char>>,
    manifest_path: Seq<char>,
) -> Seq<char> {
    manifest::id_of(project::project_name(manifest, fallback, manifest_path))
}

/// Where no OpenAPI document gives an endpoint, every call and every method in
/// every source of the project has its endpoint in the record, in whatever
/// directory below the project the source lies.
pub proof fn law_sources_indexed(
    host: HostView,
    manifest_path: Seq<char>,
    manifest: Seq<char>,
    fallback: Option<Seq<char>>,
    root: Seq<char>,
    f: Seq<char>,
    content: Seq<char>,
    e: EndpointView,
)
    requires
        host::read(host, manifest_path) == Some(manifest),
        manifest::may_expose_api(manifest),
        ({
            let dir = paths::parent(manifest_path);
            let id = id_for(manifest, fallback, manifest_path);
            let path = paths::source_path(root, f);
            &&& project::documented_endpoints(host, manifest, id, root, dir).len() == 0
            &&& host::list(host, dir).contains(f)
            &&& is_source(f)
            &&& host::read(host, paths::path_below(dir, f)) == Some(content)
            &&& minimal::minimal_endpoints(id, path, content).contains(e)
                || controllers::controller_endpoints(id, path, content).contains(e)
        }),
    ensures
        project::project_record(host, manifest_path, fallback, root) matches Some(p) && has_find(
            p,
            e,
        ),
{
    let dir = paths::parent(manifest_path);
    let id = id_for(manifest, fallback, manifest_path);
    let path = paths::source_path(root, f);
    let files = host::list(host, dir);
    let a = minimal::minimal_endpoints(id, path, content);
    let b = controllers::controller_endpoints(id, path, content);
    assert((a + b).contains(e)) by {
        if a.contains(e) {
            let i = choose|i: int| 0 <= i < a.len() && a[i] == e;
            assert((a + b)[i] == e);
        } else {
            let i = choose|i: int| 0 <= i < b.len() && b[i] == e;
            assert((a + b)[a.len() + i] == e);
        }
    }
    lemma_source_picked(files, f);
    lemma_gathered_has(host, true, id, root, dir, project::code_files(files), f, e);
    let found = project::gathered(host, true, id, root, dir, project::code_files(files));
    lemma_found(host, manifest_path, fallback, root, found, e);
}

/// A record is made of what was found.
proof fn lemma_found(
    host: HostView,
    manifest_path: Seq<char>,
    fallback: Option<Seq<char>>,
    root: Seq<char>,
    found: Seq<EndpointView>,
    e: EndpointView,
)
    requires
        found.contains(e),
        project::project_record(host, manifest_path, fallback, root) matches Some(p)
            && p.endpoints == merge::listing(merge::merged_all(project::nothing_merged(), found)),
    ensures
        has_find(project::project_record(host, manifest_path, fallback, root)->0, e),
{
    let p = project::project_record(host, manifest_path, fallback, root)->0;
    let i = choose|i: int| 0 <= i < found.len() && found[i] == e;
    merge_laws::law_no_find_lost(found, i);
    let j = choose|j: int|
        0 <= j < p.endpoints.len() && merge::key_of(#[trigger] p.endpoints[j]) == merge::key_of(
            found[i],
        ) && merge_laws::keeps(p.endpoints[j], found[i]);
    assert(merge::key_of(p.endpoints[j]) == merge::key_of(e));
}

/// Every operation in every OpenAPI document of the project has its endpoint in
/// the record: in those below the project, and in those that a build writes to
/// another directory.
pub proof fn law_documents_indexed(
    host: HostView,
    manifest_path: Seq<char>,
    manifest: Seq<char>,
    fallback: Option<Seq<char>>,
    root: Seq<char>,
    dir: Seq<char>,
    f: Seq<char>,
    content: Seq<char>,
    e: EndpointView,
)
    requires
        host::read(host, manifest_path) == Some(manifest),
        manifest::may_expose_api(manifest),
        host::list(host, paths::parent(manifest_path)).len() > 0,
        dir == paths::parent(manifest_path) || project::openapi_dir(
            manifest,
            paths::parent(manifest_path),
        ) == Some(dir),
        host::list(host, dir).contains(f),
        paths::oas_path(f),
        host::read(host, paths::path_below(dir, f)) == Some(content),
        oas::oas_endpoints(
            id_for(manifest, fallback, manifest_path),
            paths::source_path(root, f),
            content,
        ).contains(e),
    ensures
        project::project_record(host, manifest_path, fallback, root) matches Some(p) && has_find(
            p,
            e,
        ),
{
    let home = paths::parent(manifest_path);
    let id = id_for(manifest, fallback, manifest_path);
    let below = project::gathered(
        host,
        false,
        id,
        root,
        home,
        project::oas_files(host::list(host, home)),
    );
    let all = project::documented_endpoints(host, manifest, id, root, home);
    lemma_document_picked(host::list(host, dir), f);
    lemma_gathered_has(
        host,
        false,
        id,
        root,
        dir,
        project::oas_files(host::list(host, dir)),
        f,
        e,
    );
    assert(all.contains(e)) by {
        let part = project::gathered(
            host,
            false,
            id,
            root,
            dir,
            project::oas_files(host::list(host, dir)),
        );
        let i = choose|i: int| 0 <= i < part.len() && part[i] == e;
        if dir == home {
            assert(all[i] == e);
        } else {
            assert(all[below.len() + i] == e);
        }
    }
    lemma_found(host, manifest_path, fallback, root, all, e);
}

/// Where the endpoints of a record come from: file `f` of directory `dir`, which
/// is read as a source where `code` is true, and as a document otherwise.
pub open spec fn is_from(
    host: HostView,
    manifest: Seq<char>,
    manifest_path: Seq<char>,
    id: Seq<char>,
    root: Seq<char>,
    code: bool,
    dir: Seq<char>,
    f: Seq<char>,
    e: EndpointView,
) -> bool {
    let home = paths::parent(manifest_path);
    let path = paths::source_path(root, f);
    &&& dir == home || (!code && project::openapi_dir(manifest, home) == Some(dir))
    &&& host::list(host, dir).contains(f)
    &&& host::read(host, paths::path_below(dir, f)) matches Some(content) && {
        ||| code && is_source(f) && minimal::minimal_endpoints(id, path, content).contains(e)
        ||| code && is_source(f) && controllers::controller_endpoints(id, path, content).contains(e)
        ||| !code && paths::oas_path(f) && oas::oas_endpoints(id, path, content).contains(e)
    }
}

/// Nothing else is in a record: each endpoint has the merge key of a find in a
/// source or in an OpenAPI document of the project.
pub proof fn law_only_finds_indexed(
    host: HostView,
    manifest_path: Seq<char>,
    fallback: Option<Seq<char>>,
    root: Seq<char>,
    j: int,
)
    requires
        project::project_record(host, manifest_path, fallback, root) matches Some(p) && 0 <= j
            < p.endpoints.len(),
    ensures
        ({
            let p = project::project_record(host, manifest_path, fallback, root)->0;
            let manifest = host::read(host, manifest_path)->0;
            exists|code: bool, dir: Seq<char>, f: Seq<char>, e: EndpointView|
                #[trigger] is_from(
                    host,
                    manifest,
                    manifest_path,
                    p.id,
                    root,
                    code,
                    dir,
                    f,
                    e,
                ) && merge::key_of(e) == merge::key_of(p.endpoints[j])
        }),
{
    let p = project::project_record(host, manifest_path, fallback, root)->0;
    let manifest = host::read(host, manifest_path)->0;
    let id = id_for(manifest, fallback, manifest_path);
    let home = paths::parent(manifest_path);
    let files = host::list(host, home);
    let documented = project::documented_endpoints(host, manifest, id, root, home);
    let coded = project::gathered(host, true, id, root, home, project::code_files(files));
    let found = if documented.len() > 0 {
        documented
    } else {
        coded
    };
    merge_laws::law_no_endpoint_made_up(found, j);
    let i = choose|i: int|
        0 <= i < found.len() && merge::key_of(#[trigger] found[i]) == merge::key_of(
            p.endpoints[j],
        );
    let e = found[i];
    assert(p.id == id);
    assert(merge::key_of(e) == merge::key_of(p.endpoints[j]));
    if documented.len() > 0 {
        let below = project::gathered(
            host,
            false,
            id,
            root,
            home,
            project::oas_files(files),
        );
        if i < below.len() {
            let f = lemma_gathered_from(
                host,
                false,
                id,
                root,
                home,
                project::oas_files(files),
                i,
            );
            lemma_oas_file(files, f);
            assert(is_from(host, manifest, manifest_path, p.id, root, false, home, f, e));
        } else {
            let out = project::openapi_dir(manifest, home)->0;
            let f = lemma_gathered_from(
                host,
                false,
                id,
                root,
                out,
                project::oas_files(host::list(host, out)),
                i - below.len(),
            );
            lemma_oas_file(host::list(host, out), f);
            assert(is_from(host, manifest, manifest_path, p.id, root, false, out, f, e));
        }
    } else {
        let f = lemma_gathered_from(host, true, id, root, home, project::code_files(files), i);
        lemma_code_file(files, f);
        let content = host::read(host, paths::path_below(home, f))->0;
        let path = paths::source_path(root, f);
        let a = minimal::minimal_endpoints(id, path, content);
        let b = controllers::controller_endpoints(id, path, content);
        let k = choose|k: int| 0 <= k < (a + b).len() && (a + b)[k] == e;
        if k < a.len() {
            assert(a[k] == e);
        } else {
            assert(b[k - a.len()] == e);
        }
        assert(is_from(host, manifest, manifest_path, p.id, root, true, home, f, e));
    }
}

/// What is gathered comes from a file.
proof fn lemma_gathered_from(
    host: HostView,
    code: bool,
    project_id: Seq<char>,
    root: Seq<char>,
    dir: Seq<char>,
    rels: Seq<Seq<char>>,
    i: int,
) -> (f: Seq<char>)
    requires
        0 <= i < project::gathered(host, code, project_id, root, dir, rels).len(),
    ensures
        rels.contains(f),
        host::read(host, paths::path_below(dir, f)) is Some,
        project::file_endpoints(
            code,
            project_id,
            root,
            f,
            host::read(host, paths::path_below(dir, f)),
        ).contains(project::gathered(host, code, project_id, root, dir, rels)[i]),
    decreases rels.len(),
{
    let own = project::file_endpoints(
        code,
        project_id,
        root,
        rels[0],
        host::read(host, paths::path_below(dir, rels[0])),
    );
    if i < own.len() {
        assert(own[i] == project::gathered(host, code, project_id, root, dir, rels)[i]);
        rels[0]
    } else {
        let rest = rels.skip(1);
        let f = lemma_gathered_from(
            host,
            code,
            project_id,
            root,
            dir,
            rest,
            i - own.len(),
        );
        let k = choose|k: int| 0 <= k < rest.len() && rest[k] == f;
        assert(rels[k + 1] == f);
        f
    }
}

/// What is picked was listed, and is a source.
proof fn lemma_code_file(files: Seq<Seq<char>>, f: Seq<char>)
    requires
        project::code_files(files).contains(f),
    ensures
        files.contains(f),
        is_source(f),
    decreases files.len(),
{
    if files.len() > 0 {
        let rest = files.drop_last();
        let picked = project::code_files(files);
        let i = choose|i: int| 0 <= i < picked.len() && picked[i] == f;
        let front = project::code_files(rest);
        if i < front.len() {
            assert(front[i] == f);
            lemma_code_file(rest, f);
            let k = choose|k: int| 0 <= k < rest.len() && rest[k] == f;
            assert(files[k] == f);
        } else {
            assert(files[files.len() - 1] == f);
        }
    }
}

/// What is picked was listed, and may be an OpenAPI document.
proof fn lemma_oas_file(files: Seq<Seq<char>>, f: Seq<char>)
    requires
        project::oas_files(files).contains(f),
    ensures
        files.contains(f),
        paths::oas_path(f),
    decreases files.len(),
{
    if files.len() > 0 {
        let rest = files.drop_last();
        let picked = project::oas_files(files);
        let i = choose|i: int| 0 <= i < picked.len() && picked[i] == f;
        let front = project::oas_files(rest);
        if i < front.len() {
            assert(front[i] == f);
            lemma_oas_file(rest, f);
            let k = choose|k: int| 0 <= k < rest.len() && rest[k] == f;
            assert(files[k] == f);
        } else {
            assert(files[files.len() - 1] == f);
        }
    }
}

/// A record names its project, and has the paths that it was asked for and the
/// capability of exposing an API.
pub proof fn law_record_fields(
    host: HostView,
    manifest_path: Seq<char>,
    fallback: Option<Seq<char>>,
    root: Seq<char>,
)
    requires
        project::project_record(host, manifest_path, fallback, root) is Some,
    ensures
        ({
            let p = project::project_record(host, manifest_path, fallback, root)->0;
            let manifest = host::read(host, manifest_path)->0;
            &&& p.name == project::project_name(manifest, fallback, manifest_path)
            &&& p.id == manifest::id_of(p.name)
            &&& p.root_path == root
            &&& p.manifest_path == manifest_path
            &&& p.capabilities == seq!["exposes-api"@]
        }),
{
}

/// The endpoints of a record are what is left of merging those of its OpenAPI
/// documents, or else those of its sources, file by file.
pub proof fn law_record_made_of(
    host: HostView,
    manifest_path: Seq<char>,
    fallback: Option<Seq<char>>,
    root: Seq<char>,
)
    requires
        project::project_record(host, manifest_path, fallback, root) is Some,
    ensures
        ({
            let p = project::project_record(host, manifest_path, fallback, root)->0;
            let manifest = host::read(host, manifest_path)->0;
            let dir = paths::parent(manifest_path);
            let files = host::list(host, dir);
            let documented = project::documented_endpoints(host, manifest, p.id, root, dir);
            let coded = project::gathered(
                host,
                true,
                p.id,
                root,
                dir,
                project::code_files(files),
            );
            &&& documented.len() > 0 ==> p.endpoints == merge::listing(
                merge::merged_all(Map::empty(), documented),
            )
            &&& documented.len() == 0 ==> p.endpoints == merge::listing(
                merge::merged_all(Map::empty(), coded),
            )
        }),
{
}

/// The documents below a project come first, and then those that a build writes
/// to another directory.
pub proof fn law_documented(
    host: HostView,
    manifest: Seq<char>,
    id: Seq<char>,
    root: Seq<char>,
    dir: Seq<char>,
)
    ensures
        ({
            let all = project::documented_endpoints(host, manifest, id, root, dir);
            let below = project::gathered(
                host,
                false,
                id,
                root,
                dir,
                project::oas_files(host::list(host, dir)),
            );
            match project::openapi_dir(manifest, dir) {
                Some(out) => all == below + project::gathered(
                    host,
                    false,
                    id,
                    root,
                    out,
                    project::oas_files(host::list(host, out)),
                ),
                None => all == below,
            }
        }),
{
}

/// There is no record without a readable manifest that speaks of an API, nor
/// without files.
pub proof fn law_no_record(
    host: HostView,
    manifest_path: Seq<char>,
    fallback: Option<Seq<char>>,
    root: Seq<char>,
)
    requires
        host::read(host, manifest_path) is None || !manifest::may_expose_api(
            host::read(host, manifest_path)->0,
        ) || host::list(host, paths::parent(manifest_path)).len() == 0,
    ensures
        project::project_record(host, manifest_path, fallback, root) is None,
{
}

/// The name of a project is that of its assembly, else its root namespace, else
/// the one that was given, else that of its file.
pub proof fn law_project_name(
    manifest: Seq<char>,
    fallback: Option<Seq<char>>,
    manifest_path: Seq<char>,
)
    ensures
        ({
            let name = project::project_name(manifest, fallback, manifest_path);
            let assembly = manifest::xml_text(manifest, "AssemblyName"@);
            let namespace = manifest::xml_text(manifest, "RootNamespace"@);
            &&& assembly matches Some(n) ==> name == n
            &&& assembly is None && namespace is Some ==> name == namespace->0
            &&& assembly is None && namespace is None && fallback is Some ==> name == fallback->0
            &&& assembly is None && namespace is None && fallback is None ==> name == paths::stem(
                manifest_path,
            )
        }),
{
}

/// The directory that a build writes documents to is the one that the manifest
/// gives, worked out from that of the project, if it is another one.
pub proof fn law_openapi_dir(manifest: Seq<char>, dir: Seq<char>)
    ensures
        match manifest::xml_text(manifest, "OpenApiDocumentsDirectory"@) {
            Some(value) => {
                let out = paths::normal_path(paths::path_below(dir, text::trimmed(value)));
                if out.len() == 0 || out == paths::normal_path(dir) {
                    project::openapi_dir(manifest, dir) is None
                } else {
                    project::openapi_dir(manifest, dir) == Some(out)
                }
            },
            None => project::openapi_dir(manifest, dir) is None,
        },
{
}

/// Where no OpenAPI document gave an endpoint, every source among the files is
/// waiting to be read.
pub proof fn law_sources_queued(s: ScanView, f: Seq<char>)
    requires
        !s.found_oas,
        s.files.contains(f),
        is_source(f),
    ensures
        ({
            let t = project::past_documents(s);
            t.stage is Code && t.queue_dir == s.dir && t.next == 0 && t.queue.contains(f)
        }),
{
    lemma_source_picked(s.files, f);
}

/// Every file that is waiting is asked for when it is its turn, and each reply
/// brings the next turn.
pub proof fn law_queue_asked(s: ScanView, reply: ReplyView)
    requires
        s.stage is Oas || s.stage is OutputOas || s.stage is Code,
        s.next < s.queue.len(),
    ensures
        project::scan_request(s) == Some(
            RequestView::ReadFile(paths::path_below(s.queue_dir, s.queue[s.next as int])),
        ),
        s.next + 1 < s.queue.len() ==> {
            let t = project::next_scan(s, reply);
            t.stage == s.stage && t.queue == s.queue && t.queue_dir == s.queue_dir && t.next
                == s.next + 1
        },
{
}

} // verus!
