//! Laws of the index.

use crate::host;
use crate::host::HostView;
use crate::index;
use crate::index::EntryView;
use crate::manifest;
use crate::model::ProjectView;
use crate::paths;
use crate::project;
use crate::text;
use vstd::prelude::*;

verus! {

/// In a workspace the first solution among its files is indexed; without one the
/// first project; without either nothing.
pub proof fn law_discovered(root: Seq<char>, files: Seq<Seq<char>>, i: int)
    requires
        0 <= i <= files.len(),
    ensures
        (forall|j: int|
            0 <= j < i ==> !paths::solution_path(paths::normal_relative(#[trigger] files[j])))
            && i < files.len() && paths::solution_path(paths::normal_relative(files[i]))
            ==> index::discovered(root, files) == Some(
            paths::path_below(root, paths::normal_relative(files[i])),
        ),
        (forall|j: int|
            0 <= j < files.len() ==> !paths::solution_path(
                paths::normal_relative(#[trigger] files[j]),
            )) && (forall|j: int|
            0 <= j < i ==> !paths::project_path(paths::normal_relative(#[trigger] files[j]))) && i
            < files.len() && paths::project_path(paths::normal_relative(files[i]))
            ==> index::discovered(root, files) == Some(
            paths::path_below(root, paths::normal_relative(files[i])),
        ),
        (forall|j: int|
            0 <= j < files.len() ==> !paths::solution_path(
                paths::normal_relative(#[trigger] files[j]),
            ) && !paths::project_path(paths::normal_relative(files[j]))) ==> index::discovered(
            root,
            files,
        ) is None,
{
    lemma_first_solution(files, i);
    lemma_first_solution(files, files.len() as int);
    lemma_first_project(files, i);
    lemma_first_project(files, files.len() as int);
}

proof fn lemma_first_solution(files: Seq<Seq<char>>, i: int)
    requires
        0 <= i <= files.len(),
    ensures
        (forall|j: int|
            0 <= j < i ==> !paths::solution_path(paths::normal_relative(#[trigger] files[j]))) && (i
            == files.len() || paths::solution_path(paths::normal_relative(files[i])))
            ==> index::first_solution(files) == (if i < files.len() {
            Some(paths::normal_relative(files[i]))
        } else {
            None
        }),
    decreases files.len(),
{
    if files.len() > 0 && i > 0 {
        let rest = files.skip(1);
        lemma_first_solution(rest, i - 1);
        if forall|j: int|
            0 <= j < i ==> !paths::solution_path(paths::normal_relative(#[trigger] files[j])) {
            assert(!paths::solution_path(paths::normal_relative(files[0])));
            assert forall|j: int| 0 <= j < i - 1 implies !paths::solution_path(
                paths::normal_relative(#[trigger] rest[j]),
            ) by {
                assert(rest[j] == files[j + 1]);
            }
        }
    }
}

proof fn lemma_first_project(files: Seq<Seq<char>>, i: int)
    requires
        0 <= i <= files.len(),
    ensures
        (forall|j: int|
            0 <= j < i ==> !paths::project_path(paths::normal_relative(#[trigger] files[j]))) && (i
            == files.len() || paths::project_path(paths::normal_relative(files[i])))
            ==> index::first_project(files) == (if i < files.len() {
            Some(paths::normal_relative(files[i]))
        } else {
            None
        }),
    decreases files.len(),
{
    if files.len() > 0 && i > 0 {
        let rest = files.skip(1);
        lemma_first_project(rest, i - 1);
        if forall|j: int|
            0 <= j < i ==> !paths::project_path(paths::normal_relative(#[trigger] files[j])) {
            assert(!paths::project_path(paths::normal_relative(files[0])));
            assert forall|j: int| 0 <= j < i - 1 implies !paths::project_path(
                paths::normal_relative(#[trigger] rest[j]),
            ) by {
                assert(rest[j] == files[j + 1]);
            }
        }
    }
}

/// Every project of a solution whose path names a project file is to be indexed,
/// in order: below the directory of the solution, under its name, and with its
/// directory as its root.
pub proof fn law_solution_entries(
    solution_path: Seq<char>,
    a: Seq<(Seq<char>, Seq<char>)>,
    name: Seq<char>,
    path: Seq<char>,
    b: Seq<(Seq<char>, Seq<char>)>,
)
    ensures
        index::solution_entries(solution_path, Seq::empty()).len() == 0,
        ({
            let rel = paths::normal_relative(path);
            let dir = paths::relative_parent(rel);
            let own = EntryView {
                name,
                manifest_path: paths::path_below(paths::parent(solution_path), rel),
                root_path: paths::normal_relative(
                    if dir is Some {
                        dir->0
                    } else {
                        Seq::empty()
                    },
                ),
            };
            index::solution_entries(solution_path, a + seq![(name, path)] + b)
                == index::solution_entries(solution_path, a) + (if paths::project_path(rel) {
                seq![own]
            } else {
                Seq::empty()
            }) + index::solution_entries(solution_path, b)
        }),
    decreases b.len(),
{
    let all = a + seq![(name, path)] + b;
    let rel = paths::normal_relative(path);
    let own = if paths::project_path(rel) {
        seq![index::solution_entry(solution_path, name, path)]
    } else {
        Seq::empty()
    };
    if b.len() == 0 {
        assert(all.drop_last() =~= a);
        assert(index::solution_entries(solution_path, all) =~= index::solution_entries(
            solution_path,
            a,
        ) + own + index::solution_entries(solution_path, b));
    } else {
        law_solution_entries(solution_path, a, name, path, b.drop_last());
        assert(all.drop_last() =~= a + seq![(name, path)] + b.drop_last());
        assert(index::solution_entries(solution_path, all) =~= index::solution_entries(
            solution_path,
            a,
        ) + own + index::solution_entries(solution_path, b));
    }
}

/// Each entry gives the record of its project, in order, if it has one.
pub proof fn law_records(
    host: HostView,
    a: Seq<EntryView>,
    e: EntryView,
    b: Seq<EntryView>,
)
    ensures
        index::records(host, Seq::empty()).len() == 0,
        index::records(host, a + seq![e] + b) == index::records(host, a) + (
        match project::project_record(host, e.manifest_path, Some(e.name), e.root_path) {
            Some(p) => seq![p],
            None => Seq::<ProjectView>::empty(),
        }) + index::records(host, b),
    decreases a.len(),
{
    let all = a + seq![e] + b;
    let own = match project::project_record(host, e.manifest_path, Some(e.name), e.root_path) {
        Some(p) => seq![p],
        None => Seq::<ProjectView>::empty(),
    };
    if a.len() == 0 {
        assert(all.skip(1) =~= b);
        assert(all[0] == e);
        assert(index::records(host, all) =~= index::records(host, a) + own + index::records(
            host,
            b,
        ));
    } else {
        law_records(host, a.skip(1), e, b);
        assert(all.skip(1) =~= a.skip(1) + seq![e] + b);
        assert(all[0] == a[0]);
        assert(index::records(host, all) =~= index::records(host, a) + own + index::records(
            host,
            b,
        ));
    }
}

/// The index of a solution has the records of its projects; there is one as soon
/// as one project has a record, and it is named after the solution and lies where
/// the solution lies.
pub proof fn law_solution_index(host: HostView, path: Seq<char>)
    ensures
        ({
            let entries = index::solution_entries(
                path,
                manifest::solution_projects(host::read(host, path)->0),
            );
            let projects = index::records(host, entries);
            let there = host::read(host, path) is Some && projects.len() > 0;
            &&& there <==> index::solution_index(host, path) is Some
            &&& there ==> {
                let doc = index::solution_index(host, path)->0;
                &&& doc.projects == projects
                &&& doc.root == paths::parent(path)
                &&& doc.display_name == paths::stem(path)
                &&& doc.schema_version == 1
                &&& doc.ecosystem == "dotnet"@
            }
        }),
{
}

/// The index of a project has its record alone, at the root, and is named after
/// its file.
pub proof fn law_project_index(host: HostView, path: Seq<char>)
    ensures
        match project::project_record(host, path, Some(paths::stem(path)), Seq::empty()) {
            Some(p) => index::project_index(host, path) matches Some(doc) && {
                &&& doc.projects == seq![p]
                &&& doc.root == paths::parent(path)
                &&& doc.display_name == paths::stem(path)
                &&& doc.schema_version == 1
                &&& doc.ecosystem == "dotnet"@
            },
            None => index::project_index(host, path) is None,
        },
{
    let e = index::own_entry(path);
    let none = Seq::<EntryView>::empty();
    law_records(host, none, e, none);
    assert(none + seq![e] + none =~= seq![e]);
    let own = match project::project_record(host, path, Some(paths::stem(path)), Seq::empty()) {
        Some(p) => seq![p],
        None => Seq::<ProjectView>::empty(),
    };
    assert(index::records(host, seq![e]) =~= own);
}

/// A root that names a solution is indexed as one, one that names a project as a
/// project, and any other as a directory.
pub proof fn law_workspace_index(host: HostView, root: Seq<char>)
    ensures
        text::ends(root, ".sln"@) ==> index::workspace_index(host, root) == index::solution_index(
            host,
            root,
        ),
        !text::ends(root, ".sln"@) && paths::project_path(root) ==> index::workspace_index(
            host,
            root,
        ) == index::project_index(host, root),
        !text::ends(root, ".sln"@) && !paths::project_path(root) ==> match index::discovered(
            root,
            host::list(host, root),
        ) {
            Some(path) => index::workspace_index(host, root) == (if text::ends(path, ".sln"@) {
                index::solution_index(host, path)
            } else {
                index::project_index(host, path)
            }),
            None => index::workspace_index(host, root) is None,
        },
{
}

} // verus!
