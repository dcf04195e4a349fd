//! The index of a workspace, made from what the host replies step by step.

use crate::host;
use crate::host::{HostView, Reply, ReplyView, Request, RequestView};
use crate::manifest;
use crate::model;
use crate::model::{ApiIndexDoc, DocView, ProjectRecord, ProjectView};
use crate::paths;
use crate::project;
use crate::project::{ProjectScan, ScanView};
use crate::strings;
use crate::text;
use vstd::prelude::*;

verus! {

/// A project to be indexed.
pub struct ProjectEntry {
    pub name: String,
    pub manifest_path: String,
    pub root_path: String,
}

/// What a `ProjectEntry` holds.
pub struct EntryView {
    pub name: Seq<char>,
    pub manifest_path: Seq<char>,
    pub root_path: Seq<char>,
}

impl View for ProjectEntry {
    type V = EntryView;

    open spec fn view(&self) -> EntryView {
        EntryView {
            name: self.name@,
            manifest_path: self.manifest_path@,
            root_path: self.root_path@,
        }
    }
}

/// The entries that `v` holds.
pub open spec fn entry_views(v: Seq<ProjectEntry>) -> Seq<EntryView> {
    v.map_values(|e: ProjectEntry| e@)
}

/// The first of `files`, made relative and clean, that names a solution file.
pub open spec fn first_solution(files: Seq<Seq<char>>) -> Option<Seq<char>>
    decreases files.len(),
{
    if files.len() == 0 {
        None
    } else if paths::solution_path(paths::normal_relative(files[0])) {
        Some(paths::normal_relative(files[0]))
    } else {
        first_solution(files.skip(1))
    }
}

/// The first of `files`, made relative and clean, that names a project file.
pub open spec fn first_project(files: Seq<Seq<char>>) -> Option<Seq<char>>
    decreases files.len(),
{
    if files.len() == 0 {
        None
    } else if paths::project_path(paths::normal_relative(files[0])) {
        Some(paths::normal_relative(files[0]))
    } else {
        first_project(files.skip(1))
    }
}

/// The manifest to index in a workspace with these files: the first solution,
/// or the first project where there is no solution.
pub open spec fn discovered(root: Seq<char>, files: Seq<Seq<char>>) -> Option<Seq<char>> {
    match first_solution(files) {
        Some(rel) => Some(paths::path_below(root, rel)),
        None => match first_project(files) {
            Some(rel) => Some(paths::path_below(root, rel)),
            None => None,
        },
    }
}

/// The entry of the project with the name `name` and the path `path` in the
/// solution at `solution_path`.
pub open spec fn solution_entry(
    solution_path: Seq<char>,
    name: Seq<char>,
    path: Seq<char>,
) -> EntryView {
    let rel = paths::normal_relative(path);
    EntryView {
        name,
        manifest_path: paths::path_below(paths::parent(solution_path), rel),
        root_path: paths::normal_relative(text::or_empty(paths::relative_parent(rel))),
    }
}

/// The entries of those of `projects` whose path names a project file.
pub open spec fn solution_entries(
    solution_path: Seq<char>,
    projects: Seq<(Seq<char>, Seq<char>)>,
) -> Seq<EntryView>
    decreases projects.len(),
{
    if projects.len() == 0 {
        Seq::empty()
    } else {
        let front = solution_entries(solution_path, projects.drop_last());
        let (name, path) = projects.last();
        if paths::project_path(paths::normal_relative(path)) {
            front.push(solution_entry(solution_path, name, path))
        } else {
            front
        }
    }
}

/// The only entry in the index of the project at `path`.
pub open spec fn own_entry(path: Seq<char>) -> EntryView {
    EntryView { name: paths::stem(path), manifest_path: path, root_path: Seq::empty() }
}

/// The index with the projects `projects`; none without any.
pub open spec fn doc_of(
    root: Seq<char>,
    display_name: Seq<char>,
    projects: Seq<ProjectView>,
) -> Option<DocView> {
    if projects.len() == 0 {
        None
    } else {
        Some(
            DocView {
                schema_version: 1,
                ecosystem: "dotnet"@,
                root,
                display_name,
                projects,
            },
        )
    }
}

/// The records of those of `entries` that have one, in order.
pub open spec fn records(host: HostView, entries: Seq<EntryView>) -> Seq<ProjectView>
    decreases entries.len(),
{
    if entries.len() == 0 {
        Seq::empty()
    } else {
        let e = entries[0];
        let rest = records(host, entries.skip(1));
        match project::project_record(host, e.manifest_path, Some(e.name), e.root_path) {
            Some(p) => seq![p] + rest,
            None => rest,
        }
    }
}

/// The index of the solution at `path`.
pub open spec fn solution_index(host: HostView, path: Seq<char>) -> Option<DocView> {
    match host::read(host, path) {
        Some(solution) => doc_of(
            paths::parent(path),
            paths::stem(path),
            records(host, solution_entries(path, manifest::solution_projects(solution))),
        ),
        None => None,
    }
}

/// The index of the project at `path`.
pub open spec fn project_index(host: HostView, path: Seq<char>) -> Option<DocView> {
    doc_of(paths::parent(path), paths::stem(path), records(host, seq![own_entry(path)]))
}

/// The index of the solution or the project at `path`.
pub open spec fn manifest_index(host: HostView, path: Seq<char>) -> Option<DocView> {
    if paths::solution_path(path) {
        solution_index(host, path)
    } else {
        project_index(host, path)
    }
}

/// The index of `root`: a solution, a project, or else the directory of a
/// workspace.
pub open spec fn workspace_index(host: HostView, root: Seq<char>) -> Option<DocView> {
    if paths::solution_path(root) || paths::project_path(root) {
        manifest_index(host, root)
    } else {
        match discovered(root, host::list(host, root)) {
            Some(path) => manifest_index(host, path),
            None => None,
        }
    }
}

/// The making of an index.
pub struct IndexRun {
    state: RunState,
}

/// The making of an index, by what it waits for.
enum RunState {
    /// The files of the workspace at `root`.
    Discover { root: String },
    /// The solution at `path`.
    Solution { path: String },
    /// What the scan of the project `entries[pos]` waits for; `projects` are the
    /// records so far.
    Projects {
        root: String,
        display_name: String,
        entries: Vec<ProjectEntry>,
        pos: usize,
        scan: ProjectScan,
        projects: Vec<ProjectRecord>,
    },
    /// Nothing more: this is the index.
    Done { doc: Option<ApiIndexDoc> },
}

/// What an `IndexRun` knows.
#[verifier::ext_equal]
pub enum RunView {
    Discover { root: Seq<char> },
    Solution { path: Seq<char> },
    Projects {
        root: Seq<char>,
        display_name: Seq<char>,
        entries: Seq<EntryView>,
        pos: nat,
        scan: ScanView,
        projects: Seq<ProjectView>,
    },
    Done { doc: Option<DocView> },
}

/// What `d` holds, if any.
pub open spec fn opt_doc(d: Option<ApiIndexDoc>) -> Option<DocView> {
    match d {
        Some(x) => Some(x@),
        None => None,
    }
}

impl View for IndexRun {
    type V = RunView;

    closed spec fn view(&self) -> RunView {
        match self.state {
            RunState::Discover { root } => RunView::Discover { root: root@ },
            RunState::Solution { path } => RunView::Solution { path: path@ },
            RunState::Projects { root, display_name, entries, pos, scan, projects } =>
                RunView::Projects {
                root: root@,
                display_name: display_name@,
                entries: entry_views(entries@),
                pos: pos as nat,
                scan: scan@,
                projects: model::project_views(projects@),
            },
            RunState::Done { doc } => RunView::Done { doc: opt_doc(doc) },
        }
    }
}

/// The scan of `e` that has just begun.
pub open spec fn entry_scan(e: EntryView) -> ScanView {
    project::started_scan(e.manifest_path, Some(e.name), e.root_path)
}

/// The run before entry `pos` of `entries`, with the records `projects` of the
/// ones before.
pub open spec fn run_at(
    root: Seq<char>,
    display_name: Seq<char>,
    entries: Seq<EntryView>,
    pos: nat,
    projects: Seq<ProjectView>,
) -> RunView {
    if pos < entries.len() {
        RunView::Projects {
            root,
            display_name,
            entries,
            pos,
            scan: entry_scan(entries[pos as int]),
            projects,
        }
    } else {
        RunView::Done { doc: doc_of(root, display_name, projects) }
    }
}

/// The run for the project at `path` that has just begun.
pub open spec fn started_project(path: Seq<char>) -> RunView {
    run_at(paths::parent(path), paths::stem(path), seq![own_entry(path)], 0, Seq::empty())
}

/// The run for the solution or the project at `path` that has just begun.
pub open spec fn started_at(path: Seq<char>) -> RunView {
    if paths::solution_path(path) {
        RunView::Solution { path }
    } else {
        started_project(path)
    }
}

/// The run for `root` that has just begun.
pub open spec fn started_run(root: Seq<char>) -> RunView {
    if paths::solution_path(root) || paths::project_path(root) {
        started_at(root)
    } else {
        RunView::Discover { root }
    }
}

/// `projects` with the record that ended a scan, if any.
pub open spec fn with_record(projects: Seq<ProjectView>, record: Option<ProjectView>) -> Seq<
    ProjectView,
> {
    match record {
        Some(p) => projects.push(p),
        None => projects,
    }
}

/// `r` after `reply`.
pub open spec fn next_run(r: RunView, reply: ReplyView) -> RunView {
    match r {
        RunView::Discover { root } => match discovered(root, host::reply_files(reply)) {
            Some(path) => started_at(path),
            None => RunView::Done { doc: None },
        },
        RunView::Solution { path } => match host::reply_text(reply) {
            Some(solution) => run_at(
                paths::parent(path),
                paths::stem(path),
                solution_entries(path, manifest::solution_projects(solution)),
                0,
                Seq::empty(),
            ),
            None => RunView::Done { doc: None },
        },
        RunView::Projects { root, display_name, entries, pos, scan, projects } => {
            let s = project::next_scan(scan, reply);
            if s.stage is Done {
                run_at(
                    root,
                    display_name,
                    entries,
                    (pos + 1) as nat,
                    with_record(projects, s.outcome),
                )
            } else {
                RunView::Projects { root, display_name, entries, pos, scan: s, projects }
            }
        },
        RunView::Done { doc } => r,
    }
}

/// What `r` asks of the host.
pub open spec fn run_request(r: RunView) -> Option<RequestView> {
    match r {
        RunView::Discover { root } => Some(RequestView::ListFiles(root)),
        RunView::Solution { path } => Some(RequestView::ReadFile(path)),
        RunView::Projects { root, display_name, entries, pos, scan, projects } =>
            project::scan_request(scan),
        RunView::Done { doc } => None,
    }
}

/// The best manifest under a workspace root: the first solution among its
/// `files`, or else the first project.
pub fn discover_manifest(root: &str, files: &Vec<String>) -> (r: Option<String>)
    ensures
        text::opt_text(r) == discovered(root@, text::texts(files@)),
{
    let ghost fs = text::texts(files@);
    let mut project: Option<String> = None;
    let mut i: usize = 0;
    assert(fs.skip(0) == fs);
    while i < files.len()
        invariant
            fs == text::texts(files@),
            i <= files@.len(),
            first_solution(fs.skip(i as int)) == first_solution(fs),
            match project {
                Some(p) => first_project(fs) == Some(p@),
                None => first_project(fs.skip(i as int)) == first_project(fs),
            },
        decreases files@.len() - i,
    {
        assert(fs.skip(i as int)[0] == files@[i as int]@);
        assert(fs.skip(i as int).skip(1) == fs.skip(i + 1));
        let rel = paths::normalize_rel_path(files[i].as_str());
        if paths::is_solution_path(rel.as_str()) {
            return Some(paths::join_path(root, rel.as_str()));
        }
        if project.is_none() && paths::is_project_path(rel.as_str()) {
            project = Some(rel);
        }
        i = i + 1;
    }
    match project {
        Some(rel) => Some(paths::join_path(root, rel.as_str())),
        None => None,
    }
}

/// The entries of those of `projects` whose path names a project file.
pub fn entries_of_solution(solution_path: &str, projects: &Vec<(String, String)>) -> (r: Vec<
    ProjectEntry,
>)
    ensures
        entry_views(r@) == solution_entries(solution_path@, manifest::pair_views(projects@)),
{
    let ghost ps = manifest::pair_views(projects@);
    let dir = paths::parent_dir(solution_path);
    let mut r: Vec<ProjectEntry> = Vec::new();
    let mut i: usize = 0;
    while i < projects.len()
        invariant
            ps == manifest::pair_views(projects@),
            dir@ == paths::parent(solution_path@),
            i <= projects@.len(),
            entry_views(r@) == solution_entries(solution_path@, ps.take(i as int)),
        decreases projects@.len() - i,
    {
        let ghost front = entry_views(r@);
        assert(ps.take(i + 1).drop_last() == ps.take(i as int));
        assert(ps.take(i + 1).last() == (projects@[i as int].0@, projects@[i as int].1@));
        let rel = paths::normalize_rel_path(projects[i].1.as_str());
        if paths::is_project_path(rel.as_str()) {
            let parent = match paths::parent_dir_rel(rel.as_str()) {
                Some(p) => p,
                None => String::new(),
            };
            let e = ProjectEntry {
                name: projects[i].0.clone(),
                manifest_path: paths::join_path(dir.as_str(), rel.as_str()),
                root_path: paths::normalize_rel_path(parent.as_str()),
            };
            let ghost v = e@;
            r.push(e);
            assert(entry_views(r@) == front.push(v));
        }
        i = i + 1;
    }
    assert(ps.take(i as int) == ps);
    r
}

/// The index with the projects `projects`; none without any.
fn finish_doc(root: String, display_name: String, projects: Vec<ProjectRecord>) -> (r: Option<
    ApiIndexDoc,
>)
    ensures
        opt_doc(r) == doc_of(root@, display_name@, model::project_views(projects@)),
{
    if projects.len() == 0 {
        None
    } else {
        Some(
            ApiIndexDoc {
                schema_version: 1,
                ecosystem: "dotnet".to_owned(),
                root,
                display_name,
                projects,
            },
        )
    }
}

/// The run before entry `pos` of `entries`.
fn continue_at(
    root: String,
    display_name: String,
    entries: Vec<ProjectEntry>,
    pos: usize,
    projects: Vec<ProjectRecord>,
) -> (r: IndexRun)
    ensures
        r.wf(),
        r@ == run_at(
            root@,
            display_name@,
            entry_views(entries@),
            pos as nat,
            model::project_views(projects@),
        ),
{
    if pos < entries.len() {
        let e = &entries[pos];
        assert(entry_views(entries@)[pos as int] == e@);
        let scan = project::build_project_record(
            e.manifest_path.as_str(),
            Some(e.name.clone()),
            e.root_path.as_str(),
        );
        IndexRun {
            state: RunState::Projects { root, display_name, entries, pos, scan, projects },
        }
    } else {
        IndexRun { state: RunState::Done { doc: finish_doc(root, display_name, projects) } }
    }
}

/// Begins to index the solution at `solution_path`.
pub fn build_solution_index(solution_path: &str) -> (r: IndexRun)
    ensures
        r.wf(),
        r@ == (RunView::Solution { path: solution_path@ }),
{
    IndexRun { state: RunState::Solution { path: solution_path.to_owned() } }
}

/// Begins to index the project at `project_path`.
pub fn build_project_index(project_path: &str) -> (r: IndexRun)
    ensures
        r.wf(),
        r@ == started_project(project_path@),
{
    let entry = ProjectEntry {
        name: paths::file_stem(project_path),
        manifest_path: project_path.to_owned(),
        root_path: String::new(),
    };
    let entries = vec![entry];
    assert(entry_views(entries@) == seq![own_entry(project_path@)]);
    let projects: Vec<ProjectRecord> = Vec::new();
    assert(model::project_views(projects@) == Seq::<ProjectView>::empty());
    continue_at(
        paths::parent_dir(project_path),
        paths::file_stem(project_path),
        entries,
        0,
        projects,
    )
}

/// Begins to index the solution or the project at `path`.
fn start_manifest(path: &str) -> (r: IndexRun)
    ensures
        r.wf(),
        r@ == started_at(path@),
{
    if paths::is_solution_path(path) {
        build_solution_index(path)
    } else {
        build_project_index(path)
    }
}

/// Begins to index `root`: a solution, a project, or else the directory of a
/// workspace.
pub fn api_index(root: &str) -> (r: IndexRun)
    ensures
        r.wf(),
        r@ == started_run(root@),
{
    if paths::is_solution_path(root) || paths::is_project_path(root) {
        start_manifest(root)
    } else {
        IndexRun { state: RunState::Discover { root: root.to_owned() } }
    }
}

impl IndexRun {
    /// What was found so far is well formed.
    pub closed spec fn wf(&self) -> bool {
        match self.state {
            RunState::Projects { root, display_name, entries, pos, scan, projects } => scan.wf()
                && pos < entries@.len(),
            _ => true,
        }
    }

    /// What is asked of the host next; nothing once the index is done.
    pub fn request(&self) -> (r: Option<Request>)
        ensures
            host::opt_request(r) == run_request(self@),
    {
        match &self.state {
            RunState::Discover { root } => Some(Request::ListFiles(root.clone())),
            RunState::Solution { path } => Some(Request::ReadFile(path.clone())),
            RunState::Projects { root: _, display_name: _, entries: _, pos: _, scan, projects: _ } =>
                scan.request(),
            RunState::Done { doc: _ } => None,
        }
    }

    /// The run after `reply`.
    pub fn resume(self, reply: Reply) -> (r: IndexRun)
        requires
            self.wf(),
        ensures
            r.wf(),
            r@ == next_run(self@, reply@),
    {
        match self.state {
            RunState::Discover { root } => {
                let files = host::files_of_reply(reply);
                match discover_manifest(root.as_str(), &files) {
                    Some(path) => start_manifest(path.as_str()),
                    None => IndexRun { state: RunState::Done { doc: None } },
                }
            },
            RunState::Solution { path } => match host::text_of_reply(reply) {
                Some(solution) => {
                    let found = manifest::parse_solution_projects(solution.as_str());
                    let entries = entries_of_solution(path.as_str(), &found);
                    let projects: Vec<ProjectRecord> = Vec::new();
                    assert(model::project_views(projects@) == Seq::<ProjectView>::empty());
                    continue_at(
                        paths::parent_dir(path.as_str()),
                        paths::file_stem(path.as_str()),
                        entries,
                        0,
                        projects,
                    )
                },
                None => IndexRun { state: RunState::Done { doc: None } },
            },
            RunState::Projects { root, display_name, entries, pos, scan, projects } => {
                let scan = scan.resume(reply);
                if scan.is_done() {
                    let mut projects = projects;
                    let ghost front = model::project_views(projects@);
                    match scan.into_record() {
                        Some(p) => {
                            let ghost v = p@;
                            projects.push(p);
                            assert(model::project_views(projects@) == front.push(v));
                        },
                        None => {},
                    }
                    assert(pos < entries.len());
                    continue_at(root, display_name, entries, pos + 1, projects)
                } else {
                    IndexRun {
                        state: RunState::Projects {
                            root,
                            display_name,
                            entries,
                            pos,
                            scan,
                            projects,
                        },
                    }
                }
            },
            RunState::Done { doc } => IndexRun { state: RunState::Done { doc } },
        }
    }

    /// The index, once it is done.
    pub fn into_doc(self) -> (r: Option<ApiIndexDoc>)
        ensures
            opt_doc(r) == (match self@ {
                RunView::Done { doc } => doc,
                _ => None,
            }),
    {
        match self.state {
            RunState::Done { doc } => doc,
            _ => None,
        }
    }
}

/// The number of phases that may still follow `r`.
pub open spec fn phases_left(r: RunView) -> nat {
    match r {
        RunView::Discover { root } => 3,
        RunView::Solution { path } => 2,
        RunView::Projects { root, display_name, entries, pos, scan, projects } => 1,
        RunView::Done { doc } => 0,
    }
}

/// The number of projects that `r` still has to scan, with the one at hand.
pub open spec fn projects_left(r: RunView) -> nat {
    match r {
        RunView::Projects { root, display_name, entries, pos, scan, projects } => if pos
            < entries.len() {
            (entries.len() - pos) as nat
        } else {
            0
        },
        _ => 0,
    }
}

/// The number of stages that may still follow in the scan at hand.
pub open spec fn scan_stages_left(r: RunView) -> nat {
    match r {
        RunView::Projects { root, display_name, entries, pos, scan, projects } =>
            project::stages_left(scan),
        _ => 0,
    }
}

/// The number of files that the scan at hand still has to read at its stage.
pub open spec fn scan_files_left(r: RunView) -> nat {
    match r {
        RunView::Projects { root, display_name, entries, pos, scan, projects } =>
            project::files_left(scan),
        _ => 0,
    }
}

/// `r` comes after `s` on the way to the end.
pub open spec fn closer(r: RunView, s: RunView) -> bool {
    ||| phases_left(r) < phases_left(s)
    ||| phases_left(r) == phases_left(s) && projects_left(r) < projects_left(s)
    ||| phases_left(r) == phases_left(s) && projects_left(r) == projects_left(s)
        && scan_stages_left(r) < scan_stages_left(s)
    ||| phases_left(r) == phases_left(s) && projects_left(r) == projects_left(s)
        && scan_stages_left(r) == scan_stages_left(s) && scan_files_left(r) < scan_files_left(s)
}

/// `r` may occur in a run: it waits for something in each phase.
pub open spec fn runs(r: RunView) -> bool {
    match r {
        RunView::Projects { root, display_name, entries, pos, scan, projects } => pos
            < entries.len() && !(scan.stage is Done),
        _ => true,
    }
}

/// Whatever the host replies, each reply brings a run closer to its end.
pub proof fn law_run_progress(r: RunView, reply: ReplyView)
    requires
        runs(r),
        !(r is Done),
    ensures
        runs(next_run(r, reply)),
        closer(next_run(r, reply), r),
{
    match r {
        RunView::Projects { root, display_name, entries, pos, scan, projects } => {
            project::law_scan_progress(scan, reply);
        },
        _ => {},
    }
}

/// The run that `r` ends as if `host` answers every request.
pub open spec fn run_index(host: HostView, r: RunView) -> RunView
    decreases phases_left(r), projects_left(r), scan_stages_left(r), scan_files_left(r),
{
    if r is Done || !runs(r) {
        r
    } else {
        let reply = host::answer(host, run_request(r)->0);
        proof {
            law_run_progress(r, reply);
        }
        run_index(host, next_run(r, reply))
    }
}

/// A run that is not done goes on with the answer to its request.
proof fn lemma_run_step(host: HostView, r: RunView)
    requires
        runs(r),
        !(r is Done),
    ensures
        run_index(host, r) == run_index(
            host,
            next_run(r, host::answer(host, run_request(r)->0)),
        ),
{
    law_run_progress(r, host::answer(host, run_request(r)->0));
}

/// A run goes through the scan at hand to the next project.
proof fn lemma_run_scan(
    host: HostView,
    root: Seq<char>,
    display_name: Seq<char>,
    entries: Seq<EntryView>,
    pos: nat,
    scan: ScanView,
    projects: Seq<ProjectView>,
)
    requires
        pos < entries.len(),
        !(scan.stage is Done),
    ensures
        run_index(
            host,
            RunView::Projects { root, display_name, entries, pos, scan, projects },
        ) == run_index(
            host,
            run_at(
                root,
                display_name,
                entries,
                (pos + 1) as nat,
                with_record(projects, project::run_scan(host, scan).outcome),
            ),
        ),
    decreases project::stages_left(scan), project::files_left(scan),
{
    let r = RunView::Projects { root, display_name, entries, pos, scan, projects };
    lemma_run_step(host, r);
    let reply = host::answer(host, project::scan_request(scan)->0);
    let s = project::next_scan(scan, reply);
    project::law_scan_progress(scan, reply);
    assert(project::run_scan(host, scan) == project::run_scan(host, s));
    if !(s.stage is Done) {
        lemma_run_scan(host, root, display_name, entries, pos, s, projects);
    }
}

/// A run goes through all its projects.
proof fn lemma_run_projects(
    host: HostView,
    root: Seq<char>,
    display_name: Seq<char>,
    entries: Seq<EntryView>,
    pos: nat,
    projects: Seq<ProjectView>,
)
    requires
        pos <= entries.len(),
    ensures
        run_index(host, run_at(root, display_name, entries, pos, projects)) == (RunView::Done {
            doc: doc_of(
                root,
                display_name,
                projects + records(host, entries.skip(pos as int)),
            ),
        }),
    decreases entries.len() - pos,
{
    let rest = entries.skip(pos as int);
    if pos < entries.len() {
        let e = entries[pos as int];
        lemma_run_scan(host, root, display_name, entries, pos, entry_scan(e), projects);
        project::law_scan_gives_record(host, e.manifest_path, Some(e.name), e.root_path);
        let record = project::project_record(host, e.manifest_path, Some(e.name), e.root_path);
        let more = with_record(projects, record);
        lemma_run_projects(host, root, display_name, entries, (pos + 1) as nat, more);
        assert(rest[0] == e);
        assert(rest.skip(1) == entries.skip((pos + 1) as int));
        assert(projects + records(host, rest) == more + records(host, rest.skip(1)));
    } else {
        assert(rest.len() == 0);
        assert(projects + records(host, rest) == projects);
    }
}

/// Where `host` answers every request, the run that `build_solution_index`
/// begins ends with the index of the solution.
pub proof fn law_solution_run_gives_index(host: HostView, path: Seq<char>)
    ensures
        run_index(host, RunView::Solution { path }) == (RunView::Done {
            doc: solution_index(host, path),
        }),
{
    lemma_run_step(host, RunView::Solution { path });
    match host::read(host, path) {
        Some(solution) => {
            lemma_run_entries(
                host,
                path,
                solution_entries(path, manifest::solution_projects(solution)),
            );
        },
        None => {},
    }
}

/// Where `host` answers every request, the run that `build_project_index` begins
/// ends with the index of the project.
pub proof fn law_project_run_gives_index(host: HostView, path: Seq<char>)
    ensures
        run_index(host, started_project(path)) == (RunView::Done {
            doc: project_index(host, path),
        }),
{
    lemma_run_entries(host, path, seq![own_entry(path)]);
}

/// A run through the entries of the manifest at `path` ends with their records.
proof fn lemma_run_entries(host: HostView, path: Seq<char>, entries: Seq<EntryView>)
    ensures
        run_index(
            host,
            run_at(paths::parent(path), paths::stem(path), entries, 0, Seq::empty()),
        ) == (RunView::Done {
            doc: doc_of(paths::parent(path), paths::stem(path), records(host, entries)),
        }),
{
    let none = Seq::<ProjectView>::empty();
    lemma_run_projects(host, paths::parent(path), paths::stem(path), entries, 0, none);
    assert(entries.skip(0) == entries);
    assert(none + records(host, entries) == records(host, entries));
}

/// Where `host` answers every request, the run for a manifest ends with its
/// index.
proof fn lemma_run_manifest(host: HostView, path: Seq<char>)
    ensures
        run_index(host, started_at(path)) == (RunView::Done { doc: manifest_index(host, path) }),
{
    if paths::solution_path(path) {
        law_solution_run_gives_index(host, path);
    } else {
        law_project_run_gives_index(host, path);
    }
}

/// Where `host` answers every request, a run ends with the index of the
/// workspace.
pub proof fn law_run_gives_index(host: HostView, root: Seq<char>)
    ensures
        run_index(host, started_run(root)) == (RunView::Done {
            doc: workspace_index(host, root),
        }),
{
    if paths::solution_path(root) || paths::project_path(root) {
        lemma_run_manifest(host, root);
    } else {
        lemma_run_step(host, RunView::Discover { root });
        match discovered(root, host::list(host, root)) {
            Some(path) => {
                lemma_run_manifest(host, path);
            },
            None => {},
        }
    }
}

} // verus!
