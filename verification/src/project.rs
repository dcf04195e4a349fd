//! The record of one project, made from what the host replies step by step.

use crate::controllers;
use crate::host;
use crate::host::{HostView, Reply, ReplyView, Request, RequestView};
use crate::manifest;
use crate::merge;
use crate::merge::{EndpointMap, Merged};
use crate::minimal;
use crate::model;
use crate::model::{EndpointRecord, EndpointView, ProjectRecord, ProjectView};
use crate::oas;
use crate::paths;
use crate::strings;
use crate::text;
use vstd::prelude::*;

verus! {

/// The name of a project: what its manifest gives, else `fallback`, else that of
/// the manifest's file.
pub open spec fn project_name(
    manifest: Seq<char>,
    fallback: Option<Seq<char>>,
    manifest_path: Seq<char>,
) -> Seq<char> {
    let assembly = manifest::xml_text(manifest, "AssemblyName"@);
    let namespace = manifest::xml_text(manifest, "RootNamespace"@);
    if assembly is Some {
        assembly->0
    } else if namespace is Some {
        namespace->0
    } else if fallback is Some {
        fallback->0
    } else {
        paths::stem(manifest_path)
    }
}

/// The directory that a build writes OpenAPI documents to, if the manifest gives
/// one other than that of the project.
pub open spec fn openapi_dir(manifest: Seq<char>, project_dir: Seq<char>) -> Option<Seq<char>> {
    match manifest::xml_text(manifest, "OpenApiDocumentsDirectory"@) {
        Some(value) => {
            let dir = paths::normal_path(paths::path_below(project_dir, text::trimmed(value)));
            if dir.len() > 0 && dir != paths::normal_path(project_dir) {
                Some(dir)
            } else {
                None
            }
        },
        None => None,
    }
}

/// Those of `files` that may be OpenAPI documents, in order.
pub open spec fn oas_files(files: Seq<Seq<char>>) -> Seq<Seq<char>>
    decreases files.len(),
{
    if files.len() == 0 {
        files
    } else if paths::oas_path(files.last()) {
        oas_files(files.drop_last()).push(files.last())
    } else {
        oas_files(files.drop_last())
    }
}

/// `path` is a C# source that counts.
pub open spec fn code_path(path: Seq<char>) -> bool {
    text::ends(path, ".cs"@) && !paths::ignored_source(path)
}

/// Those of `files` that are sources, in order.
pub open spec fn code_files(files: Seq<Seq<char>>) -> Seq<Seq<char>>
    decreases files.len(),
{
    if files.len() == 0 {
        files
    } else if code_path(files.last()) {
        code_files(files.drop_last()).push(files.last())
    } else {
        code_files(files.drop_last())
    }
}

/// The endpoints in a file of a project: in an OpenAPI document where `code` is
/// false, else in a source. `content` is its text, where it has any.
pub open spec fn file_endpoints(
    code: bool,
    project_id: Seq<char>,
    root_path: Seq<char>,
    rel: Seq<char>,
    content: Option<Seq<char>>,
) -> Seq<EndpointView> {
    let path = paths::source_path(root_path, rel);
    match content {
        Some(s) => if code {
            minimal::minimal_endpoints(project_id, path, s) + controllers::controller_endpoints(
                project_id,
                path,
                s,
            )
        } else {
            oas::oas_endpoints(project_id, path, s)
        },
        None => Seq::empty(),
    }
}

/// The endpoints in the files `rels` below `dir`, in order.
pub open spec fn gathered(
    host: HostView,
    code: bool,
    project_id: Seq<char>,
    root_path: Seq<char>,
    dir: Seq<char>,
    rels: Seq<Seq<char>>,
) -> Seq<EndpointView>
    decreases rels.len(),
{
    if rels.len() == 0 {
        Seq::empty()
    } else {
        file_endpoints(
            code,
            project_id,
            root_path,
            rels[0],
            host::read(host, paths::path_below(dir, rels[0])),
        ) + gathered(host, code, project_id, root_path, dir, rels.skip(1))
    }
}

/// The endpoints in the OpenAPI documents of a project: those below its
/// directory, then those that a build writes elsewhere.
pub open spec fn documented_endpoints(
    host: HostView,
    manifest: Seq<char>,
    project_id: Seq<char>,
    root_path: Seq<char>,
    dir: Seq<char>,
) -> Seq<EndpointView> {
    let below = gathered(
        host,
        false,
        project_id,
        root_path,
        dir,
        oas_files(host::list(host, dir)),
    );
    match openapi_dir(manifest, dir) {
        Some(out) => below + gathered(
            host,
            false,
            project_id,
            root_path,
            out,
            oas_files(host::list(host, out)),
        ),
        None => below,
    }
}

/// The record of a project with the endpoints of `merged`.
pub open spec fn record_of(
    id: Seq<char>,
    name: Seq<char>,
    root_path: Seq<char>,
    manifest_path: Seq<char>,
    merged: Merged,
) -> ProjectView {
    ProjectView {
        id,
        name,
        root_path,
        manifest_path,
        capabilities: seq!["exposes-api"@],
        endpoints: merge::listing(merged),
    }
}

/// No endpoints.
pub open spec fn nothing_merged() -> Merged {
    Map::empty()
}

/// The record of the project with the manifest at `manifest_path`. Sources count
/// only where no OpenAPI document gives an endpoint, and there is no record
/// without endpoints.
pub open spec fn project_record(
    host: HostView,
    manifest_path: Seq<char>,
    fallback: Option<Seq<char>>,
    root_path: Seq<char>,
) -> Option<ProjectView> {
    match host::read(host, manifest_path) {
        Some(manifest) => {
            let name = project_name(manifest, fallback, manifest_path);
            let id = manifest::id_of(name);
            let dir = paths::parent(manifest_path);
            let files = host::list(host, dir);
            let documented = documented_endpoints(host, manifest, id, root_path, dir);
            let coded = gathered(host, true, id, root_path, dir, code_files(files));
            let found = if documented.len() > 0 {
                documented
            } else {
                coded
            };
            if !manifest::may_expose_api(manifest) || files.len() == 0 || found.len() == 0 {
                None
            } else {
                Some(
                    record_of(
                        id,
                        name,
                        root_path,
                        manifest_path,
                        merge::merged_all(nothing_merged(), found),
                    ),
                )
            }
        },
        None => None,
    }
}

/// How far the scan of a project is, by what it waits for.
#[derive(Clone, Copy)]
pub enum Stage {
    /// The manifest.
    Manifest,
    /// The files below the project's directory.
    Files,
    /// The next file that may be an OpenAPI document.
    Oas,
    /// The files that a build writes OpenAPI documents to.
    OutputFiles,
    /// The next of those that may be an OpenAPI document.
    OutputOas,
    /// The next source.
    Code,
    /// Nothing more.
    Done,
}

/// The scan of a project.
pub struct ProjectScan {
    manifest_path: String,
    fallback_name: Option<String>,
    root_path: String,
    stage: Stage,
    name: String,
    id: String,
    dir: String,
    openapi_dir: Option<String>,
    files: Vec<String>,
    queue_dir: String,
    queue: Vec<String>,
    next: usize,
    merged: EndpointMap,
    found_oas: bool,
    outcome: Option<ProjectRecord>,
}

/// What the scan of a project knows: what it was started with, what the
/// manifest gave, the files, the ones to read next, and what was found.
#[verifier::ext_equal]
pub struct ScanView {
    pub manifest_path: Seq<char>,
    pub fallback_name: Option<Seq<char>>,
    pub root_path: Seq<char>,
    pub stage: Stage,
    pub name: Seq<char>,
    pub id: Seq<char>,
    pub dir: Seq<char>,
    pub openapi_dir: Option<Seq<char>>,
    pub files: Seq<Seq<char>>,
    pub queue_dir: Seq<char>,
    pub queue: Seq<Seq<char>>,
    pub next: nat,
    pub merged: Merged,
    pub found_oas: bool,
    pub outcome: Option<ProjectView>,
}

/// What `r` holds, if any.
pub open spec fn opt_project(r: Option<ProjectRecord>) -> Option<ProjectView> {
    match r {
        Some(p) => Some(p@),
        None => None,
    }
}

impl View for ProjectScan {
    type V = ScanView;

    closed spec fn view(&self) -> ScanView {
        ScanView {
            manifest_path: self.manifest_path@,
            fallback_name: text::opt_text(self.fallback_name),
            root_path: self.root_path@,
            stage: self.stage,
            name: self.name@,
            id: self.id@,
            dir: self.dir@,
            openapi_dir: text::opt_text(self.openapi_dir),
            files: text::texts(self.files@),
            queue_dir: self.queue_dir@,
            queue: text::texts(self.queue@),
            next: self.next as nat,
            merged: self.merged@,
            found_oas: self.found_oas,
            outcome: opt_project(self.outcome),
        }
    }
}

/// A scan that has just begun.
pub open spec fn started_scan(
    manifest_path: Seq<char>,
    fallback_name: Option<Seq<char>>,
    root_path: Seq<char>,
) -> ScanView {
    ScanView {
        manifest_path,
        fallback_name,
        root_path,
        stage: Stage::Manifest,
        name: Seq::empty(),
        id: Seq::empty(),
        dir: Seq::empty(),
        openapi_dir: None,
        files: Seq::empty(),
        queue_dir: Seq::empty(),
        queue: Seq::empty(),
        next: 0,
        merged: nothing_merged(),
        found_oas: false,
        outcome: None,
    }
}

/// `s`, ended with `outcome`; what was found has gone into it.
pub open spec fn ended(s: ScanView, outcome: Option<ProjectView>) -> ScanView {
    ScanView { stage: Stage::Done, merged: nothing_merged(), outcome, ..s }
}

/// The record that `s` ends with.
pub open spec fn final_record(s: ScanView) -> ProjectView {
    record_of(s.id, s.name, s.root_path, s.manifest_path, s.merged)
}

/// `s`, where the files `queue` below `dir` are to be read at `stage`.
pub open spec fn queued(
    s: ScanView,
    stage: Stage,
    dir: Seq<char>,
    queue: Seq<Seq<char>>,
) -> ScanView {
    ScanView { stage, queue_dir: dir, queue, next: 0, ..s }
}

/// `s` past its sources, if there are no more of them.
pub open spec fn past_code(s: ScanView) -> ScanView {
    if s.next < s.queue.len() {
        s
    } else if s.merged == nothing_merged() {
        ended(s, None)
    } else {
        ended(s, Some(final_record(s)))
    }
}

/// `s` past all OpenAPI documents.
pub open spec fn past_documents(s: ScanView) -> ScanView {
    if s.found_oas {
        ended(s, Some(final_record(s)))
    } else {
        past_code(queued(s, Stage::Code, s.dir, code_files(s.files)))
    }
}

/// `s` past the files that it was to read, if there are no more of them.
pub open spec fn settled(s: ScanView) -> ScanView {
    match s.stage {
        Stage::Oas => if s.next < s.queue.len() {
            s
        } else if s.openapi_dir is Some {
            ScanView { stage: Stage::OutputFiles, ..s }
        } else {
            past_documents(s)
        },
        Stage::OutputOas => if s.next < s.queue.len() {
            s
        } else {
            past_documents(s)
        },
        Stage::Code => past_code(s),
        _ => s,
    }
}

/// The endpoints of the next file of `s`, whose text is `content`.
pub open spec fn next_endpoints(s: ScanView, content: Option<Seq<char>>) -> Seq<EndpointView> {
    file_endpoints(s.stage is Code, s.id, s.root_path, s.queue[s.next as int], content)
}

/// `s` after its next file gave `es`.
pub open spec fn with_found(s: ScanView, es: Seq<EndpointView>) -> ScanView {
    ScanView {
        merged: merge::merged_all(s.merged, es),
        found_oas: s.found_oas || (!(s.stage is Code) && es.len() > 0),
        next: (s.next + 1) as nat,
        ..s
    }
}

/// `s` after the manifest `content` was read.
pub open spec fn with_manifest(s: ScanView, content: Option<Seq<char>>) -> ScanView {
    match content {
        Some(manifest) => if manifest::may_expose_api(manifest) {
            let name = project_name(manifest, s.fallback_name, s.manifest_path);
            let dir = paths::parent(s.manifest_path);
            ScanView {
                stage: Stage::Files,
                name,
                id: manifest::id_of(name),
                dir,
                openapi_dir: openapi_dir(manifest, dir),
                ..s
            }
        } else {
            ended(s, None)
        },
        None => ended(s, None),
    }
}

/// `s` after the files below the project's directory were listed.
pub open spec fn with_files(s: ScanView, files: Seq<Seq<char>>) -> ScanView {
    if files.len() == 0 {
        ended(s, None)
    } else {
        settled(queued(ScanView { files, ..s }, Stage::Oas, s.dir, oas_files(files)))
    }
}

/// `s` after `reply`.
pub open spec fn next_scan(s: ScanView, reply: ReplyView) -> ScanView {
    match s.stage {
        Stage::Manifest => with_manifest(s, host::reply_text(reply)),
        Stage::Files => with_files(s, host::reply_files(reply)),
        Stage::OutputFiles => settled(
            queued(
                s,
                Stage::OutputOas,
                text::or_empty(s.openapi_dir),
                oas_files(host::reply_files(reply)),
            ),
        ),
        Stage::Oas | Stage::OutputOas | Stage::Code => if s.next < s.queue.len() {
            settled(with_found(s, next_endpoints(s, host::reply_text(reply))))
        } else {
            settled(s)
        },
        Stage::Done => s,
    }
}

/// What `s` asks of the host.
pub open spec fn scan_request(s: ScanView) -> Option<RequestView> {
    match s.stage {
        Stage::Manifest => Some(RequestView::ReadFile(s.manifest_path)),
        Stage::Files => Some(RequestView::ListFiles(s.dir)),
        Stage::OutputFiles => Some(RequestView::ListFiles(text::or_empty(s.openapi_dir))),
        Stage::Oas | Stage::OutputOas | Stage::Code => Some(
            RequestView::ReadFile(
                paths::path_below(
                    s.queue_dir,
                    if s.next < s.queue.len() {
                        s.queue[s.next as int]
                    } else {
                        Seq::empty()
                    },
                ),
            ),
        ),
        Stage::Done => None,
    }
}

/// Those of `files` that may be OpenAPI documents.
fn select_oas(files: &Vec<String>) -> (r: Vec<String>)
    ensures
        text::texts(r@) == oas_files(text::texts(files@)),
{
    let ghost fs = text::texts(files@);
    let mut r: Vec<String> = Vec::new();
    let mut i: usize = 0;
    while i < files.len()
        invariant
            fs == text::texts(files@),
            i <= files@.len(),
            text::texts(r@) == oas_files(fs.take(i as int)),
        decreases files@.len() - i,
    {
        let ghost front = text::texts(r@);
        assert(fs.take(i + 1).drop_last() == fs.take(i as int));
        assert(fs.take(i + 1).last() == files@[i as int]@);
        if paths::looks_like_oas_path(files[i].as_str()) {
            r.push(files[i].clone());
            assert(text::texts(r@) == front.push(files@[i as int]@));
        }
        i = i + 1;
    }
    assert(fs.take(i as int) == fs);
    r
}

/// Those of `files` that are sources.
fn select_code(files: &Vec<String>) -> (r: Vec<String>)
    ensures
        text::texts(r@) == code_files(text::texts(files@)),
{
    let ghost fs = text::texts(files@);
    let mut r: Vec<String> = Vec::new();
    let mut i: usize = 0;
    while i < files.len()
        invariant
            fs == text::texts(files@),
            i <= files@.len(),
            text::texts(r@) == code_files(fs.take(i as int)),
        decreases files@.len() - i,
    {
        let ghost front = text::texts(r@);
        assert(fs.take(i + 1).drop_last() == fs.take(i as int));
        assert(fs.take(i + 1).last() == files@[i as int]@);
        if strings::ends_with(files[i].as_str(), ".cs") && !paths::is_ignored_source_path(
            files[i].as_str(),
        ) {
            r.push(files[i].clone());
            assert(text::texts(r@) == front.push(files@[i as int]@));
        }
        i = i + 1;
    }
    assert(fs.take(i as int) == fs);
    r
}

/// The endpoints in a file of a project: in an OpenAPI document where `code` is
/// false, else in a source.
pub fn endpoints_of_file(
    code: bool,
    project_id: &str,
    root_path: &str,
    rel: &str,
    content: &Option<String>,
) -> (r: Vec<EndpointRecord>)
    ensures
        model::endpoint_views(r@) == file_endpoints(
            code,
            project_id@,
            root_path@,
            rel@,
            text::opt_text(*content),
        ),
{
    let path = paths::workspace_source_path(root_path, rel);
    match content {
        Some(s) => if code {
            let mut r = minimal::parse_minimal_api_endpoints(
                project_id,
                path.as_str(),
                s.as_str(),
            );
            let ghost a = model::endpoint_views(r@);
            let mut more = controllers::parse_controller_endpoints(
                project_id,
                path.as_str(),
                s.as_str(),
            );
            let ghost b = model::endpoint_views(more@);
            r.append(&mut more);
            assert(model::endpoint_views(r@) == a + b);
            r
        } else {
            oas::parse_oas_endpoints(project_id, path.as_str(), s.as_str())
        },
        None => {
            let none: Vec<EndpointRecord> = Vec::new();
            assert(model::endpoint_views(none@) == Seq::<EndpointView>::empty());
            none
        },
    }
}

/// Merges `es` into the map, in order.
pub fn merge_endpoints(endpoint_map: &mut EndpointMap, es: Vec<EndpointRecord>)
    requires
        old(endpoint_map).wf(),
    ensures
        final(endpoint_map).wf(),
        final(endpoint_map)@ == merge::merged_all(
            old(endpoint_map)@,
            model::endpoint_views(es@),
        ),
        final(endpoint_map)@.dom().finite(),
{
    let ghost views = model::endpoint_views(es@);
    let mut rest = es;
    let mut reversed: Vec<EndpointRecord> = Vec::new();
    while rest.len() > 0
        invariant
            views == model::endpoint_views(es@),
            rest@.len() <= es@.len(),
            rest@ == es@.take(rest@.len() as int),
            reversed@.len() == es@.len() - rest@.len(),
            forall|i: int|
                0 <= i < reversed@.len() ==> (#[trigger] reversed@[i])@ == views[es@.len() - 1 - i],
        decreases rest@.len(),
    {
        match rest.pop() {
            Some(e) => reversed.push(e),
            None => {},
        }
    }
    while reversed.len() > 0
        invariant
            endpoint_map.wf(),
            views == model::endpoint_views(es@),
            reversed@.len() <= es@.len(),
            forall|i: int|
                0 <= i < reversed@.len() ==> (#[trigger] reversed@[i])@ == views[es@.len() - 1 - i],
            endpoint_map@ == merge::merged_all(
                old(endpoint_map)@,
                views.take(es@.len() - reversed@.len()),
            ),
        decreases reversed@.len(),
    {
        let ghost k = es@.len() - reversed@.len();
        match reversed.pop() {
            Some(e) => {
                assert(e@ == views[k]);
                assert(views.take(k + 1).drop_last() == views.take(k));
                merge::merge_endpoint(endpoint_map, e);
            },
            None => {},
        }
    }
    assert(views.take(es@.len() as int) == views);
    proof {
        endpoint_map.law_finite();
    }
}

/// The name of a project.
fn name_of_project(manifest: &str, fallback: &Option<String>, manifest_path: &str) -> (r: String)
    ensures
        r@ == project_name(manifest@, text::opt_text(*fallback), manifest_path@),
{
    match manifest::parse_xml_text(manifest, "AssemblyName") {
        Some(name) => name,
        None => match manifest::parse_xml_text(manifest, "RootNamespace") {
            Some(name) => name,
            None => match fallback {
                Some(name) => name.clone(),
                None => paths::file_stem(manifest_path),
            },
        },
    }
}

/// The directory that a build writes OpenAPI documents to.
fn openapi_output_dir(manifest: &str, project_dir: &str) -> (r: Option<String>)
    ensures
        text::opt_text(r) == openapi_dir(manifest@, project_dir@),
{
    match manifest::parse_xml_text(manifest, "OpenApiDocumentsDirectory") {
        Some(value) => {
            let value = strings::trim(value.as_str());
            let joined = paths::join_path(project_dir, value.as_str());
            let dir = paths::normalize_path(joined.as_str());
            let own = paths::normalize_path(project_dir);
            if !dir.as_str().is_empty() && !strings::same_text(dir.as_str(), own.as_str()) {
                Some(dir)
            } else {
                None
            }
        },
        None => None,
    }
}

/// Begins to make the record of the project with the manifest at
/// `manifest_path`.
pub fn build_project_record(
    manifest_path: &str,
    fallback_name: Option<String>,
    root_path: &str,
) -> (r: ProjectScan)
    ensures
        r.wf(),
        r@ == started_scan(manifest_path@, text::opt_text(fallback_name), root_path@),
{
    let r = ProjectScan {
        manifest_path: manifest_path.to_owned(),
        fallback_name,
        root_path: root_path.to_owned(),
        stage: Stage::Manifest,
        name: String::new(),
        id: String::new(),
        dir: String::new(),
        openapi_dir: None,
        files: Vec::new(),
        queue_dir: String::new(),
        queue: Vec::new(),
        next: 0,
        merged: EndpointMap::new(),
        found_oas: false,
        outcome: None,
    };
    assert(r@ =~= started_scan(manifest_path@, text::opt_text(fallback_name), root_path@));
    r
}

impl ProjectScan {
    /// What was found so far is well formed.
    pub closed spec fn wf(&self) -> bool {
        self.merged.wf()
    }

    /// What is asked of the host next; nothing once the scan is done.
    pub fn request(&self) -> (r: Option<Request>)
        ensures
            host::opt_request(r) == scan_request(self@),
    {
        match self.stage {
            Stage::Manifest => Some(Request::ReadFile(self.manifest_path.clone())),
            Stage::Files => Some(Request::ListFiles(self.dir.clone())),
            Stage::OutputFiles => Some(Request::ListFiles(self.output_dir())),
            Stage::Oas | Stage::OutputOas | Stage::Code => {
                let rel = if self.next < self.queue.len() {
                    assert(self@.queue[self.next as int] == self.queue@[self.next as int]@);
                    self.queue[self.next].clone()
                } else {
                    String::new()
                };
                Some(Request::ReadFile(paths::join_path(self.queue_dir.as_str(), rel.as_str())))
            },
            Stage::Done => None,
        }
    }

    /// Whether the scan is done.
    pub fn is_done(&self) -> (r: bool)
        ensures
            r == (self@.stage is Done),
    {
        match self.stage {
            Stage::Done => true,
            _ => false,
        }
    }

    /// The record that the scan ended with, if any.
    pub fn into_record(self) -> (r: Option<ProjectRecord>)
        ensures
            opt_project(r) == self@.outcome,
    {
        self.outcome
    }

    fn output_dir(&self) -> (r: String)
        ensures
            r@ == text::or_empty(self@.openapi_dir),
    {
        match &self.openapi_dir {
            Some(d) => d.clone(),
            None => String::new(),
        }
    }

    /// The scan, ended without a record.
    fn end_empty(self) -> (r: ProjectScan)
        requires
            self.wf(),
        ensures
            r.wf(),
            r@ == ended(self@, None),
    {
        let mut s = self;
        s.stage = Stage::Done;
        s.merged = EndpointMap::new();
        s.outcome = None;
        assert(s@ =~= ended(self@, None));
        s
    }

    /// The scan, ended with the record of what it found.
    fn end_with_record(self) -> (r: ProjectScan)
        requires
            self.wf(),
        ensures
            r.wf(),
            r@ == ended(self@, Some(final_record(self@))),
    {
        let mut s = self;
        let mut found = EndpointMap::new();
        let ghost merged = s.merged@;
        std::mem::swap(&mut found, &mut s.merged);
        let record = ProjectRecord {
            id: s.id.clone(),
            name: s.name.clone(),
            root_path: s.root_path.clone(),
            manifest_path: s.manifest_path.clone(),
            capabilities: vec!["exposes-api".to_owned()],
            endpoints: found.into_listing(),
        };
        assert(record@.capabilities == seq!["exposes-api"@]);
        assert(record@ =~= final_record(self@));
        s.stage = Stage::Done;
        s.outcome = Some(record);
        assert(s@ =~= ended(self@, Some(final_record(self@))));
        s
    }

    /// The scan past its sources, if there are no more of them.
    fn pass_code(self) -> (r: ProjectScan)
        requires
            self.wf(),
        ensures
            r.wf(),
            r@ == past_code(self@),
    {
        if self.next < self.queue.len() {
            self
        } else if self.merged.is_empty() {
            self.end_empty()
        } else {
            self.end_with_record()
        }
    }

    /// The scan, where the files `queue` below `dir` are to be read at `stage`.
    fn with_queue(self, stage: Stage, dir: String, queue: Vec<String>) -> (r: ProjectScan)
        requires
            self.wf(),
        ensures
            r.wf(),
            r@ == queued(self@, stage, dir@, text::texts(queue@)),
    {
        let mut s = self;
        s.stage = stage;
        s.queue_dir = dir;
        s.queue = queue;
        s.next = 0;
        assert(s@ =~= queued(self@, stage, dir@, text::texts(queue@)));
        s
    }

    /// The scan past all OpenAPI documents.
    fn pass_documents(self) -> (r: ProjectScan)
        requires
            self.wf(),
        ensures
            r.wf(),
            r@ == past_documents(self@),
    {
        if self.found_oas {
            self.end_with_record()
        } else {
            let queue = select_code(&self.files);
            let dir = self.dir.clone();
            self.with_queue(Stage::Code, dir, queue).pass_code()
        }
    }

    /// The scan past the files that it was to read, if there are no more of
    /// them.
    fn settle(self) -> (r: ProjectScan)
        requires
            self.wf(),
        ensures
            r.wf(),
            r@ == settled(self@),
    {
        match self.stage {
            Stage::Oas => if self.next < self.queue.len() {
                self
            } else if self.openapi_dir.is_some() {
                let mut s = self;
                s.stage = Stage::OutputFiles;
                assert(s@ =~= settled(self@));
                s
            } else {
                self.pass_documents()
            },
            Stage::OutputOas => if self.next < self.queue.len() {
                self
            } else {
                self.pass_documents()
            },
            Stage::Code => self.pass_code(),
            _ => self,
        }
    }

    /// The scan after the manifest was read.
    fn take_manifest(self, content: Option<String>) -> (r: ProjectScan)
        requires
            self.wf(),
        ensures
            r.wf(),
            r@ == with_manifest(self@, text::opt_text(content)),
    {
        match content {
            Some(manifest) => {
                if !manifest::project_may_expose_api(manifest.as_str()) {
                    return self.end_empty();
                }
                let mut s = self;
                s.name = name_of_project(
                    manifest.as_str(),
                    &s.fallback_name,
                    s.manifest_path.as_str(),
                );
                s.id = manifest::sanitize_id(s.name.as_str());
                s.dir = paths::parent_dir(s.manifest_path.as_str());
                s.openapi_dir = openapi_output_dir(manifest.as_str(), s.dir.as_str());
                s.stage = Stage::Files;
                assert(s@ =~= with_manifest(self@, text::opt_text(content)));
                s
            },
            None => self.end_empty(),
        }
    }

    /// The scan after the files below the project's directory were listed.
    fn take_files(self, files: Vec<String>) -> (r: ProjectScan)
        requires
            self.wf(),
        ensures
            r.wf(),
            r@ == with_files(self@, text::texts(files@)),
    {
        if files.len() == 0 {
            return self.end_empty();
        }
        let queue = select_oas(&files);
        let mut s = self;
        s.files = files;
        assert(s@ =~= (ScanView { files: text::texts(files@), ..self@ }));
        let dir = s.dir.clone();
        s.with_queue(Stage::Oas, dir, queue).settle()
    }

    /// The scan after its next file was read.
    fn take_file(self, content: Option<String>) -> (r: ProjectScan)
        requires
            self.wf(),
            self@.stage is Oas || self@.stage is OutputOas || self@.stage is Code,
            self@.next < self@.queue.len(),
        ensures
            r.wf(),
            r@ == settled(
                with_found(self@, next_endpoints(self@, text::opt_text(content))),
            ),
    {
        let code = match self.stage {
            Stage::Code => true,
            _ => false,
        };
        assert(self@.queue[self.next as int] == self.queue@[self.next as int]@);
        let es = endpoints_of_file(
            code,
            self.id.as_str(),
            self.root_path.as_str(),
            self.queue[self.next].as_str(),
            &content,
        );
        let ghost views = model::endpoint_views(es@);
        assert(self.next < self.queue.len());
        let next: usize = self.next + 1;
        let mut s = self;
        if !code && es.len() > 0 {
            s.found_oas = true;
        }
        let mut found = EndpointMap::new();
        std::mem::swap(&mut found, &mut s.merged);
        merge_endpoints(&mut found, es);
        s.merged = found;
        s.next = next;
        assert(s@ =~= with_found(self@, views));
        s.settle()
    }

    /// The scan after `reply`.
    pub fn resume(self, reply: Reply) -> (r: ProjectScan)
        requires
            self.wf(),
        ensures
            r.wf(),
            r@ == next_scan(self@, reply@),
    {
        match self.stage {
            Stage::Manifest => self.take_manifest(host::text_of_reply(reply)),
            Stage::Files => self.take_files(host::files_of_reply(reply)),
            Stage::OutputFiles => {
                let files = host::files_of_reply(reply);
                let queue = select_oas(&files);
                let dir = self.output_dir();
                self.with_queue(Stage::OutputOas, dir, queue).settle()
            },
            Stage::Oas | Stage::OutputOas | Stage::Code => {
                if self.next < self.queue.len() {
                    self.take_file(host::text_of_reply(reply))
                } else {
                    self.settle()
                }
            },
            Stage::Done => self,
        }
    }
}

/// The number of stages that may still follow `s`.
pub open spec fn stages_left(s: ScanView) -> nat {
    match s.stage {
        Stage::Manifest => 6,
        Stage::Files => 5,
        Stage::Oas => 4,
        Stage::OutputFiles => 3,
        Stage::OutputOas => 2,
        Stage::Code => 1,
        Stage::Done => 0,
    }
}

/// The number of files that `s` still has to read at its stage.
pub open spec fn files_left(s: ScanView) -> nat {
    if s.next < s.queue.len() {
        (s.queue.len() - s.next) as nat
    } else {
        0
    }
}

/// Whatever the host replies, each reply brings a scan closer to its end:
/// either to a later stage, or to the next file of the same stage.
pub proof fn law_scan_progress(s: ScanView, reply: ReplyView)
    requires
        !(s.stage is Done),
    ensures
        ({
            let t = next_scan(s, reply);
            ||| stages_left(t) < stages_left(s)
            ||| stages_left(t) == stages_left(s) && files_left(t) < files_left(s)
        }),
{
}

/// The scan that `s` ends as if `host` answers every request.
pub open spec fn run_scan(host: HostView, s: ScanView) -> ScanView
    decreases stages_left(s), files_left(s),
{
    if s.stage is Done {
        s
    } else {
        let reply = host::answer(host, scan_request(s)->0);
        proof {
            law_scan_progress(s, reply);
        }
        run_scan(host, next_scan(s, reply))
    }
}

/// `s` after all files that it was to read at its stage.
pub open spec fn drained(host: HostView, s: ScanView) -> ScanView {
    let es = gathered(
        host,
        s.stage is Code,
        s.id,
        s.root_path,
        s.queue_dir,
        s.queue.skip(s.next as int),
    );
    ScanView { next: s.queue.len(), ..with_found(s, es) }
}

/// Merging two lists one after the other merges their concatenation.
pub proof fn lemma_merged_concat(m: Merged, a: Seq<EndpointView>, b: Seq<EndpointView>)
    ensures
        merge::merged_all(m, a + b) == merge::merged_all(merge::merged_all(m, a), b),
    decreases b.len(),
{
    if b.len() == 0 {
        assert(a + b == a);
    } else {
        lemma_merged_concat(m, a, b.drop_last());
        assert((a + b).drop_last() == a + b.drop_last());
        assert((a + b).last() == b.last());
    }
}

/// A scan that is not done goes on with the answer to its request.
proof fn lemma_run_step(host: HostView, s: ScanView)
    requires
        !(s.stage is Done),
    ensures
        run_scan(host, s) == run_scan(
            host,
            next_scan(s, host::answer(host, scan_request(s)->0)),
        ),
{
    law_scan_progress(s, host::answer(host, scan_request(s)->0));
}

/// The text of the next file of `s`.
spec fn next_text(host: HostView, s: ScanView) -> Option<Seq<char>> {
    host::read(host, paths::path_below(s.queue_dir, s.queue[s.next as int]))
}

/// Reading one file leaves the same to be drained.
proof fn lemma_drained_step(host: HostView, s: ScanView)
    requires
        s.stage is Oas || s.stage is OutputOas || s.stage is Code,
        s.next < s.queue.len(),
    ensures
        drained(host, with_found(s, next_endpoints(s, next_text(host, s)))) == drained(host, s),
{
    let es = next_endpoints(s, next_text(host, s));
    let t = with_found(s, es);
    let rest = s.queue.skip(s.next as int);
    assert(rest.skip(1) == t.queue.skip(t.next as int));
    assert(rest[0] == s.queue[s.next as int]);
    let more = gathered(host, s.stage is Code, s.id, s.root_path, s.queue_dir, rest.skip(1));
    assert(gathered(host, s.stage is Code, s.id, s.root_path, s.queue_dir, rest) == es + more);
    lemma_merged_concat(s.merged, es, more);
}

/// Reading the files of a stage one by one gives what `drained` says.
proof fn lemma_run_queue(host: HostView, s: ScanView)
    requires
        s.stage is Oas || s.stage is OutputOas || s.stage is Code,
        s.next <= s.queue.len(),
    ensures
        run_scan(host, settled(s)) == run_scan(host, settled(drained(host, s))),
    decreases s.queue.len() - s.next,
{
    if s.next < s.queue.len() {
        let t = with_found(s, next_endpoints(s, next_text(host, s)));
        assert(settled(s) == s);
        lemma_run_step(host, s);
        assert(next_scan(s, host::answer(host, scan_request(s)->0)) == settled(t));
        lemma_run_queue(host, t);
        lemma_drained_step(host, s);
    } else {
        assert(s.queue.skip(s.next as int).len() == 0);
        assert(drained(host, s) =~= (ScanView { next: s.queue.len(), ..s }));
        assert(drained(host, s) =~= s);
    }
}

/// Merging leaves nothing merged exactly if there was nothing to merge.
pub proof fn lemma_nothing_merged(es: Seq<EndpointView>)
    ensures
        (merge::merged_all(nothing_merged(), es) == nothing_merged()) == (es.len() == 0),
{
    if es.len() > 0 {
        let m = merge::merged_all(nothing_merged(), es);
        assert(m.contains_key(merge::key_of(es.last())));
    }
}

/// How a scan ends that has found the endpoints `documented` in all OpenAPI
/// documents.
proof fn lemma_run_after_documents(host: HostView, d: ScanView, documented: Seq<EndpointView>)
    requires
        d.merged == merge::merged_all(nothing_merged(), documented),
        d.found_oas == (documented.len() > 0),
    ensures
        ({
            let end = run_scan(host, past_documents(d));
            let coded = gathered(host, true, d.id, d.root_path, d.dir, code_files(d.files));
            let found = if documented.len() > 0 {
                documented
            } else {
                coded
            };
            &&& end.stage is Done
            &&& end.outcome == (if found.len() == 0 {
                None::<ProjectView>
            } else {
                Some(
                    record_of(
                        d.id,
                        d.name,
                        d.root_path,
                        d.manifest_path,
                        merge::merged_all(nothing_merged(), found),
                    ),
                )
            })
        }),
{
    if !d.found_oas {
        let coded = gathered(host, true, d.id, d.root_path, d.dir, code_files(d.files));
        let raw = queued(d, Stage::Code, d.dir, code_files(d.files));
        assert(raw.queue.skip(0) == raw.queue);
        lemma_run_queue(host, raw);
        assert(past_documents(d) == settled(raw));
        let e = drained(host, raw);
        assert(e.merged == merge::merged_all(nothing_merged(), coded));
        lemma_nothing_merged(coded);
        assert(settled(e) == past_code(e));
    }
}

/// Where `host` answers every request, a scan ends with the record of the
/// project.
pub proof fn law_scan_gives_record(
    host: HostView,
    manifest_path: Seq<char>,
    fallback_name: Option<Seq<char>>,
    root_path: Seq<char>,
)
    ensures
        ({
            let end = run_scan(host, started_scan(manifest_path, fallback_name, root_path));
            &&& end.stage is Done
            &&& end.outcome == project_record(host, manifest_path, fallback_name, root_path)
        }),
{
    let s0 = started_scan(manifest_path, fallback_name, root_path);
    lemma_run_step(host, s0);
    let content = host::read(host, manifest_path);
    let s1 = with_manifest(s0, content);
    assert(next_scan(s0, host::answer(host, scan_request(s0)->0)) == s1);
    if s1.stage is Files {
        lemma_run_step(host, s1);
        let files = host::list(host, s1.dir);
        let s2 = with_files(s1, files);
        assert(next_scan(s1, host::answer(host, scan_request(s1)->0)) == s2);
        if files.len() > 0 {
            let raw = queued(
                ScanView { files, ..s1 },
                Stage::Oas,
                s1.dir,
                oas_files(files),
            );
            assert(s2 == settled(raw));
            assert(raw.queue.skip(0) == raw.queue);
            lemma_run_queue(host, raw);
            let d1 = drained(host, raw);
            let below = gathered(host, false, s1.id, root_path, s1.dir, oas_files(files));
            assert(d1.merged == merge::merged_all(nothing_merged(), below));
            if s1.openapi_dir is Some {
                let out = s1.openapi_dir->0;
                let s3 = settled(d1);
                assert(s3.stage is OutputFiles);
                lemma_run_step(host, s3);
                let raw2 = queued(
                    s3,
                    Stage::OutputOas,
                    out,
                    oas_files(host::list(host, out)),
                );
                assert(next_scan(s3, host::answer(host, scan_request(s3)->0)) == settled(raw2));
                assert(raw2.queue.skip(0) == raw2.queue);
                lemma_run_queue(host, raw2);
                let d2 = drained(host, raw2);
                let outs = gathered(host, false, s1.id, root_path, out, raw2.queue);
                lemma_merged_concat(nothing_merged(), below, outs);
                assert(d2.merged == merge::merged_all(nothing_merged(), below + outs));
                assert(settled(d2) == past_documents(d2));
                lemma_run_after_documents(host, d2, below + outs);
            } else {
                assert(settled(d1) == past_documents(d1));
                lemma_run_after_documents(host, d1, below);
            }
        }
    }
}

} // verus!
