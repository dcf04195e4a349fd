//! The index: a document of projects with their endpoints.

use crate::text;
use vstd::prelude::*;

verus! {

/// One endpoint of a project.
pub struct EndpointRecord {
    pub id: String,
    pub project_id: String,
    pub method: String,
    pub route: String,
    pub source_path: String,
    pub line: u32,
    pub style: String,
    pub symbol: Option<String>,
    pub requires_auth: bool,
    pub allows_anonymous: bool,
    pub auth_schemes: Vec<String>,
}

/// One project with its endpoints.
pub struct ProjectRecord {
    pub id: String,
    pub name: String,
    pub root_path: String,
    pub manifest_path: String,
    pub capabilities: Vec<String>,
    pub endpoints: Vec<EndpointRecord>,
}

/// The index of a solution or of a project.
pub struct ApiIndexDoc {
    pub schema_version: u32,
    pub ecosystem: String,
    pub root: String,
    pub display_name: String,
    pub projects: Vec<ProjectRecord>,
}

/// What an `EndpointRecord` holds.
#[verifier::ext_equal]
pub struct EndpointView {
    pub id: Seq<char>,
    pub project_id: Seq<char>,
    pub method: Seq<char>,
    pub route: Seq<char>,
    pub source_path: Seq<char>,
    pub line: u32,
    pub style: Seq<char>,
    pub symbol: Option<Seq<char>>,
    pub requires_auth: bool,
    pub allows_anonymous: bool,
    pub auth_schemes: Seq<Seq<char>>,
}

/// What a `ProjectRecord` holds.
#[verifier::ext_equal]
pub struct ProjectView {
    pub id: Seq<char>,
    pub name: Seq<char>,
    pub root_path: Seq<char>,
    pub manifest_path: Seq<char>,
    pub capabilities: Seq<Seq<char>>,
    pub endpoints: Seq<EndpointView>,
}

/// What an `ApiIndexDoc` holds.
#[verifier::ext_equal]
pub struct DocView {
    pub schema_version: u32,
    pub ecosystem: Seq<char>,
    pub root: Seq<char>,
    pub display_name: Seq<char>,
    pub projects: Seq<ProjectView>,
}

impl View for EndpointRecord {
    type V = EndpointView;

    open spec fn view(&self) -> EndpointView {
        EndpointView {
            id: self.id@,
            project_id: self.project_id@,
            method: self.method@,
            route: self.route@,
            source_path: self.source_path@,
            line: self.line,
            style: self.style@,
            symbol: text::opt_text(self.symbol),
            requires_auth: self.requires_auth,
            allows_anonymous: self.allows_anonymous,
            auth_schemes: text::texts(self.auth_schemes@),
        }
    }
}

/// The endpoints that `v` holds.
pub open spec fn endpoint_views(v: Seq<EndpointRecord>) -> Seq<EndpointView> {
    v.map_values(|e: EndpointRecord| e@)
}

impl View for ProjectRecord {
    type V = ProjectView;

    open spec fn view(&self) -> ProjectView {
        ProjectView {
            id: self.id@,
            name: self.name@,
            root_path: self.root_path@,
            manifest_path: self.manifest_path@,
            capabilities: text::texts(self.capabilities@),
            endpoints: endpoint_views(self.endpoints@),
        }
    }
}

/// The projects that `v` holds.
pub open spec fn project_views(v: Seq<ProjectRecord>) -> Seq<ProjectView> {
    v.map_values(|p: ProjectRecord| p@)
}

impl View for ApiIndexDoc {
    type V = DocView;

    open spec fn view(&self) -> DocView {
        DocView {
            schema_version: self.schema_version,
            ecosystem: self.ecosystem@,
            root: self.root@,
            display_name: self.display_name@,
            projects: project_views(self.projects@),
        }
    }
}

} // verus!
