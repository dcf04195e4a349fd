//! Heuristic API endpoint index for .NET workspaces.
//!
//! `index` makes the index of a workspace from what a host replies to its
//! requests, and `project` the record of one project. `controllers`, `minimal`
//! and `oas` find endpoints in sources and OpenAPI documents, and `merge` keeps
//! one record of each. The modules named `*_laws` state what holds of all of it.

pub mod attribute_laws;
pub mod attributes;
pub mod auth_laws;
pub mod controller_laws;
pub mod controllers;
pub mod documents;
pub mod host;
pub mod index;
pub mod index_laws;
pub mod line_laws;
pub mod manifest;
pub mod manifest_laws;
pub mod merge;
pub mod merge_laws;
pub mod minimal;
pub mod minimal_laws;
pub mod model;
pub mod oas;
pub mod oas_laws;
pub mod path_laws;
pub mod paths;
pub mod patterns;
pub mod project;
pub mod project_laws;
pub mod record_laws;
pub mod route_laws;
pub mod routes;
pub mod source;
pub mod strings;
pub mod text;
pub mod text_laws;
pub mod text_lemmas;
