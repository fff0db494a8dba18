//! The workspace manager of Gitea Code Spaces: it keeps the workspaces and
//! login sessions, decides who may see or change what, and works out how
//! each workspace's code-server container is started.

pub mod api;
pub mod auth;
pub mod config;
pub mod gitea_origin;
pub mod http_headers;
pub mod naming;
pub mod oauth;
pub mod paths;
pub mod public_url;
pub mod sources;
pub mod store;
pub mod text;
pub mod web_url;
pub mod workspace;
