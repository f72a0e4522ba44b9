//! Repository layer for service accounts and project scopes: constraint-checked,
//! conflict-aware create / read / update / delete / find over an in-memory store,
//! and the status decisions of the service-account endpoints.
pub mod error;
pub mod ids;
pub mod pagination;
pub mod text;
pub mod sort;
pub mod service_account;
pub mod project_scope;
pub mod routes;
pub mod repository;
pub mod lemmas;
