//! Managing the members of GitLab projects: what to ask the remote
//! directory and what its answers mean, batches of membership changes that
//! report on every user, and a local roster of people and groups.

pub mod batch;
pub mod decimal;
pub mod error;
pub mod gitlab;
pub mod listing;
pub mod models;
pub mod order;
pub mod profile;
pub mod roster;
pub mod sieve;
pub mod storage;
pub mod text;
