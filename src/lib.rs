//! A gateway in front of a project-management API: record definitions
//! inferred from sample payloads, and the verified steps that turn one list
//! request into a uniform `data` / `meta` / `links` response.
use vstd::prelude::*;

pub mod auth;
pub mod codegen;
pub mod errors;
pub mod pagination;
pub mod pipeline;
pub mod records;
pub mod routes;
pub mod schema;
pub mod text;

verus! {

} // verus!
