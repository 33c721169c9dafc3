use vstd::prelude::*;

pub mod text;
pub mod url_encode;
pub mod path;
pub mod file_system;
pub mod terminal;
pub mod config;
pub mod query_params;
pub mod http_error;
pub mod basic_auth;
pub mod fmt;
pub mod headers;
pub mod explorer;
pub mod handlers;
pub mod cors;
pub mod release;
pub mod middleware;

verus! {

} // verus!
