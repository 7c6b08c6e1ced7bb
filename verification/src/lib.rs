//! A command-line client for OpenAPI documents: the verified core.
pub mod text;
pub mod json;
pub mod bind;
pub mod util;
pub mod jq;
pub mod output;
pub mod openapi;
pub mod registry;
pub mod http;
pub mod cli;
pub mod call;
