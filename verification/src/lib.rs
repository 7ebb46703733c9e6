//! Verified core of the Fusion HTTP framework: route naming, header helpers,
//! query and pagination parsing, routing tables, settings lookup, the cache
//! model and background-task bookkeeping.

pub mod text;
pub mod order;

pub mod naming;
pub mod strmap;
pub mod decimal;
pub mod request;
pub mod json;
pub mod coerce;
pub mod dispatch;
pub mod openapi;
pub mod api_context;
pub mod response;
pub mod serialize;
pub mod router;
pub mod application;
pub mod settings;
pub mod discovery;
pub mod cache;
pub mod templates;
pub mod server;
pub mod security;
pub mod http_error;
pub mod pagination;
pub mod headers;
pub mod monitor;
pub mod tasks;
