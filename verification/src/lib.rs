//! Verified core of an httpx-compatible HTTP client: header and query
//! multidicts, URL parsing and routing, authentication, request and
//! response bodies, cookies, pagination, and the decisions a client takes
//! around each request and its redirects.

pub mod error;
pub mod text;
pub mod format;
pub mod status;
pub mod headers;
pub mod urlenc;
pub mod query_params;
pub mod routing;
pub mod auth;
pub mod decoders;
pub mod response;
pub mod multipart;
pub mod urlparse;
pub mod client;
pub mod cookies;
pub mod request;
pub mod body;
pub mod direct;
pub mod auth_flow;
pub mod paging;
pub mod session;
pub mod flow;
pub mod header_forms;
pub mod run;
