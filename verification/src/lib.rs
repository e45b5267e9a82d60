pub mod models;
pub mod lookup;
pub mod ident;
pub mod ordering;
pub mod db;
pub mod resolve;
pub mod support;
pub mod http_requests;
pub mod grpc_requests;
pub mod laws;
