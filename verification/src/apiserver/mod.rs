//! The API server: its rules, apart from the network and the store.

pub mod error;
pub mod apply;
pub mod auth;
pub mod storage;
pub mod rbac_engine;
pub mod handlers;
pub mod crd;
pub mod manifests;
pub mod discovery;
pub mod table;
pub mod events;
pub mod watch;
pub mod eviction;
pub mod builtin_admission;
pub mod service_ip;
pub mod query;
pub mod config;
pub mod server;
pub mod migration;
pub mod paths;
pub mod routes;
pub mod watch_cache;
pub mod test_store;
pub mod tls;
pub mod protobuf_mw;
