//! The rules of a gateway that serves several users from several AI providers: how a model name
//! resolves to channels and keys, which of them are tried in which order, what a request costs and
//! whose quota it is charged to, and how clients and administrators are told apart.
pub mod adaptor;
pub mod admin;
pub mod answer;
pub mod assets;
pub mod auth;
pub mod billing;
pub mod billing_expr;
pub mod cache;
pub mod clock;
pub mod config;
pub mod dispatch;
pub mod error;
pub mod executor;
pub mod health;
pub mod json;
pub mod normalizer;
pub mod password;
pub mod pricing;
pub mod proxy;
pub mod request;
pub mod router;
pub mod session;
pub mod snapshot;
pub mod sse;
pub mod table;
pub mod text;
pub mod tracker;
pub mod types;
pub mod upstream;
