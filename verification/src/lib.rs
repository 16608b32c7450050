pub mod auth;
pub mod cli;
pub mod concurrency;
pub mod config;
pub mod cors;
pub mod headers;
pub mod install;
pub mod kv;
pub mod metrics;
pub mod observability;
pub mod proxy;
pub mod ratelimit;
pub mod runtime;
pub mod tls;
pub mod text;
