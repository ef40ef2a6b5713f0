//! Request-processing core of a web application: a path router with
//! per-resource and application-wide fallbacks, an ordered middleware stack,
//! a short-circuiting filter pipeline and a type-keyed application data store,
//! assembled by a builder into a service that is driven one step at a time.

pub mod app;
pub mod app_service;
pub mod bytes;
pub mod config;
pub mod data;
pub mod exchange;
pub mod filter;
pub mod http;
pub mod path;
pub mod pattern;
pub mod rmap;
pub mod router;
pub mod service;
pub mod stack;
