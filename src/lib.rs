//! Resolution of marketplace laptop listings into a hardware catalog.
//!
//! The verified part of the crawler: text extraction rules, the component
//! resolver, the upsert merge policy, the crawl scheduler's decisions and the
//! ranking formula. Browser sessions, storage and HTTP are driven from outside.
pub mod text;
pub mod model;
pub mod resolver;
pub mod catalog;
pub mod scheduler;
pub mod extract;
pub mod form;
pub mod benchmark;
pub mod settings;
pub mod api;
pub mod ranking;
