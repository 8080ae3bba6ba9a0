//! A caching HTTP(S) forward proxy for CI jobs, backed by the GitHub Actions cache service.
//!
//! The library decides and the program around it performs: what is cached and under which key
//! ([`policy`]), how entries, packs and manifests are laid out ([`entry`], [`pack`], [`store`]), what
//! the proxy does with a request ([`proxy`], [`passage`], [`ca`], [`stats`]), how the cache service is talked to
//! ([`gha`]), and what a job's environment gets and loses again ([`settings`], [`environment`],
//! [`curlrc`], [`report`]).

pub mod ca;
pub mod clock;
pub mod curlrc;
pub mod digest;
pub mod entry;
pub mod environment;
pub mod gha;
pub mod headers;
pub mod keys;
pub mod numbers;
pub mod order;
pub mod pack;
pub mod passage;
pub mod policy;
pub mod proxy;
pub mod report;
pub mod settings;
pub mod stats;
pub mod store;
pub mod text;
pub mod url;
pub mod wire;
