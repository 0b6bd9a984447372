//! Verified host-side logic of a two-rank expert-parallel DeepSeek-V2-Lite engine.
pub mod attention;
pub mod config;
pub mod digest;
pub mod engine;
pub mod entries;
pub mod ep;
pub mod error;
pub mod exact;
pub mod host_ops;
pub mod loaded;
pub mod loading;
pub mod mixture;
pub mod model;
pub mod route;
pub mod rows;
pub mod runtime;
pub mod text;
pub mod transfer;
pub mod visits;
