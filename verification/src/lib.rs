//! Contract analysis for JavaScript and TypeScript services.

pub mod cloud_storage;
pub mod config;
pub mod credentials;
pub mod current_service;
pub mod deno_support;
pub mod dispatch;
pub mod duplicate;
pub mod engine;
pub mod env_alias;
pub mod event_emitter;
pub mod external_call_candidates;
pub mod file_based_router;
pub mod findings;
pub mod framework_detector;
pub mod json;
pub mod laws;
pub mod mount_graph;
pub mod operation;
pub mod ordered;
pub mod parsing;
pub mod paths;
pub mod patterns;
pub mod sidecar;
pub mod sorting;
pub mod syntax;
pub mod text;
pub mod url_normalizer;
