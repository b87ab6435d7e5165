//! A dependency-injection runtime: a trait-cast registry, scope-aware
//! instance wrappers, a module/container graph with hierarchical provider
//! lookup, and a two-phase (create-then-wire) build pipeline.

pub mod app;
pub mod buffer;
pub mod builder;
pub mod cast;
pub mod compiler;
pub mod console_logger;
pub mod container;
pub mod errors;
pub mod events;
pub mod instance_store;
pub mod instance_wrapper;
pub mod interface;
pub mod level;
pub mod link;
pub mod link_mut;
pub mod logger;
pub mod module;
pub mod modules;
pub mod reference;
pub mod reference_mut;
