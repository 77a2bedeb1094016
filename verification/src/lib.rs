//! Rocket: the build system of RunixOS, as a library of decisions.

pub mod build_laws;
pub mod builder;
pub mod config;
pub mod containers;
pub mod graph;
pub mod history;
pub mod mount_laws;
pub mod mounts;
pub mod names;
pub mod numbers;
pub mod patches;
pub mod recipe;
pub mod recipe_laws;
pub mod resolver;
pub mod resolver_laws;
pub mod run;
pub mod run_laws;
pub mod sandbox;
pub mod sandbox_laws;
pub mod session;
pub mod session_laws;
pub mod text;
pub mod text_laws;
pub mod trees;
