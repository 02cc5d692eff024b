//! Planning and rules for packaging applications and running them in an isolated environment.
//!
//! Nothing here touches the host. What the host has is handed in: the recipe, the environment, which
//! files exist, how a command ended. What is to be done comes out: plans of steps, and courses that
//! say what comes next.

pub mod archive;
pub mod bundle;
pub mod cleanup;
pub mod command;
pub mod course;
pub mod dependencies;
pub mod extensions;
pub mod host_install;
pub mod host_packages;
pub mod install;
pub mod isolation;
pub mod log;
pub mod managers;
pub mod packaging;
pub mod paths;
pub mod provision;
pub mod recipe;
pub mod runner;
pub mod runtime;
pub mod staging;
pub mod text;
pub mod tree;
