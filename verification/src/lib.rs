//! The verified core of the `ono` shell's command-line layer: how it was started, where its
//! host sources live, how a word expands, and the decisions around a plugin package: trust,
//! permission, acquisition, installation and the terminal layout of a package's view.

pub mod expand;
pub mod glob;
pub mod grants;
pub mod host;
pub mod hosts;
pub mod acquire;
pub mod catalog;
pub mod consent;
pub mod decide;
pub mod install;
pub mod invocation;
pub mod keyless;
pub mod logic;
pub mod packages;
pub mod permissions;
pub mod shell;
pub mod text;
pub mod trust;
pub mod views;
