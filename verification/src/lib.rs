//! Dependency identities read out of Yarn Berry lockfiles.
//!
//! A lockfile pins every package under a *resolution*: a descriptor of the
//! form `<ident>@<range>`. This crate decodes resolutions into typed
//! [`dependency::Dependency`] values and collects them, without duplicates,
//! over a whole lockfile document.

pub mod bindings;
pub mod dependency;
pub mod dependency_set;
pub mod descriptor;
pub mod error;
pub mod npm;
pub mod range;
pub mod resolution;
pub mod text;
pub mod yarn_berry;
