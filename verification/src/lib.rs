//! `guroku`: the verified core of a package manager for the JavaScript
//! ecosystem: dependency-spec classification, semver selection, the
//! lockfile model, `.npmrc` and override handling, and the decision logic
//! of the resolver and installer.
pub mod text;
pub mod strmap;
pub mod error;
pub mod version;
pub mod specs;
pub mod json;
pub mod manifest;
pub mod overrides;
pub mod npmrc;
pub mod lockfile;
pub mod http_cache;
pub mod registry;
pub mod resolver;
pub mod integrity;
pub mod paths;
pub mod cache;
pub mod tarball;
pub mod store;
pub mod git;
pub mod scripts;
pub mod install;
pub mod linker;
pub mod audit;
pub mod workspaces;
pub mod solver;
pub mod cli;
