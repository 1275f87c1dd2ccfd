use vstd::prelude::*;

pub mod auth;
pub mod cli;
pub mod commands;
pub mod dependencies;
pub mod index;
pub mod install;
pub mod keyed;
pub mod linking;
pub mod linking_file;
pub mod lockfile;
pub mod login;
pub mod manifest;
pub mod names;
pub mod package_name;
pub mod patches;
pub mod project;
pub mod publish;
pub mod strmap;
pub mod text;
pub mod updates;
pub mod version;

pub use auth::AuthConfig;

verus! {

/// The name of the manifest file
pub const MANIFEST_FILE_NAME: &'static str = "pesde.toml";

/// The name of the folder, inside a packages folder, that holds the packages' containers
pub const PACKAGES_CONTAINER_NAME: &'static str = ".pesde";

} // verus!
