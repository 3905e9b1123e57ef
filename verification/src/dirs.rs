//! Where the engine keeps its files: the settings file under the
//! platform's configuration directory, deployment caches under its cache
//! directory.  The platform directories themselves come from the
//! `directories` crate and depend on the environment; the path joining on
//! top of them is this module's own, verified logic.

use vstd::prelude::*;
use vstd::string::*;

verus! {

/// Marks `directories::ProjectDirs` as a type contracts may mention; its
/// values stay opaque and are only handed between the wrappers below.
#[verifier::external_type_specification]
#[verifier::external_body]
pub struct ExProjectDirs(directories::ProjectDirs);

/// Relies on `directories::ProjectDirs::from`: computes the project
/// directories for this application from the environment and platform
/// conventions; `None` when no home directory is known.  The result
/// depends on the environment, so nothing is promised of it.
#[verifier::external_body]
fn project_dirs() -> Option<directories::ProjectDirs> {
    directories::ProjectDirs::from("com", "Ambient", "Ambient")
}

/// Relies on `directories::ProjectDirs::config_dir`, read back as text.
#[verifier::external_body]
fn config_dir_of(dirs: &directories::ProjectDirs) -> String {
    dirs.config_dir().to_string_lossy().into_owned()
}

/// Relies on `directories::ProjectDirs::cache_dir`, read back as text.
#[verifier::external_body]
fn cache_dir_of(dirs: &directories::ProjectDirs) -> String {
    dirs.cache_dir().to_string_lossy().into_owned()
}

/// The directory configured by the platform layer, or the empty path
/// when none has been stored yet.
pub fn dirs(configured: &Option<String>) -> (r: String)
    ensures
        match configured {
            Some(p) => r@ == p@,
            None => r@ == Seq::<char>::empty(),
        },
{
    match configured {
        Some(p) => p.clone(),
        None => String::new(),
    }
}

/// The settings file under the given configuration directory.
pub fn settings_path_in(config_dir: &str) -> (r: String)
    ensures
        r@ == config_dir@ + "/settings.toml"@,
{
    let mut s = config_dir.to_owned();
    s.append("/settings.toml");
    s
}

/// The cache directory for the given deployment under the given cache
/// directory.
pub fn deployment_cache_path_in(cache_dir: &str, deployment: &str) -> (r: String)
    ensures
        r@ == cache_dir@ + "/deployments/"@ + deployment@,
{
    let mut s = cache_dir.to_owned();
    s.append("/deployments/");
    s.append(deployment);
    s
}

/// The path of the settings file: the platform's configuration directory
/// with `/settings.toml` appended, or `None` when the platform reports no
/// home directory.
pub fn settings_path() -> (r: Option<String>)
    ensures
        r matches Some(s) ==> s@.len() >= 14 && s@.subrange(s@.len() - 14, s@.len() as int)
            == "/settings.toml"@,
{
    match project_dirs() {
        Some(pd) => {
            let base = config_dir_of(&pd);
            let path = settings_path_in(base.as_str());
            proof {
                reveal_strlit("/settings.toml");
                assert(path@.subrange(path@.len() - 14, path@.len() as int)
                    =~= "/settings.toml"@);
            }
            Some(path)
        },
        None => None,
    }
}

/// Returns the path to the cache for the given deployment: the platform's
/// cache directory with `/deployments/` and the deployment name appended,
/// or `None` when the platform reports no home directory.
pub fn deployment_cache_path(deployment: &str) -> (r: Option<String>)
    ensures
        r matches Some(s) ==> s@.len() >= deployment@.len() + 13 && s@.subrange(
            s@.len() - deployment@.len() - 13,
            s@.len() as int,
        ) == "/deployments/"@ + deployment@,
{
    match project_dirs() {
        Some(pd) => {
            let base = cache_dir_of(&pd);
            let path = deployment_cache_path_in(base.as_str(), deployment);
            proof {
                reveal_strlit("/deployments/");
                assert(path@.subrange(path@.len() - deployment@.len() - 13, path@.len() as int)
                    =~= "/deployments/"@ + deployment@);
            }
            Some(path)
        },
        None => None,
    }
}

} // verus!
