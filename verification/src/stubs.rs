//! Entry points of build pipelines, delegated ecosystems and the
//! standalone resolver and registry client. They accept every project and
//! report success without doing any work.

use vstd::prelude::*;
use crate::text::str_to_string;

verus! {

/// Next.js build pipeline.
pub struct NextBuilder;

impl NextBuilder {
    pub fn build(_project_dir: &str) -> (r: Result<(), String>)
        ensures
            r is Ok,
    {
        Ok(())
    }
}

/// Vite build pipeline.
pub struct ViteBuilder;

impl ViteBuilder {
    pub fn build(_project_dir: &str) -> (r: Result<(), String>)
        ensures
            r is Ok,
    {
        Ok(())
    }
}

/// PHP/Composer delegate.
pub struct ComposerDelegate;

impl ComposerDelegate {
    pub fn install(_project_dir: &str) -> (r: Result<(), String>)
        ensures
            r is Ok,
    {
        Ok(())
    }
}

/// Go modules delegate.
pub struct GoModDelegate;

impl GoModDelegate {
    pub fn install(_project_dir: &str) -> (r: Result<(), String>)
        ensures
            r is Ok,
    {
        Ok(())
    }
}

/// Java/Maven delegate.
pub struct MavenDelegate;

impl MavenDelegate {
    pub fn install(_project_dir: &str) -> (r: Result<(), String>)
        ensures
            r is Ok,
    {
        Ok(())
    }
}

/// The standalone npm dependency resolver.
pub struct Resolver;

impl Resolver {
    pub fn new() -> (r: Resolver) {
        Resolver
    }

    /// Resolves nothing: the result is always empty.
    pub fn resolve(&self, _deps: &Vec<String>) -> (r: Result<Vec<String>, String>)
        ensures
            r matches Ok(v) && v.len() == 0,
    {
        Ok(Vec::new())
    }
}

/// A package's name and published versions, as the standalone registry
/// client reports them.
#[derive(Debug, Clone)]
pub struct RegistryPackageMetadata {
    pub name: String,
    pub versions: Vec<String>,
}

/// The standalone registry client's answer: the package with the single
/// version `1.0.0`, whatever the registry.
pub fn fetch_metadata(_registry_url: &str, package_name: &str) -> (r: Result<RegistryPackageMetadata, String>)
    ensures
        r matches Ok(m) && m.name@ == package_name@ && m.versions.len() == 1 && m.versions@[0]@
            == "1.0.0"@,
{
    let mut versions: Vec<String> = Vec::new();
    versions.push(str_to_string("1.0.0"));
    Ok(RegistryPackageMetadata { name: str_to_string(package_name), versions })
}

} // verus!
