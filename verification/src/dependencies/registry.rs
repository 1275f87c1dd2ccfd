//! Registry dependency related stuff
use vstd::prelude::*;

use crate::manifest::Realm;
use crate::package_name::StandardPackageName;
use crate::index::{package_download_url, parse_url, parsed_url, spec_download, spec_package_download_url, IndexConfig};
use crate::version::{Version, VersionReq};

verus! {

/// The name of the default index
pub open spec fn default_index_text() -> Seq<char> {
    seq!['d', 'e', 'f', 'a', 'u', 'l', 't']
}

/// The index a registry dependency uses when none is named
pub fn default_index_name() -> (r: String)
    ensures
        r@ == default_index_text(),
{
    let mut s = String::new();
    crate::text::string_push(&mut s, 'd');
    crate::text::string_push(&mut s, 'e');
    crate::text::string_push(&mut s, 'f');
    crate::text::string_push(&mut s, 'a');
    crate::text::string_push(&mut s, 'u');
    crate::text::string_push(&mut s, 'l');
    crate::text::string_push(&mut s, 't');
    assert(s@ =~= default_index_text());
    s
}

/// A dependency of a package that can be downloaded from a registry
#[derive(Debug)]
pub struct RegistryDependencySpecifier {
    /// The name of the package
    pub name: StandardPackageName,
    /// The version requirement of the package
    pub version: VersionReq,
    /// The name of the index to use
    pub index: String,
    /// The realm of the package
    pub realm: Option<Realm>,
}

impl Clone for RegistryDependencySpecifier {
    fn clone(&self) -> (r: Self)
        ensures
            r == *self,
    {
        RegistryDependencySpecifier {
            name: self.name.clone(),
            version: self.version.clone(),
            index: self.index.clone(),
            realm: self.realm,
        }
    }
}

/// A reference to a package that can be downloaded from a registry
#[derive(Debug)]
pub struct RegistryPackageRef {
    /// The name of the package
    pub name: StandardPackageName,
    /// The version of the package
    pub version: Version,
    /// The index URL of the package
    pub index_url: String,
}

impl Clone for RegistryPackageRef {
    fn clone(&self) -> (r: Self)
        ensures
            r == *self,
    {
        RegistryPackageRef { name: self.name.clone(), version: self.version.clone(), index_url: self.index_url.clone() }
    }
}

/// The download URL of a package before parsing: the index's download
/// template with the API URL, author, name and version filled in
pub open spec fn registry_download_text(config: IndexConfig, scope: Seq<char>, name: Seq<char>, version: Seq<char>) -> Seq<char> {
    spec_package_download_url(spec_download(config.api@, match config.download { Some(x) => Some(x@), None => None }), scope, name, version)
}

impl RegistryPackageRef {
    /// Resolves the download URL of the package from the configuration of its index
    pub fn resolve_url(&self, config: &IndexConfig) -> (r: Result<String, url::ParseError>)
        ensures
            match r {
                Ok(u) => parsed_url(registry_download_text(*config, self.name@.0, self.name@.1, self.version@)) == Some(u@),
                Err(_) => parsed_url(registry_download_text(*config, self.name@.0, self.name@.1, self.version@)) is None,
            },
    {
        let d = config.download();
        let v = self.version.to_string();
        let url = package_download_url(d.as_str(), self.name.scope(), self.name.name(), v.as_str());
        parse_url(url.as_str())
    }
}

} // verus!
