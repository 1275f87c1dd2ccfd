//! Dependency specifiers and package references
use vstd::prelude::*;

use crate::manifest::Realm;
use crate::text::str_eq;
use crate::version::Version;
use crate::index::{parsed_url, IndexConfig};
use crate::package_name::{PackageName, PackageNameView, StandardPackageName, WallyPackageName, kind_text, NameKind};

pub mod convert;
pub mod git;
pub mod registry;
pub mod resolution;
pub mod wally;

use self::git::{GitDependencySpecifier, GitPackageRef};
use self::registry::{registry_download_text, RegistryDependencySpecifier, RegistryPackageRef};
use self::wally::{wally_contents_text, WallyDependencySpecifier, WallyPackageRef};

verus! {

/// A dependency of a package
#[derive(Debug)]
pub enum DependencySpecifier {
    /// A dependency that can be downloaded from a registry
    Registry(RegistryDependencySpecifier),
    /// A dependency that can be downloaded from a git repository
    Git(GitDependencySpecifier),
    /// A dependency that can be downloaded from a wally registry
    Wally(WallyDependencySpecifier),
}

impl Clone for DependencySpecifier {
    fn clone(&self) -> (r: Self)
        ensures
            r == *self,
    {
        match self {
            DependencySpecifier::Registry(s) => DependencySpecifier::Registry(s.clone()),
            DependencySpecifier::Git(s) => DependencySpecifier::Git(s.clone()),
            DependencySpecifier::Wally(s) => DependencySpecifier::Wally(s.clone()),
        }
    }
}

/// What a specifier says, as plain values
pub enum SpecifierView {
    Registry { name: (Seq<char>, Seq<char>), version: Seq<char>, index: Seq<char>, realm: Option<Realm> },
    Git { repo: Seq<char>, rev: Seq<char>, realm: Option<Realm> },
    Wally { name: (Seq<char>, Seq<char>), version: Seq<char>, index_url: Seq<char>, realm: Option<Realm> },
}

impl View for DependencySpecifier {
    type V = SpecifierView;

    open spec fn view(&self) -> SpecifierView {
        match self {
            DependencySpecifier::Registry(r) => SpecifierView::Registry {
                name: r.name@,
                version: r.version@,
                index: r.index@,
                realm: r.realm,
            },
            DependencySpecifier::Git(g) => SpecifierView::Git { repo: g.repo@, rev: g.rev@, realm: g.realm },
            DependencySpecifier::Wally(w) => SpecifierView::Wally {
                name: w.name@,
                version: w.version@,
                index_url: w.index_url@,
                realm: w.realm,
            },
        }
    }
}

fn realms_eq(a: Option<Realm>, b: Option<Realm>) -> (r: bool)
    ensures
        r == (a == b),
{
    match (a, b) {
        (None, None) => true,
        (Some(x), Some(y)) => x == y,
        _ => false,
    }
}

/// Whether two specifiers say the same
pub fn specifiers_eq(a: &DependencySpecifier, b: &DependencySpecifier) -> (r: bool)
    ensures
        r == (a@ == b@),
{
    match (a, b) {
        (DependencySpecifier::Registry(x), DependencySpecifier::Registry(y)) => {
            str_eq(x.name.scope(), y.name.scope()) && str_eq(x.name.name(), y.name.name()) && str_eq(
                x.version.as_str(),
                y.version.as_str(),
            ) && str_eq(x.index.as_str(), y.index.as_str()) && realms_eq(x.realm, y.realm)
        },
        (DependencySpecifier::Git(x), DependencySpecifier::Git(y)) => {
            str_eq(x.repo.as_str(), y.repo.as_str()) && str_eq(x.rev.as_str(), y.rev.as_str()) && realms_eq(
                x.realm,
                y.realm,
            )
        },
        (DependencySpecifier::Wally(x), DependencySpecifier::Wally(y)) => {
            str_eq(x.name.scope(), y.name.scope()) && str_eq(x.name.name(), y.name.name()) && str_eq(
                x.version.as_str(),
                y.version.as_str(),
            ) && str_eq(x.index_url.as_str(), y.index_url.as_str()) && realms_eq(x.realm, y.realm)
        },
        _ => false,
    }
}

/// The name (or repository) of a specifier
pub open spec fn specifier_name(s: DependencySpecifier) -> Seq<char> {
    match s {
        DependencySpecifier::Registry(r) => kind_text(NameKind::Standard, r.name@.0, r.name@.1),
        DependencySpecifier::Git(g) => g.repo@,
        DependencySpecifier::Wally(w) => kind_text(NameKind::Wally, w.name@.0, w.name@.1),
    }
}

/// The version requirement (or revision) of a specifier
pub open spec fn specifier_version(s: DependencySpecifier) -> Seq<char> {
    match s {
        DependencySpecifier::Registry(r) => r.version@,
        DependencySpecifier::Git(g) => g.rev@,
        DependencySpecifier::Wally(w) => w.version@,
    }
}

/// The realm a specifier asks for
pub open spec fn specifier_realm(s: DependencySpecifier) -> Option<Realm> {
    match s {
        DependencySpecifier::Registry(r) => r.realm,
        DependencySpecifier::Git(g) => g.realm,
        DependencySpecifier::Wally(w) => w.realm,
    }
}

impl DependencySpecifier {
    /// Gets the name (or repository) of the specifier
    pub fn name(&self) -> (r: String)
        ensures
            r@ == specifier_name(*self),
    {
        match self {
            DependencySpecifier::Registry(registry) => registry.name.to_string(),
            DependencySpecifier::Git(git) => git.repo.clone(),
            DependencySpecifier::Wally(wally) => wally.name.to_string(),
        }
    }

    /// Gets the version (or revision) of the specifier
    pub fn version(&self) -> (r: String)
        ensures
            r@ == specifier_version(*self),
    {
        match self {
            DependencySpecifier::Registry(registry) => registry.version.to_string(),
            DependencySpecifier::Git(git) => git.rev.clone(),
            DependencySpecifier::Wally(wally) => wally.version.to_string(),
        }
    }

    /// Gets the realm of the specifier
    pub fn realm(&self) -> (r: Option<&Realm>)
        ensures
            match r {
                Some(x) => specifier_realm(*self) == Some(*x),
                None => specifier_realm(*self) is None,
            },
    {
        match self {
            DependencySpecifier::Registry(registry) => registry.realm.as_ref(),
            DependencySpecifier::Git(git) => git.realm.as_ref(),
            DependencySpecifier::Wally(wally) => wally.realm.as_ref(),
        }
    }
}

/// A reference to a package
#[derive(Debug)]
pub enum PackageRef {
    /// A reference to a package that can be downloaded from a registry
    Registry(RegistryPackageRef),
    /// A reference to a package that can be downloaded from a git repository
    Git(GitPackageRef),
    /// A reference to a package that can be downloaded from a wally registry
    Wally(WallyPackageRef),
}

impl Clone for PackageRef {
    fn clone(&self) -> (r: Self)
        ensures
            r == *self,
    {
        match self {
            PackageRef::Registry(s) => PackageRef::Registry(s.clone()),
            PackageRef::Git(s) => PackageRef::Git(s.clone()),
            PackageRef::Wally(s) => PackageRef::Wally(s.clone()),
        }
    }
}

/// The name of a referenced package
pub open spec fn package_ref_name(p: PackageRef) -> PackageNameView {
    match p {
        PackageRef::Registry(r) => PackageNameView::Standard(r.name@),
        PackageRef::Git(g) => PackageNameView::Standard(g.name@),
        PackageRef::Wally(w) => PackageNameView::Wally(w.name@),
    }
}

/// The version of a referenced package
pub open spec fn package_ref_version(p: PackageRef) -> Seq<char> {
    match p {
        PackageRef::Registry(r) => r.version@,
        PackageRef::Git(g) => g.version@,
        PackageRef::Wally(w) => w.version@,
    }
}

/// The version of a referenced package, as a value
pub open spec fn ref_version(p: PackageRef) -> Version {
    match p {
        PackageRef::Registry(r) => r.version,
        PackageRef::Git(g) => g.version,
        PackageRef::Wally(w) => w.version,
    }
}

/// The index URL of a referenced package, when it comes from an index
pub open spec fn package_ref_index_url(p: PackageRef) -> Option<Seq<char>> {
    match p {
        PackageRef::Registry(r) => Some(r.index_url@),
        PackageRef::Git(_) => None,
        PackageRef::Wally(w) => Some(w.index_url@),
    }
}

/// An error that occurred while resolving a URL
#[derive(Debug)]
pub enum UrlResolveError {
    /// The download URL of a registry package is no valid URL
    Registry(url::ParseError),
    /// The API URL of a wally index, or the contents URL made from it, is no valid URL
    Wally(url::ParseError),
}

/// What resolving the URL of a package gives: the URL where it can be
/// downloaded (`Some`), none for a git package (`None`), or which kind of URL
/// failed to parse (`Err(true)` for a registry package, `Err(false)` for a wally one)
pub open spec fn resolved_url(p: PackageRef, config: IndexConfig, wally_api_url: Seq<char>) -> Result<Option<Seq<char>>, bool> {
    match p {
        PackageRef::Registry(r) => match parsed_url(registry_download_text(config, r.name@.0, r.name@.1, r.version@)) {
            Some(u) => Ok(Some(u)),
            None => Err(true),
        },
        PackageRef::Git(_) => Ok(None),
        PackageRef::Wally(w) => match parsed_url(wally_api_url) {
            None => Err(false),
            Some(api) => match parsed_url(wally_contents_text(api, w.name@.0, w.name@.1, w.version@)) {
                Some(u) => Ok(Some(u)),
                None => Err(false),
            },
        },
    }
}

impl PackageRef {
    /// Resolves the URL of the package: a registry package from the configuration
    /// of its index, a wally package from the API URL that its index names
    pub fn resolve_url(&self, config: &IndexConfig, wally_api_url: &str) -> (r: Result<Option<String>, UrlResolveError>)
        ensures
            match r {
                Ok(Some(u)) => resolved_url(*self, *config, wally_api_url@) == Ok::<Option<Seq<char>>, bool>(Some(u@)),
                Ok(None) => resolved_url(*self, *config, wally_api_url@) == Ok::<Option<Seq<char>>, bool>(None),
                Err(UrlResolveError::Registry(_)) => resolved_url(*self, *config, wally_api_url@) == Err::<Option<Seq<char>>, bool>(true),
                Err(UrlResolveError::Wally(_)) => resolved_url(*self, *config, wally_api_url@) == Err::<Option<Seq<char>>, bool>(false),
            },
    {
        match self {
            PackageRef::Registry(registry) => match registry.resolve_url(config) {
                Ok(u) => Ok(Some(u)),
                Err(e) => Err(UrlResolveError::Registry(e)),
            },
            PackageRef::Git(_) => Ok(None),
            PackageRef::Wally(wally) => match wally.resolve_url(wally_api_url) {
                Ok(u) => Ok(Some(u)),
                Err(e) => Err(UrlResolveError::Wally(e)),
            },
        }
    }

    /// Gets the name of the package
    pub fn name(&self) -> (r: PackageName)
        ensures
            r@ == package_ref_name(*self),
    {
        match self {
            PackageRef::Registry(registry) => PackageName::Standard(registry.name.clone()),
            PackageRef::Git(git) => PackageName::Standard(git.name.clone()),
            PackageRef::Wally(wally) => PackageName::Wally(wally.name.clone()),
        }
    }

    /// Gets the version of the package
    pub fn version(&self) -> (r: &Version)
        ensures
            r@ == package_ref_version(*self),
            *r == ref_version(*self),
    {
        match self {
            PackageRef::Registry(registry) => &registry.version,
            PackageRef::Git(git) => &git.version,
            PackageRef::Wally(wally) => &wally.version,
        }
    }

    /// Returns the URL of the index
    pub fn index_url(&self) -> (r: Option<String>)
        ensures
            match r {
                Some(u) => package_ref_index_url(*self) == Some(u@),
                None => package_ref_index_url(*self) is None,
            },
    {
        match self {
            PackageRef::Registry(registry) => Some(registry.index_url.clone()),
            PackageRef::Git(_) => None,
            PackageRef::Wally(wally) => Some(wally.index_url.clone()),
        }
    }

    /// The package as `name@version`
    pub fn to_string(&self) -> (r: String)
        ensures
            r@ == crate::package_name::name_text(package_ref_name(*self)) + seq!['@'] + package_ref_version(*self),
    {
        let mut s = self.name().to_string();
        crate::text::string_push(&mut s, '@');
        s.append(self.version().as_str());
        s
    }
}

} // verus!
