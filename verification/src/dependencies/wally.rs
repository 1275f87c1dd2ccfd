//! Wally dependency related stuff
use vstd::prelude::*;

use crate::manifest::Realm;
use crate::dependencies::{DependencySpecifier, SpecifierView};
use crate::package_name::{
    spec_from_str, FromStrPackageNameParseError, FromStrPackageNameParseErrorView, NameKind, PartErrorView, WallyPackageName,
    WallyPackageNameValidationError,
};
use crate::strmap::{entries_insert, key_index, count_below, StrMap};
use crate::index::{parse_url, parsed_url};
use crate::text::{chars_of, string_from_chars, trim_end_all, trim_end_matches};
use crate::version::{semver_req_display, semver_req_valid, Version, VersionReq};

verus! {

/// A dependency of a package that can be downloaded from a wally registry
#[derive(Debug)]
pub struct WallyDependencySpecifier {
    /// The name of the package
    pub name: WallyPackageName,
    /// The version requirement of the package
    pub version: VersionReq,
    /// The url of the index
    pub index_url: String,
    /// The realm of the package
    pub realm: Option<Realm>,
}

impl Clone for WallyDependencySpecifier {
    fn clone(&self) -> (r: Self)
        ensures
            r == *self,
    {
        WallyDependencySpecifier {
            name: self.name.clone(),
            version: self.version.clone(),
            index_url: self.index_url.clone(),
            realm: self.realm,
        }
    }
}

/// A reference to a package that can be downloaded from a wally registry
#[derive(Debug)]
pub struct WallyPackageRef {
    /// The name of the package
    pub name: WallyPackageName,
    /// The version of the package
    pub version: Version,
    /// The index URL of the package
    pub index_url: String,
}

impl Clone for WallyPackageRef {
    fn clone(&self) -> (r: Self)
        ensures
            r == *self,
    {
        WallyPackageRef { name: self.name.clone(), version: self.version.clone(), index_url: self.index_url.clone() }
    }
}

/// The contents URL of a Wally package before parsing, for the serialized API URL
pub open spec fn wally_contents_text(api: Seq<char>, scope: Seq<char>, name: Seq<char>, version: Seq<char>) -> Seq<char> {
    trim_end_all(api, seq!['/']) + "/v1/package-contents/"@ + scope + seq!['/'] + name + seq!['/'] + version
}

impl WallyPackageRef {
    /// Resolves the download URL of the package from the API URL of its index
    pub fn resolve_url(&self, api_url: &str) -> (r: Result<String, url::ParseError>)
        ensures
            match parsed_url(api_url@) {
                None => r is Err,
                Some(api) => match r {
                    Ok(u) => parsed_url(wally_contents_text(api, self.name@.0, self.name@.1, self.version@)) == Some(u@),
                    Err(_) => parsed_url(wally_contents_text(api, self.name@.0, self.name@.1, self.version@)) is None,
                },
            },
    {
        let api = parse_url(api_url)?;
        let cs = chars_of(api.as_str());
        let slash = vec!['/'];
        let trimmed = trim_end_matches(cs.as_slice(), slash.as_slice());
        let mut url = string_from_chars(trimmed.as_slice());
        url.append("/v1/package-contents/");
        url.append(self.name.scope());
        crate::text::string_push(&mut url, '/');
        url.append(self.name.name());
        crate::text::string_push(&mut url, '/');
        let v = self.version.to_string();
        url.append(v.as_str());
        proof {
            reveal_strlit("/v1/package-contents/");
            assert(slash@ =~= seq!['/']);
            assert(url@ =~= wally_contents_text(api@, self.name@.0, self.name@.1, self.version@));
        }
        parse_url(url.as_str())
    }
}

/// The manifest of a Wally package, as far as its dependencies go
#[derive(Debug)]
pub struct WallyManifest {
    /// The URL of the registry the package comes from
    pub registry: String,
    /// The shared dependencies: name to `scope/name@requirement`
    pub dependencies: StrMap<String>,
    /// The server dependencies
    pub server_dependencies: StrMap<String>,
    /// The development dependencies
    pub dev_dependencies: StrMap<String>,
}

/// An error that occurred while converting a wally manifest's dependencies
#[derive(Debug)]
pub enum WallyManifestDependencyError {
    /// The dependency specifier has no `@`
    InvalidDependencySpecifier(String),
    /// The package name is invalid
    PackageName(FromStrPackageNameParseError<WallyPackageNameValidationError>),
    /// The version requirement is invalid
    VersionReq(semver::Error),
}

/// What goes wrong with a dependency text, as plain values
pub enum WallyDependencyErrorView {
    InvalidDependencySpecifier(Seq<char>),
    PackageName(FromStrPackageNameParseErrorView<PartErrorView>),
    VersionReq,
}

impl View for WallyManifestDependencyError {
    type V = WallyDependencyErrorView;

    open spec fn view(&self) -> WallyDependencyErrorView {
        match self {
            WallyManifestDependencyError::InvalidDependencySpecifier(s) => WallyDependencyErrorView::InvalidDependencySpecifier(s@),
            WallyManifestDependencyError::PackageName(e) => WallyDependencyErrorView::PackageName(e@),
            WallyManifestDependencyError::VersionReq(_) => WallyDependencyErrorView::VersionReq,
        }
    }
}

/// What a dependency text `scope/name@requirement` of a Wally manifest gives:
/// the name parts and the requirement's text
pub open spec fn wally_dependency(text: Seq<char>) -> Result<((Seq<char>, Seq<char>), Seq<char>), WallyDependencyErrorView> {
    match crate::text::split_once(text, '@') {
        None => Err(WallyDependencyErrorView::InvalidDependencySpecifier(text)),
        Some((name, req)) => match spec_from_str(NameKind::Wally, name) {
            Err(e) => Err(WallyDependencyErrorView::PackageName(e)),
            Ok(n) => if semver_req_valid(req) {
                Ok((n, semver_req_display(req)))
            } else {
                Err(WallyDependencyErrorView::VersionReq)
            },
        },
    }
}

/// The dependencies of a Wally manifest with their realms: shared, then
/// server, then development ones, each table in key order
pub open spec fn wally_entries(m: WallyManifest) -> Seq<(Seq<char>, Seq<char>, Realm)> {
    m.dependencies.ev().map_values(|e: (Seq<char>, String)| (e.0, e.1@, Realm::Shared)) + m.server_dependencies.ev().map_values(
        |e: (Seq<char>, String)| (e.0, e.1@, Realm::Server),
    ) + m.dev_dependencies.ev().map_values(|e: (Seq<char>, String)| (e.0, e.1@, Realm::Development))
}

/// Converting the entries in order into specifiers, a later name replacing an
/// earlier one, failing at the first invalid text
pub open spec fn wally_fold(
    acc: Seq<(Seq<char>, SpecifierView)>,
    es: Seq<(Seq<char>, Seq<char>, Realm)>,
    index_url: Seq<char>,
) -> Result<Seq<(Seq<char>, SpecifierView)>, WallyDependencyErrorView>
    decreases es.len(),
{
    if es.len() == 0 {
        Ok(acc)
    } else {
        match wally_dependency(es[0].1) {
            Err(e) => Err(e),
            Ok((n, req)) => wally_fold(
                entries_insert(acc, es[0].0, SpecifierView::Wally { name: n, version: req, index_url, realm: Some(es[0].2) }),
                es.drop_first(),
                index_url,
            ),
        }
    }
}

/// The entries of a map of specifiers, as plain values
pub open spec fn specifier_entries(ev: Seq<(Seq<char>, DependencySpecifier)>) -> Seq<(Seq<char>, SpecifierView)> {
    ev.map_values(|e: (Seq<char>, DependencySpecifier)| (e.0, e.1@))
}

/// Setting a key commutes with taking the plain values of the entries.
pub proof fn lemma_specifier_entries_insert(ev: Seq<(Seq<char>, DependencySpecifier)>, k: Seq<char>, v: DependencySpecifier)
    ensures
        specifier_entries(entries_insert(ev, k, v)) == entries_insert(specifier_entries(ev), k, v@),
{
    let keys = ev.map_values(|e: (Seq<char>, DependencySpecifier)| e.0);
    let vkeys = specifier_entries(ev).map_values(|e: (Seq<char>, SpecifierView)| e.0);
    assert(keys =~= vkeys);
    match key_index(keys, k) {
        Some(i) => {
            assert(specifier_entries(ev.update(i, (k, v))) =~= specifier_entries(ev).update(i, (k, v@)));
        },
        None => {
            let c = count_below(keys, k);
            lemma_count_below_range(keys, k);
            assert(specifier_entries(ev.insert(c, (k, v))) =~= specifier_entries(ev).insert(c, (k, v@)));
        },
    }
}

/// The number of keys below a key is at most the number of keys.
proof fn lemma_count_below_range(keys: Seq<Seq<char>>, k: Seq<char>)
    ensures
        0 <= count_below(keys, k) <= keys.len(),
    decreases keys.len(),
{
    if keys.len() > 0 {
        lemma_count_below_range(keys.drop_first(), k);
    }
}

/// Converts one dependency text of a Wally manifest into a specifier
fn parse_wally_dependency(text: &String, realm: Realm, index_url: &String) -> (r: Result<DependencySpecifier, WallyManifestDependencyError>)
    ensures
        match wally_dependency(text@) {
            Ok((n, req)) => r matches Ok(d) && d@ == (SpecifierView::Wally { name: n, version: req, index_url: index_url@, realm: Some(realm) }),
            Err(e) => r matches Err(x) && x@ == e,
        },
{
    let cs = crate::text::chars_of(text.as_str());
    let at = match crate::text::index_of(cs.as_slice(), '@') {
        None => {
            return Err(WallyManifestDependencyError::InvalidDependencySpecifier(text.clone()));
        },
        Some(i) => i,
    };
    let name_text = crate::text::string_from_range(cs.as_slice(), 0, at);
    let req_text = crate::text::string_from_range(cs.as_slice(), at + 1, cs.len());
    proof {
        assert(name_text@ =~= text@.take(at as int));
        assert(req_text@ =~= text@.skip(at + 1));
    }
    let name = match WallyPackageName::from_str(name_text.as_str()) {
        Ok(n) => n,
        Err(e) => return Err(WallyManifestDependencyError::PackageName(e)),
    };
    let version = match VersionReq::parse(req_text.as_str()) {
        Ok(v) => v,
        Err(e) => return Err(WallyManifestDependencyError::VersionReq(e)),
    };
    Ok(DependencySpecifier::Wally(WallyDependencySpecifier { name, version, index_url: index_url.clone(), realm: Some(realm) }))
}

/// Converts the dependencies of a Wally manifest into specifiers: shared, then
/// server, then development dependencies, a later name replacing an earlier one
pub fn parse_wally_dependencies(manifest: &WallyManifest) -> (r: Result<StrMap<DependencySpecifier>, WallyManifestDependencyError>)
    requires
        manifest.dependencies.wf(),
        manifest.server_dependencies.wf(),
        manifest.dev_dependencies.wf(),
    ensures
        match wally_fold(Seq::empty(), wally_entries(*manifest), manifest.registry@) {
            Ok(es) => r matches Ok(m) && m.wf() && specifier_entries(m.ev()) == es,
            Err(e) => r matches Err(x) && x@ == e,
        },
{
    let ghost all = wally_entries(*manifest);
    let mut out: StrMap<DependencySpecifier> = StrMap::new();
    proof {
        assert(specifier_entries(out.ev()) =~= Seq::<(Seq<char>, SpecifierView)>::empty());
        assert(all.skip(0) =~= all);
    }
    let ghost a = manifest.dependencies.ev().map_values(|e: (Seq<char>, String)| (e.0, e.1@, Realm::Shared));
    let ghost b = manifest.server_dependencies.ev().map_values(|e: (Seq<char>, String)| (e.0, e.1@, Realm::Server));
    let ghost c = manifest.dev_dependencies.ev().map_values(|e: (Seq<char>, String)| (e.0, e.1@, Realm::Development));
    proof {
        assert(all.subrange(0, a.len() as int) =~= a);
        assert(all.subrange(a.len() as int, (a.len() + b.len()) as int) =~= b);
        assert(all.subrange((a.len() + b.len()) as int, (a.len() + b.len() + c.len()) as int) =~= c);
    }
    wally_table(&mut out, &manifest.dependencies, Realm::Shared, &manifest.registry, Ghost(all), Ghost(0))?;
    wally_table(&mut out, &manifest.server_dependencies, Realm::Server, &manifest.registry, Ghost(all), Ghost(a.len() as int))?;
    wally_table(&mut out, &manifest.dev_dependencies, Realm::Development, &manifest.registry, Ghost(all), Ghost((a.len() + b.len()) as int))?;
    proof {
        assert(all.skip(all.len() as int) =~= Seq::<(Seq<char>, Seq<char>, Realm)>::empty());
    }
    Ok(out)
}

/// Converts one table's dependencies, which stand at `pos` in `all`
fn wally_table(
    out: &mut StrMap<DependencySpecifier>,
    table: &StrMap<String>,
    realm: Realm,
    index_url: &String,
    Ghost(all): Ghost<Seq<(Seq<char>, Seq<char>, Realm)>>,
    Ghost(pos): Ghost<int>,
) -> (r: Result<(), WallyManifestDependencyError>)
    requires
        old(out).wf(),
        0 <= pos,
        pos + table.ev().len() <= all.len(),
        all.subrange(pos, pos + table.ev().len()) == table.ev().map_values(|e: (Seq<char>, String)| (e.0, e.1@, realm)),
        wally_fold(Seq::empty(), all, index_url@) == wally_fold(specifier_entries(old(out).ev()), all.skip(pos), index_url@),
    ensures
        final(out).wf(),
        match r {
            Ok(()) => wally_fold(Seq::empty(), all, index_url@) == wally_fold(specifier_entries(final(out).ev()), all.skip(pos + table.ev().len()), index_url@),
            Err(e) => wally_fold(Seq::empty(), all, index_url@) == Err::<Seq<(Seq<char>, SpecifierView)>, _>(e@),
        },
{
    let mut i: usize = 0;
    while i < table.len()
        invariant
            out.wf(),
            0 <= pos,
            pos + table.ev().len() <= all.len(),
            all.subrange(pos, pos + table.ev().len()) == table.ev().map_values(|e: (Seq<char>, String)| (e.0, e.1@, realm)),
            i <= table.ev().len(),
            wally_fold(Seq::empty(), all, index_url@) == wally_fold(specifier_entries(out.ev()), all.skip(pos + i), index_url@),
        decreases table.ev().len() - i,
    {
        let key = table.key_at(i);
        let text = table.value_at(i);
        let ghost rest = all.skip(pos + i);
        proof {
            assert(rest[0] == all.subrange(pos, pos + table.ev().len())[i as int]);
            assert(rest[0] == (key@, text@, realm));
            assert(rest.drop_first() =~= all.skip(pos + i + 1));
        }
        let spec = match parse_wally_dependency(text, realm, index_url) {
            Ok(d) => d,
            Err(e) => return Err(e),
        };
        let ghost before = out.ev();
        let ghost sv = spec@;
        out.insert(key.clone(), spec);
        proof {
            lemma_specifier_entries_insert(before, key@, spec);
        }
        i = i + 1;
    }
    Ok(())
}

} // verus!
