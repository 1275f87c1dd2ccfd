//! Index configuration and the URLs it gives
use vstd::prelude::*;

use crate::dependencies::resolution::{first_entry, has_entry, IndexFileEntry};
use crate::strmap::StrMap;
use crate::text::{
    chars_of, has_suffix, replace_all, replace_str, str_eq, str_to_string, string_from_range,
};

verus! {

/// What `url::Url::parse` makes of a string: the serialization of the parsed URL
pub uninterp spec fn parsed_url(s: Seq<char>) -> Option<Seq<char>>;

#[verifier::external_type_specification]
#[verifier::external_body]
pub struct ExUrlParseError(url::ParseError);

/// `url::Url::parse`, giving the serialization of the URL (`Url::as_str`).
#[verifier::external_body]
pub(crate) fn parse_url(s: &str) -> (r: Result<String, url::ParseError>)
    ensures
        match r {
            Ok(u) => parsed_url(s@) == Some(u@),
            Err(_) => parsed_url(s@) is None,
        },
{
    match url::Url::parse(s) {
        Ok(u) => Ok(u.as_str().to_string()),
        Err(e) => Err(e),
    }
}

/// The configuration of the index
#[derive(Debug, Clone)]
pub struct IndexConfig {
    /// The URL of the index's API
    pub api: String,
    /// The URL of the index's download API, defaults to `{API_URL}/v0/packages/{PACKAGE_AUTHOR}/{PACKAGE_NAME}/{PACKAGE_VERSION}`.
    pub download: Option<String>,
    /// Whether to allow git dependencies
    pub git_allowed: bool,
    /// Whether to allow custom registries
    pub custom_registry_allowed: bool,
    /// The OAuth client ID for GitHub OAuth
    pub github_oauth_client_id: String,
}

/// The API URL without one trailing `/`
pub open spec fn spec_api(api: Seq<char>) -> Seq<char> {
    if api.len() > 0 && api.last() == '/' {
        api.drop_last()
    } else {
        api
    }
}

/// The download URL template that an index uses when it names none
pub open spec fn default_download_template() -> Seq<char> {
    "{API_URL}/v0/packages/{PACKAGE_AUTHOR}/{PACKAGE_NAME}/{PACKAGE_VERSION}"@
}

/// The download URL template with the API URL filled in
pub open spec fn spec_download(api: Seq<char>, download: Option<Seq<char>>) -> Seq<char> {
    let template = match download {
        Some(d) => d,
        None => default_download_template(),
    };
    replace_all(template, "{API_URL}"@, spec_api(api))
}

impl IndexConfig {
    /// Gets the URL of the index's API
    pub fn api(&self) -> (r: String)
        ensures
            r@ == spec_api(self.api@),
    {
        let cs = chars_of(self.api.as_str());
        let n = cs.len();
        if n > 0 && cs[n - 1] == '/' {
            let r = string_from_range(cs.as_slice(), 0, n - 1);
            assert(r@ =~= self.api@.drop_last());
            r
        } else {
            self.api.clone()
        }
    }

    /// Gets the URL of the index's download API
    pub fn download(&self) -> (r: String)
        ensures
            r@ == spec_download(self.api@, match self.download { Some(d) => Some(d@), None => None }),
    {
        let template = match &self.download {
            Some(d) => d.clone(),
            None => str_to_string("{API_URL}/v0/packages/{PACKAGE_AUTHOR}/{PACKAGE_NAME}/{PACKAGE_VERSION}"),
        };
        let api = self.api();
        proof {
            reveal_strlit("{API_URL}");
        }
        replace_str(template.as_str(), "{API_URL}", api.as_str())
    }
}

/// The download URL of a package from a download template
pub open spec fn spec_package_download_url(template: Seq<char>, author: Seq<char>, name: Seq<char>, version: Seq<char>) -> Seq<char> {
    replace_all(
        replace_all(replace_all(template, "{PACKAGE_AUTHOR}"@, author), "{PACKAGE_NAME}"@, name),
        "{PACKAGE_VERSION}"@,
        version,
    )
}

/// Fills in the package variables of a download template
pub fn package_download_url(template: &str, author: &str, name: &str, version: &str) -> (r: String)
    ensures
        r@ == spec_package_download_url(template@, author@, name@, version@),
{
    proof {
        reveal_strlit("{PACKAGE_AUTHOR}");
        reveal_strlit("{PACKAGE_NAME}");
        reveal_strlit("{PACKAGE_VERSION}");
    }
    let a = replace_str(template, "{PACKAGE_AUTHOR}", author);
    let b = replace_str(a.as_str(), "{PACKAGE_NAME}", name);
    replace_str(b.as_str(), "{PACKAGE_VERSION}", version)
}

/// The owners of a scope decide who may publish into it
#[derive(Debug, Clone, Copy, PartialEq, Eq, Structural)]
pub enum ScopeDecision {
    /// The uploader owns the scope
    Owner,
    /// The scope does not exist yet; it is to be created with the uploader as
    /// its only owner
    Create,
    /// The scope belongs to others, or its folder exists without an owners file
    NotOwner,
}

/// Whether `v` holds `x`
fn contains_u64(v: &Vec<u64>, x: u64) -> (r: bool)
    ensures
        r == v@.contains(x),
{
    let mut i: usize = 0;
    while i < v.len()
        invariant
            i <= v@.len(),
            forall|j: int| 0 <= j < i ==> v@[j] != x,
        decreases v@.len() - i,
    {
        if v[i] == x {
            assert(v@[i as int] == x);
            return true;
        }
        i = i + 1;
    }
    false
}

/// What the index decides of an upload into a scope, from the scope's owners
/// (none when it has no owners file) and whether its folder exists
pub open spec fn spec_scope_decision(owners: Option<Seq<u64>>, scope_exists: bool, uploader: u64) -> ScopeDecision {
    match owners {
        Some(o) => if o.contains(uploader) {
            ScopeDecision::Owner
        } else {
            ScopeDecision::NotOwner
        },
        None => if scope_exists {
            ScopeDecision::NotOwner
        } else {
            ScopeDecision::Create
        },
    }
}

/// Whether an uploader may publish into a scope with the given owners (none
/// when the scope has no owners file), whose folder exists or not
pub fn scope_decision(owners: Option<&Vec<u64>>, scope_exists: bool, uploader: u64) -> (r: ScopeDecision)
    ensures
        r == spec_scope_decision(
            match owners {
                Some(o) => Some(o@),
                None => None,
            },
            scope_exists,
            uploader,
        ),
{
    match owners {
        Some(o) => if contains_u64(o, uploader) {
            ScopeDecision::Owner
        } else {
            ScopeDecision::NotOwner
        },
        None => if scope_exists {
            ScopeDecision::NotOwner
        } else {
            ScopeDecision::Create
        },
    }
}

/// A package's index file after adding `entry`: the entry goes at the end,
/// unless the file has an entry of that version already
pub open spec fn file_after_add(file: Seq<IndexFileEntry>, entry: IndexFileEntry) -> Seq<IndexFileEntry> {
    if has_entry(file, entry.version@) {
        file
    } else {
        file.push(entry)
    }
}

/// Adds a version to a package's index file: the entry goes at the end, unless
/// the file has an entry of that version already, in which case nothing changes
/// and `false` comes back
pub fn add_version_entry(file: &mut Vec<IndexFileEntry>, entry: IndexFileEntry) -> (r: bool)
    ensures
        r == !has_entry(old(file)@, entry.version@),
        final(file)@ == file_after_add(old(file)@, entry),
{
    match first_entry(file, &entry.version) {
        Some(_) => false,
        None => {
            file.push(entry);
            true
        },
    }
}

/// An error that occurred while adding a version to an index
#[derive(Debug, PartialEq, Eq, Structural)]
pub enum CreatePackageVersionError {
    /// The uploader does not own the scope
    MissingScopeOwnership,
}

/// What adding a version changes in an index: the owners of a scope it
/// creates, and whether the version was added to the package's file
#[derive(Debug)]
pub struct IndexUpdate {
    /// The owners of the scope, when the scope is created
    pub new_scope_owners: Option<Vec<u64>>,
    /// Whether the version was added (it was not in the file yet)
    pub added: bool,
}

/// Adds the version `entry` of a package to the index, for `uploader`: the
/// scope's owners (none without an owners file) and whether its folder exists
/// decide; then `file` (the package's index file, empty if it has none) gains
/// the entry unless it has that version already. A new scope gets the uploader
/// as its only owner.
pub fn create_package_version(
    owners: Option<&Vec<u64>>,
    scope_exists: bool,
    uploader: u64,
    file: &mut Vec<IndexFileEntry>,
    entry: IndexFileEntry,
) -> (r: Result<IndexUpdate, CreatePackageVersionError>)
    ensures
        ({
            let d = spec_scope_decision(
                match owners {
                    Some(o) => Some(o@),
                    None => None,
                },
                scope_exists,
                uploader,
            );
            match r {
                Err(e) => {
                    &&& d == ScopeDecision::NotOwner
                    &&& e == CreatePackageVersionError::MissingScopeOwnership
                    &&& final(file)@ == old(file)@
                },
                Ok(u) => {
                    &&& d != ScopeDecision::NotOwner
                    &&& u.added == !has_entry(old(file)@, entry.version@)
                    &&& final(file)@ == file_after_add(old(file)@, entry)
                    &&& match u.new_scope_owners {
                        Some(n) => d == ScopeDecision::Create && n@ == seq![uploader],
                        None => d == ScopeDecision::Owner,
                    }
                },
            }
        }),
{
    let new_scope_owners = match scope_decision(owners, scope_exists, uploader) {
        ScopeDecision::NotOwner => return Err(CreatePackageVersionError::MissingScopeOwnership),
        ScopeDecision::Owner => None,
        ScopeDecision::Create => {
            let mut o: Vec<u64> = Vec::new();
            o.push(uploader);
            Some(o)
        },
    };
    let added = add_version_entry(file, entry);
    Ok(IndexUpdate { new_scope_owners, added })
}

/// Law: once a version is in an index file, adding that version again is
/// refused and leaves the file as it was.
pub proof fn law_add_version_twice(file: Seq<IndexFileEntry>, entry: IndexFileEntry, again: IndexFileEntry)
    requires
        again.version@ == entry.version@,
    ensures
        has_entry(file_after_add(file, entry), again.version@),
        file_after_add(file_after_add(file, entry), again) == file_after_add(file, entry),
{
    let once = file_after_add(file, entry);
    if !has_entry(file, entry.version@) {
        assert(once[file.len() as int] == entry);
    }
}

/// `default`: the index used when none is named
pub open spec fn default_name() -> Seq<char> {
    seq!['d', 'e', 'f', 'a', 'u', 'l', 't']
}

/// The URL of the index named `name` (the default index when none is named),
/// falling back to the default index when there is no index of that name
pub open spec fn spec_get_index(indices: StrMap<String>, name: Option<Seq<char>>) -> Option<Seq<char>> {
    let n = match name {
        Some(x) => x,
        None => default_name(),
    };
    if indices.contains_key(n) {
        Some(indices.spec_get(n)->Some_0@)
    } else if indices.contains_key(default_name()) {
        Some(indices.spec_get(default_name())->Some_0@)
    } else {
        None
    }
}

/// The URL of the index named `name`, the default index standing in for a
/// missing one (and for no name)
pub fn get_index<'a>(indices: &'a StrMap<String>, name: Option<&str>) -> (r: &'a String)
    requires
        indices.wf(),
        spec_get_index(*indices, match name { Some(x) => Some(x@), None => None }) is Some,
    ensures
        Some(r@) == spec_get_index(*indices, match name { Some(x) => Some(x@), None => None }),
{
    let default = crate::dependencies::registry::default_index_name();
    proof {
        assert(default@ == default_name());
    }
    let n = match name {
        Some(x) => x,
        None => default.as_str(),
    };
    match indices.get(n) {
        Some(u) => u,
        None => match indices.get(default.as_str()) {
            Some(u) => u,
            None => {
                proof {
                    assert(false);
                }
                indices.value_at(0)
            },
        },
    }
}

/// The URL of the index a dependency of a package names by its URL (`url`, in
/// parsed form): the first index whose URL parses to it (`parsed` holds the
/// parsed URL of each index, in order), else the default index
pub open spec fn spec_get_index_by_url(indices: StrMap<String>, parsed: Seq<Option<Seq<char>>>, url: Seq<char>) -> Option<Seq<char>> {
    if exists|i: int| 0 <= i < parsed.len() && parsed[i] == Some(url) {
        let i = choose|i: int| 0 <= i < parsed.len() && parsed[i] == Some(url) && forall|j: int| 0 <= j < i ==> parsed[j] != Some(url);
        Some(indices.ev()[i].1@)
    } else {
        spec_get_index(indices, None)
    }
}

/// The parsed URLs, as values
pub open spec fn parsed_view(parsed: Seq<Option<String>>) -> Seq<Option<Seq<char>>> {
    parsed.map_values(|p: Option<String>| match p {
        Some(u) => Some(u@),
        None => None,
    })
}

/// The index a dependency of a package names by its URL, given the parsed URL
/// of each index in order: the first index whose URL parses to it, else the
/// default index
pub fn get_index_by_url<'a>(indices: &'a StrMap<String>, parsed: &Vec<Option<String>>, url: &str) -> (r: &'a String)
    requires
        indices.wf(),
        parsed@.len() == indices.ev().len(),
        spec_get_index_by_url(*indices, parsed_view(parsed@), url@) is Some,
    ensures
        Some(r@) == spec_get_index_by_url(*indices, parsed_view(parsed@), url@),
{
    let ghost pv = parsed_view(parsed@);
    let mut i: usize = 0;
    while i < parsed.len()
        invariant
            pv == parsed_view(parsed@),
            parsed@.len() == indices.ev().len(),
            i <= parsed@.len(),
            forall|j: int| 0 <= j < i ==> pv[j] != Some(url@),
        decreases parsed@.len() - i,
    {
        let hit = match &parsed[i] {
            Some(u) => str_eq(u.as_str(), url),
            None => false,
        };
        proof {
            assert(pv[i as int] == match parsed@[i as int] {
                Some(u) => Some(u@),
                None => None::<Seq<char>>,
            });
        }
        if hit {
            proof {
                let k = choose|k: int| 0 <= k < pv.len() && pv[k] == Some(url@) && forall|j: int| 0 <= j < k ==> pv[j] != Some(url@);
                assert(0 <= i < pv.len() && pv[i as int] == Some(url@) && forall|j: int| 0 <= j < i ==> pv[j] != Some(url@));
                if k < i {
                } else if k > i {
                }
                assert(k == i);
            }
            return indices.value_at(i);
        }
        i = i + 1;
    }
    get_index(indices, None)
}

/// The URL a registry dependency is looked up under: for a dependency of the
/// project, that of the index it names (the default one standing in for a
/// missing one); for a dependency of a package, which names its index by URL,
/// that of the first index with that URL, else the default index. The URL is
/// given in parsed form. `None` where no such index exists (the index named is
/// missing and so is the default one).
pub open spec fn spec_dependency_index_url(
    indices: StrMap<String>,
    parsed: Seq<Option<Seq<char>>>,
    index: Seq<char>,
    of_project: bool,
) -> Option<Result<Seq<char>, ()>> {
    let chosen = if of_project {
        spec_get_index(indices, Some(index))
    } else {
        match parsed_url(index) {
            Some(u) => spec_get_index_by_url(indices, parsed, u),
            None => Some(index),
        }
    };
    match chosen {
        None => None,
        Some(c) => if !of_project && parsed_url(index) is None {
            Some(Err(()))
        } else {
            match parsed_url(c) {
                Some(u) => Some(Ok(u)),
                None => Some(Err(())),
            }
        },
    }
}

/// The URL (parsed) of the index a registry dependency is looked up in; see
/// `spec_dependency_index_url`. `None` where neither the index named nor the
/// default index exists.
pub fn dependency_index_url(indices: &StrMap<String>, index: &str, of_project: bool) -> (r: Option<Result<String, url::ParseError>>)
    requires
        indices.wf(),
    ensures
        ({
            let parsed = indices.ev().map_values(|e: (Seq<char>, String)| parsed_url(e.1@));
            match (r, spec_dependency_index_url(*indices, parsed, index@, of_project)) {
                (None, None) => true,
                (Some(Ok(u)), Some(Ok(v))) => u@ == v,
                (Some(Err(_)), Some(Err(_))) => true,
                _ => false,
            }
        }),
{
    let ghost target = indices.ev().map_values(|e: (Seq<char>, String)| parsed_url(e.1@));
    let mut parsed: Vec<Option<String>> = Vec::new();
    let mut i: usize = 0;
    while i < indices.len()
        invariant
            indices.wf(),
            i <= indices.ev().len(),
            parsed@.len() == i,
            target == indices.ev().map_values(|e: (Seq<char>, String)| parsed_url(e.1@)),
            parsed_view(parsed@) == target.take(i as int),
        decreases indices.ev().len() - i,
    {
        let v = indices.value_at(i);
        let p = match parse_url(v.as_str()) {
            Ok(u) => Some(u),
            Err(_) => None,
        };
        proof {
            assert(target.len() == indices.ev().len());
            assert(target[i as int] == parsed_url(indices.ev()[i as int].1@));
            assert(match p { Some(u) => Some(u@), None => None::<Seq<char>> } == target[i as int]);
        }
        let ghost before = parsed@;
        parsed.push(p);
        proof {
            assert forall|j: int| 0 <= j < i + 1 implies parsed_view(parsed@)[j] == target.take(i + 1)[j] by {
                if j < i {
                    assert(parsed@[j] == before[j]);
                    assert(parsed_view(before)[j] == target.take(i as int)[j]);
                }
            }
            assert(parsed_view(parsed@) =~= target.take(i + 1));
        }
        i = i + 1;
    }
    assert(target.take(indices.ev().len() as int) =~= target);
    let chosen: &String = if of_project {
        if spec_get_index_none(indices, index) {
            return None;
        }
        get_index(indices, Some(index))
    } else {
        match parse_url(index) {
            Ok(u) => {
                if !has_match(&parsed, u.as_str()) && !indices.contains("default") {
                    proof {
                        reveal_strlit("default");
                        assert("default"@ =~= default_name());
                    }
                    return None;
                }
                proof {
                    reveal_strlit("default");
                    assert("default"@ =~= default_name());
                }
                get_index_by_url(indices, &parsed, u.as_str())
            },
            Err(e) => return Some(Err(e)),
        }
    };
    Some(parse_url(chosen.as_str()))
}

/// Whether some parsed URL is `url`
fn has_match(parsed: &Vec<Option<String>>, url: &str) -> (r: bool)
    ensures
        r == exists|i: int| 0 <= i < parsed@.len() && parsed_view(parsed@)[i] == Some(url@),
{
    let ghost pv = parsed_view(parsed@);
    let mut i: usize = 0;
    while i < parsed.len()
        invariant
            pv == parsed_view(parsed@),
            i <= parsed@.len(),
            forall|j: int| 0 <= j < i ==> pv[j] != Some(url@),
        decreases parsed@.len() - i,
    {
        let hit = match &parsed[i] {
            Some(u) => str_eq(u.as_str(), url),
            None => false,
        };
        proof {
            assert(pv[i as int] == match parsed@[i as int] {
                Some(u) => Some(u@),
                None => None::<Seq<char>>,
            });
        }
        if hit {
            return true;
        }
        i = i + 1;
    }
    false
}

/// Whether neither the index named `index` nor the default index exists
fn spec_get_index_none(indices: &StrMap<String>, index: &str) -> (r: bool)
    requires
        indices.wf(),
    ensures
        r == (spec_get_index(*indices, Some(index@)) is None),
{
    proof {
        reveal_strlit("default");
        assert("default"@ =~= default_name());
    }
    !indices.contains(index) && !indices.contains("default")
}

} // verus!
