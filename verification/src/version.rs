//! Semantic versions and version requirements, held as their text and checked,
//! compared and matched by the `semver` crate
use vstd::prelude::*;

use crate::keyed::KeyEq;
use crate::strmap::KeyOrder;
use crate::text::str_eq;

verus! {

/// Whether `semver::Version::parse` accepts the text
pub uninterp spec fn semver_valid(s: Seq<char>) -> bool;

/// The text that `Display` writes for the version parsed from a text
pub uninterp spec fn semver_display(s: Seq<char>) -> Seq<char>;

/// How `semver::Version::cmp` orders the versions parsed from two texts
pub uninterp spec fn semver_order(a: Seq<char>, b: Seq<char>) -> KeyOrder;

/// Whether `semver::VersionReq::parse` accepts the text
pub uninterp spec fn semver_req_valid(s: Seq<char>) -> bool;

/// The text that `Display` writes for the requirement parsed from a text
pub uninterp spec fn semver_req_display(s: Seq<char>) -> Seq<char>;

/// Whether `semver::VersionReq::matches` holds for the requirement and version parsed from two texts
pub uninterp spec fn semver_req_matches(req: Seq<char>, v: Seq<char>) -> bool;

/// Whether semver's comparison orders the versions of `vs` as a total order
/// does (as `semver::Version`'s `Ord` does): each version is equal to itself,
/// the answer either way round is the opposite one, and "not below" is
/// transitive
pub open spec fn ordered_totally(vs: Seq<Seq<char>>) -> bool {
    &&& forall|a: Seq<char>| #[trigger] vs.contains(a) ==> semver_order(a, a) == KeyOrder::Equal
    &&& forall|a: Seq<char>, b: Seq<char>| #![trigger semver_order(a, b)] vs.contains(a) && vs.contains(b)
        ==> (semver_order(a, b) == KeyOrder::Less <==> semver_order(b, a) == KeyOrder::Greater)
    &&& forall|a: Seq<char>, b: Seq<char>, c: Seq<char>| #![trigger semver_order(a, b), semver_order(b, c)]
        vs.contains(a) && vs.contains(b) && vs.contains(c) && semver_order(a, b) != KeyOrder::Less
            && semver_order(b, c) != KeyOrder::Less ==> semver_order(a, c) != KeyOrder::Less
}

/// A total order on some versions is one on any of them
pub proof fn lemma_ordered_totally_drop_last(vs: Seq<Seq<char>>)
    requires
        vs.len() > 0,
        ordered_totally(vs),
    ensures
        ordered_totally(vs.drop_last()),
{
    let p = vs.drop_last();
    assert forall|a: Seq<char>| p.contains(a) implies vs.contains(a) by {
        let j = choose|j: int| 0 <= j < p.len() && p[j] == a;
        assert(vs[j] == a);
    }
}

#[verifier::external_type_specification]
#[verifier::external_body]
pub struct ExSemverError(semver::Error);

/// `semver::Version::parse`, then `Display`: whether the text is a version,
/// and the text of the parsed version, which parses again (the crate's serde
/// support writes versions with `Display` and reads them with `parse`).
#[verifier::external_body]
fn check_version(s: &str) -> (r: Result<String, semver::Error>)
    ensures
        (r is Ok) == semver_valid(s@),
        r matches Ok(t) ==> t@ == semver_display(s@) && semver_valid(t@),
{
    semver::Version::parse(s).map(|v| v.to_string())
}

/// `semver::Version::cmp` on the versions of two valid texts.
#[verifier::external_body]
fn compare_versions(a: &str, b: &str) -> (r: KeyOrder)
    requires
        semver_valid(a@),
        semver_valid(b@),
    ensures
        r == semver_order(a@, b@),
{
    let x = semver::Version::parse(a).unwrap();
    let y = semver::Version::parse(b).unwrap();
    match x.cmp(&y) {
        core::cmp::Ordering::Less => KeyOrder::Less,
        core::cmp::Ordering::Equal => KeyOrder::Equal,
        core::cmp::Ordering::Greater => KeyOrder::Greater,
    }
}

/// `semver::VersionReq::parse`, then `Display`: whether the text is a version
/// requirement, and the text of the parsed requirement, which parses again.
#[verifier::external_body]
fn check_version_req(s: &str) -> (r: Result<String, semver::Error>)
    ensures
        (r is Ok) == semver_req_valid(s@),
        r matches Ok(t) ==> t@ == semver_req_display(s@) && semver_req_valid(t@),
{
    semver::VersionReq::parse(s).map(|v| v.to_string())
}

/// `semver::VersionReq::matches` on a valid requirement text and a valid version text.
#[verifier::external_body]
fn requirement_matches(req: &str, v: &str) -> (r: bool)
    requires
        semver_req_valid(req@),
        semver_valid(v@),
    ensures
        r == semver_req_matches(req@, v@),
{
    let r = semver::VersionReq::parse(req).unwrap();
    let v = semver::Version::parse(v).unwrap();
    r.matches(&v)
}

/// A semantic version
#[derive(Debug)]
pub struct Version(String);

impl View for Version {
    type V = Seq<char>;

    closed spec fn view(&self) -> Seq<char> {
        self.0@
    }
}

impl Version {
    #[verifier::type_invariant]
    closed spec fn inv(self) -> bool {
        semver_valid(self.0@)
    }

    /// Parses a version; the version keeps the text that `Display` writes for it
    pub fn parse(s: &str) -> (r: Result<Version, semver::Error>)
        ensures
            (r is Ok) == semver_valid(s@),
            r matches Ok(v) ==> v@ == semver_display(s@),
    {
        let t = check_version(s)?;
        Ok(Version(t))
    }

    /// The text of the version
    pub fn to_string(&self) -> (r: String)
        ensures
            r@ == self@,
    {
        self.0.clone()
    }

    /// The text of the version
    pub fn as_str(&self) -> (r: &str)
        ensures
            r@ == self@,
    {
        self.0.as_str()
    }

    /// Compares two versions by semver precedence
    pub fn compare(&self, other: &Version) -> (r: KeyOrder)
        ensures
            r == semver_order(self@, other@),
    {
        proof {
            use_type_invariant(self);
            use_type_invariant(other);
        }
        compare_versions(self.0.as_str(), other.0.as_str())
    }
}

impl Clone for Version {
    fn clone(&self) -> (r: Self)
        ensures
            r == *self,
    {
        proof {
            use_type_invariant(self);
        }
        Version(self.0.clone())
    }
}

impl KeyEq for Version {
    fn key_eq(&self, other: &Self) -> (r: bool) {
        str_eq(self.0.as_str(), other.0.as_str())
    }
}

/// A semantic version requirement
#[derive(Debug)]
pub struct VersionReq(String);

impl View for VersionReq {
    type V = Seq<char>;

    closed spec fn view(&self) -> Seq<char> {
        self.0@
    }
}

impl VersionReq {
    #[verifier::type_invariant]
    closed spec fn inv(self) -> bool {
        semver_req_valid(self.0@)
    }

    /// Parses a version requirement; the requirement keeps the text that
    /// `Display` writes for it
    pub fn parse(s: &str) -> (r: Result<VersionReq, semver::Error>)
        ensures
            (r is Ok) == semver_req_valid(s@),
            r matches Ok(v) ==> v@ == semver_req_display(s@),
    {
        let t = check_version_req(s)?;
        Ok(VersionReq(t))
    }

    /// The text of the requirement
    pub fn to_string(&self) -> (r: String)
        ensures
            r@ == self@,
    {
        self.0.clone()
    }

    /// The text of the requirement
    pub fn as_str(&self) -> (r: &str)
        ensures
            r@ == self@,
    {
        self.0.as_str()
    }

    /// Whether a version meets the requirement
    pub fn matches(&self, v: &Version) -> (r: bool)
        ensures
            r == semver_req_matches(self@, v@),
    {
        proof {
            use_type_invariant(self);
            use_type_invariant(v);
        }
        requirement_matches(self.0.as_str(), v.as_str())
    }
}

impl Clone for VersionReq {
    fn clone(&self) -> (r: Self)
        ensures
            r == *self,
    {
        proof {
            use_type_invariant(self);
        }
        VersionReq(self.0.clone())
    }
}

impl KeyEq for VersionReq {
    fn key_eq(&self, other: &Self) -> (r: bool) {
        str_eq(self.0.as_str(), other.0.as_str())
    }
}

} // verus!
