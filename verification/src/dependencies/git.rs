//! Git dependency related stuff
use vstd::prelude::*;

use crate::manifest::Realm;
use crate::package_name::{spec_new, NameKind, PartErrorView, StandardPackageName, StandardPackageNameValidationError};
use crate::index::{parse_url, parsed_url};
use crate::text::{chars_of, contains_char, str_to_string, string_from_chars, trim_end_all, trim_end_matches};
use crate::version::Version;

verus! {

/// A dependency of a package that can be downloaded from a git repository
#[derive(Debug)]
pub struct GitDependencySpecifier {
    /// The URL of the git repository (can be in the form of `owner/repo`, in which case it will default to GitHub)
    pub repo: String,
    /// The revision of the git repository to use
    pub rev: String,
    /// The realm of the package
    pub realm: Option<Realm>,
}

impl Clone for GitDependencySpecifier {
    fn clone(&self) -> (r: Self)
        ensures
            r == *self,
    {
        GitDependencySpecifier { repo: self.repo.clone(), rev: self.rev.clone(), realm: self.realm }
    }
}

/// The text of a git dependency's repository URL: `repo` itself where it holds a
/// `:` (a URL, ssh ones included), else the GitHub repository `owner/repo` names
pub open spec fn repo_url_text(repo: Seq<char>) -> Seq<char> {
    if repo.contains(':') {
        repo
    } else {
        "https://github.com/"@ + repo + ".git"@
    }
}

impl GitDependencySpecifier {
    /// The URL of the repository, as `url::Url` serializes it
    pub fn repo_url(&self) -> (r: Result<String, url::ParseError>)
        ensures
            match r {
                Ok(u) => parsed_url(repo_url_text(self.repo@)) == Some(u@),
                Err(_) => parsed_url(repo_url_text(self.repo@)) is None,
            },
    {
        let cs = chars_of(self.repo.as_str());
        if contains_char(cs.as_slice(), ':') {
            parse_url(self.repo.as_str())
        } else {
            let mut text = str_to_string("https://github.com/");
            text.append(self.repo.as_str());
            text.append(".git");
            proof {
                assert(text@ =~= repo_url_text(self.repo@));
            }
            parse_url(text.as_str())
        }
    }
}

/// A reference to a package that can be downloaded from a git repository
#[derive(Debug)]
pub struct GitPackageRef {
    /// The name of the package
    pub name: StandardPackageName,
    /// The version of the package
    pub version: Version,
    /// The URL of the git repository
    pub repo_url: String,
    /// The revision of the git repository to use
    pub rev: String,
}

impl Clone for GitPackageRef {
    fn clone(&self) -> (r: Self)
        ensures
            r == *self,
    {
        GitPackageRef {
            name: self.name.clone(),
            version: self.version.clone(),
            repo_url: self.repo_url.clone(),
            rev: self.rev.clone(),
        }
    }
}

/// Whether `char::is_uppercase` holds of a character
pub uninterp spec fn char_uppercase(c: char) -> bool;

/// The characters that `char::to_lowercase` gives for a character
pub uninterp spec fn char_lowercase(c: char) -> Seq<char>;

/// `char::is_uppercase`
#[verifier::external_body]
fn is_uppercase(c: char) -> (r: bool)
    ensures
        r == char_uppercase(c),
{
    c.is_uppercase()
}

/// `char::to_lowercase`, collected into a string
#[verifier::external_body]
fn to_lowercase(c: char) -> (r: String)
    ensures
        r@ == char_lowercase(c),
{
    c.to_lowercase().collect()
}

/// What the `i`-th character `c` becomes in snake case: an uppercase letter
/// becomes its lowercase form, after `_` unless it is the first; `-` becomes `_`
pub open spec fn snake_piece(i: int, c: char) -> Seq<char> {
    if char_uppercase(c) {
        (if i == 0 {
            Seq::empty()
        } else {
            seq!['_']
        }) + char_lowercase(c)
    } else if c == '-' {
        seq!['_']
    } else {
        seq![c]
    }
}

/// A text in snake case, character by character
pub open spec fn snake_case(s: Seq<char>) -> Seq<char>
    decreases s.len(),
{
    if s.len() == 0 {
        Seq::empty()
    } else {
        snake_case(s.drop_last()) + snake_piece(s.len() - 1, s.last())
    }
}

/// Converts a text to snake case
pub fn to_snake_case(s: &str) -> (r: String)
    ensures
        r@ == snake_case(s@),
{
    let cs = crate::text::chars_of(s);
    let mut out = String::new();
    let mut i: usize = 0;
    while i < cs.len()
        invariant
            cs@ == s@,
            i <= cs@.len(),
            out@ == snake_case(s@.take(i as int)),
        decreases cs@.len() - i,
    {
        let c = cs[i];
        let ghost before = out@;
        if is_uppercase(c) {
            if i != 0 {
                crate::text::string_push(&mut out, '_');
            }
            let lower = to_lowercase(c);
            out.append(lower.as_str());
        } else if c == '-' {
            crate::text::string_push(&mut out, '_');
        } else {
            crate::text::string_push(&mut out, c);
        }
        proof {
            assert(s@.take(i + 1).drop_last() =~= s@.take(i as int));
            assert(s@.take(i + 1).last() == c);
            assert(out@ =~= before + snake_piece(i as int, c));
        }
        i = i + 1;
    }
    proof {
        assert(s@.take(i as int) =~= s@);
    }
    out
}

/// Law: a text with no uppercase letter and no `-` is already in snake case.
pub proof fn law_snake_case_plain(s: Seq<char>)
    requires
        forall|i: int| 0 <= i < s.len() ==> !char_uppercase(#[trigger] s[i]) && s[i] != '-',
    ensures
        snake_case(s) == s,
    decreases s.len(),
{
    if s.len() > 0 {
        assert forall|i: int| 0 <= i < s.drop_last().len() implies !char_uppercase(#[trigger] s.drop_last()[i]) && s.drop_last()[i] != '-' by {
            assert(s.drop_last()[i] == s[i]);
        }
        law_snake_case_plain(s.drop_last());
        assert(!char_uppercase(s[s.len() - 1]));
        assert(s =~= s.drop_last() + seq![s.last()]);
    }
}

/// The segments of the path of the URL a text parses to, as
/// `url::Url::path_segments` gives them (none where the text is no URL or the
/// URL cannot be a base)
pub uninterp spec fn url_path_segments(s: Seq<char>) -> Option<Seq<Seq<char>>>;

/// `url::Url::path_segments` of the URL `url::Url::parse` makes of the text
#[verifier::external_body]
fn path_segments(url: &str) -> (r: Option<Vec<String>>)
    ensures
        match r {
            Some(v) => url_path_segments(url@) == Some(v@.map_values(|x: String| x@)),
            None => url_path_segments(url@) is None,
        },
{
    match url::Url::parse(url) {
        Ok(u) => u.path_segments().map(|segments| segments.map(|x| x.to_string()).collect()),
        Err(_) => None,
    }
}

/// Why no name could be made for a git package without a manifest
#[derive(Debug)]
pub enum GitNameError {
    /// The repository's URL has no scope and name in its path
    ScopeAndNameFromUrl,
    /// The scope or name made from the URL is no valid part of a name
    Name(StandardPackageNameValidationError),
}

/// The name a git package without a manifest gets, from the segments of its
/// repository's path: the first two in snake case, the second without its
/// trailing `.git`s; `None` where there are not two segments
pub open spec fn spec_git_package_name(segments: Option<Seq<Seq<char>>>) -> Option<Result<(Seq<char>, Seq<char>), PartErrorView>> {
    match segments {
        Some(s) => if s.len() >= 2 {
            Some(spec_new(NameKind::Standard, snake_case(s[0]), snake_case(trim_end_all(s[1], ".git"@))))
        } else {
            None
        },
        None => None,
    }
}

/// The name of a git package without a manifest, from the path segments of
/// its repository's URL
pub fn git_package_name(segments: Option<Vec<String>>) -> (r: Result<StandardPackageName, GitNameError>)
    ensures
        match spec_git_package_name(match segments { Some(v) => Some(v@.map_values(|x: String| x@)), None => None }) {
            None => r matches Err(GitNameError::ScopeAndNameFromUrl),
            Some(Ok(n)) => r matches Ok(x) && x@ == n,
            Some(Err(e)) => r matches Err(GitNameError::Name(x)) && x@ == e,
        },
{
    let v = match segments {
        Some(v) => v,
        None => return Err(GitNameError::ScopeAndNameFromUrl),
    };
    if v.len() < 2 {
        return Err(GitNameError::ScopeAndNameFromUrl);
    }
    let scope = to_snake_case(v[0].as_str());
    let nc = chars_of(v[1].as_str());
    let git = chars_of(".git");
    let trimmed = string_from_chars(trim_end_matches(nc.as_slice(), git.as_slice()).as_slice());
    let name = to_snake_case(trimmed.as_str());
    proof {
        assert(v@.map_values(|x: String| x@)[0] == v@[0]@);
        assert(v@.map_values(|x: String| x@)[1] == v@[1]@);
    }
    match StandardPackageName::new(scope.as_str(), name.as_str()) {
        Ok(n) => Ok(n),
        Err(e) => Err(GitNameError::Name(e)),
    }
}

/// The name of a git package without a manifest, from its repository's URL
pub fn repository_package_name(repo_url: &str) -> (r: Result<StandardPackageName, GitNameError>)
    ensures
        match spec_git_package_name(url_path_segments(repo_url@)) {
            None => r matches Err(GitNameError::ScopeAndNameFromUrl),
            Some(Ok(n)) => r matches Ok(x) && x@ == n,
            Some(Err(e)) => r matches Err(GitNameError::Name(x)) && x@ == e,
        },
{
    git_package_name(path_segments(repo_url))
}

} // verus!
