//! Decisions of the command line tool: where the API token is kept, the
//! script that runs a bundled script, and the repository of the tool
use vstd::prelude::*;

use crate::text::{split_all, split_chars, str_to_string};

verus! {

/// The `i`-th source in the order they are tried: the environment variable,
/// the auth file, the keyring
pub open spec fn source_at(i: int) -> ApiTokenSource {
    if i == 0 {
        ApiTokenSource::EnvVar
    } else if i == 1 {
        ApiTokenSource::ConfigFile
    } else {
        ApiTokenSource::Keyring
    }
}

/// Where the API token is kept
#[derive(Debug, Clone, Copy, PartialEq, Eq, Structural)]
pub enum ApiTokenSource {
    /// The environment variable
    EnvVar,
    /// The auth file of the tool's data folder
    ConfigFile,
    /// The system keyring
    Keyring,
}

impl ApiTokenSource {
    /// Whether a token written to this source is kept (an environment variable is not written)
    pub fn persists(&self) -> (r: bool)
        ensures
            r == !(*self is EnvVar),
    {
        !matches!(self, ApiTokenSource::EnvVar)
    }

    /// The sources, in the order they are tried
    pub fn sources() -> (r: Vec<ApiTokenSource>)
        ensures
            r@.len() == 3,
            forall|i: int| 0 <= i < 3 ==> #[trigger] r@[i] == source_at(i),
    {
        vec![ApiTokenSource::EnvVar, ApiTokenSource::ConfigFile, ApiTokenSource::Keyring]
    }
}

/// What reading the token from a source gave
#[derive(Debug, Clone, Copy, PartialEq, Eq, Structural)]
pub enum TokenLookup {
    /// A token is there
    Found,
    /// No token is there
    Missing,
    /// Reading failed
    Failed,
}

/// Whether a source may be used: it holds a token, or it holds none and keeps one written to it
pub open spec fn usable(s: ApiTokenSource, l: TokenLookup) -> bool {
    l is Found || (l is Missing && !(s is EnvVar))
}

/// The source to use, given what reading each source (in the order of
/// `ApiTokenSource::sources`) gave: the first that holds a token, else the
/// last that holds none and keeps one written to it
pub open spec fn chosen_source(l: Seq<TokenLookup>) -> ApiTokenSource {
    if l[0] is Found {
        ApiTokenSource::EnvVar
    } else if l[1] is Found {
        ApiTokenSource::ConfigFile
    } else if l[2] is Found {
        ApiTokenSource::Keyring
    } else if l[2] is Missing {
        ApiTokenSource::Keyring
    } else {
        ApiTokenSource::ConfigFile
    }
}

/// Chooses the source of the API token from what reading each source (in the
/// order of `ApiTokenSource::sources`) gave; some source must be usable
pub fn select_api_token_source(lookups: &Vec<TokenLookup>) -> (r: ApiTokenSource)
    requires
        lookups@.len() == 3,
        exists|i: int| 0 <= i < 3 && usable(source_at(i), #[trigger] lookups@[i]),
    ensures
        r == chosen_source(lookups@),
        usable(r, lookups@[if r is EnvVar { 0int } else if r is ConfigFile { 1int } else { 2int }]),
{
    if lookups[0] == TokenLookup::Found {
        ApiTokenSource::EnvVar
    } else if lookups[1] == TokenLookup::Found {
        ApiTokenSource::ConfigFile
    } else if lookups[2] == TokenLookup::Found {
        ApiTokenSource::Keyring
    } else if lookups[2] == TokenLookup::Missing {
        ApiTokenSource::Keyring
    } else {
        proof {
            let k = choose|k: int| 0 <= k < 3 && usable(source_at(k), #[trigger] lookups@[k]);
        }
        ApiTokenSource::ConfigFile
    }
}

/// The text of the script that runs a bundled script of the tool
pub open spec fn spec_script_contents(path: Seq<char>) -> Seq<char> {
    "local process = require(\"@lune/process\")   \nlocal home_dir = if process.os == \"windows\" then process.env.userprofile else process.env.HOME\n\nrequire(home_dir .. \"/.pesde/scripts/"@
        + path + "\")"@
}

/// The script that runs the bundled script at `path` of the tool's scripts folder
pub fn script_contents(path: &str) -> (r: String)
    ensures
        r@ == spec_script_contents(path@),
{
    let mut s = str_to_string(
        "local process = require(\"@lune/process\")   \nlocal home_dir = if process.os == \"windows\" then process.env.userprofile else process.env.HOME\n\nrequire(home_dir .. \"/.pesde/scripts/",
    );
    s.append(path);
    s.append("\")");
    s
}

/// The owner and name of the repository of a repository URL such as
/// `https://github.com/owner/repo`: the fourth and fifth parts between `/`
pub fn get_repo(repository: &str) -> (r: (String, String))
    requires
        split_all(repository@, '/').len() >= 5,
    ensures
        r.0@ == split_all(repository@, '/')[3],
        r.1@ == split_all(repository@, '/')[4],
{
    let cs = crate::text::chars_of(repository);
    let parts = split_chars(cs.as_slice(), '/');
    proof {
        assert(parts@.map_values(|p: String| p@)[3] == parts@[3]@);
        assert(parts@.map_values(|p: String| p@)[4] == parts@[4]@);
    }
    (parts[3].clone(), parts[4].clone())
}

} // verus!
