//! Authentication settings: the default token, the tokens for particular index
//! URLs, and the credentials for git remotes
use vstd::prelude::*;

use crate::strmap::{entries_get, entries_insert, key_index, keys_sorted, lemma_entries_insert_get, lemma_entries_insert_sorted, StrMap};

verus! {

/// Credentials for a git remote
#[derive(Debug)]
pub struct GitAccount {
    /// The user name
    pub username: String,
    /// The password
    pub password: String,
}

impl Clone for GitAccount {
    fn clone(&self) -> (r: Self)
        ensures
            r == *self,
    {
        GitAccount { username: self.username.clone(), password: self.password.clone() }
    }
}

/// Struct containing the authentication configuration
#[derive(Debug)]
pub struct AuthConfig {
    default_token: Option<String>,
    token_overrides: StrMap<String>,
    git_credentials: Option<GitAccount>,
}

/// The authentication configuration, as a value
pub struct AuthConfigView {
    /// The default token
    pub default_token: Option<Seq<char>>,
    /// The token of each URL that has one of its own, in increasing URL order
    pub token_overrides: Seq<(Seq<char>, String)>,
    /// The credentials for git remotes
    pub git_credentials: Option<GitAccount>,
}

impl View for AuthConfig {
    type V = AuthConfigView;

    closed spec fn view(&self) -> AuthConfigView {
        AuthConfigView {
            default_token: match self.default_token {
                Some(t) => Some(t@),
                None => None,
            },
            token_overrides: self.token_overrides.ev(),
            git_credentials: self.git_credentials,
        }
    }
}

/// The overrides after giving each URL of `tokens` its token in turn (a URL
/// given twice keeps the later token)
pub open spec fn overrides_after(ev: Seq<(Seq<char>, String)>, tokens: Seq<(String, String)>) -> Seq<(Seq<char>, String)>
    decreases tokens.len(),
{
    if tokens.len() == 0 {
        ev
    } else {
        entries_insert(overrides_after(ev, tokens.drop_last()), tokens.last().0@, tokens.last().1)
    }
}

/// The token used for `url`: its own, else the default one
pub open spec fn token_for(v: AuthConfigView, url: Seq<char>) -> Option<Seq<char>> {
    match key_index(v.token_overrides.map_values(|e: (Seq<char>, String)| e.0), url) {
        Some(i) => Some(v.token_overrides[i].1@),
        None => v.default_token,
    }
}

/// The last token `tokens` gives `url`
pub open spec fn last_token(tokens: Seq<(String, String)>, url: Seq<char>) -> Option<Seq<char>>
    decreases tokens.len(),
{
    if tokens.len() == 0 {
        None
    } else if tokens.last().0@ == url {
        Some(tokens.last().1@)
    } else {
        last_token(tokens.drop_last(), url)
    }
}

/// The overrides set from `tokens` are sorted, and hold for each URL the last
/// token `tokens` gives it
proof fn lemma_overrides_after(tokens: Seq<(String, String)>, url: Seq<char>)
    ensures
        keys_sorted(overrides_after(Seq::empty(), tokens).map_values(|e: (Seq<char>, String)| e.0)),
        match entries_get(overrides_after(Seq::empty(), tokens), url) {
            Some(t) => last_token(tokens, url) == Some(t@),
            None => last_token(tokens, url) is None,
        },
    decreases tokens.len(),
{
    if tokens.len() == 0 {
        let e = Seq::<(Seq<char>, String)>::empty();
        assert(e.map_values(|e: (Seq<char>, String)| e.0) =~= Seq::<Seq<char>>::empty());
    } else {
        let prev = overrides_after(Seq::empty(), tokens.drop_last());
        lemma_overrides_after(tokens.drop_last(), url);
        lemma_entries_insert_sorted(prev, tokens.last().0@, tokens.last().1);
        lemma_entries_insert_get(prev, tokens.last().0@, tokens.last().1, url);
    }
}

/// Law: once the overrides are set from `tokens`, the token used for a URL is
/// the last one `tokens` gives it, else the default token.
pub proof fn law_token_for_overrides(v: AuthConfigView, tokens: Seq<(String, String)>, url: Seq<char>)
    requires
        v.token_overrides == overrides_after(Seq::empty(), tokens),
    ensures
        token_for(v, url) == (match last_token(tokens, url) {
            Some(t) => Some(t),
            None => v.default_token,
        }),
{
    lemma_overrides_after(tokens, url);
}

impl AuthConfig {
    /// Whether the token overrides are in key order
    pub closed spec fn wf(self) -> bool {
        self.token_overrides.wf()
    }

    /// Create a new `AuthConfig`: no token, no override, no git credentials
    pub fn new() -> (r: Self)
        ensures
            r.wf(),
            r@.default_token is None,
            r@.token_overrides == Seq::<(Seq<char>, String)>::empty(),
            r@.git_credentials is None,
    {
        AuthConfig { default_token: None, token_overrides: StrMap::new(), git_credentials: None }
    }

    /// Sets the default token
    pub fn with_default_token(self, token: Option<&str>) -> (r: Self)
        requires
            self.wf(),
        ensures
            r.wf(),
            r@.default_token == (match token {
                Some(t) => Some(t@),
                None => None::<Seq<char>>,
            }),
            r@.token_overrides == self@.token_overrides,
            r@.git_credentials == self@.git_credentials,
    {
        let default_token = match token {
            Some(t) => Some(crate::text::str_to_string(t)),
            None => None,
        };
        AuthConfig { default_token, token_overrides: self.token_overrides, git_credentials: self.git_credentials }
    }

    /// Set the token overrides: each URL of `tokens` gets its token, a URL given
    /// twice the later one; the overrides set before are dropped
    pub fn with_token_overrides(self, tokens: Vec<(String, String)>) -> (r: Self)
        requires
            self.wf(),
        ensures
            r.wf(),
            r@.default_token == self@.default_token,
            r@.token_overrides == overrides_after(Seq::empty(), tokens@),
            r@.git_credentials == self@.git_credentials,
    {
        let mut overrides: StrMap<String> = StrMap::new();
        let mut i: usize = 0;
        while i < tokens.len()
            invariant
                i <= tokens@.len(),
                overrides.wf(),
                overrides.ev() == overrides_after(Seq::empty(), tokens@.take(i as int)),
            decreases tokens@.len() - i,
        {
            let (url, token) = &tokens[i];
            proof {
                assert(tokens@.take(i + 1).drop_last() =~= tokens@.take(i as int));
                assert(tokens@.take(i + 1).last() == tokens@[i as int]);
            }
            overrides.insert(url.clone(), token.clone());
            i = i + 1;
        }
        proof {
            assert(tokens@.take(tokens@.len() as int) =~= tokens@);
        }
        AuthConfig { default_token: self.default_token, token_overrides: overrides, git_credentials: self.git_credentials }
    }

    /// Set the git credentials
    pub fn with_git_credentials(self, git_credentials: Option<GitAccount>) -> (r: Self)
        requires
            self.wf(),
        ensures
            r.wf(),
            r@.default_token == self@.default_token,
            r@.token_overrides == self@.token_overrides,
            r@.git_credentials == git_credentials,
    {
        AuthConfig { default_token: self.default_token, token_overrides: self.token_overrides, git_credentials }
    }

    /// Get the default token
    pub fn default_token(&self) -> (r: Option<&str>)
        ensures
            match r {
                Some(t) => self@.default_token == Some(t@),
                None => self@.default_token is None,
            },
    {
        match &self.default_token {
            Some(t) => Some(t.as_str()),
            None => None,
        }
    }

    /// Get the token overrides
    pub fn token_overrides(&self) -> (r: &StrMap<String>)
        ensures
            r.ev() == self@.token_overrides,
    {
        &self.token_overrides
    }

    /// Get the git credentials
    pub fn git_credentials(&self) -> (r: Option<&GitAccount>)
        ensures
            match r {
                Some(a) => self@.git_credentials == Some(*a),
                None => self@.git_credentials is None,
            },
    {
        match &self.git_credentials {
            Some(a) => Some(a),
            None => None,
        }
    }

    /// The token to use for `url`: the one set for it, else the default token
    pub fn get_token(&self, url: &str) -> (r: Option<&str>)
        requires
            self.wf(),
        ensures
            match r {
                Some(t) => token_for(self@, url@) == Some(t@),
                None => token_for(self@, url@) is None,
            },
    {
        match self.token_overrides.get(url) {
            Some(t) => Some(t.as_str()),
            None => self.default_token(),
        }
    }
}

} // verus!
