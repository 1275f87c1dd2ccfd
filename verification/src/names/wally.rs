//! Wally package names
use vstd::prelude::*;

use crate::names::errors::{WallyPackageNameError, WallyPackageNameErrorView};
use crate::names::{replace_first, ErrorReason};
use crate::text::{
    byte_len, chars_of, contains_char, has_prefix, index_of, is_ascii_digit, is_ascii_lowercase,
    lemma_find_first_concat, split_once, starts_with, str_to_string, string_from_chars,
    string_from_range, string_push, utf8_len,
};

verus! {

/// `wally#`
pub open spec fn wally_prefix() -> Seq<char> {
    seq!['w', 'a', 'l', 'l', 'y', '#']
}

/// The characters of `wally#`
pub fn wally_prefix_chars() -> (v: Vec<char>)
    ensures
        v@ == wally_prefix(),
{
    let mut v: Vec<char> = Vec::new();
    v.push('w');
    v.push('a');
    v.push('l');
    v.push('l');
    v.push('y');
    v.push('#');
    assert(v@ =~= wally_prefix());
    v
}

/// The characters of a Wally scope or name: a-z, 0-9 and `-`
pub open spec fn is_wally_name_char(c: char) -> bool {
    is_ascii_lowercase(c) || is_ascii_digit(c) || c == '-'
}

pub open spec fn all_wally_name_chars(p: Seq<char>) -> bool {
    forall|i: int| 0 <= i < p.len() ==> is_wally_name_char(#[trigger] p[i])
}

/// The first rule that a Wally scope or name part breaks
pub open spec fn wally_part_error(reason: ErrorReason, p: Seq<char>) -> Option<WallyPackageNameErrorView> {
    if p.len() == 0 || utf8_len(p) > 64 {
        Some(WallyPackageNameErrorView::InvalidLength(reason, p))
    } else if !all_wally_name_chars(p) {
        Some(WallyPackageNameErrorView::InvalidCharacters(reason, p))
    } else {
        None
    }
}

/// A valid Wally part: 1 to 64 bytes of lowercase ASCII letters, digits and dashes
pub open spec fn is_valid_wally_part(p: Seq<char>) -> bool {
    p.len() > 0 && utf8_len(p) <= 64 && all_wally_name_chars(p)
}

/// The result of parsing `s` as a Wally name (an optional `wally#` prefix, then `scope/name`)
pub open spec fn parse_wally_name(s: Seq<char>) -> Result<(Seq<char>, Seq<char>), WallyPackageNameErrorView> {
    let t = if has_prefix(s, wally_prefix()) { s.skip(6) } else { s };
    match split_once(t, '/') {
        None => Err(WallyPackageNameErrorView::InvalidFormat(s)),
        Some((scope, name)) => match wally_part_error(ErrorReason::Scope, scope) {
            Some(e) => Err(e),
            None => match wally_part_error(ErrorReason::Name, name) {
                Some(e) => Err(e),
                None => Ok((scope, name)),
            },
        },
    }
}

/// `scope/name`
pub open spec fn wally_plain_text(scope: Seq<char>, name: Seq<char>) -> Seq<char> {
    scope + seq!['/'] + name
}

/// `wally#scope/name`
pub open spec fn wally_name_text(scope: Seq<char>, name: Seq<char>) -> Seq<char> {
    wally_prefix() + scope + seq!['/'] + name
}

/// `wally#scope+name`
pub open spec fn wally_name_escaped(scope: Seq<char>, name: Seq<char>) -> Seq<char> {
    wally_prefix() + scope + seq!['+'] + name
}

/// A Wally package name
#[derive(Debug)]
pub struct WallyPackageName(String, String);

impl Clone for WallyPackageName {
    fn clone(&self) -> (r: Self)
        ensures
            r == *self,
    {
        WallyPackageName(self.0.clone(), self.1.clone())
    }
}

impl View for WallyPackageName {
    type V = (Seq<char>, Seq<char>);

    closed spec fn view(&self) -> (Seq<char>, Seq<char>) {
        (self.0@, self.1@)
    }
}

fn check_wally_part(reason: ErrorReason, part: &String) -> (r: Option<WallyPackageNameError>)
    ensures
        match r {
            Some(e) => wally_part_error(reason, part@) == Some(e@),
            None => wally_part_error(reason, part@) is None,
        },
{
    let cs = chars_of(part.as_str());
    if cs.len() == 0 || byte_len(part.as_str()) > 64 {
        return Some(WallyPackageNameError::InvalidLength(reason, part.clone()));
    }
    let mut i: usize = 0;
    while i < cs.len()
        invariant
            cs@ == part@,
            part@.len() > 0,
            utf8_len(part@) <= 64,
            i <= cs@.len(),
            forall|j: int| 0 <= j < i ==> is_wally_name_char(#[trigger] cs@[j]),
        decreases cs@.len() - i,
    {
        let c = cs[i];
        if !(('0' <= c && c <= '9') || ('a' <= c && c <= 'z') || c == '-') {
            assert(!is_wally_name_char(cs@[i as int]));
            assert(!all_wally_name_chars(part@));
            return Some(WallyPackageNameError::InvalidCharacters(reason, part.clone()));
        }
        i = i + 1;
    }
    None
}

impl WallyPackageName {
    pub open spec fn wf(self) -> bool {
        is_valid_wally_part(self@.0) && is_valid_wally_part(self@.1)
    }

    /// Parses a Wally name, with or without its `wally#` prefix
    pub fn from_str(s: &str) -> (r: Result<WallyPackageName, WallyPackageNameError>)
        ensures
            crate::names::view_result(r) == parse_wally_name(s@),
            r matches Ok(n) ==> n.wf(),
    {
        let all = chars_of(s);
        let prefix = wally_prefix_chars();
        let cs: Vec<char> = if starts_with(all.as_slice(), prefix.as_slice()) {
            let rest = vstd::slice::slice_subrange(all.as_slice(), prefix.len(), all.len());
            vstd::slice::slice_to_vec(rest)
        } else {
            all
        };
        proof {
            if has_prefix(s@, wally_prefix()) {
                assert(cs@ =~= s@.skip(6));
            }
        }
        let i = match index_of(cs.as_slice(), '/') {
            Some(i) => i,
            None => {
                return Err(WallyPackageNameError::InvalidFormat(str_to_string(s)));
            },
        };
        let scope = string_from_range(cs.as_slice(), 0, i);
        let name = string_from_range(cs.as_slice(), i + 1, cs.len());
        proof {
            assert(scope@ =~= cs@.take(i as int));
            assert(name@ =~= cs@.skip(i as int + 1));
        }
        if let Some(e) = check_wally_part(ErrorReason::Scope, &scope) {
            return Err(e);
        }
        if let Some(e) = check_wally_part(ErrorReason::Name, &name) {
            return Err(e);
        }
        Ok(WallyPackageName(scope, name))
    }

    /// The name as `wally#scope/name`
    pub fn to_string(&self) -> (s: String)
        ensures
            s@ == wally_name_text(self@.0, self@.1),
    {
        let p = wally_prefix_chars();
        let mut s = string_from_chars(p.as_slice());
        s.append(self.0.as_str());
        string_push(&mut s, '/');
        s.append(self.1.as_str());
        s
    }

    /// Returns the parts of the package name
    pub fn as_str(&self) -> (r: (&str, &str))
        ensures
            r.0@ == self@.0,
            r.1@ == self@.1,
    {
        (self.0.as_str(), self.1.as_str())
    }

    /// Returns the package name as a string suitable for use in the filesystem
    pub fn escaped(&self) -> (s: String)
        ensures
            s@ == wally_name_escaped(self@.0, self@.1),
    {
        let p = wally_prefix_chars();
        let mut s = string_from_chars(p.as_slice());
        s.append(self.0.as_str());
        string_push(&mut s, '+');
        s.append(self.1.as_str());
        s
    }
}

/// A valid Wally part holds no `/`, `+` or `#`.
pub proof fn lemma_wally_part_chars(p: Seq<char>, c: char)
    requires
        is_valid_wally_part(p),
        c == '/' || c == '+' || c == '#',
    ensures
        !p.contains(c),
{
    if p.contains(c) {
        let j = choose|j: int| 0 <= j < p.len() && p[j] == c;
        assert(is_wally_name_char(p[j]));
    }
}

/// Law: `scope/name` of valid parts parses back to those parts.
pub proof fn law_wally_plain_parse(scope: Seq<char>, name: Seq<char>)
    requires
        is_valid_wally_part(scope),
        is_valid_wally_part(name),
    ensures
        parse_wally_name(wally_plain_text(scope, name)) == Ok::<_, WallyPackageNameErrorView>((scope, name)),
{
    let t = wally_plain_text(scope, name);
    lemma_wally_part_chars(scope, '/');
    lemma_wally_part_chars(scope, '#');
    if has_prefix(t, wally_prefix()) {
        assert(t.take(6)[5] == '#');
        assert(t[5] == '#');
        if 5 < scope.len() {
            assert(scope[5] == '#');
        }
    }
    lemma_find_first_concat(scope, '/', name);
}

/// Law: the printed form `wally#scope/name` of valid parts parses back to those parts.
pub proof fn law_wally_name_round_trip(scope: Seq<char>, name: Seq<char>)
    requires
        is_valid_wally_part(scope),
        is_valid_wally_part(name),
    ensures
        parse_wally_name(wally_name_text(scope, name)) == Ok::<_, WallyPackageNameErrorView>((scope, name)),
{
    let s = wally_name_text(scope, name);
    let t = wally_plain_text(scope, name);
    assert(s.take(6) =~= wally_prefix());
    assert(s.skip(6) =~= t);
    lemma_wally_part_chars(scope, '/');
    lemma_find_first_concat(scope, '/', name);
}

/// The first `+` of an escaped Wally name is the one between scope and name.
pub proof fn lemma_wally_escaped_split(scope: Seq<char>, name: Seq<char>)
    requires
        is_valid_wally_part(scope),
        is_valid_wally_part(name),
    ensures
        replace_first(wally_name_escaped(scope, name), '+', '/') == wally_name_text(scope, name),
{
    let head = wally_prefix() + scope;
    lemma_wally_part_chars(scope, '+');
    assert(!head.contains('+')) by {
        if head.contains('+') {
            let j = choose|j: int| 0 <= j < head.len() && head[j] == '+';
            if j >= 6 {
                assert(scope[j - 6] == '+');
            }
        }
    }
    assert(wally_name_escaped(scope, name) =~= head + seq!['+'] + name);
    lemma_find_first_concat(head, '+', name);
    assert(wally_name_text(scope, name) =~= head + seq!['/'] + name);
}

} // verus!
