//! Package names: `scope/name` for pesde packages, `wally#scope/name` for Wally packages.
use vstd::prelude::*;

use crate::text::{
    byte_len, chars_of, contains_char, has_prefix, index_of, is_ascii_digit, is_ascii_lowercase,
    lemma_find_first_concat, split_once, starts_with, str_to_string, string_from_chars,
    string_from_range, string_push, utf8_len,
};

pub mod errors;
pub mod wally;

use self::errors::{PackageNameError, PackageNameErrorView, PackageNamesError};
use self::wally::WallyPackageName;

verus! {

/// The invalid part of a package name
#[derive(Debug, Clone, Copy, PartialEq, Eq, Structural)]
pub enum ErrorReason {
    /// The scope of the package name is invalid
    Scope,
    /// The name of the package name is invalid
    Name,
}

impl ErrorReason {
    pub open spec fn spec_text(self) -> Seq<char> {
        match self {
            ErrorReason::Scope => seq!['s', 'c', 'o', 'p', 'e'],
            ErrorReason::Name => seq!['n', 'a', 'm', 'e'],
        }
    }

    /// The part of the name that this reason names, as shown to users
    pub fn to_string(&self) -> (s: String)
        ensures
            s@ == self.spec_text(),
    {
        let mut s = String::new();
        match self {
            ErrorReason::Scope => {
                string_push(&mut s, 's');
                string_push(&mut s, 'c');
                string_push(&mut s, 'o');
                string_push(&mut s, 'p');
                string_push(&mut s, 'e');
            },
            ErrorReason::Name => {
                string_push(&mut s, 'n');
                string_push(&mut s, 'a');
                string_push(&mut s, 'm');
                string_push(&mut s, 'e');
            },
        }
        assert(s@ =~= self.spec_text());
        s
    }
}

/// The separator between the scope and the name
pub open spec fn separator() -> char {
    '/'
}

/// The separator used in the escaped (file system) form
pub open spec fn escaped_separator() -> char {
    '+'
}

/// The characters of a pesde scope or name: a-z, 0-9 and `_`
pub open spec fn is_pesde_name_char(c: char) -> bool {
    is_ascii_lowercase(c) || is_ascii_digit(c) || c == '_'
}

pub open spec fn all_digits(p: Seq<char>) -> bool {
    forall|i: int| 0 <= i < p.len() ==> is_ascii_digit(#[trigger] p[i])
}

pub open spec fn all_pesde_name_chars(p: Seq<char>) -> bool {
    forall|i: int| 0 <= i < p.len() ==> is_pesde_name_char(#[trigger] p[i])
}

pub open spec fn has_edge_underscore(p: Seq<char>) -> bool {
    p.len() > 0 && (p[0] == '_' || p[p.len() - 1] == '_')
}

/// The first rule that a scope or name part breaks, in the order the rules are checked
pub open spec fn pesde_part_error(reason: ErrorReason, p: Seq<char>) -> Option<PackageNameErrorView> {
    if utf8_len(p) < 3 || utf8_len(p) > 32 {
        Some(PackageNameErrorView::InvalidLength(reason, p))
    } else if all_digits(p) {
        Some(PackageNameErrorView::OnlyDigits(reason, p))
    } else if has_edge_underscore(p) {
        Some(PackageNameErrorView::PrePostfixUnderscore(reason, p))
    } else if !all_pesde_name_chars(p) {
        Some(PackageNameErrorView::InvalidCharacters(reason, p))
    } else {
        None
    }
}

/// A valid scope or name part: 3 to 32 bytes long, not only digits, no leading or
/// trailing underscore, and only lowercase ASCII letters, digits and underscores
pub open spec fn is_valid_pesde_part(p: Seq<char>) -> bool {
    &&& 3 <= utf8_len(p) <= 32
    &&& !all_digits(p)
    &&& !has_edge_underscore(p)
    &&& all_pesde_name_chars(p)
}

/// The result of parsing `s` as a pesde package name
pub open spec fn parse_pesde_name(s: Seq<char>) -> Result<(Seq<char>, Seq<char>), PackageNameErrorView> {
    match split_once(s, separator()) {
        None => Err(PackageNameErrorView::InvalidFormat(s)),
        Some((scope, name)) => match pesde_part_error(ErrorReason::Scope, scope) {
            Some(e) => Err(e),
            None => match pesde_part_error(ErrorReason::Name, name) {
                Some(e) => Err(e),
                None => Ok((scope, name)),
            },
        },
    }
}

/// `scope/name`
pub open spec fn pesde_name_text(scope: Seq<char>, name: Seq<char>) -> Seq<char> {
    scope + seq![separator()] + name
}

/// `scope+name`
pub open spec fn pesde_name_escaped(scope: Seq<char>, name: Seq<char>) -> Seq<char> {
    scope + seq![escaped_separator()] + name
}

pub open spec fn view_result<T: View, E: View>(r: Result<T, E>) -> Result<T::V, E::V> {
    match r {
        Ok(t) => Ok(t@),
        Err(e) => Err(e@),
    }
}

/// A pesde package name
#[derive(Debug)]
pub struct PackageName(String, String);

impl Clone for PackageName {
    fn clone(&self) -> (r: Self)
        ensures
            r == *self,
    {
        PackageName(self.0.clone(), self.1.clone())
    }
}

impl View for PackageName {
    type V = (Seq<char>, Seq<char>);

    closed spec fn view(&self) -> (Seq<char>, Seq<char>) {
        (self.0@, self.1@)
    }
}

/// Checks one part of a pesde package name, giving the first rule it breaks
fn check_pesde_part(reason: ErrorReason, part: &String) -> (r: Option<PackageNameError>)
    ensures
        match r {
            Some(e) => pesde_part_error(reason, part@) == Some(e@),
            None => pesde_part_error(reason, part@) is None,
        },
{
    let len = byte_len(part.as_str());
    if len < 3 || len > 32 {
        return Some(PackageNameError::InvalidLength(reason, part.clone()));
    }
    let cs = chars_of(part.as_str());
    let mut digits = true;
    let mut valid_chars = true;
    let mut i: usize = 0;
    while i < cs.len()
        invariant
            cs@ == part@,
            i <= cs@.len(),
            digits == (forall|j: int| 0 <= j < i ==> is_ascii_digit(#[trigger] cs@[j])),
            valid_chars == (forall|j: int| 0 <= j < i ==> is_pesde_name_char(#[trigger] cs@[j])),
        decreases cs@.len() - i,
    {
        let c = cs[i];
        let d = '0' <= c && c <= '9';
        let v = d || ('a' <= c && c <= 'z') || c == '_';
        proof {
            assert forall|j: int| 0 <= j < i + 1 implies (is_ascii_digit(#[trigger] cs@[j]) <==> (j < i
                ==> is_ascii_digit(cs@[j])) && (j == i ==> d)) by {}
        }
        digits = digits && d;
        valid_chars = valid_chars && v;
        i = i + 1;
    }
    if digits {
        return Some(PackageNameError::OnlyDigits(reason, part.clone()));
    }
    let n = cs.len();
    if n > 0 && (cs[0] == '_' || cs[n - 1] == '_') {
        return Some(PackageNameError::PrePostfixUnderscore(reason, part.clone()));
    }
    if !valid_chars {
        return Some(PackageNameError::InvalidCharacters(reason, part.clone()));
    }
    None
}

impl PackageName {
    /// Whether the parts of this name are valid
    pub open spec fn wf(self) -> bool {
        is_valid_pesde_part(self@.0) && is_valid_pesde_part(self@.1)
    }

    /// Parses a pesde package name in the format `scope/name`
    pub fn from_str(s: &str) -> (r: Result<PackageName, PackageNameError>)
        ensures
            view_result(r) == parse_pesde_name(s@),
            r matches Ok(n) ==> n.wf(),
    {
        let cs = chars_of(s);
        let idx = index_of(cs.as_slice(), '/');
        let i = match idx {
            Some(i) => i,
            None => {
                return Err(PackageNameError::InvalidFormat(str_to_string(s)));
            },
        };
        let scope = string_from_range(cs.as_slice(), 0, i);
        let name = string_from_range(cs.as_slice(), i + 1, cs.len());
        proof {
            assert(scope@ =~= s@.take(i as int));
            assert(name@ =~= s@.skip(i as int + 1));
        }
        if let Some(e) = check_pesde_part(ErrorReason::Scope, &scope) {
            return Err(e);
        }
        if let Some(e) = check_pesde_part(ErrorReason::Name, &name) {
            return Err(e);
        }
        proof {
            lemma_pesde_part_error_none(ErrorReason::Scope, scope@);
            lemma_pesde_part_error_none(ErrorReason::Name, name@);
        }
        Ok(PackageName(scope, name))
    }

    /// The name as `scope/name`
    pub fn to_string(&self) -> (s: String)
        ensures
            s@ == pesde_name_text(self@.0, self@.1),
    {
        let mut s = self.0.clone();
        string_push(&mut s, '/');
        s.append(self.1.as_str());
        s
    }

    /// Returns the parts of the package name
    pub fn as_str(&self) -> (r: (&str, &str))
        ensures
            r.0@ == self@.0,
            r.1@ == self@.1,
    {
        (self.0.as_str(), self.1.as_str())
    }

    /// Returns the package name as a string suitable for use in the filesystem
    pub fn escaped(&self) -> (s: String)
        ensures
            s@ == pesde_name_escaped(self@.0, self@.1),
    {
        let mut s = self.0.clone();
        string_push(&mut s, '+');
        s.append(self.1.as_str());
        s
    }
}

/// A part passes every check exactly when it is valid, whichever part it is.
pub proof fn lemma_pesde_part_error_none(reason: ErrorReason, p: Seq<char>)
    ensures
        (pesde_part_error(reason, p) is None) == is_valid_pesde_part(p),
{
}

/// A valid pesde part holds no separator, escape, `#` or `-`.
pub proof fn lemma_pesde_part_chars(p: Seq<char>, c: char)
    requires
        is_valid_pesde_part(p),
        c == '/' || c == '+' || c == '#' || c == '-',
    ensures
        !p.contains(c),
{
    if p.contains(c) {
        let j = choose|j: int| 0 <= j < p.len() && p[j] == c;
        assert(is_pesde_name_char(p[j]));
    }
}

/// Law: printing a valid pesde name and parsing the text gives the name back.
pub proof fn law_pesde_name_round_trip(scope: Seq<char>, name: Seq<char>)
    requires
        is_valid_pesde_part(scope),
        is_valid_pesde_part(name),
    ensures
        parse_pesde_name(pesde_name_text(scope, name)) == Ok::<_, PackageNameErrorView>((scope, name)),
{
    lemma_pesde_part_chars(scope, '/');
    lemma_find_first_concat(scope, '/', name);
}

/// All possible package names
#[derive(Debug)]
pub enum PackageNames {
    /// A pesde package name
    Pesde(PackageName),
    /// A Wally package name
    Wally(WallyPackageName),
}

impl Clone for PackageNames {
    fn clone(&self) -> (r: Self)
        ensures
            r == *self,
    {
        match self {
            PackageNames::Pesde(n) => PackageNames::Pesde(n.clone()),
            PackageNames::Wally(n) => PackageNames::Wally(n.clone()),
        }
    }
}

/// The mathematical value of a [`PackageNames`]
pub enum PackageNamesView {
    Pesde((Seq<char>, Seq<char>)),
    Wally((Seq<char>, Seq<char>)),
}

impl View for PackageNames {
    type V = PackageNamesView;

    open spec fn view(&self) -> PackageNamesView {
        match self {
            PackageNames::Pesde(n) => PackageNamesView::Pesde(n@),
            PackageNames::Wally(n) => PackageNamesView::Wally(n@),
        }
    }
}

/// Whether a name value is one that parsing can give
pub open spec fn package_names_valid(n: PackageNamesView) -> bool {
    match n {
        PackageNamesView::Pesde((a, b)) => is_valid_pesde_part(a) && is_valid_pesde_part(b),
        PackageNamesView::Wally((a, b)) => wally::is_valid_wally_part(a) && wally::is_valid_wally_part(b),
    }
}

/// The printed form of a name
pub open spec fn package_names_text(n: PackageNamesView) -> Seq<char> {
    match n {
        PackageNamesView::Pesde((a, b)) => pesde_name_text(a, b),
        PackageNamesView::Wally((a, b)) => wally::wally_name_text(a, b),
    }
}

/// The escaped (file system) form of a name
pub open spec fn package_names_escaped(n: PackageNamesView) -> Seq<char> {
    match n {
        PackageNamesView::Pesde((a, b)) => pesde_name_escaped(a, b),
        PackageNamesView::Wally((a, b)) => wally::wally_name_escaped(a, b),
    }
}

/// The string that is tried as a Wally name: after a `wally#` prefix, or the
/// whole string when it holds a `-`
pub open spec fn wally_candidate(s: Seq<char>) -> Option<Seq<char>> {
    if has_prefix(s, wally::wally_prefix()) {
        Some(s.skip(wally::wally_prefix().len() as int))
    } else if s.contains('-') {
        Some(s)
    } else {
        None
    }
}

/// The result of parsing `s` as any package name
pub open spec fn parse_package_names(s: Seq<char>) -> Result<PackageNamesView, Seq<char>> {
    match wally_candidate(s) {
        Some(t) if wally::parse_wally_name(t) is Ok => Ok(PackageNamesView::Wally(wally::parse_wally_name(t)->Ok_0)),
        _ => match parse_pesde_name(s) {
            Ok(n) => Ok(PackageNamesView::Pesde(n)),
            Err(_) => Err(s),
        },
    }
}

/// `s` with its first `from` replaced by `to` (what `str::replacen(from, to, 1)` returns)
pub open spec fn replace_first(s: Seq<char>, from: char, to: char) -> Seq<char> {
    match split_once(s, from) {
        Some((a, b)) => a + seq![to] + b,
        None => s,
    }
}

impl PackageNames {
    pub open spec fn wf(self) -> bool {
        package_names_valid(self@)
    }

    /// Returns the parts of the package name
    pub fn as_str(&self) -> (r: (&str, &str))
        ensures
            match self@ {
                PackageNamesView::Pesde(p) => r.0@ == p.0 && r.1@ == p.1,
                PackageNamesView::Wally(p) => r.0@ == p.0 && r.1@ == p.1,
            },
    {
        match self {
            PackageNames::Pesde(name) => name.as_str(),
            PackageNames::Wally(name) => name.as_str(),
        }
    }

    /// Returns the package name as a string suitable for use in the filesystem
    pub fn escaped(&self) -> (s: String)
        ensures
            s@ == package_names_escaped(self@),
    {
        match self {
            PackageNames::Pesde(name) => name.escaped(),
            PackageNames::Wally(name) => name.escaped(),
        }
    }

    /// The printed form of the name
    pub fn to_string(&self) -> (s: String)
        ensures
            s@ == package_names_text(self@),
    {
        match self {
            PackageNames::Pesde(name) => name.to_string(),
            PackageNames::Wally(name) => name.to_string(),
        }
    }

    /// Parses any package name: a Wally name when the string has a `wally#` prefix or
    /// holds a `-` and parses as one, a pesde name otherwise
    pub fn from_str(s: &str) -> (r: Result<PackageNames, PackageNamesError>)
        ensures
            view_result(r) == parse_package_names(s@),
            r matches Ok(n) ==> n.wf(),
    {
        let cs = chars_of(s);
        let prefix = wally::wally_prefix_chars();
        let candidate: Option<String> = if starts_with(cs.as_slice(), prefix.as_slice()) {
            Some(string_from_range(cs.as_slice(), prefix.len(), cs.len()))
        } else if contains_char(cs.as_slice(), '-') {
            Some(str_to_string(s))
        } else {
            None
        };
        proof {
            if has_prefix(s@, wally::wally_prefix()) {
                assert(candidate->0@ =~= s@.skip(6));
            }
        }
        if let Some(t) = candidate {
            if let Ok(w) = WallyPackageName::from_str(t.as_str()) {
                return Ok(PackageNames::Wally(w));
            }
        }
        match PackageName::from_str(s) {
            Ok(name) => Ok(PackageNames::Pesde(name)),
            Err(_) => Err(PackageNamesError::InvalidPackageName(str_to_string(s))),
        }
    }

    /// The reverse of `escaped`
    pub fn from_escaped(s: &str) -> (r: Result<PackageNames, PackageNamesError>)
        ensures
            view_result(r) == parse_package_names(replace_first(s@, '+', '/')),
            r matches Ok(n) ==> n.wf(),
    {
        let cs = chars_of(s);
        let replaced = match index_of(cs.as_slice(), '+') {
            Some(i) => {
                let n = cs.len();
                assert(i < n);
                let mut t = string_from_range(cs.as_slice(), 0, i);
                string_push(&mut t, '/');
                let rest = string_from_range(cs.as_slice(), i + 1, n);
                t.append(rest.as_str());
                t
            },
            None => str_to_string(s),
        };
        proof {
            assert(replaced@ =~= replace_first(s@, '+', '/'));
        }
        PackageNames::from_str(replaced.as_str())
    }
}

/// No character of a valid name's printed or escaped form is `#` or `-`,
/// apart from a Wally prefix.
proof fn lemma_pesde_text_chars(scope: Seq<char>, name: Seq<char>, sep: char, c: char)
    requires
        is_valid_pesde_part(scope),
        is_valid_pesde_part(name),
        sep == '/' || sep == '+',
        c == '#' || c == '-',
    ensures
        !(scope + seq![sep] + name).contains(c),
{
    lemma_pesde_part_chars(scope, c);
    lemma_pesde_part_chars(name, c);
    let s = scope + seq![sep] + name;
    if s.contains(c) {
        let j = choose|j: int| 0 <= j < s.len() && s[j] == c;
        if j < scope.len() {
            assert(scope[j] == c);
        } else if j > scope.len() {
            assert(name[j - scope.len() - 1] == c);
        }
    }
}

/// A string that holds no `#` has no `wally#` prefix.
proof fn lemma_no_hash_no_prefix(s: Seq<char>)
    requires
        !s.contains('#'),
    ensures
        !has_prefix(s, wally::wally_prefix()),
{
    if has_prefix(s, wally::wally_prefix()) {
        assert(s.take(6)[5] == '#');
        assert(s[5] == '#');
    }
}

/// Law: printing a valid name and parsing the text gives the name back.
pub proof fn law_package_names_round_trip(n: PackageNamesView)
    requires
        package_names_valid(n),
    ensures
        parse_package_names(package_names_text(n)) == Ok::<_, Seq<char>>(n),
{
    match n {
        PackageNamesView::Pesde((a, b)) => {
            let s = pesde_name_text(a, b);
            lemma_pesde_text_chars(a, b, '/', '#');
            lemma_pesde_text_chars(a, b, '/', '-');
            lemma_no_hash_no_prefix(s);
            law_pesde_name_round_trip(a, b);
        },
        PackageNamesView::Wally((a, b)) => {
            let s = wally::wally_name_text(a, b);
            let t = wally::wally_plain_text(a, b);
            assert(has_prefix(s, wally::wally_prefix())) by {
                assert(s.take(6) =~= wally::wally_prefix());
            }
            assert(s.skip(6) =~= t);
            wally::law_wally_plain_parse(a, b);
        },
    }
}

/// Law: escaping a valid name and reading it back with `from_escaped` gives the name back.
pub proof fn law_package_names_escape_round_trip(n: PackageNamesView)
    requires
        package_names_valid(n),
    ensures
        replace_first(package_names_escaped(n), '+', '/') == package_names_text(n),
        parse_package_names(replace_first(package_names_escaped(n), '+', '/')) == Ok::<_, Seq<char>>(n),
{
    match n {
        PackageNamesView::Pesde((a, b)) => {
            lemma_pesde_part_chars(a, '+');
            lemma_find_first_concat(a, '+', b);
        },
        PackageNamesView::Wally((a, b)) => {
            wally::lemma_wally_escaped_split(a, b);
        },
    }
    law_package_names_round_trip(n);
}

} // verus!
