//! Package names of the registry format: `scope/name` with lowercase parts, and
//! `wally#scope/name` for Wally packages.
use vstd::prelude::*;

use crate::keyed::KeyEq;
use crate::names::view_result;
use crate::strmap::{compare_str, lex_lt, KeyOrder};
use crate::names::wally::{wally_prefix, wally_prefix_chars};
use crate::text::{
    byte_len, chars_of, contains_char, has_prefix, index_of, lemma_find_first_concat, split_once,
    starts_with, str_to_string, string_from_chars, string_from_range, string_push, utf8_len,
};

verus! {

pub open spec fn is_lower_digit(c: char) -> bool {
    ('a' <= c && c <= 'z') || ('0' <= c && c <= '9')
}

pub open spec fn is_standard_part_char(c: char) -> bool {
    is_lower_digit(c) || c == '_'
}

pub open spec fn is_wally_part_char(c: char) -> bool {
    is_lower_digit(c) || c == '-'
}

pub open spec fn all_standard_part_chars(p: Seq<char>) -> bool {
    forall|i: int| 0 <= i < p.len() ==> is_standard_part_char(#[trigger] p[i])
}

pub open spec fn all_wally_part_chars(p: Seq<char>) -> bool {
    forall|i: int| 0 <= i < p.len() ==> is_wally_part_char(#[trigger] p[i])
}

/// A package name
#[derive(Debug)]
pub struct StandardPackageName(String, String);

impl Clone for StandardPackageName {
    fn clone(&self) -> (r: Self)
        ensures
            r == *self,
    {
        StandardPackageName(self.0.clone(), self.1.clone())
    }
}

/// An error that occurred while validating a package name part (scope or name)
#[derive(Debug)]
pub enum StandardPackageNameValidationError {
    /// The package name part is empty
    EmptyPart,
    /// The package name part contains invalid characters (only lowercase ASCII characters, numbers, and underscores are allowed)
    InvalidPart(String),
    /// The package name part is too long (it cannot be longer than 24 characters)
    PartTooLong(String),
}

/// The mathematical value of a part validation error
pub enum PartErrorView {
    EmptyPart,
    InvalidPart(Seq<char>),
    PartTooLong(Seq<char>),
}

impl View for StandardPackageNameValidationError {
    type V = PartErrorView;

    open spec fn view(&self) -> PartErrorView {
        match self {
            StandardPackageNameValidationError::EmptyPart => PartErrorView::EmptyPart,
            StandardPackageNameValidationError::InvalidPart(s) => PartErrorView::InvalidPart(s@),
            StandardPackageNameValidationError::PartTooLong(s) => PartErrorView::PartTooLong(s@),
        }
    }
}

/// The first rule that a standard part breaks
pub open spec fn standard_part_error(p: Seq<char>) -> Option<PartErrorView> {
    if p.len() == 0 {
        Some(PartErrorView::EmptyPart)
    } else if !all_standard_part_chars(p) {
        Some(PartErrorView::InvalidPart(p))
    } else if utf8_len(p) > 24 {
        Some(PartErrorView::PartTooLong(p))
    } else {
        None
    }
}

/// The first rule that a Wally part breaks
pub open spec fn wally_part_error(p: Seq<char>) -> Option<PartErrorView> {
    if p.len() == 0 {
        Some(PartErrorView::EmptyPart)
    } else if !all_wally_part_chars(p) {
        Some(PartErrorView::InvalidPart(p))
    } else if utf8_len(p) > 64 {
        Some(PartErrorView::PartTooLong(p))
    } else {
        None
    }
}

/// Validates a package name part (scope or name)
pub fn validate_part(part: &str) -> (r: Result<(), StandardPackageNameValidationError>)
    ensures
        match r {
            Ok(()) => standard_part_error(part@) is None,
            Err(e) => standard_part_error(part@) == Some(e@),
        },
{
    let cs = chars_of(part);
    if cs.len() == 0 {
        return Err(StandardPackageNameValidationError::EmptyPart);
    }
    let mut i: usize = 0;
    while i < cs.len()
        invariant
            cs@ == part@,
            cs@.len() > 0,
            i <= cs@.len(),
            forall|j: int| 0 <= j < i ==> is_standard_part_char(#[trigger] cs@[j]),
        decreases cs@.len() - i,
    {
        let c = cs[i];
        if !(('a' <= c && c <= 'z') || ('0' <= c && c <= '9') || c == '_') {
            assert(!is_standard_part_char(cs@[i as int]));
            assert(!all_standard_part_chars(part@));
            return Err(StandardPackageNameValidationError::InvalidPart(str_to_string(part)));
        }
        i = i + 1;
    }
    if byte_len(part) > 24 {
        return Err(StandardPackageNameValidationError::PartTooLong(str_to_string(part)));
    }
    Ok(())
}

/// A wally package name
#[derive(Debug)]
pub struct WallyPackageName(String, String);

impl Clone for WallyPackageName {
    fn clone(&self) -> (r: Self)
        ensures
            r == *self,
    {
        WallyPackageName(self.0.clone(), self.1.clone())
    }
}

/// An error that occurred while validating a wally package name part (scope or name)
#[derive(Debug)]
pub enum WallyPackageNameValidationError {
    /// The package name part is empty
    EmptyPart,
    /// The package name part contains invalid characters (only lowercase ASCII characters, numbers, and dashes are allowed)
    InvalidPart(String),
    /// The package name part is too long (it cannot be longer than 64 characters)
    PartTooLong(String),
}

impl View for WallyPackageNameValidationError {
    type V = PartErrorView;

    open spec fn view(&self) -> PartErrorView {
        match self {
            WallyPackageNameValidationError::EmptyPart => PartErrorView::EmptyPart,
            WallyPackageNameValidationError::InvalidPart(s) => PartErrorView::InvalidPart(s@),
            WallyPackageNameValidationError::PartTooLong(s) => PartErrorView::PartTooLong(s@),
        }
    }
}

/// Validates a wally package name part (scope or name)
pub fn validate_wally_part(part: &str) -> (r: Result<(), WallyPackageNameValidationError>)
    ensures
        match r {
            Ok(()) => wally_part_error(part@) is None,
            Err(e) => wally_part_error(part@) == Some(e@),
        },
{
    let cs = chars_of(part);
    if cs.len() == 0 {
        return Err(WallyPackageNameValidationError::EmptyPart);
    }
    let mut i: usize = 0;
    while i < cs.len()
        invariant
            cs@ == part@,
            cs@.len() > 0,
            i <= cs@.len(),
            forall|j: int| 0 <= j < i ==> is_wally_part_char(#[trigger] cs@[j]),
        decreases cs@.len() - i,
    {
        let c = cs[i];
        if !(('a' <= c && c <= 'z') || ('0' <= c && c <= '9') || c == '-') {
            assert(!is_wally_part_char(cs@[i as int]));
            assert(!all_wally_part_chars(part@));
            return Err(WallyPackageNameValidationError::InvalidPart(str_to_string(part)));
        }
        i = i + 1;
    }
    if byte_len(part) > 64 {
        return Err(WallyPackageNameValidationError::PartTooLong(str_to_string(part)));
    }
    Ok(())
}

/// An error that occurred while parsing an escaped package name
#[derive(Debug)]
pub enum EscapedPackageNameError<E> {
    /// This package name is missing a prefix
    MissingPrefix(String),
    /// This is not a valid escaped package name
    Invalid(String),
    /// The package name is invalid
    InvalidName(E),
}

pub enum EscapedPackageNameErrorView<V> {
    MissingPrefix(Seq<char>),
    Invalid(Seq<char>),
    InvalidName(V),
}

impl<E: View> View for EscapedPackageNameError<E> {
    type V = EscapedPackageNameErrorView<E::V>;

    open spec fn view(&self) -> EscapedPackageNameErrorView<E::V> {
        match self {
            EscapedPackageNameError::MissingPrefix(s) => EscapedPackageNameErrorView::MissingPrefix(s@),
            EscapedPackageNameError::Invalid(s) => EscapedPackageNameErrorView::Invalid(s@),
            EscapedPackageNameError::InvalidName(e) => EscapedPackageNameErrorView::InvalidName(e@),
        }
    }
}

/// An error that occurred while parsing a package name
#[derive(Debug)]
pub enum FromStrPackageNameParseError<E> {
    /// This is not a valid package name
    Invalid(String),
    /// The package name is invalid
    InvalidPart(E),
}

pub enum FromStrPackageNameParseErrorView<V> {
    Invalid(Seq<char>),
    InvalidPart(V),
}

impl<E: View> View for FromStrPackageNameParseError<E> {
    type V = FromStrPackageNameParseErrorView<E::V>;

    open spec fn view(&self) -> FromStrPackageNameParseErrorView<E::V> {
        match self {
            FromStrPackageNameParseError::Invalid(s) => FromStrPackageNameParseErrorView::Invalid(s@),
            FromStrPackageNameParseError::InvalidPart(e) => FromStrPackageNameParseErrorView::InvalidPart(e@),
        }
    }
}

/// The kind of a package name: the prefix and the rules of its parts
pub enum NameKind {
    Standard,
    Wally,
}

pub open spec fn kind_prefix(kind: NameKind) -> Seq<char> {
    match kind {
        NameKind::Standard => Seq::<char>::empty(),
        NameKind::Wally => wally_prefix(),
    }
}

pub open spec fn kind_part_error(kind: NameKind, p: Seq<char>) -> Option<PartErrorView> {
    match kind {
        NameKind::Standard => standard_part_error(p),
        NameKind::Wally => wally_part_error(p),
    }
}

/// What `new(scope, name)` gives
pub open spec fn spec_new(kind: NameKind, scope: Seq<char>, name: Seq<char>) -> Result<(Seq<char>, Seq<char>), PartErrorView> {
    match kind_part_error(kind, scope) {
        Some(e) => Err(e),
        None => match kind_part_error(kind, name) {
            Some(e) => Err(e),
            None => Ok((scope, name)),
        },
    }
}

/// `t` split at its only `c`; `None` unless `c` occurs exactly once
pub open spec fn split_exactly_once(t: Seq<char>, c: char) -> Option<(Seq<char>, Seq<char>)> {
    match split_once(t, c) {
        Some((a, b)) => if b.contains(c) {
            None
        } else {
            Some((a, b))
        },
        None => None,
    }
}

/// What `from_str` gives: an optional prefix, then exactly one `/`
pub open spec fn spec_from_str(kind: NameKind, s: Seq<char>) -> Result<(Seq<char>, Seq<char>), FromStrPackageNameParseErrorView<PartErrorView>> {
    let t = if has_prefix(s, kind_prefix(kind)) { s.skip(kind_prefix(kind).len() as int) } else { s };
    match split_exactly_once(t, '/') {
        None => Err(FromStrPackageNameParseErrorView::Invalid(s)),
        Some((a, b)) => match spec_new(kind, a, b) {
            Ok(n) => Ok(n),
            Err(e) => Err(FromStrPackageNameParseErrorView::InvalidPart(e)),
        },
    }
}

/// What `from_escaped` gives: the prefix, then the parts around the first `+`
pub open spec fn spec_from_escaped(kind: NameKind, s: Seq<char>) -> Result<(Seq<char>, Seq<char>), EscapedPackageNameErrorView<PartErrorView>> {
    if !has_prefix(s, kind_prefix(kind)) {
        Err(EscapedPackageNameErrorView::MissingPrefix(kind_prefix(kind)))
    } else {
        match split_once(s.skip(kind_prefix(kind).len() as int), '+') {
            None => Err(EscapedPackageNameErrorView::Invalid(s)),
            Some((a, b)) => match spec_new(kind, a, b) {
                Ok(n) => Ok(n),
                Err(e) => Err(EscapedPackageNameErrorView::InvalidName(e)),
            },
        }
    }
}

/// `prefix + scope + "/" + name`
pub open spec fn kind_text(kind: NameKind, scope: Seq<char>, name: Seq<char>) -> Seq<char> {
    kind_prefix(kind) + scope + seq!['/'] + name
}

/// `prefix + scope + "+" + name`
pub open spec fn kind_escaped(kind: NameKind, scope: Seq<char>, name: Seq<char>) -> Seq<char> {
    kind_prefix(kind) + scope + seq!['+'] + name
}

pub open spec fn kind_valid(kind: NameKind, scope: Seq<char>, name: Seq<char>) -> bool {
    kind_part_error(kind, scope) is None && kind_part_error(kind, name) is None
}

/// The text after the prefix (when present) and its split at the only `/`
fn split_name(s: &str, prefix: &[char]) -> (r: Option<(String, String)>)
    ensures
        ({
            let t = if has_prefix(s@, prefix@) { s@.skip(prefix@.len() as int) } else { s@ };
            match r {
                Some((a, b)) => split_exactly_once(t, '/') == Some((a@, b@)),
                None => split_exactly_once(t, '/') is None,
            }
        }),
{
    let all = chars_of(s);
    let cs: Vec<char> = if starts_with(all.as_slice(), prefix) {
        vstd::slice::slice_to_vec(vstd::slice::slice_subrange(all.as_slice(), prefix.len(), all.len()))
    } else {
        all
    };
    let ghost t = if has_prefix(s@, prefix@) { s@.skip(prefix@.len() as int) } else { s@ };
    assert(cs@ =~= t);
    match index_of(cs.as_slice(), '/') {
        None => None,
        Some(i) => {
            let n = cs.len();
            let rest = vstd::slice::slice_subrange(cs.as_slice(), i + 1, n);
            if contains_char(rest, '/') {
                assert(rest@ =~= t.skip(i as int + 1));
                None
            } else {
                let a = string_from_range(cs.as_slice(), 0, i);
                let b = string_from_chars(rest);
                assert(a@ =~= t.take(i as int));
                assert(b@ =~= t.skip(i as int + 1));
                Some((a, b))
            }
        },
    }
}

/// The escaped text after the prefix split at its first `+`
fn split_escaped(rest: &[char]) -> (r: Option<(String, String)>)
    ensures
        match r {
            Some((a, b)) => split_once(rest@, '+') == Some((a@, b@)),
            None => split_once(rest@, '+') is None,
        },
{
    match index_of(rest, '+') {
        None => None,
        Some(i) => {
            let n = rest.len();
            let a = string_from_range(rest, 0, i);
            let b = string_from_range(rest, i + 1, n);
            assert(a@ =~= rest@.take(i as int));
            assert(b@ =~= rest@.skip(i as int + 1));
            Some((a, b))
        },
    }
}

impl View for StandardPackageName {
    type V = (Seq<char>, Seq<char>);

    closed spec fn view(&self) -> (Seq<char>, Seq<char>) {
        (self.0@, self.1@)
    }
}

impl StandardPackageName {
    pub open spec fn wf(self) -> bool {
        kind_valid(NameKind::Standard, self@.0, self@.1)
    }

    /// Creates a new package name
    pub fn new(scope: &str, name: &str) -> (r: Result<Self, StandardPackageNameValidationError>)
        ensures
            view_result(r) == spec_new(NameKind::Standard, scope@, name@),
            r matches Ok(n) ==> n.wf(),
    {
        validate_part(scope)?;
        validate_part(name)?;
        Ok(StandardPackageName(str_to_string(scope), str_to_string(name)))
    }

    /// Parses an escaped package name
    pub fn from_escaped(s: &str) -> (r: Result<Self, EscapedPackageNameError<StandardPackageNameValidationError>>)
        ensures
            view_result(r) == spec_from_escaped(NameKind::Standard, s@),
            r matches Ok(n) ==> n.wf(),
    {
        let cs = chars_of(s);
        assert(has_prefix(s@, Seq::<char>::empty())) by {
            assert(s@.take(0) =~= Seq::<char>::empty());
        }
        assert(s@.skip(0) =~= s@);
        match split_escaped(cs.as_slice()) {
            None => Err(EscapedPackageNameError::Invalid(str_to_string(s))),
            Some((scope, name)) => match Self::new(scope.as_str(), name.as_str()) {
                Ok(n) => Ok(n),
                Err(e) => Err(EscapedPackageNameError::InvalidName(e)),
            },
        }
    }

    /// Gets the scope of the package name
    pub fn scope(&self) -> (r: &str)
        ensures
            r@ == self@.0,
    {
        self.0.as_str()
    }

    /// Gets the name of the package name
    pub fn name(&self) -> (r: &str)
        ensures
            r@ == self@.1,
    {
        self.1.as_str()
    }

    /// Gets the escaped form (for use in file names, etc.) of the package name
    pub fn escaped(&self) -> (s: String)
        ensures
            s@ == kind_escaped(NameKind::Standard, self@.0, self@.1),
    {
        let mut s = self.0.clone();
        string_push(&mut s, '+');
        s.append(self.1.as_str());
        assert(s@ =~= kind_escaped(NameKind::Standard, self@.0, self@.1));
        s
    }

    /// Gets the parts of the package name
    pub fn parts(&self) -> (r: (&str, &str))
        ensures
            r.0@ == self@.0,
            r.1@ == self@.1,
    {
        (self.0.as_str(), self.1.as_str())
    }

    /// Returns the prefix for this package name
    pub fn prefix() -> (r: &'static str)
        ensures
            r@ == kind_prefix(NameKind::Standard),
    {
        proof {
            reveal_strlit("");
        }
        ""
    }

    /// The name as `scope/name`
    pub fn to_string(&self) -> (s: String)
        ensures
            s@ == kind_text(NameKind::Standard, self@.0, self@.1),
    {
        let mut s = self.0.clone();
        string_push(&mut s, '/');
        s.append(self.1.as_str());
        assert(s@ =~= kind_text(NameKind::Standard, self@.0, self@.1));
        s
    }

    /// Parses `scope/name`
    pub fn from_str(s: &str) -> (r: Result<Self, FromStrPackageNameParseError<StandardPackageNameValidationError>>)
        ensures
            view_result(r) == spec_from_str(NameKind::Standard, s@),
            r matches Ok(n) ==> n.wf(),
    {
        let empty: Vec<char> = Vec::new();
        assert(has_prefix(s@, empty@)) by {
            assert(s@.take(0) =~= empty@);
        }
        assert(s@.skip(0) =~= s@);
        match split_name(s, empty.as_slice()) {
            None => Err(FromStrPackageNameParseError::Invalid(str_to_string(s))),
            Some((scope, name)) => match Self::new(scope.as_str(), name.as_str()) {
                Ok(n) => Ok(n),
                Err(e) => Err(FromStrPackageNameParseError::InvalidPart(e)),
            },
        }
    }
}

impl View for WallyPackageName {
    type V = (Seq<char>, Seq<char>);

    closed spec fn view(&self) -> (Seq<char>, Seq<char>) {
        (self.0@, self.1@)
    }
}

impl WallyPackageName {
    pub open spec fn wf(self) -> bool {
        kind_valid(NameKind::Wally, self@.0, self@.1)
    }

    /// Creates a new package name
    pub fn new(scope: &str, name: &str) -> (r: Result<Self, WallyPackageNameValidationError>)
        ensures
            view_result(r) == spec_new(NameKind::Wally, scope@, name@),
            r matches Ok(n) ==> n.wf(),
    {
        validate_wally_part(scope)?;
        validate_wally_part(name)?;
        Ok(WallyPackageName(str_to_string(scope), str_to_string(name)))
    }

    /// Parses an escaped package name
    pub fn from_escaped(s: &str) -> (r: Result<Self, EscapedPackageNameError<WallyPackageNameValidationError>>)
        ensures
            view_result(r) == spec_from_escaped(NameKind::Wally, s@),
            r matches Ok(n) ==> n.wf(),
    {
        let cs = chars_of(s);
        let prefix = wally_prefix_chars();
        if !starts_with(cs.as_slice(), prefix.as_slice()) {
            return Err(EscapedPackageNameError::MissingPrefix(string_from_chars(prefix.as_slice())));
        }
        let rest = vstd::slice::slice_subrange(cs.as_slice(), prefix.len(), cs.len());
        assert(rest@ =~= s@.skip(6));
        match split_escaped(rest) {
            None => Err(EscapedPackageNameError::Invalid(str_to_string(s))),
            Some((scope, name)) => match Self::new(scope.as_str(), name.as_str()) {
                Ok(n) => Ok(n),
                Err(e) => Err(EscapedPackageNameError::InvalidName(e)),
            },
        }
    }

    /// Gets the scope of the package name
    pub fn scope(&self) -> (r: &str)
        ensures
            r@ == self@.0,
    {
        self.0.as_str()
    }

    /// Gets the name of the package name
    pub fn name(&self) -> (r: &str)
        ensures
            r@ == self@.1,
    {
        self.1.as_str()
    }

    /// Gets the escaped form (for use in file names, etc.) of the package name
    pub fn escaped(&self) -> (s: String)
        ensures
            s@ == kind_escaped(NameKind::Wally, self@.0, self@.1),
    {
        let p = wally_prefix_chars();
        let mut s = string_from_chars(p.as_slice());
        s.append(self.0.as_str());
        string_push(&mut s, '+');
        s.append(self.1.as_str());
        s
    }

    /// Gets the parts of the package name
    pub fn parts(&self) -> (r: (&str, &str))
        ensures
            r.0@ == self@.0,
            r.1@ == self@.1,
    {
        (self.0.as_str(), self.1.as_str())
    }

    /// Returns the prefix for this package name
    pub fn prefix() -> (r: &'static str)
        ensures
            r@ == kind_prefix(NameKind::Wally),
    {
        proof {
            reveal_strlit("wally#");
        }
        "wally#"
    }

    /// The name as `wally#scope/name`
    pub fn to_string(&self) -> (s: String)
        ensures
            s@ == kind_text(NameKind::Wally, self@.0, self@.1),
    {
        let p = wally_prefix_chars();
        let mut s = string_from_chars(p.as_slice());
        s.append(self.0.as_str());
        string_push(&mut s, '/');
        s.append(self.1.as_str());
        s
    }

    /// Parses `wally#scope/name` (the prefix may be left out)
    pub fn from_str(s: &str) -> (r: Result<Self, FromStrPackageNameParseError<WallyPackageNameValidationError>>)
        ensures
            view_result(r) == spec_from_str(NameKind::Wally, s@),
            r matches Ok(n) ==> n.wf(),
    {
        let prefix = wally_prefix_chars();
        match split_name(s, prefix.as_slice()) {
            None => Err(FromStrPackageNameParseError::Invalid(str_to_string(s))),
            Some((scope, name)) => match Self::new(scope.as_str(), name.as_str()) {
                Ok(n) => Ok(n),
                Err(e) => Err(FromStrPackageNameParseError::InvalidPart(e)),
            },
        }
    }
}

/// A package name
#[derive(Debug)]
pub enum PackageName {
    /// A standard package name
    Standard(StandardPackageName),
    /// A wally package name
    Wally(WallyPackageName),
}

impl Clone for PackageName {
    fn clone(&self) -> (r: Self)
        ensures
            r == *self,
    {
        match self {
            PackageName::Standard(n) => PackageName::Standard(n.clone()),
            PackageName::Wally(n) => PackageName::Wally(n.clone()),
        }
    }
}

pub enum PackageNameView {
    Standard((Seq<char>, Seq<char>)),
    Wally((Seq<char>, Seq<char>)),
}

impl View for PackageName {
    type V = PackageNameView;

    open spec fn view(&self) -> PackageNameView {
        match self {
            PackageName::Standard(n) => PackageNameView::Standard(n@),
            PackageName::Wally(n) => PackageNameView::Wally(n@),
        }
    }
}

pub open spec fn name_kind(n: PackageNameView) -> NameKind {
    match n {
        PackageNameView::Standard(_) => NameKind::Standard,
        PackageNameView::Wally(_) => NameKind::Wally,
    }
}

pub open spec fn name_parts(n: PackageNameView) -> (Seq<char>, Seq<char>) {
    match n {
        PackageNameView::Standard(p) => p,
        PackageNameView::Wally(p) => p,
    }
}

pub open spec fn name_valid(n: PackageNameView) -> bool {
    kind_valid(name_kind(n), name_parts(n).0, name_parts(n).1)
}

pub open spec fn name_text(n: PackageNameView) -> Seq<char> {
    kind_text(name_kind(n), name_parts(n).0, name_parts(n).1)
}

pub open spec fn name_escaped(n: PackageNameView) -> Seq<char> {
    kind_escaped(name_kind(n), name_parts(n).0, name_parts(n).1)
}

/// An error that occurred while parsing a package name
#[derive(Debug)]
pub enum FromStrPackageNameError {
    /// Error parsing the package name as a standard package name
    Standard(FromStrPackageNameParseError<StandardPackageNameValidationError>),
    /// Error parsing the package name as a wally package name
    Wally(FromStrPackageNameParseError<WallyPackageNameValidationError>),
}

pub enum FromStrPackageNameErrorView {
    Standard(FromStrPackageNameParseErrorView<PartErrorView>),
    Wally(FromStrPackageNameParseErrorView<PartErrorView>),
}

impl View for FromStrPackageNameError {
    type V = FromStrPackageNameErrorView;

    open spec fn view(&self) -> FromStrPackageNameErrorView {
        match self {
            FromStrPackageNameError::Standard(e) => FromStrPackageNameErrorView::Standard(e@),
            FromStrPackageNameError::Wally(e) => FromStrPackageNameErrorView::Wally(e@),
        }
    }
}

/// An error that occurred while parsing an escaped package name
#[derive(Debug)]
pub enum FromEscapedStrPackageNameError {
    /// Error parsing the package name as a standard package name
    Standard(EscapedPackageNameError<StandardPackageNameValidationError>),
    /// Error parsing the package name as a wally package name
    Wally(EscapedPackageNameError<WallyPackageNameValidationError>),
}

pub enum FromEscapedStrPackageNameErrorView {
    Standard(EscapedPackageNameErrorView<PartErrorView>),
    Wally(EscapedPackageNameErrorView<PartErrorView>),
}

impl View for FromEscapedStrPackageNameError {
    type V = FromEscapedStrPackageNameErrorView;

    open spec fn view(&self) -> FromEscapedStrPackageNameErrorView {
        match self {
            FromEscapedStrPackageNameError::Standard(e) => FromEscapedStrPackageNameErrorView::Standard(e@),
            FromEscapedStrPackageNameError::Wally(e) => FromEscapedStrPackageNameErrorView::Wally(e@),
        }
    }
}

/// What `PackageName::from_str` gives: a Wally name when the text has the
/// `wally#` prefix, a standard name otherwise
pub open spec fn spec_package_name_from_str(s: Seq<char>) -> Result<PackageNameView, FromStrPackageNameErrorView> {
    if has_prefix(s, wally_prefix()) {
        match spec_from_str(NameKind::Wally, s) {
            Ok(p) => Ok(PackageNameView::Wally(p)),
            Err(e) => Err(FromStrPackageNameErrorView::Wally(e)),
        }
    } else {
        match spec_from_str(NameKind::Standard, s) {
            Ok(p) => Ok(PackageNameView::Standard(p)),
            Err(e) => Err(FromStrPackageNameErrorView::Standard(e)),
        }
    }
}

/// What `PackageName::from_escaped_str` gives
pub open spec fn spec_package_name_from_escaped(s: Seq<char>) -> Result<PackageNameView, FromEscapedStrPackageNameErrorView> {
    if has_prefix(s, wally_prefix()) {
        match spec_from_escaped(NameKind::Wally, s) {
            Ok(p) => Ok(PackageNameView::Wally(p)),
            Err(e) => Err(FromEscapedStrPackageNameErrorView::Wally(e)),
        }
    } else {
        match spec_from_escaped(NameKind::Standard, s) {
            Ok(p) => Ok(PackageNameView::Standard(p)),
            Err(e) => Err(FromEscapedStrPackageNameErrorView::Standard(e)),
        }
    }
}

impl PackageName {
    pub open spec fn wf(self) -> bool {
        name_valid(self@)
    }

    /// Gets the scope of the package name
    pub fn scope(&self) -> (r: &str)
        ensures
            r@ == name_parts(self@).0,
    {
        match self {
            PackageName::Standard(name) => name.scope(),
            PackageName::Wally(name) => name.scope(),
        }
    }

    /// Gets the name of the package name
    pub fn name(&self) -> (r: &str)
        ensures
            r@ == name_parts(self@).1,
    {
        match self {
            PackageName::Standard(name) => name.name(),
            PackageName::Wally(name) => name.name(),
        }
    }

    /// Gets the escaped form (for use in file names, etc.) of the package name
    pub fn escaped(&self) -> (s: String)
        ensures
            s@ == name_escaped(self@),
    {
        match self {
            PackageName::Standard(name) => name.escaped(),
            PackageName::Wally(name) => name.escaped(),
        }
    }

    /// Gets the parts of the package name
    pub fn parts(&self) -> (r: (&str, &str))
        ensures
            r.0@ == name_parts(self@).0,
            r.1@ == name_parts(self@).1,
    {
        match self {
            PackageName::Standard(name) => name.parts(),
            PackageName::Wally(name) => name.parts(),
        }
    }

    /// Returns the prefix for this package name
    pub fn prefix(&self) -> (r: &'static str)
        ensures
            r@ == kind_prefix(name_kind(self@)),
    {
        match self {
            PackageName::Standard(_) => StandardPackageName::prefix(),
            PackageName::Wally(_) => WallyPackageName::prefix(),
        }
    }

    /// The printed form of the name
    pub fn to_string(&self) -> (s: String)
        ensures
            s@ == name_text(self@),
    {
        match self {
            PackageName::Standard(name) => name.to_string(),
            PackageName::Wally(name) => name.to_string(),
        }
    }

    /// Parses a package name
    pub fn from_str(s: &str) -> (r: Result<Self, FromStrPackageNameError>)
        ensures
            view_result(r) == spec_package_name_from_str(s@),
            r matches Ok(n) ==> n.wf(),
    {
        let cs = chars_of(s);
        let prefix = wally_prefix_chars();
        if starts_with(cs.as_slice(), prefix.as_slice()) {
            match WallyPackageName::from_str(s) {
                Ok(n) => Ok(PackageName::Wally(n)),
                Err(e) => Err(FromStrPackageNameError::Wally(e)),
            }
        } else {
            match StandardPackageName::from_str(s) {
                Ok(n) => Ok(PackageName::Standard(n)),
                Err(e) => Err(FromStrPackageNameError::Standard(e)),
            }
        }
    }

    /// Like `from_str`, but for escaped package names
    pub fn from_escaped_str(s: &str) -> (r: Result<Self, FromEscapedStrPackageNameError>)
        ensures
            view_result(r) == spec_package_name_from_escaped(s@),
            r matches Ok(n) ==> n.wf(),
    {
        let cs = chars_of(s);
        let prefix = wally_prefix_chars();
        if starts_with(cs.as_slice(), prefix.as_slice()) {
            match WallyPackageName::from_escaped(s) {
                Ok(n) => Ok(PackageName::Wally(n)),
                Err(e) => Err(FromEscapedStrPackageNameError::Wally(e)),
            }
        } else {
            match StandardPackageName::from_escaped(s) {
                Ok(n) => Ok(PackageName::Standard(n)),
                Err(e) => Err(FromEscapedStrPackageNameError::Standard(e)),
            }
        }
    }

    /// A standard package name
    pub fn from_standard(name: StandardPackageName) -> (r: Self)
        ensures
            r@ == PackageNameView::Standard(name@),
    {
        PackageName::Standard(name)
    }

    /// A wally package name
    pub fn from_wally(name: WallyPackageName) -> (r: Self)
        ensures
            r@ == PackageNameView::Wally(name@),
    {
        PackageName::Wally(name)
    }
}

/// A valid part holds no `/`, `+` or `#`.
pub proof fn lemma_valid_part_chars(kind: NameKind, p: Seq<char>, c: char)
    requires
        kind_part_error(kind, p) is None,
        c == '/' || c == '+' || c == '#',
    ensures
        !p.contains(c),
{
    if p.contains(c) {
        let j = choose|j: int| 0 <= j < p.len() && p[j] == c;
        match kind {
            NameKind::Standard => assert(is_standard_part_char(p[j])),
            NameKind::Wally => assert(is_wally_part_char(p[j])),
        }
    }
}

/// Law: the printed form of a valid name of either kind parses back to its parts.
pub proof fn law_kind_round_trip(kind: NameKind, scope: Seq<char>, name: Seq<char>)
    requires
        kind_valid(kind, scope, name),
    ensures
        spec_from_str(kind, kind_text(kind, scope, name)) == Ok::<_, FromStrPackageNameParseErrorView<PartErrorView>>((scope, name)),
        spec_from_escaped(kind, kind_escaped(kind, scope, name)) == Ok::<_, EscapedPackageNameErrorView<PartErrorView>>((scope, name)),
{
    let p = kind_prefix(kind);
    let s = kind_text(kind, scope, name);
    let e = kind_escaped(kind, scope, name);
    lemma_valid_part_chars(kind, scope, '/');
    lemma_valid_part_chars(kind, name, '/');
    lemma_valid_part_chars(kind, scope, '+');
    assert(s.take(p.len() as int) =~= p);
    assert(e.take(p.len() as int) =~= p);
    assert(s.skip(p.len() as int) =~= scope + seq!['/'] + name);
    assert(e.skip(p.len() as int) =~= scope + seq!['+'] + name);
    lemma_find_first_concat(scope, '/', name);
    lemma_find_first_concat(scope, '+', name);
}

/// A valid standard name's text holds no `#`, so it never looks like a Wally name.
proof fn lemma_standard_text_not_wally(scope: Seq<char>, name: Seq<char>, sep: char)
    requires
        kind_valid(NameKind::Standard, scope, name),
        sep == '/' || sep == '+',
    ensures
        !has_prefix(scope + seq![sep] + name, wally_prefix()),
{
    let s = scope + seq![sep] + name;
    lemma_valid_part_chars(NameKind::Standard, scope, '#');
    lemma_valid_part_chars(NameKind::Standard, name, '#');
    if has_prefix(s, wally_prefix()) {
        assert(s.take(6)[5] == '#');
        assert(s[5] == '#');
        if 5 < scope.len() {
            assert(scope[5] == '#');
        } else if 5 > scope.len() {
            assert(name[5 - scope.len() - 1] == '#');
        }
    }
}

/// Law: `PackageName::from_str` reads back what `to_string` prints, and
/// `from_escaped_str` reads back what `escaped` gives, for every valid name.
pub proof fn law_package_name_round_trip(n: PackageNameView)
    requires
        name_valid(n),
    ensures
        spec_package_name_from_str(name_text(n)) == Ok::<_, FromStrPackageNameErrorView>(n),
        spec_package_name_from_escaped(name_escaped(n)) == Ok::<_, FromEscapedStrPackageNameErrorView>(n),
{
    let (a, b) = name_parts(n);
    law_kind_round_trip(name_kind(n), a, b);
    match n {
        PackageNameView::Standard(_) => {
            assert(name_text(n) =~= a + seq!['/'] + b);
            assert(name_escaped(n) =~= a + seq!['+'] + b);
            lemma_standard_text_not_wally(a, b, '/');
            lemma_standard_text_not_wally(a, b, '+');
        },
        PackageNameView::Wally(_) => {
            assert(name_text(n).take(6) =~= wally_prefix());
            assert(name_escaped(n).take(6) =~= wally_prefix());
        },
    }
}


impl KeyEq for PackageName {
    fn key_eq(&self, other: &Self) -> (r: bool) {
        compare_names(self, other) == KeyOrder::Equal
    }
}

/// The order of package names: standard names before Wally names, then by
/// scope, then by name, each in the order of `String`
pub open spec fn name_before(a: PackageNameView, b: PackageNameView) -> bool {
    match (a, b) {
        (PackageNameView::Standard(_), PackageNameView::Wally(_)) => true,
        (PackageNameView::Wally(_), PackageNameView::Standard(_)) => false,
        _ => lex_lt(name_parts(a).0, name_parts(b).0) || (name_parts(a).0 == name_parts(b).0 && lex_lt(
            name_parts(a).1,
            name_parts(b).1,
        )),
    }
}

/// Compares two package names in the order of `name_before`
pub fn compare_names(a: &PackageName, b: &PackageName) -> (r: KeyOrder)
    ensures
        r == KeyOrder::Less <==> name_before(a@, b@),
        r == KeyOrder::Equal <==> a@ == b@,
        r == KeyOrder::Greater <==> name_before(b@, a@),
{
    proof {
        crate::strmap::lemma_lex_asym(name_parts(a@).0, name_parts(b@).0);
        crate::strmap::lemma_lex_asym(name_parts(a@).1, name_parts(b@).1);
        crate::strmap::lemma_lex_irrefl(name_parts(a@).0);
        crate::strmap::lemma_lex_irrefl(name_parts(a@).1);
    }
    match (a, b) {
        (PackageName::Standard(_), PackageName::Wally(_)) => KeyOrder::Less,
        (PackageName::Wally(_), PackageName::Standard(_)) => KeyOrder::Greater,
        _ => {
            let (a0, a1) = a.parts();
            let (b0, b1) = b.parts();
            match compare_str(a0, b0) {
                KeyOrder::Equal => compare_str(a1, b1),
                o => o,
            }
        },
    }
}

} // verus!
