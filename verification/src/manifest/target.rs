//! Targets
use vstd::prelude::*;

use crate::text::{chars_eq, chars_of, str_to_string, string_from_chars, string_push};

verus! {

/// A kind of target
#[derive(Debug, Clone, Copy, PartialEq, Eq, Structural, Hash, PartialOrd, Ord)]
pub enum TargetKind {
    /// A Roblox target
    Roblox,
    /// A Lune target
    Lune,
    /// A Luau target
    Luau,
}

/// The name of a target kind, as written in manifests
pub open spec fn target_kind_text(k: TargetKind) -> Seq<char> {
    match k {
        TargetKind::Roblox => seq!['r', 'o', 'b', 'l', 'o', 'x'],
        TargetKind::Lune => seq!['l', 'u', 'n', 'e'],
        TargetKind::Luau => seq!['l', 'u', 'a', 'u'],
    }
}

/// The target kind that a name stands for
pub open spec fn target_kind_from_text(s: Seq<char>) -> Option<TargetKind> {
    if s == target_kind_text(TargetKind::Roblox) {
        Some(TargetKind::Roblox)
    } else if s == target_kind_text(TargetKind::Lune) {
        Some(TargetKind::Lune)
    } else if s == target_kind_text(TargetKind::Luau) {
        Some(TargetKind::Luau)
    } else {
        None
    }
}

/// Whether a project of kind `project` can use a dependency of kind `dependency`
pub open spec fn spec_is_compatible(project: TargetKind, dependency: TargetKind) -> bool {
    project == dependency || (project == TargetKind::Lune && dependency == TargetKind::Luau)
}

/// `packages`
pub open spec fn packages_text() -> Seq<char> {
    seq!['p', 'a', 'c', 'k', 'a', 'g', 'e', 's']
}

/// The folder, relative to a project of kind `project`, that holds dependencies of kind `dependency`
pub open spec fn spec_packages_folder(project: TargetKind, dependency: TargetKind) -> Seq<char> {
    if project == dependency {
        packages_text()
    } else {
        target_kind_text(dependency) + seq!['_'] + packages_text()
    }
}

fn push_chars(s: &mut String, cs: &[char])
    ensures
        final(s)@ == old(s)@ + cs@,
{
    let mut i: usize = 0;
    while i < cs.len()
        invariant
            i <= cs@.len(),
            s@ == old(s)@ + cs@.take(i as int),
        decreases cs@.len() - i,
    {
        string_push(s, cs[i]);
        i = i + 1;
        assert(s@ =~= old(s)@ + cs@.take(i as int));
    }
    assert(cs@.take(cs@.len() as int) =~= cs@);
}

fn kind_chars(k: TargetKind) -> (v: Vec<char>)
    ensures
        v@ == target_kind_text(k),
{
    let mut v: Vec<char> = Vec::new();
    match k {
        TargetKind::Roblox => {
            v.push('r');
            v.push('o');
            v.push('b');
            v.push('l');
            v.push('o');
            v.push('x');
        },
        TargetKind::Lune => {
            v.push('l');
            v.push('u');
            v.push('n');
            v.push('e');
        },
        TargetKind::Luau => {
            v.push('l');
            v.push('u');
            v.push('a');
            v.push('u');
        },
    }
    assert(v@ =~= target_kind_text(k));
    v
}

/// Errors that can occur when parsing a target kind from a string
#[derive(Debug)]
#[non_exhaustive]
pub enum TargetKindFromStr {
    /// The target kind is unknown
    Unknown(String),
}

/// Errors that can occur when validating a target for publishing
#[derive(Debug, PartialEq, Eq, Structural)]
#[non_exhaustive]
pub enum TargetValidatePublishError {
    /// No exported files specified
    NoExportedFiles,
    /// Roblox target must have at least one build file
    NoBuildFiles,
}

impl TargetKind {
    /// All possible target variants
    pub fn variants() -> (v: Vec<TargetKind>)
        ensures
            v@ == seq![TargetKind::Roblox, TargetKind::Lune, TargetKind::Luau],
    {
        let mut v: Vec<TargetKind> = Vec::new();
        v.push(TargetKind::Roblox);
        v.push(TargetKind::Lune);
        v.push(TargetKind::Luau);
        assert(v@ =~= seq![TargetKind::Roblox, TargetKind::Lune, TargetKind::Luau]);
        v
    }

    /// The name of the target kind
    pub fn to_string(&self) -> (s: String)
        ensures
            s@ == target_kind_text(*self),
    {
        let v = kind_chars(*self);
        string_from_chars(v.as_slice())
    }

    /// Parses a target kind from its name
    pub fn from_str(s: &str) -> (r: Result<TargetKind, TargetKindFromStr>)
        ensures
            match r {
                Ok(k) => target_kind_from_text(s@) == Some(k),
                Err(TargetKindFromStr::Unknown(t)) => target_kind_from_text(s@) is None && t@ == s@,
            },
    {
        let cs = chars_of(s);
        let roblox = kind_chars(TargetKind::Roblox);
        let lune = kind_chars(TargetKind::Lune);
        let luau = kind_chars(TargetKind::Luau);
        if chars_eq(cs.as_slice(), roblox.as_slice()) {
            Ok(TargetKind::Roblox)
        } else if chars_eq(cs.as_slice(), lune.as_slice()) {
            Ok(TargetKind::Lune)
        } else if chars_eq(cs.as_slice(), luau.as_slice()) {
            Ok(TargetKind::Luau)
        } else {
            Err(TargetKindFromStr::Unknown(str_to_string(s)))
        }
    }

    /// Whether this target is compatible with another target
    /// self is the project's target, dependency is the target of the dependency
    pub fn is_compatible_with(&self, dependency: &Self) -> (r: bool)
        ensures
            r == spec_is_compatible(*self, *dependency),
    {
        if *self == *dependency {
            return true;
        }
        match (self, dependency) {
            (TargetKind::Lune, TargetKind::Luau) => true,
            _ => false,
        }
    }

    /// The folder to store packages in for this target
    /// self is the project's target, dependency is the target of the dependency
    pub fn packages_folder(&self, dependency: &Self) -> (s: String)
        ensures
            s@ == spec_packages_folder(*self, *dependency),
    {
        let mut p: Vec<char> = Vec::new();
        p.push('p');
        p.push('a');
        p.push('c');
        p.push('k');
        p.push('a');
        p.push('g');
        p.push('e');
        p.push('s');
        assert(p@ =~= packages_text());
        if *self == *dependency {
            return string_from_chars(p.as_slice());
        }
        let mut s = dependency.to_string();
        string_push(&mut s, '_');
        push_chars(&mut s, p.as_slice());
        s
    }
}

/// Law: every target kind reads back from its name.
pub proof fn law_target_kind_round_trip(k: TargetKind)
    ensures
        target_kind_from_text(target_kind_text(k)) == Some(k),
{
    assert(target_kind_text(TargetKind::Roblox) != target_kind_text(TargetKind::Lune)) by {
        assert(target_kind_text(TargetKind::Roblox).len() != target_kind_text(TargetKind::Lune).len());
    }
    assert(target_kind_text(TargetKind::Roblox) != target_kind_text(TargetKind::Luau)) by {
        assert(target_kind_text(TargetKind::Roblox).len() != target_kind_text(TargetKind::Luau).len());
    }
    assert(target_kind_text(TargetKind::Lune) != target_kind_text(TargetKind::Luau)) by {
        assert(target_kind_text(TargetKind::Lune)[2] != target_kind_text(TargetKind::Luau)[2]);
    }
}

/// Law: a target is compatible with itself, and its own dependencies live in `packages`.
pub proof fn law_target_kind_self(k: TargetKind)
    ensures
        spec_is_compatible(k, k),
        spec_packages_folder(k, k) == packages_text(),
{
}

/// Law: a project keeps dependencies of its own target in `packages`, and
/// those of another target in a folder that names that target followed by
/// `_packages`; so each target's dependencies have their own folder.
pub proof fn law_packages_folder(project: TargetKind, dependency: TargetKind, other: TargetKind)
    ensures
        (spec_packages_folder(project, dependency) == "packages"@) <==> (project == dependency),
        project != dependency ==> ({
            let f = spec_packages_folder(project, dependency);
            &&& f.len() > 9
            &&& f.subrange(f.len() - 9, f.len() as int) == "_packages"@
            &&& target_kind_from_text(f.subrange(0, f.len() - 9)) == Some(dependency)
        }),
        spec_packages_folder(project, dependency) == spec_packages_folder(project, other) ==> dependency == other,
{
    reveal_strlit("packages");
    reveal_strlit("_packages");
    assert(packages_text() =~= "packages"@);
    law_target_kind_round_trip(dependency);
    law_target_kind_round_trip(other);
    let k = target_kind_text(dependency);
    assert(k.len() >= 4);
    let f = spec_packages_folder(project, dependency);
    if project != dependency {
        assert(f.subrange(0, f.len() - 9) =~= k);
        assert(f.subrange(f.len() - 9, f.len() as int) =~= "_packages"@);
    }
    let g = spec_packages_folder(project, other);
    if project != other {
        assert(g.subrange(0, g.len() - 9) =~= target_kind_text(other));
        assert(target_kind_text(other).len() >= 4);
    }
    if f == g && dependency != other {
        if project == dependency {
            assert(g.len() > 9);
        } else if project == other {
            assert(f.len() > 9);
        } else {
            assert(f.subrange(0, f.len() - 9) == g.subrange(0, g.len() - 9));
        }
    }
}

/// A target of a package
#[derive(Debug, Clone)]
pub enum Target {
    /// A Roblox target
    Roblox {
        /// The path to the lib export file
        lib: Option<String>,
        /// The files to include in the sync tool's config
        build_files: Vec<String>,
    },
    /// A Lune target
    Lune {
        /// The path to the lib export file
        lib: Option<String>,
        /// The path to the bin export file
        bin: Option<String>,
    },
    /// A Luau target
    Luau {
        /// The path to the lib export file
        lib: Option<String>,
        /// The path to the bin export file
        bin: Option<String>,
    },
}

pub open spec fn spec_target_kind(t: Target) -> TargetKind {
    match t {
        Target::Roblox { .. } => TargetKind::Roblox,
        Target::Lune { .. } => TargetKind::Lune,
        Target::Luau { .. } => TargetKind::Luau,
    }
}

pub open spec fn spec_lib_path(t: Target) -> Option<String> {
    match t {
        Target::Roblox { lib, .. } => lib,
        Target::Lune { lib, .. } => lib,
        Target::Luau { lib, .. } => lib,
    }
}

pub open spec fn spec_bin_path(t: Target) -> Option<String> {
    match t {
        Target::Roblox { .. } => None,
        Target::Lune { bin, .. } => bin,
        Target::Luau { bin, .. } => bin,
    }
}

/// What publishing checks of a target: some export, and for Roblox some build file
pub open spec fn spec_validate_publish(t: Target) -> Result<(), TargetValidatePublishError> {
    if spec_lib_path(t) is None && spec_bin_path(t) is None {
        Err(TargetValidatePublishError::NoExportedFiles)
    } else {
        match t {
            Target::Roblox { build_files, .. } if build_files@.len() == 0 => Err(TargetValidatePublishError::NoBuildFiles),
            _ => Ok(()),
        }
    }
}

impl Target {
    /// Returns the kind of this target
    pub fn kind(&self) -> (k: TargetKind)
        ensures
            k == spec_target_kind(*self),
    {
        match self {
            Target::Roblox { .. } => TargetKind::Roblox,
            Target::Lune { .. } => TargetKind::Lune,
            Target::Luau { .. } => TargetKind::Luau,
        }
    }

    /// Returns the path to the lib export file
    pub fn lib_path(&self) -> (r: Option<&String>)
        ensures
            match r {
                Some(p) => spec_lib_path(*self) == Some(*p),
                None => spec_lib_path(*self) is None,
            },
    {
        match self {
            Target::Roblox { lib, .. } => lib.as_ref(),
            Target::Lune { lib, .. } => lib.as_ref(),
            Target::Luau { lib, .. } => lib.as_ref(),
        }
    }

    /// Returns the path to the bin export file
    pub fn bin_path(&self) -> (r: Option<&String>)
        ensures
            match r {
                Some(p) => spec_bin_path(*self) == Some(*p),
                None => spec_bin_path(*self) is None,
            },
    {
        match self {
            Target::Roblox { .. } => None,
            Target::Lune { bin, .. } => bin.as_ref(),
            Target::Luau { bin, .. } => bin.as_ref(),
        }
    }

    /// Validates the target for publishing
    pub fn validate_publish(&self) -> (r: Result<(), TargetValidatePublishError>)
        ensures
            r == spec_validate_publish(*self),
    {
        let has_exports = match self {
            Target::Roblox { lib, .. } => lib.is_some(),
            Target::Lune { lib, bin } => lib.is_some() || bin.is_some(),
            Target::Luau { lib, bin } => lib.is_some() || bin.is_some(),
        };
        if !has_exports {
            return Err(TargetValidatePublishError::NoExportedFiles);
        }
        match self {
            Target::Roblox { build_files, .. } => {
                if build_files.len() == 0 {
                    Err(TargetValidatePublishError::NoBuildFiles)
                } else {
                    Ok(())
                }
            },
            _ => Ok(()),
        }
    }

    /// The name of the target's kind
    pub fn to_string(&self) -> (s: String)
        ensures
            s@ == target_kind_text(spec_target_kind(*self)),
    {
        self.kind().to_string()
    }
}

} // verus!
