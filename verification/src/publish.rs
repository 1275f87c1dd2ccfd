//! What publishing decides: which names the archive includes, which build
//! files a Roblox package lists, and how large the archive may be
use vstd::prelude::*;

use crate::strmap::{lemma_insert_key_set, StrMap};
use crate::install::join_with;
use crate::text::str_to_string;
use crate::MANIFEST_FILE_NAME;

verus! {

/// The largest archive a package can be published as, in bytes
pub const MAX_ARCHIVE_SIZE: usize = 4 * 1024 * 1024;

/// A file a package exports
#[derive(Debug, Clone, Copy, PartialEq, Eq, Structural)]
pub enum ExportKind {
    /// The library file (`lib path`)
    Lib,
    /// The binary file (`bin path`)
    Bin,
}

/// What publishing reports while it settles the includes
#[derive(Debug)]
pub enum PublishWarning {
    /// The manifest was not among the includes and was added
    ManifestAdded,
    /// `.git` was among the includes and was taken out
    GitRemoved,
    /// The first part of an export's path was not among the includes and was added
    ExportIncluded(ExportKind, String),
    /// The first part of an export's path was not among the build files and was added
    ExportInBuildFiles(ExportKind, String),
}

pub enum PublishWarningView {
    ManifestAdded,
    GitRemoved,
    ExportIncluded(ExportKind, Seq<char>),
    ExportInBuildFiles(ExportKind, Seq<char>),
}

impl View for PublishWarning {
    type V = PublishWarningView;

    open spec fn view(&self) -> PublishWarningView {
        match self {
            PublishWarning::ManifestAdded => PublishWarningView::ManifestAdded,
            PublishWarning::GitRemoved => PublishWarningView::GitRemoved,
            PublishWarning::ExportIncluded(k, p) => PublishWarningView::ExportIncluded(*k, p@),
            PublishWarning::ExportInBuildFiles(k, p) => PublishWarningView::ExportInBuildFiles(*k, p@),
        }
    }
}

/// The includes, the build files (for a Roblox package) and the warnings so far
pub struct IncludesOutcome {
    pub includes: Set<Seq<char>>,
    pub build_files: Option<Set<Seq<char>>>,
    pub warnings: Seq<PublishWarningView>,
}

/// `.git`
pub open spec fn git_text() -> Seq<char> {
    seq!['.', 'g', 'i', 't']
}

/// The outcome after taking in the exports, in order: the first part of each
/// export's path joins the includes, and the build files of a Roblox package
pub open spec fn exports_fold(o: IncludesOutcome, exports: Seq<(ExportKind, Seq<char>)>) -> IncludesOutcome
    decreases exports.len(),
{
    if exports.len() == 0 {
        o
    } else {
        let p = exports_fold(o, exports.drop_last());
        let (kind, part) = exports.last();
        let w = if p.includes.contains(part) {
            p.warnings
        } else {
            p.warnings.push(PublishWarningView::ExportIncluded(kind, part))
        };
        match p.build_files {
            None => IncludesOutcome { includes: p.includes.insert(part), build_files: None, warnings: w },
            Some(b) => IncludesOutcome {
                includes: p.includes.insert(part),
                build_files: Some(b.insert(part)),
                warnings: if b.contains(part) {
                    w
                } else {
                    w.push(PublishWarningView::ExportInBuildFiles(kind, part))
                },
            },
        }
    }
}

/// The includes of a published package: the manifest is added, `.git` taken
/// out, and the first part of each export's path added (to the build files
/// too, for a Roblox package)
pub open spec fn spec_publish_includes(
    includes: Set<Seq<char>>,
    exports: Seq<(ExportKind, Seq<char>)>,
    build_files: Option<Set<Seq<char>>>,
) -> IncludesOutcome {
    let w0 = if !includes.contains(MANIFEST_FILE_NAME@) {
        seq![PublishWarningView::ManifestAdded]
    } else {
        Seq::empty()
    };
    let s1 = includes.insert(MANIFEST_FILE_NAME@);
    let w1 = if s1.contains(git_text()) {
        w0.push(PublishWarningView::GitRemoved)
    } else {
        w0
    };
    exports_fold(IncludesOutcome { includes: s1.remove(git_text()), build_files, warnings: w1 }, exports)
}

/// The first parts of the exports' paths, as a set
pub open spec fn export_parts(exports: Seq<(ExportKind, Seq<char>)>) -> Set<Seq<char>> {
    exports.map_values(|e: (ExportKind, Seq<char>)| e.1).to_set()
}

proof fn lemma_exports_fold(o: IncludesOutcome, exports: Seq<(ExportKind, Seq<char>)>)
    ensures
        exports_fold(o, exports).includes == o.includes.union(export_parts(exports)),
        exports_fold(o, exports).build_files == (match o.build_files {
            Some(b) => Some(b.union(export_parts(exports))),
            None => None,
        }),
    decreases exports.len(),
{
    if exports.len() == 0 {
        assert(o.includes.union(export_parts(exports)) =~= o.includes);
        match o.build_files {
            Some(b) => assert(b.union(export_parts(exports)) =~= b),
            None => {},
        }
    } else {
        let rest = exports.drop_last();
        lemma_exports_fold(o, rest);
        let parts = exports.map_values(|e: (ExportKind, Seq<char>)| e.1);
        assert(parts =~= rest.map_values(|e: (ExportKind, Seq<char>)| e.1).push(exports.last().1));
        rest.map_values(|e: (ExportKind, Seq<char>)| e.1).lemma_push_to_set_commute(exports.last().1);
        assert(o.includes.union(export_parts(rest)).insert(exports.last().1) =~= o.includes.union(export_parts(exports)));
        match o.build_files {
            Some(b) => assert(b.union(export_parts(rest)).insert(exports.last().1) =~= b.union(export_parts(exports))),
            None => {},
        }
    }
}

/// Law: a published package includes exactly the manifest, the includes of its
/// manifest but `.git`, and the first part of each export's path; a Roblox
/// package's build files gain the first part of each export's path.
pub proof fn law_publish_includes(includes: Set<Seq<char>>, exports: Seq<(ExportKind, Seq<char>)>, build_files: Option<Set<Seq<char>>>)
    ensures
        spec_publish_includes(includes, exports, build_files).includes
            == includes.insert(MANIFEST_FILE_NAME@).remove(git_text()).union(export_parts(exports)),
        spec_publish_includes(includes, exports, build_files).build_files == (match build_files {
            Some(b) => Some(b.union(export_parts(exports))),
            None => None,
        }),
{
    let w0 = if !includes.contains(MANIFEST_FILE_NAME@) {
        seq![PublishWarningView::ManifestAdded]
    } else {
        Seq::empty()
    };
    let s1 = includes.insert(MANIFEST_FILE_NAME@);
    let w1 = if s1.contains(git_text()) {
        w0.push(PublishWarningView::GitRemoved)
    } else {
        w0
    };
    lemma_exports_fold(IncludesOutcome { includes: s1.remove(git_text()), build_files, warnings: w1 }, exports);
}

/// Law: the includes a publish settles on are settled: settling them again,
/// with the same exports and the build files it gave, changes neither.
pub proof fn law_publish_includes_settled(includes: Set<Seq<char>>, exports: Seq<(ExportKind, Seq<char>)>, build_files: Option<Set<Seq<char>>>)
    ensures
        ({
            let o = spec_publish_includes(includes, exports, build_files);
            let again = spec_publish_includes(o.includes, exports, o.build_files);
            again.includes == o.includes && again.build_files == o.build_files
        }),
{
    let o = spec_publish_includes(includes, exports, build_files);
    law_publish_includes(includes, exports, build_files);
    law_publish_includes(o.includes, exports, o.build_files);
    let parts = export_parts(exports);
    let m = MANIFEST_FILE_NAME@;
    let g = git_text();
    let first = includes.insert(m).remove(g).union(parts);
    assert(first.insert(m).remove(g).union(parts) =~= first) by {
        assert forall|x: Seq<char>| first.insert(m).remove(g).union(parts).contains(x) <==> first.contains(x) by {
            if x == g {
            } else if x == m {
            }
        }
    }
    match build_files {
        Some(b) => {
            assert(b.union(parts).union(parts) =~= b.union(parts));
        },
        None => {},
    }
}

/// The names of a list, as a set
pub open spec fn names_set(v: Seq<String>) -> Set<Seq<char>> {
    v.map_values(|s: String| s@).to_set()
}

/// The warnings, as values
pub open spec fn warnings_view(v: Seq<PublishWarning>) -> Seq<PublishWarningView> {
    v.map_values(|w: PublishWarning| w@)
}

/// A set of names, in increasing order
fn name_set(v: &Vec<String>) -> (r: StrMap<()>)
    ensures
        r.wf(),
        r.keys().to_set() == names_set(v@),
{
    let mut m: StrMap<()> = StrMap::new();
    let ghost views = v@.map_values(|s: String| s@);
    let mut i: usize = 0;
    assert(m.keys().to_set() =~= views.take(0).to_set());
    while i < v.len()
        invariant
            m.wf(),
            views == v@.map_values(|s: String| s@),
            i <= v@.len(),
            m.keys().to_set() == views.take(i as int).to_set(),
        decreases v@.len() - i,
    {
        proof {
            lemma_insert_key_set(m.ev(), v@[i as int]@, ());
            assert(views.take(i + 1) =~= views.take(i as int).push(v@[i as int]@));
            views.take(i as int).lemma_push_to_set_commute(v@[i as int]@);
        }
        m.insert(v[i].clone(), ());
        i = i + 1;
    }
    assert(views.take(v@.len() as int) =~= views);
    m
}

/// Adds `k` to a set of names, telling whether it was new
fn add_name(m: &mut StrMap<()>, k: &str) -> (r: bool)
    requires
        old(m).wf(),
    ensures
        final(m).wf(),
        final(m).keys().to_set() == old(m).keys().to_set().insert(k@),
        r == !old(m).keys().to_set().contains(k@),
{
    let present = m.contains(k);
    proof {
        lemma_insert_key_set(m.ev(), k@, ());
    }
    m.insert(str_to_string(k), ());
    !present
}

/// The includes of a published package, from the manifest's includes, the
/// first parts of the export paths (in order) and the build files of a Roblox
/// package: the manifest is added, `.git` taken out, and each export's first
/// part added to the includes and the build files; each change is reported
pub fn publish_includes(
    includes: &Vec<String>,
    exports: &Vec<(ExportKind, String)>,
    build_files: Option<&Vec<String>>,
) -> (r: (StrMap<()>, Option<StrMap<()>>, Vec<PublishWarning>))
    ensures
        ({
            let o = spec_publish_includes(
                names_set(includes@),
                exports@.map_values(|e: (ExportKind, String)| (e.0, e.1@)),
                match build_files {
                    Some(b) => Some(names_set(b@)),
                    None => None,
                },
            );
            &&& r.0.wf()
            &&& r.0.keys().to_set() == o.includes
            &&& match (r.1, o.build_files) {
                (Some(m), Some(b)) => m.wf() && m.keys().to_set() == b,
                (None, None) => true,
                _ => false,
            }
            &&& warnings_view(r.2@) == o.warnings
        }),
{
    let mut set = name_set(includes);
    let mut warnings: Vec<PublishWarning> = Vec::new();
    let manifest = MANIFEST_FILE_NAME;
    if add_name(&mut set, manifest) {
        warnings.push(PublishWarning::ManifestAdded);
    }
    if set.remove(".git").is_some() {
        warnings.push(PublishWarning::GitRemoved);
    }
    let mut build: Option<StrMap<()>> = match build_files {
        Some(b) => Some(name_set(b)),
        None => None,
    };
    let ghost ev = exports@.map_values(|e: (ExportKind, String)| (e.0, e.1@));
    let ghost start = {
        let s1 = names_set(includes@).insert(MANIFEST_FILE_NAME@);
        IncludesOutcome {
            includes: s1.remove(git_text()),
            build_files: match build_files {
                Some(b) => Some(names_set(b@)),
                None => None,
            },
            warnings: warnings_view(warnings@),
        }
    };
    proof {
        reveal_strlit(".git");
        reveal_strlit("pesde.toml");
        assert(".git"@ =~= git_text());
        let w0 = if !names_set(includes@).contains(MANIFEST_FILE_NAME@) {
            seq![PublishWarningView::ManifestAdded]
        } else {
            Seq::empty()
        };
        let s1 = names_set(includes@).insert(MANIFEST_FILE_NAME@);
        let w1 = if s1.contains(git_text()) {
            w0.push(PublishWarningView::GitRemoved)
        } else {
            w0
        };
        assert(warnings_view(warnings@) =~= w1);
        assert(exports_fold(start, ev.take(0)) == start);
    }
    let mut i: usize = 0;
    while i < exports.len()
        invariant
            ev == exports@.map_values(|e: (ExportKind, String)| (e.0, e.1@)),
            i <= exports@.len(),
            set.wf(),
            ({
                let o = exports_fold(start, ev.take(i as int));
                &&& set.keys().to_set() == o.includes
                &&& match (build, o.build_files) {
                    (Some(m), Some(b)) => m.wf() && m.keys().to_set() == b,
                    (None, None) => true,
                    _ => false,
                }
                &&& warnings_view(warnings@) == o.warnings
            }),
        decreases exports@.len() - i,
    {
        let (kind, part) = &exports[i];
        let ghost before = warnings_view(warnings@);
        proof {
            assert(ev.take(i + 1).drop_last() =~= ev.take(i as int));
            assert(ev.take(i + 1).last() == (*kind, part@));
        }
        if add_name(&mut set, part.as_str()) {
            warnings.push(PublishWarning::ExportIncluded(*kind, part.clone()));
        }
        let ghost mid = warnings_view(warnings@);
        let mut next_build: Option<StrMap<()>> = None;
        match build {
            Some(mut b) => {
                if add_name(&mut b, part.as_str()) {
                    warnings.push(PublishWarning::ExportInBuildFiles(*kind, part.clone()));
                }
                next_build = Some(b);
            },
            None => {},
        }
        build = next_build;
        proof {
            assert(warnings_view(warnings@) =~= exports_fold(start, ev.take(i + 1)).warnings);
        }
        i = i + 1;
    }
    proof {
        assert(ev.take(exports@.len() as int) =~= ev);
    }
    (set, build, warnings)
}

/// Why the build files of a Roblox package cannot be published
#[derive(Debug)]
pub enum BuildFileError {
    /// A build file does not exist
    Missing(String),
    /// A build file is not among the includes
    NotIncluded(String),
}

/// Whether two characters are equal but for ASCII case
pub open spec fn chars_eq_ignore_ascii_case(a: char, b: char) -> bool {
    ||| a == b
    ||| ('A' <= a <= 'Z' && a as u32 + 32 == b as u32)
    ||| ('A' <= b <= 'Z' && b as u32 + 32 == a as u32)
}

/// Whether two names are equal but for ASCII case
pub open spec fn eq_ignore_ascii_case(a: Seq<char>, b: Seq<char>) -> bool {
    a.len() == b.len() && forall|i: int| 0 <= i < a.len() ==> chars_eq_ignore_ascii_case(#[trigger] a[i], b[i])
}

/// Whether two names are equal but for ASCII case
pub fn str_eq_ignore_ascii_case(a: &str, b: &str) -> (r: bool)
    ensures
        r == eq_ignore_ascii_case(a@, b@),
{
    let x = crate::text::chars_of(a);
    let y = crate::text::chars_of(b);
    if x.len() != y.len() {
        return false;
    }
    let mut i: usize = 0;
    while i < x.len()
        invariant
            x@ == a@,
            y@ == b@,
            x@.len() == y@.len(),
            i <= x@.len(),
            forall|j: int| 0 <= j < i ==> chars_eq_ignore_ascii_case(#[trigger] x@[j], y@[j]),
        decreases x@.len() - i,
    {
        let c = x[i];
        let d = y[i];
        let same = c == d || ('A' <= c && c <= 'Z' && (c as u32) + 32 == d as u32)
            || ('A' <= d && d <= 'Z' && (d as u32) + 32 == c as u32);
        if !same {
            return false;
        }
        i = i + 1;
    }
    true
}

/// What checking the build files comes to: the number of times the manifest
/// was met among them (and skipped), and the first build file that is missing
/// or not included, if any
pub open spec fn build_files_check(
    includes: Set<Seq<char>>,
    build_files: Seq<Seq<char>>,
    exists: Seq<bool>,
    n: int,
) -> (int, Option<(bool, Seq<char>)>)
    decreases n,
{
    if n <= 0 {
        (0, None)
    } else {
        let p = build_files_check(includes, build_files, exists, n - 1);
        let f = build_files[n - 1];
        if p.1 is Some {
            p
        } else if eq_ignore_ascii_case(f, MANIFEST_FILE_NAME@) {
            (p.0 + 1, None)
        } else if !exists[n - 1] {
            (p.0, Some((true, f)))
        } else if !includes.contains(f) {
            (p.0, Some((false, f)))
        } else {
            p
        }
    }
}

/// Checks the build files of a Roblox package, in order, given whether each
/// exists: the manifest is skipped (and counted, to be warned about); the first
/// one that does not exist, or is not among the includes, stops the check
pub fn check_build_files(includes: &StrMap<()>, build_files: &StrMap<()>, exists: &Vec<bool>) -> (r: (usize, Option<BuildFileError>))
    requires
        includes.wf(),
        build_files.wf(),
        exists@.len() == build_files.ev().len(),
    ensures
        ({
            let c = build_files_check(includes.keys().to_set(), build_files.keys(), exists@, build_files.ev().len() as int);
            &&& r.0 == c.0
            &&& match (r.1, c.1) {
                (None, None) => true,
                (Some(BuildFileError::Missing(f)), Some((true, g))) => f@ == g,
                (Some(BuildFileError::NotIncluded(f)), Some((false, g))) => f@ == g,
                _ => false,
            }
        }),
{
    let mut skipped: usize = 0;
    let mut i: usize = 0;
    while i < build_files.len()
        invariant
            includes.wf(),
            build_files.wf(),
            exists@.len() == build_files.ev().len(),
            i <= build_files.ev().len(),
            skipped <= i,
            build_files_check(includes.keys().to_set(), build_files.keys(), exists@, i as int) == (skipped as int, None::<(bool, Seq<char>)>),
        decreases build_files.ev().len() - i,
    {
        let f = build_files.key_at(i);
        proof {
            assert(build_files.keys()[i as int] == f@);
        }
        if str_eq_ignore_ascii_case(f.as_str(), MANIFEST_FILE_NAME) {
            skipped = skipped + 1;
        } else if !exists[i] {
            proof {
                lemma_check_stops(includes.keys().to_set(), build_files.keys(), exists@, i + 1, build_files.ev().len() as int);
            }
            return (skipped, Some(BuildFileError::Missing(f.clone())));
        } else if !includes.contains(f.as_str()) {
            proof {
                lemma_check_stops(includes.keys().to_set(), build_files.keys(), exists@, i + 1, build_files.ev().len() as int);
            }
            return (skipped, Some(BuildFileError::NotIncluded(f.clone())));
        }
        i = i + 1;
    }
    (skipped, None)
}

proof fn lemma_check_stops(includes: Set<Seq<char>>, build_files: Seq<Seq<char>>, exists: Seq<bool>, i: int, n: int)
    requires
        0 <= i <= n,
        build_files_check(includes, build_files, exists, i).1 is Some,
    ensures
        build_files_check(includes, build_files, exists, n) == build_files_check(includes, build_files, exists, i),
    decreases n - i,
{
    if i < n {
        lemma_check_stops(includes, build_files, exists, i, n - 1);
    }
}

/// By how many bytes an archive of `len` bytes is over the limit, if it is
pub fn archive_excess(len: usize) -> (r: Option<usize>)
    ensures
        r == (if len > MAX_ARCHIVE_SIZE { Some((len - MAX_ARCHIVE_SIZE) as usize) } else { None::<usize> }),
{
    if len > MAX_ARCHIVE_SIZE {
        Some(len - MAX_ARCHIVE_SIZE)
    } else {
        None
    }
}

/// What `full_moon::parse` reports of a text: its errors, each as displayed;
/// none when the text is valid Luau
pub uninterp spec fn luau_parse_errors(s: Seq<char>) -> Seq<Seq<char>>;

/// `full_moon::parse`: the errors it reports for `contents`, each as displayed
/// (none exactly when it parses). The contract claims only that the result is
/// the parser's, a function of the text alone.
#[verifier::external_body]
fn luau_errors(contents: &str) -> (r: Vec<String>)
    ensures
        r@.map_values(|e: String| e@) == luau_parse_errors(contents@),
{
    match full_moon::parse(contents) {
        Ok(_) => Vec::new(),
        Err(errs) => errs.into_iter().map(|e| e.to_string()).collect(),
    }
}

/// An export whose file is not valid Luau, with the parser's errors
#[derive(Debug)]
pub struct InvalidLuauFile {
    /// Which export
    pub kind: ExportKind,
    /// The errors, joined by `, `
    pub errors: String,
}

/// `parts` joined by `, `
fn join_comma_space(parts: &Vec<String>) -> (r: String)
    ensures
        r@ == join_with(parts@.map_values(|e: String| e@), ", "@),
{
    let ghost v = parts@.map_values(|e: String| e@);
    let mut out = String::new();
    let mut i: usize = 0;
    proof {
        reveal_strlit(", ");
    }
    while i < parts.len()
        invariant
            v == parts@.map_values(|e: String| e@),
            i <= parts@.len(),
            out@ == join_with(v.take(i as int), ", "@),
        decreases parts@.len() - i,
    {
        proof {
            assert(v.take(i + 1).drop_last() =~= v.take(i as int));
            assert(v.take(i + 1).last() == parts@[i as int]@);
        }
        if i > 0 {
            out.append(", ");
        } else {
            assert(v.take(1) =~= seq![parts@[0]@]);
        }
        out.append(parts[i].as_str());
        i = i + 1;
    }
    proof {
        assert(v.take(parts@.len() as int) =~= v);
    }
    out
}

/// Checks that the file of an export is valid Luau: an error for the export,
/// with the parser's errors joined by `, `, exactly when the parser reports any
pub fn check_export_contents(kind: ExportKind, contents: &str) -> (r: Result<(), InvalidLuauFile>)
    ensures
        match r {
            Ok(()) => luau_parse_errors(contents@).len() == 0,
            Err(e) => {
                &&& luau_parse_errors(contents@).len() > 0
                &&& e.kind == kind
                &&& e.errors@ == join_with(luau_parse_errors(contents@), ", "@)
            },
        },
{
    let errors = luau_errors(contents);
    if errors.len() == 0 {
        Ok(())
    } else {
        Err(InvalidLuauFile { kind, errors: join_comma_space(&errors) })
    }
}

} // verus!
