//! Converting the manifests of packages that come without one (Wally and git
//! packages): which packages need it, and which file becomes the library
use vstd::prelude::*;

use crate::dependencies::resolution::RootLockfileNode;
use crate::dependencies::PackageRef;
use crate::text::{str_eq, str_to_string};

verus! {

/// The extension of a relative path's file name, as `relative_path` reads it
/// (none for a path without a file name, or a file name without an inner `.`)
pub uninterp spec fn relative_extension(p: Seq<char>) -> Option<Seq<char>>;

/// `relative_path::RelativePath::extension` on the path `p`: the extension of
/// its file name; it depends on the path's text alone.
#[verifier::external_body]
fn path_extension(p: &str) -> (r: Option<String>)
    ensures
        match r {
            Some(e) => relative_extension(p@) == Some(e@),
            None => relative_extension(p@) is None,
        },
{
    relative_path::RelativePath::new(p).extension().map(|e| e.to_string())
}

/// Whether a package is converted: Wally and git packages are
pub open spec fn is_converted(p: PackageRef) -> bool {
    p is Wally || p is Git
}

/// The positions of the packages of the lockfile whose manifests are
/// converted, in order
pub open spec fn converted_positions(lock: RootLockfileNode, n: int) -> Seq<usize>
    decreases n,
{
    if n <= 0 {
        Seq::empty()
    } else {
        let rest = converted_positions(lock, n - 1);
        if is_converted(lock.children.ev()[n - 1].1.pkg_ref) {
            rest.push((n - 1) as usize)
        } else {
            rest
        }
    }
}

/// The positions of the packages whose manifests are converted (Wally and git packages)
pub fn conversion_sources(lock: &RootLockfileNode) -> (r: Vec<usize>)
    ensures
        r@ == converted_positions(*lock, lock.children.ev().len() as int),
{
    let mut r: Vec<usize> = Vec::new();
    let mut i: usize = 0;
    while i < lock.children.len()
        invariant
            i <= lock.children.ev().len(),
            r@ == converted_positions(*lock, i as int),
        decreases lock.children.ev().len() - i,
    {
        let (_, pkg) = lock.children.entry_at(i);
        match &pkg.pkg_ref {
            PackageRef::Registry(_) => {},
            _ => r.push(i),
        }
        i = i + 1;
    }
    r
}

/// Whether an extension is that of a Luau file
pub open spec fn is_lua_extension(e: Option<Seq<char>>) -> bool {
    e == Some("lua"@) || e == Some("luau"@)
}

/// The first position whose extension is that of a Luau file
pub open spec fn first_lua(extensions: Seq<Option<Seq<char>>>) -> Option<int>
    decreases extensions.len(),
{
    if extensions.len() == 0 {
        None
    } else if is_lua_extension(extensions[0]) {
        Some(0)
    } else {
        match first_lua(extensions.drop_first()) {
            Some(i) => Some(i + 1),
            None => None,
        }
    }
}

/// The extensions, as values
pub open spec fn extensions_view(v: Seq<Option<String>>) -> Seq<Option<Seq<char>>> {
    v.map_values(|e: Option<String>| match e {
        Some(s) => Some(s@),
        None => None,
    })
}

proof fn lemma_first_lua_none(extensions: Seq<Option<Seq<char>>>)
    requires
        forall|j: int| 0 <= j < extensions.len() ==> !is_lua_extension(#[trigger] extensions[j]),
    ensures
        first_lua(extensions) is None,
    decreases extensions.len(),
{
    if extensions.len() > 0 {
        let rest = extensions.drop_first();
        assert forall|j: int| 0 <= j < rest.len() implies !is_lua_extension(#[trigger] rest[j]) by {
            assert(rest[j] == extensions[j + 1]);
        }
        lemma_first_lua_none(rest);
        assert(!is_lua_extension(extensions[0]));
    }
}

proof fn lemma_first_lua_at(extensions: Seq<Option<Seq<char>>>, i: int)
    requires
        0 <= i < extensions.len(),
        is_lua_extension(extensions[i]),
        forall|j: int| 0 <= j < i ==> !is_lua_extension(#[trigger] extensions[j]),
    ensures
        first_lua(extensions) == Some(i),
    decreases i,
{
    if i > 0 {
        let rest = extensions.drop_first();
        assert forall|j: int| 0 <= j < i - 1 implies !is_lua_extension(#[trigger] rest[j]) by {
            assert(rest[j] == extensions[j + 1]);
        }
        assert(rest[i - 1] == extensions[i]);
        lemma_first_lua_at(rest, i - 1);
        assert(!is_lua_extension(extensions[0]));
    }
}

/// The library of a converted package, from the file paths of its sourcemap
/// and their extensions: the first Luau file (`.lua` or `.luau`), else `true`
/// (a library with no file to read)
pub fn pick_lib_file(paths: &Vec<String>, extensions: &Vec<Option<String>>) -> (r: String)
    requires
        paths@.len() == extensions@.len(),
    ensures
        match first_lua(extensions_view(extensions@)) {
            Some(i) => r@ == paths@[i]@,
            None => r@ == "true"@,
        },
{
    let ghost ev = extensions_view(extensions@);
    let mut i: usize = 0;
    while i < paths.len()
        invariant
            paths@.len() == extensions@.len(),
            ev == extensions_view(extensions@),
            i <= paths@.len(),
            forall|j: int| 0 <= j < i ==> !is_lua_extension(#[trigger] ev[j]),
        decreases paths@.len() - i,
    {
        let lua = match &extensions[i] {
            Some(e) => str_eq(e.as_str(), "lua") || str_eq(e.as_str(), "luau"),
            None => false,
        };
        proof {
            assert(ev[i as int] == match extensions@[i as int] {
                Some(e) => Some(e@),
                None => None::<Seq<char>>,
            });
        }
        if lua {
            proof {
                lemma_first_lua_at(ev, i as int);
            }
            return paths[i].clone();
        }
        i = i + 1;
    }
    proof {
        lemma_first_lua_none(ev);
    }
    str_to_string("true")
}

/// The library of a converted package, from the file paths of its sourcemap:
/// the first whose extension is `lua` or `luau`, else `true`
pub fn sourcemap_lib(paths: &Vec<String>) -> (r: String)
    ensures
        match first_lua(paths@.map_values(|p: String| relative_extension(p@))) {
            Some(i) => r@ == paths@[i]@,
            None => r@ == "true"@,
        },
{
    let mut extensions: Vec<Option<String>> = Vec::new();
    let mut i: usize = 0;
    while i < paths.len()
        invariant
            i <= paths@.len(),
            extensions@.len() == i,
            extensions_view(extensions@) == paths@.take(i as int).map_values(|p: String| relative_extension(p@)),
        decreases paths@.len() - i,
    {
        let e = path_extension(paths[i].as_str());
        let ghost before = extensions@;
        extensions.push(e);
        proof {
            assert(extensions_view(extensions@) =~= paths@.take(i + 1).map_values(|p: String| relative_extension(p@))) by {
                assert(extensions@ == before.push(e));
                assert forall|j: int| 0 <= j < i + 1 implies extensions_view(extensions@)[j]
                    == paths@.take(i + 1).map_values(|p: String| relative_extension(p@))[j] by {
                    if j < i {
                        assert(extensions@[j] == before[j]);
                        assert(extensions_view(before)[j] == extensions_view(extensions@)[j]);
                    }
                }
            }
        }
        i = i + 1;
    }
    assert(paths@.take(paths@.len() as int) =~= paths@);
    pick_lib_file(paths, &extensions)
}

} // verus!
