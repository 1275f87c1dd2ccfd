//! The text of linking modules and of the require paths in them
use vstd::prelude::*;

use crate::manifest::target::TargetKind;
use crate::text::{
    chars_of, concat_seqs, concat_strings, debug_quoted, debug_str, join, join_strings,
    str_to_string, string_from_chars, string_push, trim_end_all, trim_end_matches,
};

verus! {

/// A component of a path (as `std::path::Component` gives them)
#[derive(Debug)]
pub enum PathComponent {
    /// A Windows path prefix
    Prefix,
    /// The root directory
    RootDir,
    /// `.`
    CurDir,
    /// `..`
    ParentDir,
    /// A plain name
    Normal(String),
}

pub enum PathComponentView {
    Prefix,
    RootDir,
    CurDir,
    ParentDir,
    Normal(Seq<char>),
}

impl View for PathComponent {
    type V = PathComponentView;

    open spec fn view(&self) -> PathComponentView {
        match self {
            PathComponent::Prefix => PathComponentView::Prefix,
            PathComponent::RootDir => PathComponentView::RootDir,
            PathComponent::CurDir => PathComponentView::CurDir,
            PathComponent::ParentDir => PathComponentView::ParentDir,
            PathComponent::Normal(s) => PathComponentView::Normal(s@),
        }
    }
}

pub open spec fn components_view(cs: Seq<PathComponent>) -> Seq<PathComponentView> {
    cs.map_values(|c: PathComponent| c@)
}

/// The text of a library linking module
pub open spec fn lib_linking_module(path: Seq<char>, types: Seq<Seq<char>>) -> Seq<char> {
    "local module = require("@ + path + ")\n"@ + concat_seqs(types) + "return module"@
}

/// Generate a linking module for a library
pub fn generate_lib_linking_module(path: &str, types: &Vec<String>) -> (s: String)
    ensures
        s@ == lib_linking_module(path@, types@.map_values(|t: String| t@)),
{
    let mut s = str_to_string("local module = require(");
    s.append(path);
    s.append(")\n");
    let all = concat_strings(types);
    s.append(all.as_str());
    s.append("return module");
    s
}

/// The text of a binary linking module
pub open spec fn bin_linking_module(package_root: Seq<char>, require_path: Seq<char>) -> Seq<char> {
    "_G.PESDE_ROOT = "@ + debug_quoted(package_root) + "\nreturn require("@ + require_path + ")"@
}

/// Generate a linking module for a binary
pub fn generate_bin_linking_module(package_root: &str, require_path: &str) -> (s: String)
    ensures
        s@ == bin_linking_module(package_root@, require_path@),
{
    let mut s = str_to_string("_G.PESDE_ROOT = ");
    let root = debug_str(package_root);
    s.append(root.as_str());
    s.append("\nreturn require(");
    s.append(require_path);
    s.append(")");
    s
}

/// The parts of a Luau-style path: `.`, `..` and names; roots and prefixes are left out
pub open spec fn luau_parts(cs: Seq<PathComponentView>) -> Seq<Seq<char>>
    decreases cs.len(),
{
    if cs.len() == 0 {
        Seq::empty()
    } else {
        let rest = luau_parts(cs.drop_last());
        match cs.last() {
            PathComponentView::CurDir => rest.push("."@),
            PathComponentView::ParentDir => rest.push(".."@),
            PathComponentView::Normal(p) => rest.push(p),
            _ => rest,
        }
    }
}

/// A path as a quoted `./a/b` string for `require`
pub open spec fn spec_luau_style_path(cs: Seq<PathComponentView>) -> Seq<char> {
    debug_quoted("./"@ + join(luau_parts(cs), '/'))
}

fn luau_part_strings(cs: &Vec<PathComponent>) -> (r: Vec<String>)
    ensures
        r@.map_values(|p: String| p@) == luau_parts(components_view(cs@)),
{
    let mut r: Vec<String> = Vec::new();
    let mut i: usize = 0;
    while i < cs.len()
        invariant
            i <= cs@.len(),
            r@.map_values(|p: String| p@) == luau_parts(components_view(cs@.take(i as int))),
        decreases cs@.len() - i,
    {
        let ghost before = r@;
        proof {
            assert(components_view(cs@.take(i + 1)).drop_last() =~= components_view(cs@.take(i as int)));
            assert(components_view(cs@.take(i + 1)).last() == cs@[i as int]@);
        }
        match &cs[i] {
            PathComponent::CurDir => r.push(str_to_string(".")),
            PathComponent::ParentDir => r.push(str_to_string("..")),
            PathComponent::Normal(p) => r.push(p.clone()),
            _ => {},
        }
        proof {
            assert(r@.map_values(|p: String| p@) =~= luau_parts(components_view(cs@.take(i + 1))));
        }
        i = i + 1;
    }
    proof {
        assert(cs@.take(cs@.len() as int) =~= cs@);
    }
    r
}

/// The require path of a path, in Luau style
pub fn luau_style_path(cs: &Vec<PathComponent>) -> (s: String)
    ensures
        s@ == spec_luau_style_path(components_view(cs@)),
{
    let parts = luau_part_strings(cs);
    let joined = join_strings(&parts, '/');
    let mut require = str_to_string("./");
    require.append(joined.as_str());
    debug_str(require.as_str())
}

/// A name part of a Roblox instance path: `["name"]`, with a `.lua` or `.luau` extension removed
pub open spec fn roblox_name_part(p: Seq<char>) -> Seq<char> {
    "["@ + debug_quoted(trim_end_all(trim_end_all(p, ".lua"@), ".luau"@)) + "]"@
}

/// The parts of a Roblox instance path: `.Parent` for `..`, an indexed name for a
/// name other than `init.lua`/`init.luau`; the rest is left out
pub open spec fn roblox_parts(cs: Seq<PathComponentView>) -> Seq<Seq<char>>
    decreases cs.len(),
{
    if cs.len() == 0 {
        Seq::empty()
    } else {
        let rest = roblox_parts(cs.drop_last());
        match cs.last() {
            PathComponentView::ParentDir => rest.push(".Parent"@),
            PathComponentView::Normal(p) => if p != "init.lua"@ && p != "init.luau"@ {
                rest.push(roblox_name_part(p))
            } else {
                rest
            },
            _ => rest,
        }
    }
}

/// A Roblox require path: the prefix, then the parts
pub open spec fn spec_roblox_require_path(prefix: Seq<char>, cs: Seq<PathComponentView>) -> Seq<char> {
    prefix + concat_seqs(roblox_parts(cs))
}

fn roblox_part_strings(cs: &Vec<PathComponent>) -> (r: Vec<String>)
    ensures
        r@.map_values(|p: String| p@) == roblox_parts(components_view(cs@)),
{
    let mut r: Vec<String> = Vec::new();
    let mut i: usize = 0;
    let init_lua = str_to_string("init.lua");
    let init_luau = str_to_string("init.luau");
    while i < cs.len()
        invariant
            i <= cs@.len(),
            init_lua@ == "init.lua"@,
            init_luau@ == "init.luau"@,
            r@.map_values(|p: String| p@) == roblox_parts(components_view(cs@.take(i as int))),
        decreases cs@.len() - i,
    {
        proof {
            assert(components_view(cs@.take(i + 1)).drop_last() =~= components_view(cs@.take(i as int)));
            assert(components_view(cs@.take(i + 1)).last() == cs@[i as int]@);
        }
        match &cs[i] {
            PathComponent::ParentDir => r.push(str_to_string(".Parent")),
            PathComponent::Normal(p) => {
                if !crate::text::str_eq(p.as_str(), init_lua.as_str()) && !crate::text::str_eq(p.as_str(), init_luau.as_str()) {
                    let pc = chars_of(p.as_str());
                    let lua = chars_of(".lua");
                    let luau = chars_of(".luau");
                    let t1 = trim_end_matches(pc.as_slice(), lua.as_slice());
                    let t2 = trim_end_matches(t1.as_slice(), luau.as_slice());
                    let trimmed = string_from_chars(t2.as_slice());
                    let mut part = str_to_string("[");
                    let q = debug_str(trimmed.as_str());
                    part.append(q.as_str());
                    part.append("]");
                    r.push(part);
                }
            },
            _ => {},
        }
        proof {
            assert(r@.map_values(|p: String| p@) =~= roblox_parts(components_view(cs@.take(i + 1))));
        }
        i = i + 1;
    }
    proof {
        assert(cs@.take(cs@.len() as int) =~= cs@);
    }
    r
}

/// The require path of a Roblox instance: the prefix, then `.Parent` and indexed names
pub fn roblox_require_path(prefix: &str, cs: &Vec<PathComponent>) -> (s: String)
    ensures
        s@ == spec_roblox_require_path(prefix@, components_view(cs@)),
{
    let parts = roblox_part_strings(cs);
    let rest = concat_strings(&parts);
    let mut s = str_to_string(prefix);
    s.append(rest.as_str());
    s
}

/// The require path for a library: a Roblox instance path for Roblox targets (after
/// `roblox_prefix`), a Luau-style path otherwise
pub open spec fn spec_lib_require_path(target: TargetKind, cs: Seq<PathComponentView>, roblox_prefix: Seq<char>) -> Seq<char> {
    if target == TargetKind::Roblox {
        spec_roblox_require_path(roblox_prefix, cs)
    } else {
        spec_luau_style_path(cs)
    }
}

/// Get the require path for a library, given the components of the path from the
/// linking folder to the library (the lib file appended under the new structure)
pub fn get_lib_require_path(target: &TargetKind, cs: &Vec<PathComponent>, roblox_prefix: &str) -> (s: String)
    ensures
        s@ == spec_lib_require_path(*target, components_view(cs@), roblox_prefix@),
{
    match target {
        TargetKind::Roblox => roblox_require_path(roblox_prefix, cs),
        _ => luau_style_path(cs),
    }
}

/// Get the require path for a binary, given the components of the path from the
/// linking folder to the binary
pub fn get_bin_require_path(cs: &Vec<PathComponent>) -> (s: String)
    ensures
        s@ == spec_luau_style_path(components_view(cs@)),
{
    luau_style_path(cs)
}

/// The generics of an exported type: as declared, and as passed on (a generic with
/// a default is passed on by its parameter name)
pub struct TypeGenerics {
    pub declared: Vec<String>,
    pub passed: Vec<String>,
}

/// `<a, b>`
pub open spec fn angle_list(items: Seq<Seq<char>>) -> Seq<char> {
    "<"@ + join_with_comma_space(items) + ">"@
}

/// The items joined with `, `
pub open spec fn join_with_comma_space(items: Seq<Seq<char>>) -> Seq<char>
    decreases items.len(),
{
    if items.len() == 0 {
        Seq::empty()
    } else if items.len() == 1 {
        items[0]
    } else {
        items[0] + ", "@ + join_with_comma_space(items.drop_first())
    }
}

/// The line that re-exports a type from the linked module
pub open spec fn exported_type_line_text(name: Seq<char>, generics: Option<(Seq<Seq<char>>, Seq<Seq<char>>)>) -> Seq<char> {
    let (decl, passed) = match generics {
        Some((d, p)) => (angle_list(d), angle_list(p)),
        None => (Seq::<char>::empty(), Seq::<char>::empty()),
    };
    "export type "@ + name + decl + " = module."@ + name + passed + "\n"@
}

fn join_comma_space(items: &Vec<String>) -> (r: String)
    ensures
        r@ == join_with_comma_space(items@.map_values(|p: String| p@)),
    decreases items@.len(),
{
    let ghost views = items@.map_values(|p: String| p@);
    let mut r = String::new();
    let n = items.len();
    if n == 0 {
        return r;
    }
    let mut i: usize = n;
    r.append(items[n - 1].as_str());
    proof {
        assert(views.skip(n - 1) =~= seq![views[n - 1]]);
    }
    while i > 1
        invariant
            n == items@.len(),
            views == items@.map_values(|p: String| p@),
            1 <= i <= n,
            r@ == join_with_comma_space(views.skip(i - 1)),
        decreases i,
    {
        let mut t = items[i - 2].clone();
        t.append(", ");
        t.append(r.as_str());
        proof {
            let s = views.skip(i - 2);
            assert(s.drop_first() =~= views.skip(i - 1));
            assert(s[0] == views[i - 2]);
        }
        r = t;
        i = i - 1;
    }
    proof {
        assert(views.skip(0) =~= views);
    }
    r
}

/// The line that re-exports a type from the linked module
pub fn exported_type_line(name: &str, generics: &Option<TypeGenerics>) -> (s: String)
    ensures
        s@ == exported_type_line_text(name@, match generics {
            Some(g) => Some((g.declared@.map_values(|p: String| p@), g.passed@.map_values(|p: String| p@))),
            None => None,
        }),
{
    let (decl, passed) = match generics {
        Some(g) => {
            let mut d = str_to_string("<");
            let dj = join_comma_space(&g.declared);
            d.append(dj.as_str());
            d.append(">");
            let mut p = str_to_string("<");
            let pj = join_comma_space(&g.passed);
            p.append(pj.as_str());
            p.append(">");
            (d, p)
        },
        None => (String::new(), String::new()),
    };
    let mut s = str_to_string("export type ");
    s.append(name);
    s.append(decl.as_str());
    s.append(" = module.");
    s.append(name);
    s.append(passed.as_str());
    s.append("\n");
    s
}

} // verus!
