//! Overrides
use vstd::prelude::*;

use crate::text::{
    chars_of, join, join_strings, lemma_join_split, lemma_split_all_nonempty, lemma_split_join,
    split_all, split_chars,
};

verus! {

/// A key of the overrides table: `a>b,c>d` names the dependency paths `[a, b]` and `[c, d]`
#[derive(Debug, Clone)]
pub struct OverrideKey(pub Vec<Vec<String>>);

impl View for OverrideKey {
    type V = Seq<Seq<Seq<char>>>;

    open spec fn view(&self) -> Seq<Seq<Seq<char>>> {
        self.0@.map_values(|path: Vec<String>| path@.map_values(|p: String| p@))
    }
}

/// Errors that can occur when parsing an override key
#[derive(Debug)]
#[non_exhaustive]
pub enum OverrideKeyFromStr {
    /// The override key is empty
    Empty,
}

/// The paths of an override key text: split at `,`, then each at `>`
pub open spec fn parse_override_key(s: Seq<char>) -> Seq<Seq<Seq<char>>> {
    split_all(s, ',').map_values(|path: Seq<char>| split_all(path, '>'))
}

/// The text of an override key: the paths joined with `,`, each joined with `>`
pub open spec fn override_key_text(k: Seq<Seq<Seq<char>>>) -> Seq<char> {
    join(k.map_values(|path: Seq<Seq<char>>| join(path, '>')), ',')
}

impl OverrideKey {
    /// Parses an override key; every string gives one, with at least one path
    pub fn from_str(s: &str) -> (r: Result<OverrideKey, OverrideKeyFromStr>)
        ensures
            r is Ok,
            r matches Ok(k) ==> k@ == parse_override_key(s@) && k@.len() >= 1,
    {
        let cs = chars_of(s);
        let paths = split_chars(cs.as_slice(), ',');
        let mut out: Vec<Vec<String>> = Vec::new();
        let mut i: usize = 0;
        while i < paths.len()
            invariant
                paths@.map_values(|p: String| p@) == split_all(s@, ','),
                i <= paths@.len(),
                out@.len() == i,
                forall|j: int| 0 <= j < i ==> (#[trigger] out@[j])@.map_values(|p: String| p@) == split_all(paths@[j]@, '>'),
            decreases paths@.len() - i,
        {
            let pcs = chars_of(paths[i].as_str());
            let parts = split_chars(pcs.as_slice(), '>');
            out.push(parts);
            i = i + 1;
        }
        let key = OverrideKey(out);
        proof {
            lemma_split_all_nonempty(s@, ',');
            assert(key@ =~= parse_override_key(s@)) by {
                assert forall|j: int| 0 <= j < key@.len() implies key@[j] == parse_override_key(s@)[j] by {
                    assert(split_all(s@, ',')[j] == paths@[j]@);
                }
            }
        }
        if key.0.len() == 0 {
            return Err(OverrideKeyFromStr::Empty);
        }
        Ok(key)
    }

    /// The text of the override key
    pub fn to_string(&self) -> (s: String)
        ensures
            s@ == override_key_text(self@),
    {
        let mut joined: Vec<String> = Vec::new();
        let mut i: usize = 0;
        while i < self.0.len()
            invariant
                i <= self.0@.len(),
                joined@.len() == i,
                forall|j: int| 0 <= j < i ==> (#[trigger] joined@[j])@ == join(self@[j], '>'),
            decreases self.0@.len() - i,
        {
            let piece = join_strings(&self.0[i], '>');
            joined.push(piece);
            i = i + 1;
        }
        let s = join_strings(&joined, ',');
        proof {
            assert(joined@.map_values(|p: String| p@) =~= self@.map_values(|path: Seq<Seq<char>>| join(path, '>')));
        }
        s
    }
}

/// Law: printing a parsed override key gives back the text it was parsed from.
pub proof fn law_override_key_text_round_trip(s: Seq<char>)
    ensures
        override_key_text(parse_override_key(s)) == s,
{
    let paths = split_all(s, ',');
    let joined = parse_override_key(s).map_values(|path: Seq<Seq<char>>| join(path, '>'));
    assert forall|j: int| 0 <= j < paths.len() implies joined[j] == paths[j] by {
        lemma_join_split(paths[j], '>');
    }
    assert(joined =~= paths);
    lemma_join_split(s, ',');
}

/// A join of pieces free of `d` is free of `d` when the separator is not `d`.
proof fn lemma_join_free(parts: Seq<Seq<char>>, c: char, d: char)
    requires
        c != d,
        forall|k: int| 0 <= k < parts.len() ==> !(#[trigger] parts[k]).contains(d),
    ensures
        !join(parts, c).contains(d),
    decreases parts.len(),
{
    if parts.len() >= 2 {
        let rest = parts.drop_first();
        assert forall|k: int| 0 <= k < rest.len() implies !(#[trigger] rest[k]).contains(d) by {
            assert(rest[k] == parts[k + 1]);
        }
        lemma_join_free(rest, c, d);
        let s = join(parts, c);
        if s.contains(d) {
            let j = choose|j: int| 0 <= j < s.len() && s[j] == d;
            let a = parts[0];
            if j < a.len() {
                assert(a[j] == d);
            } else if j > a.len() {
                assert(join(rest, c)[j - a.len() - 1] == d);
            }
        }
    } else if parts.len() == 1 {
        assert(!parts[0].contains(d));
    }
}

/// Whether an override key value is one that printing and parsing keep: at least
/// one path, every path non-empty, and no part holding `,` or `>`
pub open spec fn override_key_printable(k: Seq<Seq<Seq<char>>>) -> bool {
    &&& k.len() >= 1
    &&& forall|i: int| 0 <= i < k.len() ==> (#[trigger] k[i]).len() >= 1
    &&& forall|i: int, j: int| 0 <= i < k.len() && 0 <= j < k[i].len() ==> !(#[trigger] k[i][j]).contains(',') && !k[i][j].contains('>')
}

/// Law: parsing the text of a printable override key gives the key back.
pub proof fn law_override_key_parse_round_trip(k: Seq<Seq<Seq<char>>>)
    requires
        override_key_printable(k),
    ensures
        parse_override_key(override_key_text(k)) == k,
{
    let joined = k.map_values(|path: Seq<Seq<char>>| join(path, '>'));
    assert forall|i: int| 0 <= i < joined.len() implies !(#[trigger] joined[i]).contains(',') by {
        assert forall|j: int| 0 <= j < k[i].len() implies !(#[trigger] k[i][j]).contains(',') by {}
        lemma_join_free(k[i], '>', ',');
    }
    lemma_split_join(joined, ',');
    assert forall|i: int| 0 <= i < k.len() implies split_all(joined[i], '>') == k[i] by {
        assert forall|j: int| 0 <= j < k[i].len() implies !(#[trigger] k[i][j]).contains('>') by {}
        lemma_split_join(k[i], '>');
    }
    assert(parse_override_key(override_key_text(k)) =~= k);
}

} // verus!
