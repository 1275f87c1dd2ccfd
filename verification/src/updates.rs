//! What the tool decides about its own versions: whether a checked latest
//! version is recent enough to trust, which release is the latest, which
//! installed version runs, and when to tell about a newer one
use vstd::prelude::*;

use crate::strmap::KeyOrder;
use crate::text::{chars_of, ends_with, has_suffix, str_to_string, string_from_chars, string_push};
use crate::version::{semver_order, Version};

verus! {

/// How long a checked latest version is trusted, in nanoseconds (six hours)
pub const CHECK_INTERVAL_NANOS: i64 = 6 * 60 * 60 * 1000000000;

/// The latest version checked at `checked_at`, when it was checked less than
/// six hours before `now` (both in nanoseconds since the epoch)
pub fn cached_latest(last_checked: Option<(i64, Version)>, now: i64) -> (r: Option<Version>)
    ensures
        r == (match last_checked {
            Some((t, v)) => if now - t < CHECK_INTERVAL_NANOS { Some(v) } else { None::<Version> },
            None => None::<Version>,
        }),
{
    match last_checked {
        Some((t, v)) => {
            if (now as i128) - (t as i128) < CHECK_INTERVAL_NANOS as i128 {
                Some(v)
            } else {
                None
            }
        },
        None => None,
    }
}

/// `s` without its leading `c`s
pub open spec fn trim_start_all(s: Seq<char>, c: char) -> Seq<char>
    decreases s.len(),
{
    if s.len() > 0 && s[0] == c {
        trim_start_all(s.drop_first(), c)
    } else {
        s
    }
}

/// The version of a release tag: the tag without its leading `v`s
pub fn release_version(tag: &str) -> (r: Result<Version, semver::Error>)
    ensures
        (r is Ok) == crate::version::semver_valid(trim_start_all(tag@, 'v')),
        r matches Ok(v) ==> v@ == crate::version::semver_display(trim_start_all(tag@, 'v')),
{
    let cs = chars_of(tag);
    let mut i: usize = 0;
    assert(cs@.skip(0) =~= cs@);
    while i < cs.len() && cs[i] == 'v'
        invariant
            i <= cs@.len(),
            trim_start_all(cs@.skip(i as int), 'v') == trim_start_all(cs@, 'v'),
        decreases cs@.len() - i,
    {
        proof {
            assert(cs@.skip(i as int).drop_first() =~= cs@.skip(i + 1));
        }
        i = i + 1;
    }
    let rest = string_from_chars(vstd::slice::slice_subrange(cs.as_slice(), i, cs.len()));
    proof {
        assert(rest@ =~= cs@.skip(i as int));
    }
    Version::parse(rest.as_str())
}

/// The greatest of some versions by semver precedence, the last of equal ones
/// (as `Iterator::max` picks): the fold that keeps the later of the two when
/// it is not below the earlier
pub open spec fn latest_of(vs: Seq<Seq<char>>) -> Option<Seq<char>>
    decreases vs.len(),
{
    if vs.len() == 0 {
        None
    } else {
        match latest_of(vs.drop_last()) {
            None => Some(vs.last()),
            Some(m) => if semver_order(vs.last(), m) == KeyOrder::Less {
                Some(m)
            } else {
                Some(vs.last())
            },
        }
    }
}

/// The latest of some versions
pub fn latest_version(vs: &Vec<Version>) -> (r: Option<Version>)
    ensures
        match r {
            Some(v) => latest_of(vs@.map_values(|x: Version| x@)) == Some(v@),
            None => latest_of(vs@.map_values(|x: Version| x@)) is None,
        },
{
    let ghost views = vs@.map_values(|x: Version| x@);
    let mut best: Option<Version> = None;
    let mut i: usize = 0;
    while i < vs.len()
        invariant
            views == vs@.map_values(|x: Version| x@),
            i <= vs@.len(),
            match best {
                Some(v) => latest_of(views.take(i as int)) == Some(v@),
                None => latest_of(views.take(i as int)) is None,
            },
        decreases vs@.len() - i,
    {
        proof {
            assert(views.take(i + 1).drop_last() =~= views.take(i as int));
            assert(views.take(i + 1).last() == vs@[i as int]@);
        }
        let next = match best {
            None => vs[i].clone(),
            Some(m) => match vs[i].compare(&m) {
                KeyOrder::Less => m,
                _ => vs[i].clone(),
            },
        };
        best = Some(next);
        i = i + 1;
    }
    proof {
        assert(views.take(vs@.len() as int) =~= views);
    }
    best
}

/// The installed version that runs: the latest installed one when it is not
/// below the current version, else the current version
pub fn max_installed_version(installed: &Vec<Version>, current: &Version) -> (r: Version)
    ensures
        match latest_of(installed@.map_values(|x: Version| x@)) {
            Some(m) => r@ == (if semver_order(m, current@) == KeyOrder::Less { current@ } else { m }),
            None => r@ == current@,
        },
{
    match latest_version(installed) {
        Some(m) => match m.compare(current) {
            KeyOrder::Less => current.clone(),
            _ => m,
        },
        None => current.clone(),
    }
}

/// The message telling about a newer version
pub open spec fn update_text(name: Seq<char>, latest: Seq<char>) -> Seq<char> {
    "a new version of "@ + name + " is available: "@ + latest
}

/// What the tool tells when `latest` is above its own version `current`
pub fn update_message(name: &str, latest: &Version, current: &Version) -> (r: Option<String>)
    ensures
        (r is Some) == (semver_order(latest@, current@) == KeyOrder::Greater),
        r matches Some(s) ==> s@ == update_text(name@, latest@),
{
    match latest.compare(current) {
        KeyOrder::Greater => {
            let mut s = str_to_string("a new version of ");
            s.append(name);
            s.append(" is available: ");
            s.append(latest.as_str());
            Some(s)
        },
        _ => None,
    }
}

/// The end of the name of the release asset for a platform: `-{os}-{arch}.tar.gz`
pub open spec fn asset_suffix(os: Seq<char>, arch: Seq<char>) -> Seq<char> {
    seq!['-'] + os + seq!['-'] + arch + ".tar.gz"@
}

/// The release asset for the platform `os`/`arch`: the first whose name ends
/// with `-{os}-{arch}.tar.gz`
pub fn select_asset(names: &Vec<String>, os: &str, arch: &str) -> (r: Option<usize>)
    ensures
        match r {
            Some(i) => i < names@.len() && has_suffix(names@[i as int]@, asset_suffix(os@, arch@))
                && forall|j: int| 0 <= j < i ==> !has_suffix(#[trigger] names@[j]@, asset_suffix(os@, arch@)),
            None => forall|j: int| 0 <= j < names@.len() ==> !has_suffix(#[trigger] names@[j]@, asset_suffix(os@, arch@)),
        },
{
    let mut suffix = String::new();
    string_push(&mut suffix, '-');
    suffix.append(os);
    string_push(&mut suffix, '-');
    suffix.append(arch);
    suffix.append(".tar.gz");
    let sc = chars_of(suffix.as_str());
    assert(sc@ =~= asset_suffix(os@, arch@));
    let mut i: usize = 0;
    while i < names.len()
        invariant
            sc@ == asset_suffix(os@, arch@),
            i <= names@.len(),
            forall|j: int| 0 <= j < i ==> !has_suffix(#[trigger] names@[j]@, asset_suffix(os@, arch@)),
        decreases names@.len() - i,
    {
        let nc = chars_of(names[i].as_str());
        if ends_with(nc.as_slice(), sc.as_slice()) {
            return Some(i);
        }
        i = i + 1;
    }
    None
}

/// Law: where semver's comparison is a total order on the versions (as it
/// is), the latest of some versions is one of them, and none of them is above
/// it.
pub proof fn law_latest_is_greatest(vs: Seq<Seq<char>>)
    requires
        crate::version::ordered_totally(vs),
    ensures
        vs.len() > 0 ==> (latest_of(vs) matches Some(l) && vs.contains(l)),
        forall|j: int| 0 <= j < vs.len() ==> (latest_of(vs) matches Some(l) && semver_order(#[trigger] vs[j], l) != KeyOrder::Greater),
    decreases vs.len(),
{
    if vs.len() > 0 {
        let n = vs.len() - 1;
        let p = vs.drop_last();
        let last = vs.last();
        crate::version::lemma_ordered_totally_drop_last(vs);
        law_latest_is_greatest(p);
        assert(vs[n] == last);
        assert(vs.contains(last));
        match latest_of(p) {
            None => {
                assert(p.len() == 0);
            },
            Some(m) => {
                assert(p.len() > 0);
                let mj = choose|mj: int| 0 <= mj < p.len() && p[mj] == m;
                assert(vs[mj] == m);
                assert(vs.contains(m));
            },
        }
        assert forall|j: int| 0 <= j < vs.len() implies (latest_of(vs) matches Some(l) && semver_order(#[trigger] vs[j], l) != KeyOrder::Greater) by {
            if j < n {
                assert(p[j] == vs[j]);
                assert(vs.contains(vs[j]));
            }
            match latest_of(p) {
                None => {},
                Some(m) => {
                    if semver_order(last, m) == KeyOrder::Less {
                        if j < n {
                            assert(semver_order(p[j], m) != KeyOrder::Greater);
                        } else {
                            assert(semver_order(m, last) == KeyOrder::Greater);
                            assert(semver_order(last, m) == KeyOrder::Less);
                        }
                    } else {
                        if j < n {
                            assert(semver_order(p[j], m) != KeyOrder::Greater);
                            assert(semver_order(m, vs[j]) != KeyOrder::Less);
                            assert(semver_order(last, vs[j]) != KeyOrder::Less);
                        }
                    }
                },
            }
        }
    }
}

} // verus!
