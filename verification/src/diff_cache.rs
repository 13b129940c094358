//! The diffstats that are known already.
use crate::format::{Delta, DeltaView, DiffCache, DiffStat, DiffStatView};
use crate::stable_map;
use crate::stable_map::StableMap;
use vstd::prelude::*;
use vstd::string::*;

verus! {

/// The diffstats of one package, by delta.
pub open spec fn stats_view(s: Seq<(DeltaView, DiffStat)>) -> Seq<(DeltaView, DiffStatView)> {
    stable_map::mapped(s, |d: DiffStat| d@)
}

/// What a diff cache holds.
pub type CacheView = Seq<(Seq<char>, Seq<(DeltaView, DiffStatView)>)>;

/// What a diff cache holds.
pub open spec fn cache_view(s: Seq<(Seq<char>, StableMap<Delta, DiffStat>)>) -> CacheView {
    stable_map::mapped(s, |m: StableMap<Delta, DiffStat>| stats_view(m@))
}

/// The diffstat that is known of a delta of a package.
pub open spec fn known(c: CacheView, package: Seq<char>, delta: DeltaView) -> Option<DiffStatView> {
    if stable_map::has_key(c, package) && stable_map::has_key(
        stable_map::value_of(c, package),
        delta,
    ) {
        Some(stable_map::value_of(stable_map::value_of(c, package), delta))
    } else {
        None
    }
}

/// The diffstats of a package; none where the package is new.
pub open spec fn known_of(c: CacheView, package: Seq<char>) -> Seq<(DeltaView, DiffStatView)> {
    if stable_map::has_key(c, package) {
        stable_map::value_of(c, package)
    } else {
        seq![]
    }
}

/// `c` with one more diffstat.
pub open spec fn learned(
    c: CacheView,
    package: Seq<char>,
    delta: DeltaView,
    stat: DiffStatView,
) -> CacheView {
    stable_map::inserted(
        c,
        package,
        stable_map::inserted(known_of(c, package), delta, stat),
    )
}

/// No package occurs twice, and no delta of the given package.
pub open spec fn is_cache(c: CacheView, package: Seq<char>) -> bool {
    stable_map::unique_keys(c) && stable_map::unique_keys(known_of(c, package))
}

/// What is learned is known, and nothing else that is known changes.
pub proof fn law_learned_is_known(
    c: CacheView,
    package: Seq<char>,
    delta: DeltaView,
    stat: DiffStatView,
    other_package: Seq<char>,
    other_delta: DeltaView,
)
    requires
        is_cache(c, package),
    ensures
        is_cache(learned(c, package, delta, stat), package),
        known(learned(c, package, delta, stat), package, delta) == Some(stat),
        (other_package != package || other_delta != delta) ==> known(
            learned(c, package, delta, stat),
            other_package,
            other_delta,
        ) == known(c, other_package, other_delta),
{
    let inner = known_of(c, package);
    let inner2 = stable_map::inserted(inner, delta, stat);
    stable_map::lemma_inserted(inner, delta, stat, delta);
    stable_map::lemma_inserted(inner, delta, stat, other_delta);
    stable_map::lemma_inserted(c, package, inner2, package);
    stable_map::lemma_inserted(c, package, inner2, other_package);
}

/// Looks up the diffstat of a delta of a package.
pub fn known_stat(cache: &DiffCache, package: &str, delta: &Delta) -> (r: Option<DiffStat>)
    ensures
        is_cache(cache_view(cache@), package@),
        (match r {
            Some(stat) => Some(stat@),
            None => None,
        }) == known(cache_view(cache@), package@, delta@),
{
    let ghost f = |m: StableMap<Delta, DiffStat>| stats_view(m@);
    let ghost g = |d: DiffStat| d@;
    proof {
        use_type_invariant(cache);
        stable_map::lemma_mapped(cache@, f, package@);
    }
    match cache.get(&package.to_owned()) {
        Some(stats) => {
            proof {
                use_type_invariant(stats);
                stable_map::lemma_mapped(stats@, g, delta@);
            }
            match stats.get(delta) {
                Some(stat) => Some(stat.clone()),
                None => None,
            }
        },
        None => None,
    }
}

/// Adds the diffstat of a delta of a package.
pub fn learn_stat(cache: &mut DiffCache, package: &str, delta: &Delta, stat: &DiffStat)
    ensures
        cache_view(final(cache)@) == learned(cache_view(old(cache)@), package@, delta@, stat@),
{
    let ghost f = |m: StableMap<Delta, DiffStat>| stats_view(m@);
    let ghost g = |d: DiffStat| d@;
    let ghost before = cache@;
    proof {
        use_type_invariant(&*cache);
        stable_map::lemma_mapped(cache@, f, package@);
    }
    let key = package.to_owned();
    let mut stats = match cache.find(&key) {
        Some(i) => cache.replace_at(i, StableMap::new()),
        None => StableMap::new(),
    };
    let ghost stats0 = stats@;
    proof {
        use_type_invariant(&stats);
        assert(stats_view(stats0) == known_of(cache_view(before), package@));
    }
    let stat = stat.clone();
    stats.insert(delta.clone(), stat);
    proof {
        stable_map::lemma_mapped_inserted(stats0, g, delta@, stat);
    }
    let ghost middle = cache@;
    cache.insert(key, stats);
    proof {
        stable_map::lemma_mapped_inserted(before, f, package@, stats);
        if stable_map::has_key(before, package@) {
            let i = stable_map::key_index(before, package@);
            assert(middle[i].0 == package@);
            assert forall|a: int, b: int|
                0 <= a < middle.len() && 0 <= b < middle.len() && (#[trigger] middle[a]).0 == (
                #[trigger] middle[b]).0 implies a == b by {
                assert(before[a].0 == before[b].0);
            }
            stable_map::lemma_key_index(middle, i);
            assert(cache@ == stable_map::inserted(before, package@, stats));
        }
    }
}

/// A diffstat is known exactly where the cache holds an entry for the delta under the package,
/// and it is that of the entry.
pub proof fn law_known_is_held(
    c: CacheView,
    package: Seq<char>,
    delta: DeltaView,
    stat: DiffStatView,
)
    requires
        is_cache(c, package),
    ensures
        (known(c, package, delta) == Some(stat)) == exists|i: int, j: int|
            0 <= i < c.len() && c[i].0 == package && 0 <= j < c[i].1.len() && #[trigger] c[i].1[j]
                == (delta, stat),
{
    if known(c, package, delta) == Some(stat) {
        let i = stable_map::key_index(c, package);
        let j = stable_map::key_index(c[i].1, delta);
        assert(c[i].0 == package);
        assert(c[i].1[j] == (delta, stat));
    }
    if exists|i: int, j: int|
        0 <= i < c.len() && c[i].0 == package && 0 <= j < c[i].1.len() && #[trigger] c[i].1[j] == (
            delta,
            stat,
        ) {
        let (i, j) = choose|i: int, j: int|
            0 <= i < c.len() && c[i].0 == package && 0 <= j < c[i].1.len() && #[trigger] c[i].1[j]
                == (delta, stat);
        stable_map::lemma_key_index(c, i);
        assert(known_of(c, package) == c[i].1);
        stable_map::lemma_key_index(c[i].1, j);
    }
}

/// What a diff cache holds is what its tables hold: the same packages, the same deltas, and the
/// texts and counts of their diffstats.
pub proof fn law_cache_holds_its_tables(
    s: Seq<(Seq<char>, StableMap<Delta, DiffStat>)>,
    i: int,
    j: int,
)
    requires
        0 <= i < s.len(),
    ensures
        cache_view(s).len() == s.len(),
        cache_view(s)[i].0 == s[i].0,
        cache_view(s)[i].1.len() == s[i].1@.len(),
        0 <= j < s[i].1@.len() ==> cache_view(s)[i].1[j].0 == s[i].1@[j].0
            && cache_view(s)[i].1[j].1.raw == s[i].1@[j].1.raw@ && cache_view(s)[i].1[j].1.count
            == s[i].1@[j].1.count,
{
}

/// Looking up a delta gives what the tables hold for it, and nothing where they hold nothing.
pub proof fn law_lookup_reads_the_tables(
    cache: &DiffCache,
    package: &str,
    delta: &Delta,
    r: Option<DiffStat>,
    i: int,
    j: int,
)
    requires
        call_ensures(known_stat, (cache, package, delta), r),
        0 <= i < cache@.len(),
        cache@[i].0 == package@,
        0 <= j < cache@[i].1@.len(),
        cache@[i].1@[j].0.from == delta.from@,
        cache@[i].1@[j].0.to == delta.to@,
    ensures
        r is Some,
        r->0.raw@ == cache@[i].1@[j].1.raw@,
        r->0.count == cache@[i].1@[j].1.count,
{
    let c = cache_view(cache@);
    law_cache_holds_its_tables(cache@, i, j);
    assert(c[i].1[j] == (delta@, cache@[i].1@[j].1@));
    law_known_is_held(c, package@, delta@, cache@[i].1@[j].1@);
}

} // verus!
