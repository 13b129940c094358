//! Which of several diffs is the smallest, and so the one to review.
use crate::cache;
use crate::cache::{Cache, CacheModel, Fetched, PackageId, PackageIdView, Probe};
use crate::diff_cache;
use crate::diff_cache::CacheView;
use crate::format::{Delta, DeltaView, DiffStat, DiffStatView};
use crate::place::{Place, PlaceView};
use crate::sorted;
use crate::stable_map;
use crate::text;
use crate::version;
use crate::version::{Version, VersionView};
use vstd::prelude::*;
use vstd::string::*;

verus! {

/// A diff to review, and how large it is.
pub struct DiffRecommendation {
    pub from: Version,
    pub to: Version,
    pub diffstat: DiffStat,
}

/// The package at a version.
pub open spec fn at_version(package: Seq<char>, version: VersionView) -> PackageIdView {
    PackageIdView { name: package, version }
}

/// The number that 64 bits stand for when their first is taken as the sign.
pub open spec fn signed(n: int) -> int {
    if n < 0x8000_0000_0000_0000 {
        n
    } else {
        n - 0x1_0000_0000_0000_0000
    }
}

/// How much larger the later version of a delta is in a trial, where the size of a version is
/// the square of its first number.
pub open spec fn trial_growth(delta: DeltaView) -> int {
    signed(delta.to.major * delta.to.major) - signed(delta.from.major * delta.from.major)
}

/// The sizes and their difference can be computed in 64 bits.
pub open spec fn trial_fits(delta: DeltaView) -> bool {
    &&& delta.from.major * delta.from.major <= u64::MAX
    &&& delta.to.major * delta.to.major <= u64::MAX
    &&& i64::MIN <= trial_growth(delta) <= i64::MAX
}

/// The diffstat of a delta in a trial.
pub open spec fn trial_stat(delta: DeltaView) -> DiffStatView {
    let growth = trial_growth(delta);
    if growth < 0 {
        DiffStatView { raw: "-"@ + text::decimal_text((-growth) as nat), count: (-growth) as u64 }
    } else {
        DiffStatView { raw: "+"@ + text::decimal_text(growth as nat), count: growth as u64 }
    }
}

/// Takes 64 bits as a number with a sign.
fn as_signed(n: u64) -> (r: i128)
    ensures
        r == signed(n as int),
{
    if n < 0x8000_0000_0000_0000 {
        n as i128
    } else {
        n as i128 - 0x1_0000_0000_0000_0000
    }
}

/// Makes up the diffstat of a delta, for a trial.
fn make_trial_stat(delta: &Delta) -> (r: DiffStat)
    requires
        trial_fits(delta@),
    ensures
        r@ == trial_stat(delta@),
{
    let from_len: u64 = delta.from.major() * delta.from.major();
    let to_len: u64 = delta.to.major() * delta.to.major();
    let diff: i128 = as_signed(to_len) - as_signed(from_len);
    let negative = diff < 0;
    let count: u64 = if negative { (-diff) as u64 } else { diff as u64 };
    let mut raw = if negative { "-".to_owned() } else { "+".to_owned() };
    let number = text::decimal(count);
    raw.append(number.as_str());
    DiffStat { raw, count }
}

/// Whether the diffstat of a delta can be made up.
fn fits_trial(delta: &Delta) -> (r: bool)
    ensures
        r == trial_fits(delta@),
{
    let from: u64 = delta.from.major();
    let to: u64 = delta.to.major();
    match (from.checked_mul(from), to.checked_mul(to)) {
        (Some(from_len), Some(to_len)) => {
            let diff: i128 = as_signed(to_len) - as_signed(from_len);
            i64::MIN as i128 <= diff && diff <= i64::MAX as i128
        },
        _ => false,
    }
}

/// Where the diffstat of a delta comes from.
pub enum StatSource {
    /// It is known.
    Known(DiffStatView),
    /// Both versions were fetched, and are compared.
    Run,
    /// They were not, as in a trial, and it is made up.
    Trial,
}

/// The question which of several diffs of a package is the smallest: what is known, and what was
/// fetched.
pub struct DiffPlan {
    pub cache: CacheView,
    pub fetched: Seq<(PackageIdView, PlaceView)>,
    pub package: Seq<char>,
    pub diffs: Seq<DeltaView>,
}

impl DiffPlan {
    /// Where the diffstat of the delta in the given place comes from.
    pub open spec fn source(self, i: int) -> StatSource {
        let delta = self.diffs[i];
        match diff_cache::known(self.cache, self.package, delta) {
            Some(stat) => StatSource::Known(stat),
            None => if stable_map::has_key(self.fetched, at_version(self.package, delta.from))
                && stable_map::has_key(self.fetched, at_version(self.package, delta.to)) {
                StatSource::Run
            } else {
                StatSource::Trial
            },
        }
    }

    /// How many of the first `n` deltas are compared.
    pub open spec fn runs_before(self, n: nat) -> nat
        decreases n,
    {
        if n == 0 {
            0
        } else {
            self.runs_before((n - 1) as nat) + if self.source(n - 1) is Run {
                1nat
            } else {
                0nat
            }
        }
    }
}

/// The question with everything that the answer depends on: also what comes of comparing
/// versions.
#[verifier::reject_recursive_types(E)]
pub struct DiffTask<E> {
    pub plan: DiffPlan,
    pub runs: Seq<Result<DiffStat, E>>,
}

impl<E> DiffTask<E> {
    /// What comes of comparing the versions of the delta in the given place.
    pub open spec fn run(self, i: int) -> Result<DiffStat, E> {
        self.runs[self.plan.runs_before(i as nat) as int]
    }

    /// The diffstat of the delta in the given place.
    pub open spec fn stat(self, i: int) -> DiffStatView {
        match self.plan.source(i) {
            StatSource::Known(stat) => stat,
            StatSource::Run => self.run(i)->Ok_0@,
            StatSource::Trial => trial_stat(self.plan.diffs[i]),
        }
    }

    /// No comparison failed among the first `n` deltas.
    pub open spec fn goes_well(self, n: int) -> bool {
        forall|i: int| 0 <= i < n && #[trigger] self.plan.source(i) is Run ==> self.run(i) is Ok
    }

    /// The delta in the given place can be dealt with: where it is compared, the result is
    /// there, and where its diffstat is made up, it can be computed.
    pub open spec fn can_do(self, i: int) -> bool {
        &&& self.plan.source(i) is Run ==> self.plan.runs_before(i as nat) < self.runs.len()
        &&& self.plan.source(i) is Trial ==> trial_fits(self.plan.diffs[i])
    }

    /// Every delta up to the first comparison that failed can be dealt with, and no delta
    /// occurs twice.
    pub open spec fn is_valid(self) -> bool {
        &&& forall|i: int|
            0 <= i < self.plan.diffs.len() && #[trigger] self.goes_well(i) ==> self.can_do(i)
        &&& forall|i: int, j: int|
            0 <= i < j < self.plan.diffs.len() ==> #[trigger] self.plan.diffs[i] != #[trigger] self.plan.diffs[j]
    }

    /// The cache after the first `n` deltas: what came of the comparisons is known.
    pub open spec fn cache_after(self, n: nat) -> CacheView
        decreases n,
    {
        if n == 0 {
            self.plan.cache
        } else {
            let before = self.cache_after((n - 1) as nat);
            if self.plan.source(n - 1) is Run {
                diff_cache::learned(
                    before,
                    self.plan.package,
                    self.plan.diffs[n - 1],
                    self.stat(n - 1),
                )
            } else {
                before
            }
        }
    }

    /// Among the first `n` deltas the one in place `b` is the first of the smallest.
    pub open spec fn is_best(self, n: int, b: int) -> bool {
        &&& 0 <= b < n
        &&& forall|i: int| 0 <= i < n ==> self.stat(b).count <= (#[trigger] self.stat(i)).count
        &&& forall|i: int| 0 <= i < b ==> self.stat(b).count < (#[trigger] self.stat(i)).count
    }

    /// The recommendation is the delta in the given place with its diffstat.
    pub open spec fn recommends_delta(self, rec: DiffRecommendation, b: int) -> bool {
        &&& rec.from@ == self.plan.diffs[b].from
        &&& rec.to@ == self.plan.diffs[b].to
        &&& rec.diffstat@ == self.stat(b)
    }
}

/// What is learned of other deltas does not change what is known of this one.
proof fn lemma_known_after<E>(task: DiffTask<E>, n: nat, d: DeltaView)
    requires
        diff_cache::is_cache(task.plan.cache, task.plan.package),
        forall|i: int| 0 <= i < n ==> #[trigger] task.plan.diffs[i] != d,
    ensures
        diff_cache::is_cache(task.cache_after(n), task.plan.package),
        diff_cache::known(task.cache_after(n), task.plan.package, d) == diff_cache::known(
            task.plan.cache,
            task.plan.package,
            d,
        ),
    decreases n,
{
    if n > 0 {
        lemma_known_after(task, (n - 1) as nat, d);
        assert(task.plan.diffs[n - 1] != d);
        diff_cache::law_learned_is_known(
            task.cache_after((n - 1) as nat),
            task.plan.package,
            task.plan.diffs[n - 1],
            task.stat(n - 1),
            task.plan.package,
            d,
        );
    }
}

/// What comes of the question, and how the cache changes: the first of the smallest deltas, or
/// the error of the first comparison that failed. What came of the comparisons before is known
/// from then on.
pub open spec fn is_answer<E>(
    task: DiffTask<E>,
    before: CacheModel,
    after: CacheModel,
    r: Result<DiffRecommendation, E>,
) -> bool {
    let n = task.plan.diffs.len();
    match r {
        Ok(rec) => {
            &&& task.goes_well(n as int)
            &&& after == (CacheModel { diff_cache: task.cache_after(n), ..before })
            &&& exists|b: int| #[trigger]
                task.is_best(n as int, b) && task.recommends_delta(rec, b)
        },
        Err(e) => exists|i: int|
            {
                &&& 0 <= i < n
                &&& #[trigger] task.goes_well(i)
                &&& task.plan.source(i) is Run
                &&& task.run(i) == Err::<DiffStat, E>(e)
                &&& after == (CacheModel { diff_cache: task.cache_after(i as nat), ..before })
            },
    }
}

impl Cache {
    /// Whether the diffstat of a delta is made up: it is not known, and one of the versions was
    /// not fetched.
    pub fn is_made_up(&self, package: &str, delta: &Delta, fetched: &Fetched) -> (r: bool)
        ensures
            r == (diff_cache::known(self@.diff_cache, package@, delta@) is None && !(
            stable_map::has_key(
                cache::fetched_view(fetched@),
                at_version(package@, delta@.from),
            ) && stable_map::has_key(
                cache::fetched_view(fetched@),
                at_version(package@, delta@.to),
            ))),
    {
        if self.known_stat(package, delta).is_some() {
            return false;
        }
        let from = PackageId { name: package.to_owned(), version: delta.from.clone() };
        let to = PackageId { name: package.to_owned(), version: delta.to.clone() };
        cache::fetched_place(fetched, &from).is_none() || cache::fetched_place(
            fetched,
            &to,
        ).is_none()
    }

    /// Whether the diffstat of a delta can be had: it is known, or both versions were fetched,
    /// or it can be made up.
    pub fn can_make_up(&self, package: &str, delta: &Delta, fetched: &Fetched) -> (r: bool)
        ensures
            r == (diff_cache::known(self@.diff_cache, package@, delta@) is Some || (
            stable_map::has_key(
                cache::fetched_view(fetched@),
                at_version(package@, delta@.from),
            ) && stable_map::has_key(
                cache::fetched_view(fetched@),
                at_version(package@, delta@.to),
            )) || trial_fits(delta@)),
    {
        !self.is_made_up(package, delta, fetched) || fits_trial(delta)
    }

    /// Finds the smallest of several diffs of a package, once its versions were fetched;
    /// `fetched` tells what came of that. A fetch that failed ends it, and changes nothing. What
    /// is known is used; where both versions were fetched, the next of `runs` tells what came of
    /// comparing them, and is known from then on; and else the diffstat is made up. The first
    /// comparison that failed ends it. Of several that are the smallest the first of the list is
    /// taken; [`ordered_deltas`] puts a list in order.
    pub fn fetch_and_diffstat_all<E>(
        &mut self,
        package: &str,
        diffs: &Vec<Delta>,
        fetched: Result<Fetched, E>,
        runs: Vec<Result<DiffStat, E>>,
    ) -> (r: Result<DiffRecommendation, E>)
        requires
            fetched matches Ok(paths) ==> diffs@.len() > 0 && (DiffTask {
                plan: DiffPlan {
                    cache: old(self)@.diff_cache,
                    fetched: cache::fetched_view(paths@),
                    package: package@,
                    diffs: sorted::views(diffs@),
                },
                runs: runs@,
            }).is_valid(),
        ensures
            match fetched {
                Ok(paths) => is_answer(
                    (DiffTask {
                        plan: DiffPlan {
                            cache: old(self)@.diff_cache,
                            fetched: cache::fetched_view(paths@),
                            package: package@,
                            diffs: sorted::views(diffs@),
                        },
                        runs: runs@,
                    }),
                    old(self)@,
                    final(self)@,
                    r,
                ),
                Err(e) => r == Err::<DiffRecommendation, E>(e) && final(self)@ == old(self)@,
            },
            r matches Ok(rec) ==> exists|b: int|
                0 <= b < diffs@.len() && rec.from@ == (#[trigger] diffs@[b]).from@ && rec.to@
                    == diffs@[b].to@,
    {
        match fetched {
            Ok(paths) => {
                let ghost task = DiffTask {
                    plan: DiffPlan {
                        cache: self@.diff_cache,
                        fetched: cache::fetched_view(paths@),
                        package: package@,
                        diffs: sorted::views(diffs@),
                    },
                    runs: runs@,
                };
                let r = self.smallest_diff(package, diffs, &paths, runs);
                proof {
                    if r is Ok {
                        let rec = r->Ok_0;
                        let n = diffs@.len() as int;
                        let b = choose|b: int| #[trigger]
                            task.is_best(n, b) && task.recommends_delta(rec, b);
                        assert(task.plan.diffs[b] == diffs@[b]@);
                        assert(rec.from@ == diffs@[b].from@);
                    }
                }
                r
            },
            Err(e) => Err(e),
        }
    }

    /// Finds the smallest of several diffs of a package, whose versions were fetched.
    fn smallest_diff<E>(
        &mut self,
        package: &str,
        diffs: &Vec<Delta>,
        fetched: &Fetched,
        runs: Vec<Result<DiffStat, E>>,
    ) -> (r: Result<DiffRecommendation, E>)
        requires
            diffs@.len() > 0,
            (DiffTask {
                plan: DiffPlan {
                    cache: old(self)@.diff_cache,
                    fetched: cache::fetched_view(fetched@),
                    package: package@,
                    diffs: sorted::views(diffs@),
                },
                runs: runs@,
            }).is_valid(),
        ensures
            is_answer(
                (DiffTask {
                    plan: DiffPlan {
                        cache: old(self)@.diff_cache,
                        fetched: cache::fetched_view(fetched@),
                        package: package@,
                        diffs: sorted::views(diffs@),
                    },
                    runs: runs@,
                }),
                old(self)@,
                final(self)@,
                r,
            ),
    {
        let ghost task = DiffTask {
            plan: DiffPlan {
                cache: self@.diff_cache,
                fetched: cache::fetched_view(fetched@),
                package: package@,
                diffs: sorted::views(diffs@),
            },
            runs: runs@,
        };
        let mut rest = runs;
        let mut best: Option<DiffRecommendation> = None;
        let ghost mut place: int = 0;
        let mut i: usize = 0;
        assert(task.runs.skip(0) == task.runs);
        assert(self@ == (CacheModel { diff_cache: task.cache_after(0), ..old(self)@ }));
        while i < diffs.len()
            invariant
                i <= diffs@.len(),
                task == (DiffTask {
                    plan: DiffPlan {
                        cache: old(self)@.diff_cache,
                        fetched: cache::fetched_view(fetched@),
                        package: package@,
                        diffs: sorted::views(diffs@),
                    },
                    runs: runs@,
                }),
                task.is_valid(),
                task.goes_well(i as int),
                i > 0 ==> diff_cache::is_cache(task.plan.cache, task.plan.package),
                task.plan.runs_before(i as nat) <= task.runs.len(),
                rest@ == task.runs.skip(task.plan.runs_before(i as nat) as int),
                self@ == (CacheModel { diff_cache: task.cache_after(i as nat), ..old(self)@ }),
                best is Some == (i > 0),
                best matches Some(rec) ==> task.is_best(i as int, place)
                    && task.recommends_delta(rec, place),
            decreases diffs@.len() - i,
        {
            let delta = &diffs[i];
            assert(task.can_do(i as int));
            let found = self.known_stat(package, delta);
            proof {
                lemma_known_after(task, i as nat, delta@);
            }
            let diffstat = match found {
                Some(stat) => stat,
                None => {
                    let from = PackageId {
                        name: package.to_owned(),
                        version: delta.from.clone(),
                    };
                    let to = PackageId { name: package.to_owned(), version: delta.to.clone() };
                    if cache::fetched_place(fetched, &from).is_some() && cache::fetched_place(
                        fetched,
                        &to,
                    ).is_some() {
                        let ghost k = task.plan.runs_before(i as nat) as int;
                        let run = rest.remove(0);
                        assert(run == task.run(i as int));
                        assert(rest@ == task.runs.skip(k + 1));
                        match run {
                            Ok(stat) => {
                                self.learn_stat(package, delta, &stat);
                                stat
                            },
                            Err(e) => {
                                return Err(e);
                            },
                        }
                    } else {
                        make_trial_stat(delta)
                    }
                },
            };
            assert(diffstat@ == task.stat(i as int));
            let rec = DiffRecommendation {
                from: delta.from.clone(),
                to: delta.to.clone(),
                diffstat,
            };
            let better = match &best {
                Some(b) => b.diffstat.count > rec.diffstat.count,
                None => true,
            };
            if better {
                best = Some(rec);
                proof {
                    place = i as int;
                }
            }
            i = i + 1;
        }
        Ok(best.unwrap())
    }
}

/// The version is one end of a delta whose diffstat is not known, among the first `n`.
pub open spec fn is_wanted(
    cache: CacheView,
    package: Seq<char>,
    diffs: Seq<DeltaView>,
    n: int,
    v: VersionView,
) -> bool {
    exists|i: int|
        0 <= i < n && diff_cache::known(cache, package, #[trigger] diffs[i]) is None && (v
            == diffs[i].from || v == diffs[i].to)
}

impl Cache {
    /// The versions of a package that have to be fetched: both ends of every delta whose
    /// diffstat is not known, in order.
    pub fn versions_to_fetch(&self, package: &str, diffs: &Vec<Delta>) -> (r: Vec<Version>)
        ensures
            sorted::is_sorted::<Version>(sorted::views(r@)),
            forall|v: VersionView| #[trigger]
                sorted::views(r@).contains(v) == is_wanted(
                    self@.diff_cache,
                    package@,
                    sorted::views(diffs@),
                    diffs@.len() as int,
                    v,
                ),
    {
        let mut list: Vec<Version> = Vec::new();
        let ghost all = sorted::views(diffs@);
        let ghost c = self@.diff_cache;
        let mut i: usize = 0;
        assert(forall|v: VersionView| !sorted::views(list@).contains(v));
        while i < diffs.len()
            invariant
                i <= diffs@.len(),
                all == sorted::views(diffs@),
                c == self@.diff_cache,
                sorted::is_sorted::<Version>(sorted::views(list@)),
                forall|v: VersionView| #[trigger]
                    sorted::views(list@).contains(v) == is_wanted(c, package@, all, i as int, v),
            decreases diffs@.len() - i,
        {
            let delta = &diffs[i];
            let ghost earlier = sorted::views(list@);
            let found = self.known_stat(package, delta);
            if found.is_none() {
                sorted::insert(&mut list, delta.from.clone());
                sorted::insert(&mut list, delta.to.clone());
            }
            proof {
                assert(all[i as int] == delta@);
                assert forall|v: VersionView| #[trigger]
                    sorted::views(list@).contains(v) == is_wanted(
                        c,
                        package@,
                        all,
                        i + 1,
                        v,
                    ) by {
                    assert(earlier.contains(v) == is_wanted(c, package@, all, i as int, v));
                    if is_wanted(c, package@, all, i as int, v) {
                        let j = choose|j: int|
                            0 <= j < i && diff_cache::known(
                                c,
                                package@,
                                #[trigger] all[j],
                            ) is None && (v == all[j].from || v == all[j].to);
                        assert(diff_cache::known(c, package@, all[j]) is None);
                    }
                }
            }
            i = i + 1;
        }
        list
    }

    /// The pairs of places that have to be compared, in the order in which
    /// [`Cache::fetch_and_diffstat_all`] takes the results.
    pub fn diffs_to_run(&self, package: &str, diffs: &Vec<Delta>, fetched: &Fetched) -> (r: Vec<
        (Place, Place),
    >)
        ensures
            ({
                let plan = DiffPlan {
                    cache: self@.diff_cache,
                    fetched: cache::fetched_view(fetched@),
                    package: package@,
                    diffs: sorted::views(diffs@),
                };
                &&& r@.len() == plan.runs_before(diffs@.len())
                &&& forall|i: int|
                    0 <= i < diffs@.len() && #[trigger] plan.source(i) is Run ==> {
                        let pair = r@[plan.runs_before(i as nat) as int];
                        &&& plan.runs_before(i as nat) < r@.len()
                        &&& pair.0@ == stable_map::value_of(
                            plan.fetched,
                            at_version(package@, diffs@[i].from@),
                        )
                        &&& pair.1@ == stable_map::value_of(
                            plan.fetched,
                            at_version(package@, diffs@[i].to@),
                        )
                    }
            }),
    {
        let ghost plan = DiffPlan {
            cache: self@.diff_cache,
            fetched: cache::fetched_view(fetched@),
            package: package@,
            diffs: sorted::views(diffs@),
        };
        let mut out: Vec<(Place, Place)> = Vec::new();
        let mut i: usize = 0;
        while i < diffs.len()
            invariant
                i <= diffs@.len(),
                plan == (DiffPlan {
                    cache: self@.diff_cache,
                    fetched: cache::fetched_view(fetched@),
                    package: package@,
                    diffs: sorted::views(diffs@),
                }),
                out@.len() == plan.runs_before(i as nat),
                forall|j: int|
                    0 <= j < i && #[trigger] plan.source(j) is Run ==> {
                        let pair = out@[plan.runs_before(j as nat) as int];
                        &&& plan.runs_before(j as nat) < out@.len()
                        &&& pair.0@ == stable_map::value_of(
                            plan.fetched,
                            at_version(package@, diffs@[j].from@),
                        )
                        &&& pair.1@ == stable_map::value_of(
                            plan.fetched,
                            at_version(package@, diffs@[j].to@),
                        )
                    },
            decreases diffs@.len() - i,
        {
            let delta = &diffs[i];
            let found = self.known_stat(package, delta);
            if found.is_none() {
                let from = PackageId { name: package.to_owned(), version: delta.from.clone() };
                let to = PackageId { name: package.to_owned(), version: delta.to.clone() };
                match (cache::fetched_place(fetched, &from), cache::fetched_place(fetched, &to)) {
                    (Some(a), Some(b)) => {
                        out.push((a, b));
                    },
                    _ => {},
                }
            }
            i = i + 1;
        }
        out
    }
}

/// What was compared need not be compared again: after a recommendation every delta whose
/// diffstat was not made up is known, with the diffstat that the recommendation went by.
pub proof fn law_comparisons_are_kept<E>(task: DiffTask<E>, i: int)
    requires
        diff_cache::is_cache(task.plan.cache, task.plan.package),
        task.is_valid(),
        task.goes_well(task.plan.diffs.len() as int),
        0 <= i < task.plan.diffs.len(),
        !(task.plan.source(i) is Trial),
    ensures
        diff_cache::known(
            task.cache_after(task.plan.diffs.len()),
            task.plan.package,
            task.plan.diffs[i],
        ) == Some(task.stat(i)),
{
    lemma_kept(task, i, task.plan.diffs.len());
}

proof fn lemma_kept<E>(task: DiffTask<E>, i: int, n: nat)
    requires
        diff_cache::is_cache(task.plan.cache, task.plan.package),
        task.is_valid(),
        0 <= i < n <= task.plan.diffs.len(),
        !(task.plan.source(i) is Trial),
    ensures
        diff_cache::is_cache(task.cache_after(n), task.plan.package),
        diff_cache::known(task.cache_after(n), task.plan.package, task.plan.diffs[i]) == Some(task.stat(i)),
    decreases n,
{
    let k = (n - 1) as nat;
    let d = task.plan.diffs[i];
    if k > i {
        lemma_kept(task, i, k);
    } else {
        lemma_known_after(task, k, d);
    }
    diff_cache::law_learned_is_known(
        task.cache_after(k),
        task.plan.package,
        task.plan.diffs[k as int],
        task.stat(k as int),
        task.plan.package,
        d,
    );
    if k > i {
        assert(task.plan.diffs[i] != task.plan.diffs[k as int]);
    }
}

/// Once a recommendation was made and no diffstat was made up for it, asking again fetches
/// nothing, compares nothing and changes nothing, and the same delta is the smallest.
pub proof fn law_asking_again<E>(task: DiffTask<E>, again: DiffTask<E>, b: int)
    requires
        diff_cache::is_cache(task.plan.cache, task.plan.package),
        task.is_valid(),
        task.goes_well(task.plan.diffs.len() as int),
        forall|i: int| 0 <= i < task.plan.diffs.len() ==> !(#[trigger] task.plan.source(i) is Trial),
        again.plan.cache == task.cache_after(task.plan.diffs.len()),
        again.plan.package == task.plan.package,
        again.plan.diffs == task.plan.diffs,
    ensures
        forall|v: VersionView|
            !is_wanted(again.plan.cache, again.plan.package, again.plan.diffs, again.plan.diffs.len() as int, v),
        again.plan.runs_before(again.plan.diffs.len()) == 0,
        again.cache_after(again.plan.diffs.len()) == again.plan.cache,
        again.is_best(task.plan.diffs.len() as int, b) == task.is_best(task.plan.diffs.len() as int, b),
        0 <= b < task.plan.diffs.len() ==> again.stat(b) == task.stat(b),
{
    let n = task.plan.diffs.len();
    assert forall|i: int| 0 <= i < n implies #[trigger] again.plan.source(i) == StatSource::Known(
        task.stat(i),
    ) by {
        assert(!(task.plan.source(i) is Trial));
        law_comparisons_are_kept(task, i);
    }
    assert forall|i: int|
        #![trigger again.stat(i)]
        #![trigger task.stat(i)]
        0 <= i < n implies again.stat(i) == task.stat(i) by {
        assert(again.plan.source(i) == StatSource::Known(task.stat(i)));
    }
    assert forall|v: VersionView| !is_wanted(again.plan.cache, again.plan.package, again.plan.diffs, n as int, v) by {
        if is_wanted(again.plan.cache, again.plan.package, again.plan.diffs, n as int, v) {
            let i = choose|i: int|
                0 <= i < n && diff_cache::known(
                    again.plan.cache,
                    again.plan.package,
                    #[trigger] again.plan.diffs[i],
                ) is None && (v == again.plan.diffs[i].from || v == again.plan.diffs[i].to);
            assert(again.plan.source(i) == StatSource::Known(task.stat(i)));
        }
    }
    lemma_all_known(again, n);
}

proof fn lemma_all_known<E>(task: DiffTask<E>, n: nat)
    requires
        forall|i: int| 0 <= i < n ==> #[trigger] task.plan.source(i) is Known,
    ensures
        task.plan.runs_before(n) == 0,
        task.cache_after(n) == task.plan.cache,
    decreases n,
{
    if n > 0 {
        lemma_all_known(task, (n - 1) as nat);
        assert(task.plan.source(n - 1) is Known);
    }
}

/// Of several deltas at most one is the one that is recommended.
pub proof fn law_best_is_unique<E>(task: DiffTask<E>, n: int, a: int, b: int)
    requires
        task.is_best(n, a),
        task.is_best(n, b),
    ensures
        a == b,
{
    if a < b {
        assert(task.stat(b).count < task.stat(a).count);
    }
    if b < a {
        assert(task.stat(a).count < task.stat(b).count);
    }
}

/// Where every version that is wanted was fetched, no diffstat is made up.
pub proof fn law_nothing_is_made_up(
    plan: DiffPlan,
    root: PlaceView,
    registry: Option<PlaceView>,
    packages: Seq<PackageId>,
    probes: Seq<Probe>,
    i: int,
)
    requires
        plan.fetched == cache::paths_of(root, registry, packages, probes, packages.len()),
        forall|v: VersionView| #[trigger]
            is_wanted(plan.cache, plan.package, plan.diffs, plan.diffs.len() as int, v)
                ==> exists|k: int|
                0 <= k < packages.len() && (#[trigger] packages[k])@ == at_version(plan.package, v),
        0 <= i < plan.diffs.len(),
    ensures
        !(plan.source(i) is Trial),
{
    let d = plan.diffs[i];
    let n = plan.diffs.len() as int;
    if diff_cache::known(plan.cache, plan.package, d) is None {
        assert(is_wanted(plan.cache, plan.package, plan.diffs, n, d.from));
        assert(is_wanted(plan.cache, plan.package, plan.diffs, n, d.to));
        let a = choose|k: int|
            0 <= k < packages.len() && (#[trigger] packages[k])@ == at_version(
                plan.package,
                d.from,
            );
        let b = choose|k: int|
            0 <= k < packages.len() && (#[trigger] packages[k])@ == at_version(plan.package, d.to);
        cache::law_every_package_has_a_place(root, registry, packages, probes, packages.len(), a);
        cache::law_every_package_has_a_place(root, registry, packages, probes, packages.len(), b);
    }
}

/// A trial, in which nothing is fetched, compares nothing and leaves the cache as it is.
pub proof fn law_trial_compares_nothing<E>(task: DiffTask<E>, n: nat)
    requires
        task.plan.fetched.len() == 0,
        n <= task.plan.diffs.len(),
    ensures
        task.plan.runs_before(n) == 0,
        task.cache_after(n) == task.plan.cache,
    decreases n,
{
    if n > 0 {
        law_trial_compares_nothing(task, (n - 1) as nat);
    }
}

/// Every comparison was made, or all up to one that failed.
pub open spec fn ran_until_failure<E>(task: DiffTask<E>) -> bool {
    let all = task.plan.runs_before(task.plan.diffs.len());
    &&& task.runs.len() <= all
    &&& task.runs.len() < all ==> task.runs.len() > 0 && task.runs.last() is Err
}

/// Whoever makes the comparisons that are asked for, up to the first that failed, has what an
/// answer needs.
pub proof fn law_runs_suffice<E>(task: DiffTask<E>, i: int)
    requires
        ran_until_failure(task),
        0 <= i < task.plan.diffs.len(),
        task.goes_well(i),
        task.plan.source(i) is Run,
    ensures
        task.plan.runs_before(i as nat) < task.runs.len(),
{
    let n = task.plan.diffs.len();
    let k = task.plan.runs_before(i as nat);
    lemma_runs_grow(task.plan, (i + 1) as nat, n);
    if k >= task.runs.len() {
        let last = (task.runs.len() - 1) as nat;
        let j = lemma_run_is_made(task.plan, i as nat, last);
        assert(task.plan.source(j) is Run);
        assert(task.run(j) is Ok);
        assert(task.run(j) == task.runs[last as int]);
    }
}

/// The number of comparisons does not fall.
proof fn lemma_runs_grow(plan: DiffPlan, m: nat, n: nat)
    requires
        m <= n,
    ensures
        plan.runs_before(m) <= plan.runs_before(n),
    decreases n,
{
    if m < n {
        lemma_runs_grow(plan, m, (n - 1) as nat);
    }
}

/// Every comparison is made for some delta.
proof fn lemma_run_is_made(plan: DiffPlan, n: nat, k: nat) -> (j: int)
    requires
        k < plan.runs_before(n),
    ensures
        0 <= j < n,
        plan.source(j) is Run,
        plan.runs_before(j as nat) == k,
    decreases n,
{
    if plan.runs_before((n - 1) as nat) == k {
        n - 1
    } else {
        lemma_run_is_made(plan, (n - 1) as nat, k)
    }
}

/// Puts deltas in order, by the version that they start from and then by the one that they lead
/// to, and drops those that occur again.
pub fn ordered_deltas(diffs: Vec<Delta>) -> (r: Vec<Delta>)
    ensures
        sorted::is_sorted::<Delta>(sorted::views(r@)),
        sorted::views(r@).no_duplicates(),
        forall|d: DeltaView| #[trigger]
            sorted::views(r@).contains(d) == sorted::views(diffs@).contains(d),
{
    let ghost all = sorted::views(diffs@);
    let mut rest = diffs;
    let mut list: Vec<Delta> = Vec::new();
    assert(forall|d: DeltaView| !sorted::views(list@).contains(d));
    while rest.len() > 0
        invariant
            sorted::is_sorted::<Delta>(sorted::views(list@)),
            forall|d: DeltaView| #[trigger]
                all.contains(d) == (sorted::views(list@).contains(d) || sorted::views(
                    rest@,
                ).contains(d)),
        decreases rest@.len(),
    {
        let ghost earlier = sorted::views(list@);
        let ghost left = sorted::views(rest@);
        let delta = rest.pop().unwrap();
        let ghost d0 = delta@;
        sorted::insert(&mut list, delta);
        proof {
            let now = sorted::views(rest@);
            assert(left == now.push(d0));
            assert forall|d: DeltaView| #[trigger] all.contains(d) == (sorted::views(
                list@,
            ).contains(d) || now.contains(d)) by {
                assert(sorted::views(list@).contains(d) == (earlier.contains(d) || d == d0));
                if left.contains(d) && d != d0 {
                    let j = choose|j: int| 0 <= j < left.len() && left[j] == d;
                    assert(now[j] == d);
                }
                if now.contains(d) {
                    let j = choose|j: int| 0 <= j < now.len() && now[j] == d;
                    assert(left[j] == d);
                }
                assert(left[left.len() - 1] == d0);
            }
        }
    }
    proof {
        assert forall|d: DeltaView| #[trigger] sorted::views(list@).contains(d) == all.contains(
            d,
        ) by {
            assert(sorted::views(rest@).len() == 0);
        }
        sorted::law_sorted_is_distinct::<Delta>(sorted::views(list@));
    }
    list
}

/// Among deltas in order the recommendation depends on their set alone: where two lists in order
/// hold the same deltas and everything else is the same, so is what is recommended.
pub proof fn law_recommendation_depends_on_the_set<E>(
    a: DiffTask<E>,
    b: DiffTask<E>,
    rec: DiffRecommendation,
    other: DiffRecommendation,
    i: int,
    j: int,
)
    requires
        a.plan.cache == b.plan.cache,
        a.plan.fetched == b.plan.fetched,
        a.plan.package == b.plan.package,
        a.runs == b.runs,
        sorted::is_sorted::<Delta>(a.plan.diffs),
        sorted::is_sorted::<Delta>(b.plan.diffs),
        forall|d: DeltaView| #[trigger] a.plan.diffs.contains(d) == b.plan.diffs.contains(d),
        a.is_best(a.plan.diffs.len() as int, i),
        a.recommends_delta(rec, i),
        b.is_best(b.plan.diffs.len() as int, j),
        b.recommends_delta(other, j),
    ensures
        a == b,
        i == j,
        rec.from@ == other.from@,
        rec.to@ == other.to@,
        rec.diffstat@ == other.diffstat@,
{
    sorted::law_sorted_is_unique::<Delta>(a.plan.diffs, b.plan.diffs);
    law_best_is_unique(a, a.plan.diffs.len() as int, i, j);
}

/// The diffstat of a delta is the one that is known; and where none is known and both versions
/// were fetched, the one that came of comparing them.
pub proof fn law_diffstat_of_a_delta<E>(task: DiffTask<E>, i: int)
    requires
        0 <= i < task.plan.diffs.len(),
    ensures
        ({
            let delta = task.plan.diffs[i];
            let from = PackageIdView { name: task.plan.package, version: delta.from };
            let to = PackageIdView { name: task.plan.package, version: delta.to };
            let known = diff_cache::known(task.plan.cache, task.plan.package, delta);
            let both = (exists|k: int|
                0 <= k < task.plan.fetched.len() && (#[trigger] task.plan.fetched[k]).0 == from) && (
            exists|k: int|
                0 <= k < task.plan.fetched.len() && (#[trigger] task.plan.fetched[k]).0 == to);
            &&& known matches Some(stat) ==> task.stat(i) == stat
            &&& task.plan.source(i) is Run == (known is None && both)
            &&& known is None && both && task.run(i) is Ok ==> task.stat(i).raw
                == task.run(i)->Ok_0.raw@ && task.stat(i).count == task.run(i)->Ok_0.count
        }),
{
}

/// A size is made up from the squares of the first numbers: their difference, with its sign in
/// the text.
pub proof fn law_made_up_size<E>(task: DiffTask<E>, i: int)
    requires
        0 <= i < task.plan.diffs.len(),
        diff_cache::known(task.plan.cache, task.plan.package, task.plan.diffs[i]) is None,
        task.plan.fetched.len() == 0,
        task.plan.diffs[i].from.major * task.plan.diffs[i].from.major < 0x8000_0000_0000_0000,
        task.plan.diffs[i].to.major * task.plan.diffs[i].to.major < 0x8000_0000_0000_0000,
    ensures
        ({
            let a = task.plan.diffs[i].from.major * task.plan.diffs[i].from.major;
            let b = task.plan.diffs[i].to.major * task.plan.diffs[i].to.major;
            &&& a <= b ==> task.stat(i).count == b - a && task.stat(i).raw == "+"@
                + text::decimal_text((b - a) as nat)
            &&& b < a ==> task.stat(i).count == a - b && task.stat(i).raw == "-"@
                + text::decimal_text((a - b) as nat)
        }),
{
    let f = task.plan.diffs[i].from.major;
    let t = task.plan.diffs[i].to.major;
    assert(0 <= f * f) by (nonlinear_arith);
    assert(0 <= t * t) by (nonlinear_arith);
}

/// The deltas that are compared take the comparisons one after the other: each its own, in the
/// order of the deltas.
pub proof fn law_each_delta_has_its_comparison(plan: DiffPlan, i: int, j: int)
    requires
        0 <= i < j <= plan.diffs.len(),
    ensures
        plan.source(i) is Run ==> plan.runs_before(i as nat) < plan.runs_before(j as nat),
        plan.runs_before(0) == 0,
{
    lemma_runs_grow(plan, (i + 1) as nat, j as nat);
}

/// No comparison is left over: each is of one of the deltas that are compared.
pub proof fn law_each_comparison_is_of_one_delta(plan: DiffPlan, k: nat)
    requires
        k < plan.runs_before(plan.diffs.len()),
    ensures
        exists|d: int|
            0 <= d < plan.diffs.len() && #[trigger] plan.source(d) is Run && plan.runs_before(
                d as nat,
            ) == k,
{
    let d = lemma_run_is_made(plan, plan.diffs.len(), k);
    assert(plan.source(d) is Run);
}

/// The two places that are compared are those where the two versions of the delta were fetched
/// to: first the version that it starts from.
pub proof fn law_comparison_is_of_the_versions(
    cache: &Cache,
    package: &str,
    diffs: &Vec<Delta>,
    fetched: &Fetched,
    r: Vec<(Place, Place)>,
    i: int,
    a: int,
    b: int,
)
    requires
        call_ensures(Cache::diffs_to_run, (cache, package, diffs, fetched), r),
        stable_map::unique_keys(fetched@),
        0 <= i < diffs@.len(),
        diff_cache::known(cache@.diff_cache, package@, diffs@[i]@) is None,
        0 <= a < fetched@.len(),
        fetched@[a].0.name == package@ && fetched@[a].0.version == diffs@[i].from@,
        0 <= b < fetched@.len(),
        fetched@[b].0.name == package@ && fetched@[b].0.version == diffs@[i].to@,
    ensures
        exists|k: int|
            0 <= k < r@.len() && (#[trigger] r@[k]).0@ == fetched@[a].1@ && r@[k].1@
                == fetched@[b].1@,
{
    let plan = DiffPlan {
        cache: cache@.diff_cache,
        fetched: cache::fetched_view(fetched@),
        package: package@,
        diffs: sorted::views(diffs@),
    };
    let from = at_version(package@, diffs@[i].from@);
    let to = at_version(package@, diffs@[i].to@);
    assert(fetched@[a].0 == from);
    assert(fetched@[b].0 == to);
    stable_map::lemma_key_index(fetched@, a);
    stable_map::lemma_key_index(fetched@, b);
    stable_map::lemma_mapped(fetched@, |p: Place| p@, from);
    stable_map::lemma_mapped(fetched@, |p: Place| p@, to);
    assert(plan.diffs[i] == diffs@[i]@);
    assert(plan.source(i) is Run);
    let k = plan.runs_before(i as nat) as int;
    assert(r@[k].0@ == fetched@[a].1@);
}

/// A recommendation is one of the deltas with its diffstat, and no delta is smaller; one that is
/// as small comes later. It is made exactly where no comparison failed, and changes nothing of
/// the cache but what is known.
pub proof fn law_smallest_is_recommended<E>(
    task: DiffTask<E>,
    before: CacheModel,
    after: CacheModel,
    r: Result<DiffRecommendation, E>,
)
    requires
        is_answer(task, before, after, r),
    ensures
        r is Ok == (forall|i: int|
            0 <= i < task.plan.diffs.len() && #[trigger] task.plan.source(i) is Run ==> task.run(
                i,
            ) is Ok),
        r matches Ok(rec) ==> exists|b: int|
            {
                &&& 0 <= b < task.plan.diffs.len()
                &&& rec.from@ == (#[trigger] task.plan.diffs[b]).from
                &&& rec.to@ == task.plan.diffs[b].to
                &&& rec.diffstat.raw@ == task.stat(b).raw
                &&& rec.diffstat.count == task.stat(b).count
                &&& forall|i: int|
                    0 <= i < task.plan.diffs.len() ==> rec.diffstat.count <= (#[trigger] task.stat(
                        i,
                    )).count
                &&& forall|i: int|
                    0 <= i < b ==> rec.diffstat.count < (#[trigger] task.stat(i)).count
            },
        r matches Err(e) ==> exists|i: int|
            0 <= i < task.plan.diffs.len() && #[trigger] task.plan.source(i) is Run && task.run(i)
                == Err::<DiffStat, E>(e) && forall|j: int|
                0 <= j < i && #[trigger] task.plan.source(j) is Run ==> task.run(j) is Ok,
        after.locked == before.locked,
        after.root == before.root,
        after.cargo_registry == before.cargo_registry,
        after.diff_cache_path == before.diff_cache_path,
{
    let n = task.plan.diffs.len();
    match r {
        Ok(rec) => {
            let b = choose|b: int| #[trigger]
                task.is_best(n as int, b) && task.recommends_delta(rec, b);
            assert(rec.from@ == task.plan.diffs[b].from);
        },
        Err(e) => {
            let i = choose|i: int|
                {
                    &&& 0 <= i < n
                    &&& #[trigger] task.goes_well(i)
                    &&& task.plan.source(i) is Run
                    &&& task.run(i) == Err::<DiffStat, E>(e)
                    &&& after == (CacheModel { diff_cache: task.cache_after(i as nat), ..before })
                };
            assert(task.plan.source(i) is Run);
        },
    }
}

/// A recommendation changes nothing of what is known of other packages, of deltas that it was
/// not asked for, and of those that were not compared.
pub proof fn law_other_diffstats_are_kept<E>(
    task: DiffTask<E>,
    n: nat,
    package: Seq<char>,
    delta: DeltaView,
)
    requires
        diff_cache::is_cache(task.plan.cache, task.plan.package),
        n <= task.plan.diffs.len(),
        package != task.plan.package || forall|i: int|
            0 <= i < n && #[trigger] task.plan.source(i) is Run ==> task.plan.diffs[i] != delta,
    ensures
        diff_cache::is_cache(task.cache_after(n), task.plan.package),
        diff_cache::known(task.cache_after(n), package, delta) == diff_cache::known(
            task.plan.cache,
            package,
            delta,
        ),
    decreases n,
{
    if n > 0 {
        let k = (n - 1) as nat;
        law_other_diffstats_are_kept(task, k, package, delta);
        if task.plan.source(k as int) is Run {
            diff_cache::law_learned_is_known(
                task.cache_after(k),
                task.plan.package,
                task.plan.diffs[k as int],
                task.stat(k as int),
                package,
                delta,
            );
        }
    }
}

/// Both versions of every delta that is not known are fetched.
pub proof fn law_wanted_versions_are_fetched(
    cache: &Cache,
    package: &str,
    diffs: &Vec<Delta>,
    r: Vec<Version>,
    i: int,
)
    requires
        call_ensures(Cache::versions_to_fetch, (cache, package, diffs), r),
        0 <= i < diffs@.len(),
        diff_cache::known(cache@.diff_cache, package@, diffs@[i]@) is None,
    ensures
        exists|k: int| 0 <= k < r@.len() && (#[trigger] r@[k])@ == diffs@[i].from@,
        exists|k: int| 0 <= k < r@.len() && (#[trigger] r@[k])@ == diffs@[i].to@,
{
    let all = sorted::views(diffs@);
    let n = diffs@.len() as int;
    let list = sorted::views(r@);
    let c = cache@.diff_cache;
    assert(all[i] == diffs@[i]@);
    assert(is_wanted(c, package@, all, n, all[i].from));
    assert(is_wanted(c, package@, all, n, all[i].to));
    assert(list.contains(all[i].from));
    assert(list.contains(all[i].to));
    let k1 = choose|k: int| 0 <= k < list.len() && list[k] == all[i].from;
    let k2 = choose|k: int| 0 <= k < list.len() && list[k] == all[i].to;
    assert(r@[k1]@ == diffs@[i].from@);
    assert(r@[k2]@ == diffs@[i].to@);
}

/// Nothing is fetched but versions of deltas that are not known.
pub proof fn law_only_wanted_versions_are_fetched(
    cache: &Cache,
    package: &str,
    diffs: &Vec<Delta>,
    r: Vec<Version>,
    a: int,
)
    requires
        call_ensures(Cache::versions_to_fetch, (cache, package, diffs), r),
        0 <= a < r@.len(),
    ensures
        exists|k: int|
            0 <= k < diffs@.len() && diff_cache::known(
                cache@.diff_cache,
                package@,
                (#[trigger] diffs@[k])@,
            ) is None && (r@[a]@ == diffs@[k].from@ || r@[a]@ == diffs@[k].to@),
{
    let all = sorted::views(diffs@);
    let n = diffs@.len() as int;
    let list = sorted::views(r@);
    let c = cache@.diff_cache;
    assert(list[a] == r@[a]@);
    assert(list.contains(list[a]));
    let k = choose|k: int|
        0 <= k < n && diff_cache::known(c, package@, #[trigger] all[k]) is None && (list[a]
            == all[k].from || list[a] == all[k].to);
    assert(all[k] == diffs@[k]@);
}

/// Versions are fetched in the order of their numbers, and none twice.
pub proof fn law_versions_are_fetched_in_order(
    cache: &Cache,
    package: &str,
    diffs: &Vec<Delta>,
    r: Vec<Version>,
    a: int,
    b: int,
)
    requires
        call_ensures(Cache::versions_to_fetch, (cache, package, diffs), r),
        0 <= a < b < r@.len(),
    ensures
        r@[a]@ != r@[b]@,
        r@[a]@.major <= r@[b]@.major,
        r@[a]@.major == r@[b]@.major ==> r@[a]@.minor <= r@[b]@.minor,
        r@[a]@.major == r@[b]@.major && r@[a]@.minor == r@[b]@.minor ==> r@[a]@.patch
            <= r@[b]@.patch,
{
    let list = sorted::views(r@);
    assert(list[a] == r@[a]@ && list[b] == r@[b]@);
    assert(version::before(list[a], list[b]));
}

/// Deltas in order go by the numbers of the version that they start from, and where these are
/// the same, by those of the version that they lead to; none is there twice.
pub proof fn law_deltas_are_put_in_order(diffs: Vec<Delta>, r: Vec<Delta>, a: int, b: int)
    requires
        call_ensures(ordered_deltas, (diffs,), r),
        0 <= a < b < r@.len(),
    ensures
        r@[a]@ != r@[b]@,
        r@[a].from@.major <= r@[b].from@.major,
        r@[a].from@.major == r@[b].from@.major ==> r@[a].from@.minor <= r@[b].from@.minor,
        r@[a].from@.major == r@[b].from@.major && r@[a].from@.minor == r@[b].from@.minor
            ==> r@[a].from@.patch <= r@[b].from@.patch,
        r@[a].from@ == r@[b].from@ ==> r@[a].to@.major <= r@[b].to@.major,
        r@[a].from@ == r@[b].from@ && r@[a].to@.major == r@[b].to@.major ==> r@[a].to@.minor
            <= r@[b].to@.minor,
        r@[a].from@ == r@[b].from@ && r@[a].to@.major == r@[b].to@.major && r@[a].to@.minor
            == r@[b].to@.minor ==> r@[a].to@.patch <= r@[b].to@.patch,
{
    let list = sorted::views(r@);
    assert(list[a] == r@[a]@ && list[b] == r@[b]@);
    assert(crate::format::delta_before(list[a], list[b]));
}

/// No delta is made up by putting them in order.
pub proof fn law_only_given_deltas_stay(diffs: Vec<Delta>, r: Vec<Delta>, a: int)
    requires
        call_ensures(ordered_deltas, (diffs,), r),
        0 <= a < r@.len(),
    ensures
        exists|k: int|
            0 <= k < diffs@.len() && (#[trigger] diffs@[k]).from@ == r@[a].from@ && diffs@[k].to@
                == r@[a].to@,
{
    let list = sorted::views(r@);
    let all = sorted::views(diffs@);
    assert(list[a] == r@[a]@);
    assert(list.contains(list[a]));
    let k = choose|k: int| 0 <= k < all.len() && all[k] == list[a];
    assert(diffs@[k]@ == r@[a]@);
}

/// No delta is lost by putting them in order.
pub proof fn law_every_delta_stays(diffs: Vec<Delta>, r: Vec<Delta>, k: int)
    requires
        call_ensures(ordered_deltas, (diffs,), r),
        0 <= k < diffs@.len(),
    ensures
        exists|a: int|
            0 <= a < r@.len() && (#[trigger] r@[a]).from@ == diffs@[k].from@ && r@[a].to@
                == diffs@[k].to@,
{
    let list = sorted::views(r@);
    let all = sorted::views(diffs@);
    assert(all[k] == diffs@[k]@);
    assert(all.contains(all[k]));
    assert(list.contains(all[k]));
    let a = choose|a: int| 0 <= a < list.len() && list[a] == all[k];
    assert(r@[a]@ == diffs@[k]@);
}

/// A size is made up exactly where it is not known and one of the versions was not fetched, and
/// it can be wherever the squares of the first numbers, and their difference, are small enough.
pub proof fn law_sizes_that_can_be_made_up(
    cache: &Cache,
    package: &str,
    delta: &Delta,
    fetched: &Fetched,
    made_up: bool,
    can: bool,
)
    requires
        call_ensures(Cache::is_made_up, (cache, package, delta, fetched), made_up),
        call_ensures(Cache::can_make_up, (cache, package, delta, fetched), can),
    ensures
        diff_cache::known(cache@.diff_cache, package@, delta@) is Some ==> !made_up,
        diff_cache::known(cache@.diff_cache, package@, delta@) is None && fetched@.len() == 0
            ==> made_up,
        !made_up ==> can,
        delta.from@.major * delta.from@.major < 0x8000_0000_0000_0000 && delta.to@.major
            * delta.to@.major < 0x8000_0000_0000_0000 ==> can,
        made_up && (delta.from@.major * delta.from@.major > u64::MAX || delta.to@.major
            * delta.to@.major > u64::MAX) ==> !can,
{
    let f = delta.from@.major;
    let t = delta.to@.major;
    assert(0 <= f * f) by (nonlinear_arith);
    assert(0 <= t * t) by (nonlinear_arith);
}

/// A fetch that failed is the answer, and leaves the cache as it was. Else what is recommended is
/// one of the deltas that were given, and no larger than any whose diffstat was known; and where
/// every comparison went well, something is recommended.
pub proof fn law_answer_to_the_question<E>(
    package: &str,
    diffs: &Vec<Delta>,
    fetched: Result<Fetched, E>,
    runs: Vec<Result<DiffStat, E>>,
    r: Result<DiffRecommendation, E>,
    i: int,
)
    requires
        0 <= i < diffs@.len(),
    ensures
        forall|c: &mut Cache| #[trigger]
            call_ensures(
                Cache::fetch_and_diffstat_all::<E>,
                (c, package, diffs, fetched, runs),
                r,
            ) ==> {
                &&& fetched matches Err(e) ==> r == Err::<DiffRecommendation, E>(e)
                    && (*final(c))@ == (*c)@
                &&& fetched is Ok && (forall|k: int| 0 <= k < runs@.len() ==> (#[trigger] runs@[k]) is Ok)
                    && (forall|k: int|
                    0 <= k < diffs@.len() ==> diff_cache::known(
                        (*c)@.diff_cache,
                        package@,
                        (#[trigger] diffs@[k])@,
                    ) is Some) ==> r is Ok
                &&& r matches Ok(rec) ==> (exists|b: int|
                    0 <= b < diffs@.len() && rec.from@ == (#[trigger] diffs@[b]).from@ && rec.to@
                        == diffs@[b].to@)
                &&& r matches Ok(rec) ==> (diff_cache::known(
                    (*c)@.diff_cache,
                    package@,
                    diffs@[i]@,
                ) matches Some(stat) ==> rec.diffstat.count <= stat.count)
                &&& (*final(c))@.root == (*c)@.root && (*final(c))@.cargo_registry
                    == (*c)@.cargo_registry && (*final(c))@.diff_cache_path
                    == (*c)@.diff_cache_path
            },
{
    assert forall|c: &mut Cache| #[trigger]
        call_ensures(
            Cache::fetch_and_diffstat_all::<E>,
            (c, package, diffs, fetched, runs),
            r,
        ) implies {
        &&& fetched matches Err(e) ==> r == Err::<DiffRecommendation, E>(e) && (*final(c))@ == (*c)@
        &&& fetched is Ok && (forall|k: int| 0 <= k < runs@.len() ==> (#[trigger] runs@[k]) is Ok) && (
        forall|k: int|
            0 <= k < diffs@.len() ==> diff_cache::known(
                (*c)@.diff_cache,
                package@,
                (#[trigger] diffs@[k])@,
            ) is Some) ==> r is Ok
        &&& r matches Ok(rec) ==> (exists|b: int|
            0 <= b < diffs@.len() && rec.from@ == (#[trigger] diffs@[b]).from@ && rec.to@
                == diffs@[b].to@)
        &&& r matches Ok(rec) ==> (diff_cache::known(
            (*c)@.diff_cache,
            package@,
            diffs@[i]@,
        ) matches Some(stat) ==> rec.diffstat.count <= stat.count)
        &&& (*final(c))@.root == (*c)@.root && (*final(c))@.cargo_registry
            == (*c)@.cargo_registry && (*final(c))@.diff_cache_path == (*c)@.diff_cache_path
    } by {
        if fetched is Ok {
            let task = DiffTask {
                plan: DiffPlan {
                    cache: (*c)@.diff_cache,
                    fetched: cache::fetched_view(fetched->Ok_0@),
                    package: package@,
                    diffs: sorted::views(diffs@),
                },
                runs: runs@,
            };
            law_smallest_is_recommended(task, (*c)@, (*final(c))@, r);
            assert(forall|k: int| 0 <= k < diffs@.len() ==> task.plan.diffs[k] == diffs@[k]@);
            if r is Ok {
                assert(task.plan.diffs[i] == diffs@[i]@);
                if let Some(stat) = diff_cache::known((*c)@.diff_cache, package@, diffs@[i]@) {
                    assert(task.stat(i) == stat);
                }
            } else {
                let k = choose|k: int|
                    0 <= k < task.plan.diffs.len() && #[trigger] task.plan.source(k) is Run
                        && task.run(k) == Err::<DiffStat, E>(r->Err_0);
                assert(diff_cache::known((*c)@.diff_cache, package@, diffs@[k]@) is None);
            }
        }
    }
}

} // verus!
