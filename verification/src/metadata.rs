//! The packages of a workspace, and the files that a fresh store begins with.
use crate::format::{AuditsFile, ConfigFile, ImportsFile, UnauditedDependency};
use crate::sorted;
use crate::stable_map;
use crate::stable_map::StableMap;
use crate::version::Version;
use vstd::prelude::*;
use vstd::string::*;

verus! {

/// A package of the dependency graph. One without a source is a member of the workspace or a
/// dependency on a path.
pub struct Package {
    pub name: String,
    pub version: Version,
    pub source: Option<String>,
}

/// What is known of a workspace.
pub struct Metadata {
    pub packages: Vec<Package>,
}

/// The source of the packages of crates.io.
pub open spec fn crates_io() -> Seq<char> {
    "registry+https://github.com/rust-lang/crates.io-index"@
}

/// Calls `cargo_metadata::Source::is_crates_io`, which tells whether a source is written as the
/// registry index of crates.io.
#[verifier::external_body]
fn is_crates_io(source: &str) -> (r: bool)
    ensures
        r == (source@ == crates_io()),
{
    cargo_metadata::Source { repr: source.to_string() }.is_crates_io()
}

/// What is asked of a package.
pub trait PackageExt {
    /// The package comes from crates.io.
    spec fn third_party(&self) -> bool;

    /// Whether the package comes from crates.io.
    fn is_third_party(&self) -> (r: bool)
        ensures
            r == self.third_party(),
    ;
}

impl PackageExt for Package {
    open spec fn third_party(&self) -> bool {
        self.source matches Some(s) && s@ == crates_io()
    }

    fn is_third_party(&self) -> (r: bool) {
        match &self.source {
            Some(source) => is_crates_io(source.as_str()),
            None => false,
        }
    }
}

/// The packages that come from crates.io, in order.
pub open spec fn foreign(packages: Seq<Package>) -> Seq<Package> {
    packages.filter(|p: Package| p.third_party())
}

/// The packages that a list of references refers to.
pub open spec fn referred(s: Seq<&Package>) -> Seq<Package> {
    s.map_values(|p: &Package| *p)
}

/// The packages that come from crates.io.
pub fn foreign_packages(metadata: &Metadata) -> (r: Vec<&Package>)
    ensures
        referred(r@) == foreign(metadata.packages@),
{
    let mut out: Vec<&Package> = Vec::new();
    let ghost all = metadata.packages@;
    let ghost pred = |p: Package| p.third_party();
    let mut i: usize = 0;
    proof {
        reveal(Seq::filter);
        assert(all.take(0).filter(pred) == Seq::<Package>::empty());
        assert(referred(out@) == all.take(0).filter(pred));
    }
    while i < metadata.packages.len()
        invariant
            i <= all.len(),
            all == metadata.packages@,
            pred == (|p: Package| p.third_party()),
            referred(out@) == all.take(i as int).filter(pred),
        decreases all.len() - i,
    {
        let package = &metadata.packages[i];
        let ghost before = out@;
        if package.is_third_party() {
            out.push(package);
            assert(referred(out@) == referred(before).push(*package));
        }
        proof {
            reveal(Seq::filter);
            assert(all.take(i + 1).drop_last() == all.take(i as int));
            assert(all.take(i + 1).last() == *package);
        }
        i = i + 1;
    }
    assert(all.take(all.len() as int) == all);
    out
}

/// The different items of `s`, each where it first stands.
pub open spec fn distinct<A>(s: Seq<A>) -> Seq<A>
    decreases s.len(),
{
    if s.len() == 0 {
        seq![]
    } else {
        let d = distinct(s.drop_last());
        if d.contains(s.last()) {
            d
        } else {
            d.push(s.last())
        }
    }
}

/// The names of packages.
pub open spec fn names(packages: Seq<Package>) -> Seq<Seq<char>> {
    packages.map_values(|p: Package| p.name@)
}

/// The entry that `cargo vet init` makes for a package.
pub open spec fn imported(package: Package, criteria: Seq<char>) -> crate::format::UnauditedView {
    crate::format::UnauditedView {
        version: package.version@,
        notes: Some("automatically imported by 'cargo vet init'"@),
        suggest: true,
        criteria,
    }
}

/// The packages called `name`, in order.
pub open spec fn named(packages: Seq<Package>, name: Seq<char>) -> Seq<Package> {
    packages.filter(|p: Package| p.name@ == name)
}

/// The entries for the packages called `name`, in order.
pub open spec fn imported_as(
    packages: Seq<Package>,
    name: Seq<char>,
    criteria: Seq<char>,
) -> Seq<crate::format::UnauditedView> {
    named(packages, name).map_values(|p: Package| imported(p, criteria))
}

/// `unaudited` holds an entry for every one of `packages` under its name, and nothing else.
pub open spec fn is_imported(
    unaudited: Seq<(Seq<char>, Vec<UnauditedDependency>)>,
    packages: Seq<Package>,
    criteria: Seq<char>,
) -> bool {
    &&& stable_map::keys(unaudited) == distinct(names(packages))
    &&& forall|i: int|
        0 <= i < unaudited.len() ==> crate::format::unaudited_views((#[trigger] unaudited[i]).1@)
            == imported_as(packages, unaudited[i].0, criteria)
}

/// A key is in the map exactly where it is one of the keys.
proof fn lemma_keys<V>(s: Seq<(Seq<char>, V)>, k: Seq<char>)
    ensures
        stable_map::has_key(s, k) == stable_map::keys(s).contains(k),
{
    if stable_map::has_key(s, k) {
        let i = stable_map::key_index(s, k);
        assert(stable_map::keys(s)[i] == k);
    }
    if stable_map::keys(s).contains(k) {
        let i = choose|i: int| 0 <= i < stable_map::keys(s).len() && stable_map::keys(s)[i] == k;
        assert(s[i].0 == k);
    }
}

/// The different items are the items.
proof fn lemma_distinct<A>(s: Seq<A>, a: A)
    ensures
        distinct(s).contains(a) == s.contains(a),
    decreases s.len(),
{
    if s.len() > 0 {
        lemma_distinct(s.drop_last(), a);
        let d = distinct(s.drop_last());
        if s.contains(a) && s.last() != a {
            let i = choose|i: int| 0 <= i < s.len() && s[i] == a;
            assert(s.drop_last()[i] == a);
        }
        if s.drop_last().contains(a) {
            let i = choose|i: int| 0 <= i < s.drop_last().len() && s.drop_last()[i] == a;
            assert(s[i] == a);
        }
        assert(s[s.len() - 1] == s.last());
        if !d.contains(s.last()) {
            assert(distinct(s)[d.len() as int] == s.last());
            if d.contains(a) {
                let i = choose|i: int| 0 <= i < d.len() && d[i] == a;
                assert(distinct(s)[i] == a);
            }
        }
    }
}

/// No package of the list has the name: there are no entries for it.
proof fn lemma_no_entries(packages: Seq<Package>, name: Seq<char>, criteria: Seq<char>)
    requires
        !names(packages).contains(name),
    ensures
        imported_as(packages, name, criteria).len() == 0,
    decreases packages.len(),
{
    reveal(Seq::filter);
    if packages.len() > 0 {
        let rest = packages.drop_last();
        assert(names(packages)[packages.len() - 1] == packages.last().name@);
        if names(rest).contains(name) {
            let i = choose|i: int| 0 <= i < names(rest).len() && names(rest)[i] == name;
            assert(names(packages)[i] == name);
        }
        lemma_no_entries(rest, name, criteria);
    }
}

/// One more package adds one entry, at the end of the list under its name.
proof fn lemma_one_more(packages: Seq<Package>, p: Package, name: Seq<char>, criteria: Seq<char>)
    ensures
        imported_as(packages.push(p), name, criteria) == (if p.name@ == name {
            imported_as(packages, name, criteria).push(imported(p, criteria))
        } else {
            imported_as(packages, name, criteria)
        }),
{
    reveal(Seq::filter);
    assert(packages.push(p).drop_last() == packages);
    if p.name@ == name {
        assert(named(packages.push(p), name) == named(packages, name).push(p));
    }
}

/// Adding the entry of one more package keeps the map complete.
proof fn lemma_imported_step(
    before: Seq<(Seq<char>, Vec<UnauditedDependency>)>,
    after: Seq<(Seq<char>, Vec<UnauditedDependency>)>,
    packages: Seq<Package>,
    p: Package,
    item: UnauditedDependency,
    criteria: Seq<char>,
)
    requires
        stable_map::unique_keys(before),
        is_imported(before, packages, criteria),
        stable_map::pushed(before, after, p.name@, item),
        item@ == imported(p, criteria),
    ensures
        is_imported(after, packages.push(p), criteria),
{
    let all = packages.push(p);
    let name = p.name@;
    assert(names(all) == names(packages).push(name));
    assert(names(all).drop_last() == names(packages));
    lemma_keys(before, name);
    if stable_map::has_key(before, name) {
        let k = stable_map::key_index(before, name);
        assert(stable_map::keys(after) == stable_map::keys(before)) by {
            assert forall|j: int| 0 <= j < before.len() implies #[trigger] stable_map::keys(after)[j]
                == stable_map::keys(before)[j] by {
                if j != k {
                    assert(after[j] == before[j]);
                }
            }
        }
        assert forall|i: int| 0 <= i < after.len() implies crate::format::unaudited_views(
            (#[trigger] after[i]).1@,
        ) == imported_as(all, after[i].0, criteria) by {
            lemma_one_more(packages, p, before[i].0, criteria);
            if i == k {
                assert(crate::format::unaudited_views(after[i].1@) == crate::format::unaudited_views(
                    before[i].1@,
                ).push(item@));
            } else {
                assert(after[i] == before[i]);
                assert(before[i].0 != name) by {
                    assert(before[k].0 == name);
                }
            }
        }
    } else {
        assert(stable_map::keys(after) == stable_map::keys(before).push(name)) by {
            assert forall|j: int| 0 <= j < before.len() implies #[trigger] stable_map::keys(after)[j]
                == stable_map::keys(before)[j] by {
                assert(after.drop_last()[j] == before[j]);
            }
        }
        lemma_distinct(names(packages), name);
        assert forall|i: int| 0 <= i < after.len() implies crate::format::unaudited_views(
            (#[trigger] after[i]).1@,
        ) == imported_as(all, after[i].0, criteria) by {
            lemma_one_more(packages, p, after[i].0, criteria);
            if i == before.len() {
                lemma_no_entries(packages, name, criteria);
                assert(imported_as(packages, name, criteria) == Seq::<
                    crate::format::UnauditedView,
                >::empty());
                assert(crate::format::unaudited_views(after[i].1@) == seq![item@]);
            } else {
                assert(after.drop_last()[i] == before[i]);
            }
        }
    }
}

/// The files of a fresh store. No audits and no imports; every package from crates.io is
/// accepted as it is, under the criteria `criteria`; `default_criteria` is what later reviews
/// vouch for.
pub fn init_files<T>(metadata: &Metadata, criteria: &str, default_criteria: &str) -> (r: (
    ConfigFile<T>,
    AuditsFile<T>,
    ImportsFile<T>,
))
    ensures
        r.0.default_criteria@ == default_criteria@,
        r.0.imports@.len() == 0,
        r.0.policy@.len() == 0,
        is_imported(r.0.unaudited@, foreign(metadata.packages@), criteria@),
        r.1.criteria@.len() == 0,
        r.1.audits@.len() == 0,
        r.2.audits@.len() == 0,
{
    let audits = AuditsFile { criteria: StableMap::new(), audits: StableMap::new() };
    let imports = ImportsFile { audits: StableMap::new() };
    let packages = foreign_packages(metadata);
    let ghost all = foreign(metadata.packages@);
    let mut unaudited: StableMap<String, Vec<UnauditedDependency>> = StableMap::new();
    let mut i: usize = 0;
    proof {
        assert(names(all.take(0)) == Seq::<Seq<char>>::empty());
        assert(stable_map::keys(unaudited@) == distinct(names(all.take(0))));
    }
    while i < packages.len()
        invariant
            i <= packages@.len(),
            referred(packages@) == all,
            is_imported(unaudited@, all.take(i as int), criteria@),
        decreases packages@.len() - i,
    {
        let package = packages[i];
        let ghost before = unaudited@;
        let item = UnauditedDependency {
            version: package.version.clone(),
            notes: Some("automatically imported by 'cargo vet init'".to_owned()),
            suggest: true,
            criteria: criteria.to_owned(),
        };
        proof {
            use_type_invariant(&unaudited);
        }
        unaudited.push_at(package.name.clone(), item);
        proof {
            assert(*package == all[i as int]);
            lemma_imported_step(
                before,
                unaudited@,
                all.take(i as int),
                *package,
                item,
                criteria@,
            );
            assert(all.take(i + 1) == all.take(i as int).push(*package));
        }
        i = i + 1;
    }
    assert(all.take(all.len() as int) == all);
    let config = ConfigFile {
        default_criteria: default_criteria.to_owned(),
        imports: StableMap::new(),
        unaudited,
        policy: StableMap::new(),
    };
    (config, audits, imports)
}

/// `entry` stands under `name`.
pub open spec fn has_entry(
    unaudited: Seq<(Seq<char>, Vec<UnauditedDependency>)>,
    name: Seq<char>,
    entry: crate::format::UnauditedView,
) -> bool {
    exists|i: int|
        0 <= i < unaudited.len() && (#[trigger] unaudited[i]).0 == name
            && crate::format::unaudited_views(unaudited[i].1@).contains(entry)
}

/// A fresh store leaves no package from crates.io out: each has an entry under its name, with
/// its version.
pub proof fn law_every_package_is_listed(
    unaudited: Seq<(Seq<char>, Vec<UnauditedDependency>)>,
    packages: Seq<Package>,
    criteria: Seq<char>,
    k: int,
)
    requires
        is_imported(unaudited, packages, criteria),
        0 <= k < packages.len(),
    ensures
        has_entry(unaudited, packages[k].name@, imported(packages[k], criteria)),
{
    let p = packages[k];
    let name = p.name@;
    assert(names(packages)[k] == name);
    lemma_distinct(names(packages), name);
    let keys = stable_map::keys(unaudited);
    let i = choose|i: int| 0 <= i < keys.len() && keys[i] == name;
    assert(unaudited[i].0 == name);
    let mine = named(packages, name);
    lemma_kept(packages, name, k);
    let j = choose|j: int| 0 <= j < mine.len() && mine[j] == p;
    assert(imported_as(packages, name, criteria)[j] == imported(p, criteria));
    assert(crate::format::unaudited_views(unaudited[i].1@).contains(imported(p, criteria)));
}

/// A fresh store lists nothing but packages from crates.io: every entry is that of a package
/// with the name that it stands under.
pub proof fn law_only_packages_are_listed(
    unaudited: Seq<(Seq<char>, Vec<UnauditedDependency>)>,
    packages: Seq<Package>,
    criteria: Seq<char>,
    i: int,
    j: int,
)
    requires
        is_imported(unaudited, packages, criteria),
        0 <= i < unaudited.len(),
        0 <= j < unaudited[i].1@.len(),
    ensures
        exists|p: Package| #[trigger]
            packages.contains(p) && p.name@ == unaudited[i].0 && unaudited[i].1@[j]@ == imported(
                p,
                criteria,
            ),
{
    let name = unaudited[i].0;
    let mine = named(packages, name);
    let views = crate::format::unaudited_views(unaudited[i].1@);
    assert(views == imported_as(packages, name, criteria));
    assert(views[j] == unaudited[i].1@[j]@);
    lemma_named(packages, name, j);
    assert(packages.contains(mine[j]));
}

/// A package called `name` is one of the packages, and is called so.
proof fn lemma_named(packages: Seq<Package>, name: Seq<char>, j: int)
    requires
        0 <= j < named(packages, name).len(),
    ensures
        packages.contains(named(packages, name)[j]),
        named(packages, name)[j].name@ == name,
    decreases packages.len(),
{
    reveal(Seq::filter);
    let rest = packages.drop_last();
    let mine = named(rest, name);
    if j < mine.len() {
        lemma_named(rest, name, j);
        let k = choose|k: int| 0 <= k < rest.len() && rest[k] == mine[j];
        assert(packages[k] == mine[j]);
        assert(named(packages, name)[j] == mine[j]);
    } else {
        assert(packages[packages.len() - 1] == packages.last());
    }
}

/// A package is among those that are called like it.
proof fn lemma_kept(packages: Seq<Package>, name: Seq<char>, k: int)
    requires
        0 <= k < packages.len(),
        packages[k].name@ == name,
    ensures
        named(packages, name).contains(packages[k]),
    decreases packages.len(),
{
    reveal(Seq::filter);
    let rest = packages.drop_last();
    let mine = named(rest, name);
    let all = named(packages, name);
    if k < rest.len() {
        lemma_kept(rest, name, k);
        let j = choose|j: int| 0 <= j < mine.len() && mine[j] == rest[k];
        assert(all[j] == packages[k]);
    } else {
        assert(all[mine.len() as int] == packages[k]);
    }
}

/// A package is third-party exactly where its source is the registry index of crates.io.
pub proof fn law_third_party_is_of_crates_io(package: &Package, r: bool)
    requires
        call_ensures(Package::is_third_party, (package,), r),
    ensures
        r == (package.source matches Some(s) && s@
            == "registry+https://github.com/rust-lang/crates.io-index"@),
{
}

/// The foreign packages are those whose source is the registry index of crates.io: all of them,
/// in order, and no others. `at` tells where each stands among all packages.
pub proof fn law_foreign_packages_are_those_of_crates_io(
    metadata: &Metadata,
    r: Vec<&Package>,
) -> (at: Seq<int>)
    requires
        call_ensures(foreign_packages, (metadata,), r),
    ensures
        sorted::picks(
            at,
            metadata.packages@.len() as int,
            |k: int|
                metadata.packages@[k].source matches Some(s) && s@
                    == "registry+https://github.com/rust-lang/crates.io-index"@,
        ),
        r@.len() == at.len(),
        forall|i: int| 0 <= i < at.len() ==> *(#[trigger] r@[i]) == metadata.packages@[at[i]],
{
    let pred = |p: Package| p.third_party();
    let all = metadata.packages@;
    let at = sorted::lemma_filter_picks(all, pred);
    assert(referred(r@) == all.filter(pred));
    let chosen = |k: int|
        all[k].source matches Some(s) && s@
            == "registry+https://github.com/rust-lang/crates.io-index"@;
    let by_pred = |k: int| pred(all[k]);
    assert forall|k: int| 0 <= k < all.len() && #[trigger] chosen(k) implies at.contains(k) by {
        assert(by_pred(k));
    }
    assert forall|i: int| 0 <= i < at.len() implies 0 <= #[trigger] at[i] < all.len() && chosen(
        at[i],
    ) by {
        assert(by_pred(at[i]));
    }
    assert forall|i: int| 0 <= i < at.len() implies *(#[trigger] r@[i]) == all[at[i]] by {
        assert(referred(r@)[i] == *r@[i]);
    }
    at
}

/// The packages called `name` stand at the places of the packages called so.
proof fn lemma_named_picks(packages: Seq<Package>, name: Seq<char>) -> (at: Seq<int>)
    ensures
        sorted::picks(at, packages.len() as int, |k: int| packages[k].name@ == name),
        named(packages, name).len() == at.len(),
        forall|i: int| 0 <= i < at.len() ==> #[trigger] named(packages, name)[i] == packages[at[i]],
    decreases packages.len(),
{
    reveal(Seq::filter);
    let chosen = |k: int| packages[k].name@ == name;
    if packages.len() == 0 {
        seq![]
    } else {
        let rest = packages.drop_last();
        let n = rest.len() as int;
        let before = lemma_named_picks(rest, name);
        let chosen_before = |k: int| rest[k].name@ == name;
        let at = if packages.last().name@ == name {
            before.push(n)
        } else {
            before
        };
        assert forall|k: int| 0 <= k < packages.len() && #[trigger] chosen(k) implies at.contains(
            k,
        ) by {
            if k < n {
                assert(chosen_before(k));
                let j = choose|j: int| 0 <= j < before.len() && before[j] == k;
                assert(at[j] == k);
            } else {
                assert(at[before.len() as int] == k);
            }
        }
        assert forall|i: int| 0 <= i < at.len() implies 0 <= #[trigger] at[i] < packages.len()
            && chosen(at[i]) by {
            if i < before.len() {
                assert(chosen_before(before[i]));
                assert(rest[before[i]] == packages[before[i]]);
            }
        }
        assert forall|i: int, j: int| 0 <= i < j < at.len() implies #[trigger] at[i]
            < #[trigger] at[j] by {
            if j == before.len() {
                assert(0 <= before[i] < n);
            }
        }
        assert forall|i: int| 0 <= i < at.len() implies #[trigger] named(packages, name)[i]
            == packages[at[i]] by {
            if i < before.len() {
                assert(named(rest, name)[i] == rest[before[i]]);
            }
        }
        at
    }
}

/// The entries of a fresh store under a name are those of the packages from crates.io with that
/// name: one for each, in order, with its version, and no others. `at` tells where the package
/// of each entry stands among all packages.
pub proof fn law_fresh_entries_are_the_packages<T>(
    metadata: &Metadata,
    criteria: &str,
    default_criteria: &str,
    r: (ConfigFile<T>, AuditsFile<T>, ImportsFile<T>),
    i: int,
) -> (at: Seq<int>)
    requires
        call_ensures(init_files::<T>, (metadata, criteria, default_criteria), r),
        0 <= i < r.0.unaudited@.len(),
    ensures
        sorted::picks(
            at,
            metadata.packages@.len() as int,
            |k: int|
                metadata.packages@[k].name@ == r.0.unaudited@[i].0 && (
                metadata.packages@[k].source matches Some(s) && s@
                    == "registry+https://github.com/rust-lang/crates.io-index"@),
        ),
        r.0.unaudited@[i].1@.len() == at.len(),
        at.len() > 0,
        forall|j: int|
            0 <= j < at.len() ==> {
                let entry = #[trigger] r.0.unaudited@[i].1@[j];
                &&& entry.version@ == metadata.packages@[at[j]].version@
                &&& entry.suggest
                &&& entry.criteria@ == criteria@
                &&& entry.notes matches Some(notes) && notes@
                    == "automatically imported by 'cargo vet init'"@
            },
{
    let all = metadata.packages@;
    let pred = |p: Package| p.third_party();
    let mine = foreign(all);
    let name = r.0.unaudited@[i].0;
    let outer = sorted::lemma_filter_picks(all, pred);
    let inner = lemma_named_picks(mine, name);
    assert(mine == all.filter(pred));
    let at = Seq::new(inner.len(), |j: int| outer[inner[j]]);
    let chosen = |k: int|
        metadata.packages@[k].name@ == r.0.unaudited@[i].0 && (
        metadata.packages@[k].source matches Some(s) && s@
            == "registry+https://github.com/rust-lang/crates.io-index"@);
    let by_outer = |k: int| pred(all[k]);
    let by_inner = |k: int| mine[k].name@ == name;
    assert forall|k: int| 0 <= k < all.len() && #[trigger] chosen(k) implies at.contains(k) by {
        assert(by_outer(k));
        let a = choose|a: int| 0 <= a < outer.len() && outer[a] == k;
        assert(mine[a] == all[k]);
        assert(by_inner(a));
        let b = choose|b: int| 0 <= b < inner.len() && inner[b] == a;
        assert(at[b] == k);
    }
    assert forall|j: int| 0 <= j < at.len() implies 0 <= #[trigger] at[j] < all.len() && chosen(
        at[j],
    ) by {
        assert(by_inner(inner[j]));
        assert(mine[inner[j]] == all[outer[inner[j]]]);
        assert(by_outer(outer[inner[j]]));
    }
    assert forall|a: int, b: int| 0 <= a < b < at.len() implies #[trigger] at[a] < #[trigger] at[b] by {
        assert(inner[a] < inner[b]);
        assert(outer[inner[a]] < outer[inner[b]]);
    }
    let list = r.0.unaudited@[i].1@;
    let views = crate::format::unaudited_views(list);
    assert(views == imported_as(mine, name, criteria@));
    assert(views.len() == list.len());
    assert forall|j: int| 0 <= j < at.len() implies {
        let entry = #[trigger] list[j];
        &&& entry.version@ == all[at[j]].version@
        &&& entry.suggest
        &&& entry.criteria@ == criteria@
        &&& entry.notes matches Some(notes) && notes@
            == "automatically imported by 'cargo vet init'"@
    } by {
        assert(views[j] == list[j]@);
        assert(views[j] == imported(named(mine, name)[j], criteria@));
        assert(named(mine, name)[j] == mine[inner[j]]);
        assert(mine[inner[j]] == all[outer[inner[j]]]);
    }
    // Some package has the name.
    let keys = stable_map::keys(r.0.unaudited@);
    assert(keys[i] == name);
    lemma_distinct(names(mine), name);
    assert(distinct(names(mine)).contains(name));
    let k = choose|k: int| 0 <= k < names(mine).len() && names(mine)[k] == name;
    assert(by_inner(k));
    assert(inner.contains(k));
    at
}

/// Every package from crates.io has an entry in a fresh store, under its name and with its
/// version.
pub proof fn law_fresh_store_has_every_version<T>(
    metadata: &Metadata,
    criteria: &str,
    default_criteria: &str,
    r: (ConfigFile<T>, AuditsFile<T>, ImportsFile<T>),
    k: int,
)
    requires
        call_ensures(init_files::<T>, (metadata, criteria, default_criteria), r),
        0 <= k < metadata.packages@.len(),
        metadata.packages@[k].source matches Some(s) && s@
            == "registry+https://github.com/rust-lang/crates.io-index"@,
    ensures
        exists|i: int, j: int|
            0 <= i < r.0.unaudited@.len() && 0 <= j < r.0.unaudited@[i].1@.len()
                && r.0.unaudited@[i].0 == metadata.packages@[k].name@ && (
            #[trigger] r.0.unaudited@[i].1@[j]).version@ == metadata.packages@[k].version@,
{
    let all = metadata.packages@;
    let name = all[k].name@;
    let pred = |p: Package| p.third_party();
    let mine = foreign(all);
    let outer = sorted::lemma_filter_picks(all, pred);
    let by_outer = |k: int| pred(all[k]);
    assert(by_outer(k));
    let a = choose|a: int| 0 <= a < outer.len() && outer[a] == k;
    assert(mine[a] == all[k]);
    assert(names(mine)[a] == name);
    lemma_distinct(names(mine), name);
    let keys = stable_map::keys(r.0.unaudited@);
    let i = choose|i: int| 0 <= i < keys.len() && keys[i] == name;
    assert(r.0.unaudited@[i].0 == name);
    let at = law_fresh_entries_are_the_packages(metadata, criteria, default_criteria, r, i);
    let chosen = |k: int|
        all[k].name@ == r.0.unaudited@[i].0 && (all[k].source matches Some(s) && s@
            == "registry+https://github.com/rust-lang/crates.io-index"@);
    assert(chosen(k));
    let j = choose|j: int| 0 <= j < at.len() && at[j] == k;
    assert(r.0.unaudited@[i].1@[j].version@ == all[k].version@);
}

/// A fresh store holds no audits, no imports and no policies, and its default criteria are those
/// that were asked for.
pub proof fn law_fresh_store_holds_nothing_else<T>(
    metadata: &Metadata,
    criteria: &str,
    default_criteria: &str,
    r: (ConfigFile<T>, AuditsFile<T>, ImportsFile<T>),
    i: int,
    j: int,
)
    requires
        call_ensures(init_files::<T>, (metadata, criteria, default_criteria), r),
    ensures
        r.0.default_criteria@ == default_criteria@,
        r.0.imports@.len() == 0,
        r.0.policy@.len() == 0,
        r.1.criteria@.len() == 0,
        r.1.audits@.len() == 0,
        r.2.audits@.len() == 0,
        0 <= i < j < r.0.unaudited@.len() ==> r.0.unaudited@[i].0 != r.0.unaudited@[j].0,
{
    let packages = foreign(metadata.packages@);
    let keys = stable_map::keys(r.0.unaudited@);
    lemma_distinct_once(names(packages));
    if 0 <= i < j < r.0.unaudited@.len() {
        assert(keys[i] == r.0.unaudited@[i].0 && keys[j] == r.0.unaudited@[j].0);
    }
}

/// The different items are different.
proof fn lemma_distinct_once<A>(s: Seq<A>)
    ensures
        distinct(s).no_duplicates(),
    decreases s.len(),
{
    if s.len() > 0 {
        let d = distinct(s.drop_last());
        lemma_distinct_once(s.drop_last());
        if !d.contains(s.last()) {
            assert forall|i: int, j: int|
                0 <= i < distinct(s).len() && 0 <= j < distinct(s).len() && i != j implies distinct(
                s,
            )[i] != distinct(s)[j] by {
                if i == d.len() {
                    assert(d.contains(d[j]));
                } else if j == d.len() {
                    assert(d.contains(d[i]));
                }
            }
        }
    }
}

} // verus!
