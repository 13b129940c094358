//! The cache of package sources and diffstats.
use crate::cli::Cli;
use crate::diff_cache;
use crate::diff_cache::CacheView;
use crate::format::{Delta, DeltaView, DiffCache, DiffStat, DiffStatView};
use crate::metaconfig::MetaConfig;
use crate::metadata::Metadata;
use crate::place::{Place, PlaceView, Root};
use crate::registry::RegistryError;
use crate::sorted;
use crate::stable_map;
use crate::stable_map::{MapKey, StableMap};
use crate::store;
use crate::store::ReadFile;
use crate::version;
use crate::version::{Version, VersionView};
use vstd::prelude::*;
use vstd::string::*;

verus! {

/// Everything that the commands go by.
pub struct Config {
    pub metacfg: MetaConfig,
    pub metadata: Metadata,
    pub cli: Cli,
    /// Whether the directory of cargo's package sources is known. Where it is not, nothing is
    /// read from or written to disk: this is a trial.
    pub registry_src: bool,
}

/// What a cache is.
#[verifier::ext_equal]
pub struct CacheModel {
    /// Whether the lock on the cache is held.
    pub locked: bool,
    pub root: Option<PlaceView>,
    pub cargo_registry: Option<PlaceView>,
    pub diff_cache_path: Option<PlaceView>,
    pub diff_cache: CacheView,
}

/// The package sources that were fetched, and the diffstats that are known.
pub struct Cache {
    lock: Option<()>,
    root: Option<Place>,
    cargo_registry: Option<Place>,
    diff_cache_path: Option<Place>,
    diff_cache: DiffCache,
}

/// The view of a place that may be missing.
pub open spec fn opt_place(p: Option<Place>) -> Option<PlaceView> {
    match p {
        Some(q) => Some(q@),
        None => None,
    }
}

impl View for Cache {
    type V = CacheModel;

    closed spec fn view(&self) -> CacheModel {
        CacheModel {
            locked: self.lock is Some,
            root: opt_place(self.root),
            cargo_registry: opt_place(self.cargo_registry),
            diff_cache_path: opt_place(self.diff_cache_path),
            diff_cache: diff_cache::cache_view(self.diff_cache@),
        }
    }
}

/// The place called `name` below `p`.
pub open spec fn below(p: PlaceView, name: Seq<char>) -> PlaceView {
    PlaceView { root: p.root, path: p.path.push(name) }
}

/// The directory for temporary files.
pub open spec fn temp_view() -> PlaceView {
    PlaceView { root: Root::Temp, path: seq![] }
}

/// The directory of the cargo registry.
pub open spec fn registry_view() -> PlaceView {
    PlaceView { root: Root::Registry, path: seq![] }
}

/// Where the diff cache lies.
pub open spec fn diff_cache_view(cli: Cli) -> PlaceView {
    if cli.diff_cache {
        PlaceView { root: Root::DiffCache, path: seq![] }
    } else {
        below(temp_view(), "diff-cache.toml"@)
    }
}

/// The cache of a trial: it has no place on disk.
pub open spec fn trial_cache() -> CacheModel {
    CacheModel {
        locked: false,
        root: None,
        cargo_registry: None,
        diff_cache_path: None,
        diff_cache: seq![],
    }
}

/// Where the diff cache lies: in the file that was named, or else among the temporary files.
pub fn diff_cache_place(cli: &Cli) -> (r: Place)
    ensures
        r@ == diff_cache_view(*cli),
{
    if cli.diff_cache {
        Place::at(Root::DiffCache)
    } else {
        Place::at(Root::Temp).join("diff-cache.toml".to_owned())
    }
}

/// The directories that the cache needs, in the order in which they are made.
pub fn cache_dirs() -> (r: Vec<Place>)
    ensures
        r@.map_values(|p: Place| p@) == seq![
            temp_view(),
            below(temp_view(), "empty"@),
            below(temp_view(), "packages"@),
        ],
{
    let mut v: Vec<Place> = Vec::new();
    v.push(Place::at(Root::Temp));
    v.push(Place::at(Root::Temp).join("empty".to_owned()));
    v.push(Place::at(Root::Temp).join("packages".to_owned()));
    assert(v@.map_values(|p: Place| p@) == seq![
        temp_view(),
        below(temp_view(), "empty"@),
        below(temp_view(), "packages"@),
    ]);
    v
}

/// The diffstats in a diff cache that was read; none where it could not be.
pub open spec fn read_stats(read: ReadFile<DiffCache>) -> CacheView {
    match store::tables_of(read) {
        Ok(cache) => diff_cache::cache_view(cache@),
        Err(_) => seq![],
    }
}

impl Cache {
    /// Sets up the cache. `dirs` tells whether its directories could be made, `read` what came
    /// of reading the diff cache, and `registry` whether cargo's package sources were found; a
    /// diff cache that could not be read is begun anew, and the registry can be missing. In a
    /// trial none of them is looked at.
    pub fn acquire(
        cfg: &Config,
        dirs: Result<(), String>,
        read: ReadFile<DiffCache>,
        registry: &Result<usize, RegistryError>,
    ) -> (r: Result<Cache, String>)
        ensures
            !cfg.registry_src ==> (r matches Ok(c) && c@ == trial_cache()),
            cfg.registry_src && dirs is Err ==> r == Err::<Cache, String>(dirs->Err_0),
            cfg.registry_src && dirs is Ok ==> (r matches Ok(c) && c@ == (CacheModel {
                locked: true,
                root: Some(temp_view()),
                cargo_registry: if registry is Ok {
                    Some(registry_view())
                } else {
                    None
                },
                diff_cache_path: Some(diff_cache_view(cfg.cli)),
                diff_cache: read_stats(read),
            })),
    {
        if !cfg.registry_src {
            let diff_cache: DiffCache = StableMap::new();
            assert(diff_cache::cache_view(diff_cache@) == trial_cache().diff_cache);
            return Ok(
                Cache {
                    lock: None,
                    root: None,
                    cargo_registry: None,
                    diff_cache_path: None,
                    diff_cache,
                },
            );
        }
        match dirs {
            Err(e) => return Err(e),
            Ok(_) => {},
        }
        let diff_cache: DiffCache = match store::load_diff_cache(read) {
            Ok(cache) => cache,
            Err(_) => StableMap::new(),
        };
        assert(diff_cache::cache_view(diff_cache@) == read_stats(read));
        let cargo_registry = match registry {
            Ok(_) => Some(Place::at(Root::Registry)),
            Err(_) => None,
        };
        Ok(
            Cache {
                lock: Some(()),
                root: Some(Place::at(Root::Temp)),
                cargo_registry,
                diff_cache_path: Some(diff_cache_place(&cfg.cli)),
                diff_cache,
            },
        )
    }

    /// Hands out what is written back when the cache is given up: the diff cache, and where it
    /// goes. A trial writes nothing.
    pub fn write_back(&mut self) -> (r: Option<(Place, DiffCache)>)
        ensures
            r is Some == old(self)@.diff_cache_path is Some,
            r matches Some(p) ==> {
                &&& Some(p.0@) == old(self)@.diff_cache_path
                &&& diff_cache::cache_view(p.1@) == old(self)@.diff_cache
                &&& final(self)@ == (CacheModel { diff_cache: seq![], ..old(self)@ })
            },
            r is None ==> *final(self) == *old(self),
    {
        match &self.diff_cache_path {
            Some(path) => {
                let place = path.clone();
                let mut cache: DiffCache = StableMap::new();
                assert(diff_cache::cache_view(cache@) == Seq::<
                    (Seq<char>, Seq<(DeltaView, DiffStatView)>),
                >::empty());
                std::mem::swap(&mut self.diff_cache, &mut cache);
                Some((place, cache))
            },
            None => None,
        }
    }
}

impl Cache {
    /// Looks up the diffstat of a delta of a package.
    pub fn known_stat(&self, package: &str, delta: &Delta) -> (r: Option<DiffStat>)
        ensures
            diff_cache::is_cache(self@.diff_cache, package@),
            (match r {
                Some(stat) => Some(stat@),
                None => None,
            }) == diff_cache::known(self@.diff_cache, package@, delta@),
    {
        diff_cache::known_stat(&self.diff_cache, package, delta)
    }

    /// Adds the diffstat of a delta of a package.
    pub fn learn_stat(&mut self, package: &str, delta: &Delta, stat: &DiffStat)
        ensures
            final(self)@ == (CacheModel {
                diff_cache: diff_cache::learned(
                    old(self)@.diff_cache,
                    package@,
                    delta@,
                    stat@,
                ),
                ..old(self)@
            }),
    {
        diff_cache::learn_stat(&mut self.diff_cache, package, delta, stat)
    }
}

/// What names a package at a version.
#[verifier::ext_equal]
pub struct PackageIdView {
    pub name: Seq<char>,
    pub version: VersionView,
}

/// A package at a version.
pub struct PackageId {
    pub name: String,
    pub version: Version,
}

impl View for PackageId {
    type V = PackageIdView;

    open spec fn view(&self) -> PackageIdView {
        PackageIdView { name: self.name@, version: self.version@ }
    }
}

impl MapKey for PackageId {
    fn same_key(&self, other: &PackageId) -> (r: bool) {
        self.name == other.name && self.version.same(&other.version)
    }
}

impl Clone for PackageId {
    fn clone(&self) -> (r: PackageId)
        ensures
            r@ == self@,
    {
        PackageId { name: self.name.clone(), version: self.version.clone() }
    }
}

/// What was found of a package on disk.
#[derive(Clone, Copy)]
pub struct Probe {
    /// It was unpacked in the cargo registry.
    pub in_registry: bool,
    /// It was unpacked among the temporary files.
    pub in_temp: bool,
}

/// The places of the packages that were asked for.
pub type Fetched = StableMap<PackageId, Place>;

/// The places of the packages that were asked for.
pub open spec fn fetched_view(s: Seq<(PackageIdView, Place)>) -> Seq<(PackageIdView, PlaceView)> {
    stable_map::mapped(s, |p: Place| p@)
}

/// A package that is to be downloaded, and where to.
pub struct Download {
    pub id: PackageId,
    pub to: Place,
}

/// The views of a list of downloads.
pub open spec fn download_views(s: Seq<Download>) -> Seq<(PackageIdView, PlaceView)> {
    s.map_values(|d: Download| (d.id@, d.to@))
}

/// Where the packages that were asked for are, or will be once the downloads are done.
pub struct FetchPlan {
    pub paths: Fetched,
    pub downloads: Vec<Download>,
}

/// The name of the directory that a package is unpacked to.
pub open spec fn dir_name_text(id: PackageIdView) -> Seq<char> {
    id.name + "-"@ + id.version.text()
}

/// The name of the directory that a package is unpacked to.
pub fn dir_name(id: &PackageId) -> (r: String)
    ensures
        r@ == dir_name_text(id@),
{
    let mut s = id.name.clone();
    s.append("-");
    let v = id.version.to_text();
    s.append(v.as_str());
    s
}

/// The address that a package is downloaded from.
pub fn download_url(id: &PackageId) -> (r: String)
    ensures
        r@ == "https://crates.io/api/v1/crates/"@ + id@.name + "/"@ + id@.version.text()
            + "/download"@,
{
    let mut s = "https://crates.io/api/v1/crates/".to_owned();
    s.append(id.name.as_str());
    s.append("/");
    let v = id.version.to_text();
    s.append(v.as_str());
    s.append("/download");
    s
}

/// The place of a package: that of the empty package for the root version, else the one in the
/// cargo registry if it was unpacked there, else one among the temporary files.
pub open spec fn place_of(
    root: PlaceView,
    registry: Option<PlaceView>,
    id: PackageIdView,
    probe: Probe,
) -> PlaceView {
    if id.version == version::root_view() {
        below(root, "empty"@)
    } else if registry is Some && probe.in_registry {
        below(registry->0, dir_name_text(id))
    } else {
        below(below(root, "packages"@), dir_name_text(id))
    }
}

/// Nothing was unpacked in the place of the package yet.
pub open spec fn is_missing(
    registry: Option<PlaceView>,
    id: PackageIdView,
    probe: Probe,
) -> bool {
    &&& id.version != version::root_view()
    &&& !(registry is Some && probe.in_registry)
    &&& !probe.in_temp
}

/// The places of the first `n` packages.
pub open spec fn paths_of(
    root: PlaceView,
    registry: Option<PlaceView>,
    packages: Seq<PackageId>,
    probes: Seq<Probe>,
    n: nat,
) -> Seq<(PackageIdView, PlaceView)>
    decreases n,
{
    if n == 0 {
        seq![]
    } else {
        let i = (n - 1) as int;
        stable_map::inserted(
            paths_of(root, registry, packages, probes, i as nat),
            packages[i]@,
            place_of(root, registry, packages[i]@, probes[i]),
        )
    }
}

/// The downloads for the first `n` packages, in order.
pub open spec fn downloads_of(
    root: PlaceView,
    registry: Option<PlaceView>,
    packages: Seq<PackageId>,
    probes: Seq<Probe>,
    n: nat,
) -> Seq<(PackageIdView, PlaceView)>
    decreases n,
{
    if n == 0 {
        seq![]
    } else {
        let i = (n - 1) as int;
        let before = downloads_of(root, registry, packages, probes, i as nat);
        if is_missing(registry, packages[i]@, probes[i]) {
            before.push((packages[i]@, place_of(root, registry, packages[i]@, probes[i])))
        } else {
            before
        }
    }
}

impl Cache {
    /// Where a package would be found in the cargo registry, if there is one.
    pub fn registry_place(&self, id: &PackageId) -> (r: Option<Place>)
        ensures
            r is Some == self@.cargo_registry is Some,
            r matches Some(p) ==> p@ == below(self@.cargo_registry->0, dir_name_text(id@)),
    {
        match &self.cargo_registry {
            Some(registry) => Some(registry.clone().join(dir_name(id))),
            None => None,
        }
    }

    /// Where a package would be found among the temporary files, unless this is a trial.
    pub fn temp_place(&self, id: &PackageId) -> (r: Option<Place>)
        ensures
            r is Some == self@.root is Some,
            r matches Some(p) ==> p@ == below(
                below(self@.root->0, "packages"@),
                dir_name_text(id@),
            ),
    {
        match &self.root {
            Some(root) => Some(root.clone().join("packages".to_owned()).join(dir_name(id))),
            None => None,
        }
    }

    /// Finds where packages are, and which of them have to be downloaded first, from what was
    /// found of each on disk. A trial finds nothing.
    pub fn fetch_packages(&self, packages: &Vec<PackageId>, probes: &Vec<Probe>) -> (r: FetchPlan)
        requires
            self@.root is Some ==> probes@.len() == packages@.len(),
        ensures
            self@.root is None ==> r.paths@.len() == 0 && r.downloads@.len() == 0,
            self@.root matches Some(root) ==> {
                &&& fetched_view(r.paths@) == paths_of(
                    root,
                    self@.cargo_registry,
                    packages@,
                    probes@,
                    packages@.len(),
                )
                &&& download_views(r.downloads@) == downloads_of(
                    root,
                    self@.cargo_registry,
                    packages@,
                    probes@,
                    packages@.len(),
                )
            },
    {
        let mut paths: Fetched = StableMap::new();
        let mut downloads: Vec<Download> = Vec::new();
        let root = match &self.root {
            Some(root) => root,
            None => return FetchPlan { paths, downloads },
        };
        let empty = version::root_version();
        let ghost reg = self@.cargo_registry;
        let mut i: usize = 0;
        proof {
            assert(fetched_view(paths@) == paths_of(root@, reg, packages@, probes@, 0));
            assert(download_views(downloads@) == downloads_of(root@, reg, packages@, probes@, 0));
        }
        while i < packages.len()
            invariant
                i <= packages@.len(),
                probes@.len() == packages@.len(),
                self@.root == Some(root@),
                empty@ == version::root_view(),
                reg == self@.cargo_registry,
                reg == opt_place(self.cargo_registry),
                fetched_view(paths@) == paths_of(root@, reg, packages@, probes@, i as nat),
                download_views(downloads@) == downloads_of(
                    root@,
                    reg,
                    packages@,
                    probes@,
                    i as nat,
                ),
            decreases packages@.len() - i,
        {
            let id = &packages[i];
            let ghost downloads0 = downloads@;
            let ghost paths0 = paths@;
            let place = if id.version.same(&empty) {
                root.clone().join("empty".to_owned())
            } else if self.cargo_registry.is_some() && probes[i].in_registry {
                self.registry_place(id).unwrap()
            } else {
                let to = self.temp_place(id).unwrap();
                if !probes[i].in_temp {
                    downloads.push(Download { id: id.clone(), to: to.clone() });
                }
                to
            };
            proof {
                assert(place@ == place_of(root@, reg, id@, probes@[i as int]));
                if is_missing(reg, id@, probes@[i as int]) {
                    assert(download_views(downloads@) == download_views(downloads0).push(
                        (id@, place@),
                    ));
                }
                use_type_invariant(&paths);
                stable_map::lemma_mapped_inserted(paths0, |p: Place| p@, id@, place);
            }
            paths.insert(id.clone(), place);
            i = i + 1;
        }
        FetchPlan { paths, downloads }
    }
}

/// Looks up where a package is.
pub fn fetched_place(fetched: &Fetched, id: &PackageId) -> (r: Option<Place>)
    ensures
        r is Some == stable_map::has_key(fetched_view(fetched@), id@),
        r matches Some(p) ==> p@ == stable_map::value_of(fetched_view(fetched@), id@),
{
    proof {
        use_type_invariant(fetched);
        stable_map::lemma_mapped(fetched@, |p: Place| p@, id@);
    }
    match fetched.get(id) {
        Some(p) => Some(p.clone()),
        None => None,
    }
}

/// No package occurs twice among the places.
proof fn lemma_paths_unique(
    root: PlaceView,
    registry: Option<PlaceView>,
    packages: Seq<PackageId>,
    probes: Seq<Probe>,
    n: nat,
)
    ensures
        stable_map::unique_keys(paths_of(root, registry, packages, probes, n)),
    decreases n,
{
    if n > 0 {
        let i = (n - 1) as int;
        lemma_paths_unique(root, registry, packages, probes, i as nat);
        stable_map::lemma_inserted(
            paths_of(root, registry, packages, probes, i as nat),
            packages[i]@,
            place_of(root, registry, packages[i]@, probes[i]),
            packages[i]@,
        );
    }
}

/// Every package that is asked for gets a place, and the place is right: something was unpacked
/// there, or it is the place of the empty package, or the package is downloaded to it.
pub proof fn law_places_are_right(
    root: PlaceView,
    registry: Option<PlaceView>,
    packages: Seq<PackageId>,
    probes: Seq<Probe>,
    n: nat,
    k: int,
)
    requires
        probes.len() == packages.len(),
        n <= packages.len(),
        0 <= k < n,
        // The same package is found alike each time.
        forall|i: int, j: int|
            0 <= i < packages.len() && 0 <= j < packages.len() && (#[trigger] packages[i])@ == (
            #[trigger] packages[j])@ ==> probes[i] == probes[j],
    ensures
        stable_map::has_key(paths_of(root, registry, packages, probes, n), packages[k]@),
        stable_map::value_of(paths_of(root, registry, packages, probes, n), packages[k]@)
            == place_of(root, registry, packages[k]@, probes[k]),
        is_missing(registry, packages[k]@, probes[k]) == downloads_of(
            root,
            registry,
            packages,
            probes,
            n,
        ).contains((packages[k]@, place_of(root, registry, packages[k]@, probes[k]))),
    decreases n,
{
    let i = (n - 1) as int;
    let before = paths_of(root, registry, packages, probes, i as nat);
    lemma_paths_unique(root, registry, packages, probes, i as nat);
    stable_map::lemma_inserted(
        before,
        packages[i]@,
        place_of(root, registry, packages[i]@, probes[i]),
        packages[k]@,
    );
    let d0 = downloads_of(root, registry, packages, probes, i as nat);
    let d = downloads_of(root, registry, packages, probes, n);
    let item = (packages[k]@, place_of(root, registry, packages[k]@, probes[k]));
    lemma_downloads_missing(root, registry, packages, probes, n);
    if k < i {
        law_places_are_right(root, registry, packages, probes, i as nat, k);
    }
    if packages[k]@ == packages[i]@ {
        assert(probes[k] == probes[i]);
    }
    if is_missing(registry, packages[k]@, probes[k]) {
        if k == i {
            assert(d[d.len() - 1] == item);
        } else {
            let j = choose|j: int| 0 <= j < d0.len() && d0[j] == item;
            assert(d[j] == item);
        }
    } else if d.contains(item) {
        let j = choose|j: int| 0 <= j < d.len() && d[j] == item;
        let m = choose|m: int|
            0 <= m < n && (#[trigger] packages[m])@ == d[j].0 && is_missing(
                registry,
                packages[m]@,
                probes[m],
            );
        assert(probes[m] == probes[k]);
    }
}

/// Only what is missing is downloaded.
proof fn lemma_downloads_missing(
    root: PlaceView,
    registry: Option<PlaceView>,
    packages: Seq<PackageId>,
    probes: Seq<Probe>,
    n: nat,
)
    requires
        n <= packages.len(),
    ensures
        forall|j: int|
            0 <= j < downloads_of(root, registry, packages, probes, n).len() ==> exists|m: int|
                0 <= m < n && (#[trigger] packages[m])@ == (#[trigger] downloads_of(
                    root,
                    registry,
                    packages,
                    probes,
                    n,
                )[j]).0 && is_missing(registry, packages[m]@, probes[m]),
    decreases n,
{
    if n > 0 {
        let i = (n - 1) as int;
        lemma_downloads_missing(root, registry, packages, probes, i as nat);
        let d0 = downloads_of(root, registry, packages, probes, i as nat);
        let d = downloads_of(root, registry, packages, probes, n);
        assert forall|j: int| 0 <= j < d.len() implies exists|m: int|
            0 <= m < n && (#[trigger] packages[m])@ == (#[trigger] d[j]).0 && is_missing(
                registry,
                packages[m]@,
                probes[m],
            ) by {
            if j < d0.len() {
                assert(d[j] == d0[j]);
                let m = choose|m: int|
                    0 <= m < i && (#[trigger] packages[m])@ == d0[j].0 && is_missing(
                        registry,
                        packages[m]@,
                        probes[m],
                    );
                assert(packages[m]@ == d[j].0);
            } else {
                assert(packages[i]@ == d[j].0);
            }
        }
    }
}

/// Every package that is asked for gets a place.
pub proof fn law_every_package_has_a_place(
    root: PlaceView,
    registry: Option<PlaceView>,
    packages: Seq<PackageId>,
    probes: Seq<Probe>,
    n: nat,
    k: int,
)
    requires
        n <= packages.len(),
        0 <= k < n,
    ensures
        stable_map::has_key(paths_of(root, registry, packages, probes, n), packages[k]@),
    decreases n,
{
    let i = (n - 1) as int;
    lemma_paths_unique(root, registry, packages, probes, i as nat);
    stable_map::lemma_inserted(
        paths_of(root, registry, packages, probes, i as nat),
        packages[i]@,
        place_of(root, registry, packages[i]@, probes[i]),
        packages[k]@,
    );
    if k < i {
        law_every_package_has_a_place(root, registry, packages, probes, i as nat, k);
    }
}

/// The first `n` downloads were done.
pub open spec fn all_done<E>(done: Seq<Result<(), E>>, n: int) -> bool {
    forall|i: int| 0 <= i < n ==> (#[trigger] done[i]) is Ok
}

/// There is an outcome for every download up to the first that failed.
pub open spec fn enough_outcomes<E>(done: Seq<Result<(), E>>, n: int) -> bool {
    forall|i: int| 0 <= i < n && #[trigger] all_done(done, i) ==> i < done.len()
}

/// Which of `n` downloads comes next, given what came of those before: none once one failed.
pub open spec fn next_of<E>(done: Seq<Result<(), E>>, n: int) -> Option<int> {
    if all_done(done, done.len() as int) && done.len() < n {
        Some(done.len() as int)
    } else {
        None
    }
}

/// The outcomes are those of downloads made one after the other, in order: none was made after
/// one that failed.
pub open spec fn stopped_in_time<E>(done: Seq<Result<(), E>>, n: int) -> bool {
    done.len() <= n && all_done(done, done.len() - 1)
}

/// Finds which download of a plan comes next, given what came of those before. Once one failed,
/// nothing more is downloaded.
pub fn next_download<E>(plan: &FetchPlan, done: &Vec<Result<(), E>>) -> (r: Option<usize>)
    ensures
        (match r {
            Some(i) => Some(i as int),
            None => None,
        }) == next_of(done@, plan.downloads@.len() as int),
{
    if done.len() >= plan.downloads.len() {
        return None;
    }
    let mut i: usize = 0;
    while i < done.len()
        invariant
            i <= done@.len(),
            all_done(done@, i as int),
        decreases done@.len() - i,
    {
        match &done[i] {
            Ok(_) => {},
            Err(_) => {
                assert(!all_done(done@, done@.len() as int));
                return None;
            },
        }
        i = i + 1;
    }
    Some(i)
}

/// Ends a fetch, given what came of its downloads in order: the places of the packages, or the
/// error of the first download that failed.
pub fn finish_fetch<E>(plan: FetchPlan, done: Vec<Result<(), E>>) -> (r: Result<Fetched, E>)
    requires
        enough_outcomes(done@, plan.downloads@.len() as int),
    ensures
        r is Ok == all_done(done@, plan.downloads@.len() as int),
        r matches Ok(fetched) ==> fetched == plan.paths,
        r matches Err(e) ==> exists|i: int|
            0 <= i < plan.downloads@.len() && #[trigger] all_done(done@, i) && done@[i] == Err::<
                (),
                E,
            >(e),
{
    let ghost all = done@;
    let n: usize = plan.downloads.len();
    let mut rest = done;
    let mut i: usize = 0;
    assert(all.skip(0) == all);
    while i < n
        invariant
            i <= n,
            n == plan.downloads@.len(),
            all == done@,
            enough_outcomes(all, n as int),
            all_done(all, i as int),
            i <= all.len(),
            rest@ == all.skip(i as int),
        decreases n - i,
    {
        assert(i < all.len());
        let outcome = rest.remove(0);
        assert(outcome == all[i as int]);
        assert(rest@ == all.skip(i + 1));
        match outcome {
            Ok(_) => {},
            Err(e) => return Err(e),
        }
        i = i + 1;
    }
    Ok(plan.paths)
}

/// Whoever makes the downloads as they come next makes none after one that failed, and in the
/// end has an outcome for every download up to that one.
pub proof fn law_failed_download_ends_the_fetch<E>(
    done: Seq<Result<(), E>>,
    n: int,
    outcome: Result<(), E>,
)
    requires
        stopped_in_time(done, n),
    ensures
        next_of(done, n) is Some ==> next_of(done, n) == Some(done.len() as int)
            && stopped_in_time(done.push(outcome), n),
        next_of(done, n) is None ==> enough_outcomes(done, n),
        forall|i: int| 0 <= i < done.len() && (#[trigger] done[i]) is Err ==> i == done.len() - 1,
        outcome is Err ==> next_of(done.push(outcome), n) is None,
{
    let more = done.push(outcome);
    assert(more[done.len() as int] == outcome);
    assert forall|i: int| 0 <= i < n && #[trigger] all_done(done, i) && next_of(done, n) is None implies i
        < done.len() by {
        if i >= done.len() {
            assert(all_done(done, done.len() as int));
        }
    }
    if all_done(done, done.len() as int) {
        assert forall|i: int| 0 <= i < more.len() - 1 implies (#[trigger] more[i]) is Ok by {
            assert(more[i] == done[i]);
        }
    }
}

/// Every package gets its own place. The version 0.0.0, and no other, stands for the empty
/// package and is never downloaded. Any other version lies in a directory called after the name
/// and the whole version: in the registry where it was unpacked there, and else among the
/// temporary files; and it is downloaded to that directory exactly where it was unpacked in
/// neither.
pub proof fn law_place_of_a_package(
    cache: &Cache,
    packages: &Vec<PackageId>,
    probes: &Vec<Probe>,
    plan: FetchPlan,
    root: PlaceView,
    k: int,
)
    requires
        call_ensures(Cache::fetch_packages, (cache, packages, probes), plan),
        cache@.root == Some(root),
        probes@.len() == packages@.len(),
        0 <= k < packages@.len(),
        // The same package is found alike each time.
        forall|i: int, j: int|
            0 <= i < packages@.len() && 0 <= j < packages@.len() && (#[trigger] packages@[i])@ == (
            #[trigger] packages@[j])@ ==> probes@[i] == probes@[j],
    ensures
        ({
            let name = packages@[k].name@;
            let version = packages@[k].version@;
            let is_empty = version.major == 0 && version.minor == 0 && version.patch == 0
                && version.pre.len() == 0 && version.build.len() == 0;
            let in_registry = cache@.cargo_registry is Some && probes@[k].in_registry;
            let dir = name + "-"@ + version.text();
            let id = packages@[k]@;
            let place = stable_map::value_of(fetched_view(plan.paths@), id);
            let is_downloaded = exists|d: int|
                0 <= d < plan.downloads@.len() && (#[trigger] plan.downloads@[d]).id@ == id
                    && plan.downloads@[d].to@ == place;
            &&& stable_map::has_key(fetched_view(plan.paths@), id)
            &&& is_empty ==> place.root == root.root && place.path == root.path.push("empty"@)
            &&& !is_empty && in_registry ==> place.root == cache@.cargo_registry->0.root
                && place.path == cache@.cargo_registry->0.path.push(dir)
            &&& !is_empty && !in_registry ==> place.root == root.root && place.path
                == root.path.push("packages"@).push(dir)
            &&& is_downloaded == (!is_empty && !in_registry && !probes@[k].in_temp)
        }),
{
    let n = packages@.len();
    let reg = cache@.cargo_registry;
    let id = packages@[k]@;
    law_places_are_right(root, reg, packages@, probes@, n, k);
    let place = place_of(root, reg, id, probes@[k]);
    let list = download_views(plan.downloads@);
    let v = id.version;
    if v.major == 0 && v.minor == 0 && v.patch == 0 && v.pre.len() == 0 && v.build.len() == 0 {
        assert(v == version::root_view());
    }
    if is_missing(reg, id, probes@[k]) {
        let d = choose|d: int| 0 <= d < list.len() && list[d] == (id, place);
        assert(plan.downloads@[d].id@ == id && plan.downloads@[d].to@ == place);
    }
    if exists|d: int|
        0 <= d < plan.downloads@.len() && (#[trigger] plan.downloads@[d]).id@ == id
            && plan.downloads@[d].to@ == place {
        let d = choose|d: int|
            0 <= d < plan.downloads@.len() && (#[trigger] plan.downloads@[d]).id@ == id
                && plan.downloads@[d].to@ == place;
        assert(list[d] == (id, place));
        assert(list.contains((id, place)));
    }
}

/// The downloads are those of the packages that are missing, each as often as it was asked for,
/// in the order in which they were asked for, and to a directory called after the package. `at`
/// tells which package each download is for.
pub proof fn law_downloads_are_what_is_missing(
    cache: &Cache,
    packages: &Vec<PackageId>,
    probes: &Vec<Probe>,
    plan: FetchPlan,
    root: PlaceView,
) -> (at: Seq<int>)
    requires
        call_ensures(Cache::fetch_packages, (cache, packages, probes), plan),
        cache@.root == Some(root),
        probes@.len() == packages@.len(),
    ensures
        sorted::picks(
            at,
            packages@.len() as int,
            |k: int|
                {
                    let v = packages@[k].version@;
                    !(v.major == 0 && v.minor == 0 && v.patch == 0 && v.pre.len() == 0
                        && v.build.len() == 0) && !(cache@.cargo_registry is Some
                        && probes@[k].in_registry) && !probes@[k].in_temp
                },
        ),
        plan.downloads@.len() == at.len(),
        forall|d: int|
            0 <= d < at.len() ==> (#[trigger] plan.downloads@[d]).id@ == packages@[at[d]]@
                && plan.downloads@[d].to@.root == root.root && plan.downloads@[d].to@.path
                == root.path.push("packages"@).push(
                packages@[at[d]].name@ + "-"@ + packages@[at[d]].version@.text(),
            ),
{
    let n = packages@.len();
    let reg = cache@.cargo_registry;
    let at = lemma_downloads_pick(root, reg, packages@, probes@, n);
    let chosen = |k: int|
        {
            let v = packages@[k].version@;
            !(v.major == 0 && v.minor == 0 && v.patch == 0 && v.pre.len() == 0 && v.build.len()
                == 0) && !(cache@.cargo_registry is Some && probes@[k].in_registry)
                && !probes@[k].in_temp
        };
    let missing = |k: int| is_missing(reg, packages@[k]@, probes@[k]);
    assert forall|k: int| 0 <= k < n && #[trigger] chosen(k) implies at.contains(k) by {
        assert(missing(k));
    }
    assert forall|i: int| 0 <= i < at.len() implies 0 <= #[trigger] at[i] < n && chosen(at[i]) by {
        assert(missing(at[i]));
        let v = packages@[at[i]].version@;
        if v.major == 0 && v.minor == 0 && v.patch == 0 && v.pre.len() == 0 && v.build.len() == 0 {
            assert(v == version::root_view());
        }
    }
    let list = download_views(plan.downloads@);
    assert forall|d: int| 0 <= d < at.len() implies (#[trigger] plan.downloads@[d]).id@
        == packages@[at[d]]@ && plan.downloads@[d].to@.root == root.root
        && plan.downloads@[d].to@.path == root.path.push("packages"@).push(
        packages@[at[d]].name@ + "-"@ + packages@[at[d]].version@.text(),
    ) by {
        assert(list[d] == (plan.downloads@[d].id@, plan.downloads@[d].to@));
        assert(missing(at[d]));
    }
    at
}

proof fn lemma_downloads_pick(
    root: PlaceView,
    registry: Option<PlaceView>,
    packages: Seq<PackageId>,
    probes: Seq<Probe>,
    n: nat,
) -> (at: Seq<int>)
    requires
        n <= packages.len(),
    ensures
        sorted::picks(at, n as int, |k: int| is_missing(registry, packages[k]@, probes[k])),
        downloads_of(root, registry, packages, probes, n).len() == at.len(),
        forall|d: int|
            0 <= d < at.len() ==> #[trigger] downloads_of(root, registry, packages, probes, n)[d]
                == (
                packages[at[d]]@,
                place_of(root, registry, packages[at[d]]@, probes[at[d]]),
            ),
    decreases n,
{
    if n == 0 {
        seq![]
    } else {
        let i = (n - 1) as int;
        let before = lemma_downloads_pick(root, registry, packages, probes, i as nat);
        let chosen = |k: int| is_missing(registry, packages[k]@, probes[k]);
        let at = if is_missing(registry, packages[i]@, probes[i]) {
            before.push(i)
        } else {
            before
        };
        assert forall|k: int| 0 <= k < n && #[trigger] chosen(k) implies at.contains(k) by {
            if k < i {
                let j = choose|j: int| 0 <= j < before.len() && before[j] == k;
                assert(at[j] == k);
            } else {
                assert(at[before.len() as int] == k);
            }
        }
        assert forall|a: int, b: int| 0 <= a < b < at.len() implies #[trigger] at[a]
            < #[trigger] at[b] by {
            if b == before.len() {
                assert(0 <= before[a] < i);
            }
        }
        let d0 = downloads_of(root, registry, packages, probes, i as nat);
        let d1 = downloads_of(root, registry, packages, probes, n);
        assert forall|d: int| 0 <= d < at.len() implies #[trigger] d1[d] == (
            packages[at[d]]@,
            place_of(root, registry, packages[at[d]]@, probes[at[d]]),
        ) by {
            if d < before.len() {
                assert(d1[d] == d0[d]);
            }
        }
        at
    }
}

/// Two versions of a package, other than 0.0.0, never share a place, wherever each was found.
pub proof fn law_versions_do_not_share_a_place(
    cache: &Cache,
    packages: &Vec<PackageId>,
    probes: &Vec<Probe>,
    plan: FetchPlan,
    root: PlaceView,
    j: int,
    k: int,
)
    requires
        call_ensures(Cache::fetch_packages, (cache, packages, probes), plan),
        cache@.root == Some(root),
        probes@.len() == packages@.len(),
        0 <= j < packages@.len(),
        0 <= k < packages@.len(),
        packages@[j].name@ == packages@[k].name@,
        packages@[j].version@ != packages@[k].version@,
        packages@[j].version@.valid(),
        packages@[k].version@.valid(),
        packages@[j].version@.text() != "0.0.0"@,
        packages@[k].version@.text() != "0.0.0"@,
        forall|a: int, b: int|
            0 <= a < packages@.len() && 0 <= b < packages@.len() && (#[trigger] packages@[a])@ == (
            #[trigger] packages@[b])@ ==> probes@[a] == probes@[b],
    ensures
        stable_map::value_of(fetched_view(plan.paths@), packages@[j]@) != stable_map::value_of(
            fetched_view(plan.paths@),
            packages@[k]@,
        ),
{
    let name = packages@[j].name@;
    let v = packages@[j].version@;
    let w = packages@[k].version@;
    law_place_of_a_package(cache, packages, probes, plan, root, j);
    law_place_of_a_package(cache, packages, probes, plan, root, k);
    if v.major == 0 && v.minor == 0 && v.patch == 0 && v.pre.len() == 0 && v.build.len() == 0 {
        lemma_zero_text(v);
    }
    if w.major == 0 && w.minor == 0 && w.patch == 0 && w.pre.len() == 0 && w.build.len() == 0 {
        lemma_zero_text(w);
    }
    let p = stable_map::value_of(fetched_view(plan.paths@), packages@[j]@);
    let q = stable_map::value_of(fetched_view(plan.paths@), packages@[k]@);
    let a = name + "-"@ + v.text();
    let b = name + "-"@ + w.text();
    assert(p.path.last() == a);
    assert(q.path.last() == b);
    if a == b {
        let m = name.len() + 1;
        reveal_strlit("-");
        assert(a.skip(m as int) == v.text());
        assert(b.skip(m as int) == w.text());
        version::law_text_names_version(v, w);
    }
}

/// What is written 0.0.0 are three zeros, with nothing after them.
proof fn lemma_zero_text(v: VersionView)
    requires
        v.major == 0,
        v.minor == 0,
        v.patch == 0,
        v.pre.len() == 0,
        v.build.len() == 0,
    ensures
        v.text() == "0.0.0"@,
{
    reveal_strlit("0.0.0");
    reveal_strlit(".");
    assert(v.suffix() == Seq::<char>::empty());
    assert(v.text() == "0.0.0"@);
}

/// Where a package is looked for on disk is where it would be used: in the registry, and among
/// the temporary files, in a directory called after its name and its whole version.
pub proof fn law_packages_are_looked_for_where_they_lie(
    cache: &Cache,
    id: &PackageId,
    in_registry: Option<Place>,
    in_temp: Option<Place>,
)
    requires
        call_ensures(Cache::registry_place, (cache, id), in_registry),
        call_ensures(Cache::temp_place, (cache, id), in_temp),
    ensures
        ({
            let dir = id.name@ + "-"@ + id.version@.text();
            &&& in_registry is Some == cache@.cargo_registry is Some
            &&& in_registry matches Some(p) ==> p@.root == cache@.cargo_registry->0.root && p@.path
                == cache@.cargo_registry->0.path.push(dir)
            &&& in_temp is Some == cache@.root is Some
            &&& in_temp matches Some(p) ==> p@.root == cache@.root->0.root && p@.path
                == cache@.root->0.path.push("packages"@).push(dir)
        }),
{
}

/// A package is downloaded from the address of crates.io for its name and its whole version, to
/// a directory called after both.
pub proof fn law_download_is_of_the_package(id: &PackageId, url: String, dir: String)
    requires
        call_ensures(download_url, (id,), url),
        call_ensures(dir_name, (id,), dir),
    ensures
        url@ == "https://crates.io/api/v1/crates/"@ + id.name@ + "/"@ + id.version@.text()
            + "/download"@,
        dir@ == id.name@ + "-"@ + id.version@.text(),
{
}

/// A trial has no place on disk and knows nothing; else the cache lies among the temporary
/// files, uses the registry where that was found, and knows what the diff cache held if it could
/// be read. Only directories that could not be made are an error.
pub proof fn law_cache_is_set_up(
    cfg: &Config,
    dirs: Result<(), String>,
    read: ReadFile<DiffCache>,
    registry: &Result<usize, RegistryError>,
    r: Result<Cache, String>,
)
    requires
        call_ensures(Cache::acquire, (cfg, dirs, read, registry), r),
    ensures
        r is Err == (cfg.registry_src && dirs is Err),
        r is Err ==> r->Err_0 == dirs->Err_0,
        r matches Ok(c) ==> {
            let model = c@;
            &&& model.locked == cfg.registry_src
            &&& model.root is Some == cfg.registry_src
            &&& model.root matches Some(p) ==> p.root == Root::Temp && p.path.len() == 0
            &&& model.cargo_registry is Some == (cfg.registry_src && registry is Ok)
            &&& model.cargo_registry matches Some(p) ==> p.root == Root::Registry && p.path.len()
                == 0
            &&& model.diff_cache_path is Some == cfg.registry_src
            &&& model.diff_cache_path matches Some(p) ==> if cfg.cli.diff_cache {
                p.root == Root::DiffCache && p.path.len() == 0
            } else {
                p.root == Root::Temp && p.path == seq!["diff-cache.toml"@]
            }
            &&& cfg.registry_src ==> (read matches Ok(Ok(file)) ==> model.diff_cache
                == diff_cache::cache_view(file@))
            &&& !(cfg.registry_src && (read matches Ok(Ok(_)))) ==> model.diff_cache.len() == 0
        },
{
    if let Ok(c) = r {
        if cfg.registry_src {
            assert(diff_cache_view(cfg.cli).path == if cfg.cli.diff_cache {
                Seq::<Seq<char>>::empty()
            } else {
                seq!["diff-cache.toml"@]
            });
        }
    }
}

/// A trial finds no package and downloads none.
pub proof fn law_trial_fetches_nothing(
    cache: &Cache,
    packages: &Vec<PackageId>,
    probes: &Vec<Probe>,
    plan: FetchPlan,
)
    requires
        call_ensures(Cache::fetch_packages, (cache, packages, probes), plan),
        cache@.root is None,
    ensures
        plan.paths@.len() == 0,
        plan.downloads@.len() == 0,
{
}

/// A fetch gives the places of its plan exactly where every download was done; and else the
/// error of the one that failed before all others.
pub proof fn law_fetch_needs_every_download<E>(
    plan: FetchPlan,
    done: Vec<Result<(), E>>,
    r: Result<Fetched, E>,
)
    requires
        call_ensures(finish_fetch::<E>, (plan, done), r),
        done@.len() == plan.downloads@.len(),
    ensures
        r is Ok == (forall|i: int| 0 <= i < done@.len() ==> (#[trigger] done@[i]) is Ok),
        r matches Ok(fetched) ==> fetched == plan.paths,
        r matches Err(e) ==> exists|i: int|
            0 <= i < done@.len() && #[trigger] done@[i] == Err::<(), E>(e) && forall|j: int|
                0 <= j < i ==> (#[trigger] done@[j]) is Ok,
{
    if let Err(e) = r {
        let i = choose|i: int|
            0 <= i < plan.downloads@.len() && #[trigger] all_done(done@, i) && done@[i] == Err::<
                (),
                E,
            >(e);
        assert(done@[i] == Err::<(), E>(e));
    }
}

/// The next download is the one after those that were made, as long as there is one and none
/// failed.
pub proof fn law_downloads_go_on_in_order<E>(
    plan: &FetchPlan,
    done: &Vec<Result<(), E>>,
    r: Option<usize>,
)
    requires
        call_ensures(next_download::<E>, (plan, done), r),
    ensures
        r is Some == (done@.len() < plan.downloads@.len() && forall|i: int|
            0 <= i < done@.len() ==> (#[trigger] done@[i]) is Ok),
        r matches Some(i) ==> i == done@.len(),
{
}

/// What is looked up in the fetched packages is the place that stands there for the package.
pub proof fn law_fetched_place_is_found(
    fetched: &Fetched,
    id: &PackageId,
    r: Option<Place>,
    i: int,
)
    requires
        call_ensures(fetched_place, (fetched, id), r),
        stable_map::unique_keys(fetched@),
        0 <= i < fetched@.len(),
        fetched@[i].0.name == id.name@,
        fetched@[i].0.version == id.version@,
    ensures
        r is Some,
        r->0@ == fetched@[i].1@,
{
    stable_map::lemma_mapped(fetched@, |p: Place| p@, id@);
    stable_map::lemma_key_index(fetched@, i);
    assert(fetched@[i].0 == id@);
}

/// A cache with a place for it hands out everything it knows to be written there, and a trial
/// hands out nothing and stays as it is.
pub proof fn law_everything_known_is_written_back(r: Option<(Place, DiffCache)>)
    ensures
        forall|c: &mut Cache| #[trigger]
            call_ensures(Cache::write_back, (c,), r) ==> {
                &&& r is Some == (*c)@.diff_cache_path is Some
                &&& r matches Some(p) ==> p.0@ == (*c)@.diff_cache_path->0
                    && diff_cache::cache_view(p.1@) == (*c)@.diff_cache
                &&& r is None ==> *final(c) == *c
                &&& (*final(c))@.root == (*c)@.root && (*final(c))@.cargo_registry
                    == (*c)@.cargo_registry && (*final(c))@.diff_cache_path
                    == (*c)@.diff_cache_path
            },
{
}

/// A diffstat that the cache is told is known from then on; nothing else that it knows changes,
/// and neither do its places.
pub proof fn law_told_diffstats_are_known(
    package: &str,
    delta: &Delta,
    stat: &DiffStat,
    other: Seq<char>,
    other_delta: DeltaView,
)
    ensures
        forall|c: &mut Cache| #[trigger]
            call_ensures(Cache::learn_stat, (c, package, delta, stat), ())
                && diff_cache::is_cache((*c)@.diff_cache, package@) ==> {
                &&& diff_cache::known((*final(c))@.diff_cache, package@, delta@) == Some(stat@)
                &&& (other != package@ || other_delta != delta@) ==> diff_cache::known(
                    (*final(c))@.diff_cache,
                    other,
                    other_delta,
                ) == diff_cache::known((*c)@.diff_cache, other, other_delta)
                &&& (*final(c))@.root == (*c)@.root && (*final(c))@.cargo_registry
                    == (*c)@.cargo_registry && (*final(c))@.diff_cache_path
                    == (*c)@.diff_cache_path
            },
{
    assert forall|c: &mut Cache| #[trigger]
        call_ensures(Cache::learn_stat, (c, package, delta, stat), ()) && diff_cache::is_cache(
            (*c)@.diff_cache,
            package@,
        ) implies {
        &&& diff_cache::known((*final(c))@.diff_cache, package@, delta@) == Some(stat@)
        &&& (other != package@ || other_delta != delta@) ==> diff_cache::known(
            (*final(c))@.diff_cache,
            other,
            other_delta,
        ) == diff_cache::known((*c)@.diff_cache, other, other_delta)
        &&& (*final(c))@.root == (*c)@.root && (*final(c))@.cargo_registry
            == (*c)@.cargo_registry && (*final(c))@.diff_cache_path == (*c)@.diff_cache_path
    } by {
        diff_cache::law_learned_is_known(
            (*c)@.diff_cache,
            package@,
            delta@,
            stat@,
            other,
            other_delta,
        );
    }
}

} // verus!
