use cargo_vet::cache::{
    cache_dirs, diff_cache_place, dir_name, download_url, fetched_place, finish_fetch,
    next_download, Cache, Config, Fetched, PackageId, Probe,
};
use cargo_vet::cli::Cli;
use cargo_vet::format::{Delta, DiffCache, DiffStat};
use cargo_vet::metaconfig::configure;
use cargo_vet::metadata::Metadata;
use cargo_vet::place::{Place, Root};
use cargo_vet::recommend::{ordered_deltas, DiffRecommendation};
use cargo_vet::registry::RegistryError;
use cargo_vet::stable_map::StableMap;
use cargo_vet::store::ReadFile;
use cargo_vet::version::Version;

fn config(registry_src: bool) -> Config {
    let metacfg = match configure("/store".to_string(), None, None) {
        Ok(m) => m,
        Err(_) => panic!(),
    };
    Config { metacfg, metadata: Metadata { packages: vec![] }, cli: Cli::mock(), registry_src }
}

fn unreadable() -> ReadFile<DiffCache> {
    Err("no file".to_string())
}

fn cache(registry: bool) -> Cache {
    let found = if registry { Ok(0) } else { Err(RegistryError::NoSources) };
    Cache::acquire(&config(true), Ok(()), unreadable(), &found).unwrap_or_else(|_| panic!())
}

fn trial() -> Cache {
    Cache::acquire(&config(false), Err("unused".to_string()), unreadable(), &Ok(0))
        .unwrap_or_else(|_| panic!())
}

fn id(name: &str, major: u64) -> PackageId {
    PackageId { name: name.to_string(), version: Version::new(major, 0, 0) }
}

fn probe(in_registry: bool, in_temp: bool) -> Probe {
    Probe { in_registry, in_temp }
}

fn delta(from: u64, to: u64) -> Delta {
    Delta { from: Version::new(from, 0, 0), to: Version::new(to, 0, 0) }
}

fn stat(count: u64) -> DiffStat {
    DiffStat { raw: format!("{} lines", count), count }
}

fn place(p: &Place) -> (Root, Vec<String>) {
    (p.root, p.path.clone())
}

fn at(root: Root, path: &[&str]) -> (Root, Vec<String>) {
    (root, path.iter().map(|s| s.to_string()).collect())
}

#[test]
fn names_and_addresses_of_packages() {
    let p = PackageId {
        name: "serde".to_string(),
        version: Version::parse("1.0.0-rc.1+b").unwrap(),
    };
    assert_eq!(dir_name(&p), "serde-1.0.0-rc.1+b");
    assert_eq!(
        download_url(&p),
        "https://crates.io/api/v1/crates/serde/1.0.0-rc.1+b/download"
    );
}

#[test]
fn places_of_the_cache() {
    let dirs: Vec<(Root, Vec<String>)> = cache_dirs().iter().map(place).collect();
    assert_eq!(
        dirs,
        vec![at(Root::Temp, &[]), at(Root::Temp, &["empty"]), at(Root::Temp, &["packages"])]
    );
    let mut cli = Cli::mock();
    assert_eq!(place(&diff_cache_place(&cli)), at(Root::Temp, &["diff-cache.toml"]));
    cli.diff_cache = true;
    assert_eq!(place(&diff_cache_place(&cli)), at(Root::DiffCache, &[]));
}

#[test]
fn packages_are_found_or_downloaded() {
    let packages = vec![id("a", 0), id("a", 1), id("a", 2), id("b", 3)];
    let probes =
        vec![probe(true, true), probe(true, false), probe(false, true), probe(false, false)];
    let plan = cache(true).fetch_packages(&packages, &probes);
    let found = |p: &PackageId| fetched_place(&plan.paths, p).map(|q| place(&q));
    assert_eq!(found(&packages[0]), Some(at(Root::Temp, &["empty"])));
    assert_eq!(found(&packages[1]), Some(at(Root::Registry, &["a-1.0.0"])));
    assert_eq!(found(&packages[2]), Some(at(Root::Temp, &["packages", "a-2.0.0"])));
    assert_eq!(found(&packages[3]), Some(at(Root::Temp, &["packages", "b-3.0.0"])));
    assert_eq!(found(&id("b", 4)), None);
    assert_eq!(plan.downloads.len(), 1);
    assert_eq!(plan.downloads[0].id.name, "b");
    assert_eq!(place(&plan.downloads[0].to), at(Root::Temp, &["packages", "b-3.0.0"]));
}

#[test]
fn without_a_registry_packages_are_kept_among_temporary_files() {
    let c = cache(false);
    assert!(c.registry_place(&id("a", 1)).is_none());
    let plan = c.fetch_packages(&vec![id("a", 1)], &vec![probe(true, false)]);
    assert_eq!(plan.downloads.len(), 1);
    assert_eq!(place(&plan.downloads[0].to), at(Root::Temp, &["packages", "a-1.0.0"]));
}

#[test]
fn a_trial_touches_nothing() {
    let mut c = trial();
    assert!(c.temp_place(&id("a", 1)).is_none());
    assert!(c.registry_place(&id("a", 1)).is_none());
    let plan = c.fetch_packages(&vec![id("a", 1)], &vec![]);
    assert_eq!(plan.downloads.len(), 0);
    assert!(fetched_place(&plan.paths, &id("a", 1)).is_none());
    c.learn_stat("a", &delta(1, 2), &stat(3));
    assert!(c.write_back().is_none());
}

#[test]
fn directories_that_cannot_be_made_are_an_error() {
    match Cache::acquire(&config(true), Err("full".to_string()), unreadable(), &Ok(0)) {
        Err(m) => assert_eq!(m, "full"),
        Ok(_) => panic!(),
    }
}

#[test]
fn what_is_learned_is_known_and_written_back() {
    let mut c = cache(true);
    assert!(c.known_stat("a", &delta(1, 2)).is_none());
    c.learn_stat("a", &delta(1, 2), &stat(7));
    c.learn_stat("a", &delta(2, 3), &stat(8));
    c.learn_stat("b", &delta(1, 2), &stat(9));
    c.learn_stat("a", &delta(1, 2), &stat(10));
    assert_eq!(c.known_stat("a", &delta(1, 2)).unwrap().count, 10);
    assert_eq!(c.known_stat("a", &delta(2, 3)).unwrap().raw, "8 lines");
    assert_eq!(c.known_stat("b", &delta(1, 2)).unwrap().count, 9);
    assert!(c.known_stat("b", &delta(2, 3)).is_none());
    match c.write_back() {
        Some((p, stats)) => {
            assert_eq!(place(&p), at(Root::Temp, &["diff-cache.toml"]));
            assert_eq!(stats.len(), 2);
            assert_eq!(stats.key_at(0), "a");
            assert_eq!(stats.value_at(0).len(), 2);
        }
        None => panic!(),
    }
    assert!(c.known_stat("a", &delta(1, 2)).is_none());
}

#[test]
fn a_diff_cache_that_was_read_is_used() {
    let mut stats = StableMap::new();
    stats.insert(delta(1, 2), stat(5));
    let mut file: DiffCache = StableMap::new();
    file.insert("a".to_string(), stats);
    let c = Cache::acquire(&config(true), Ok(()), Ok(Ok(file)), &Ok(0)).unwrap_or_else(|_| panic!());
    assert_eq!(c.known_stat("a", &delta(1, 2)).unwrap().count, 5);
    let c = Cache::acquire(&config(true), Ok(()), Ok(Err("bad".to_string())), &Ok(0))
        .unwrap_or_else(|_| panic!());
    assert!(c.known_stat("a", &delta(1, 2)).is_none());
}

fn told(r: Result<DiffRecommendation, String>) -> (u64, u64, u64, String) {
    match r {
        Ok(rec) => (rec.from.major(), rec.to.major(), rec.diffstat.count, rec.diffstat.raw),
        Err(_) => panic!(),
    }
}

/// What a trial fetches.
fn nothing(c: &Cache) -> Result<Fetched, String> {
    Ok(c.fetch_packages(&vec![], &vec![]).paths)
}

#[test]
fn a_trial_makes_up_the_sizes() {
    let mut c = trial();
    let diffs = vec![delta(1, 10), delta(7, 10), delta(12, 10)];
    assert_eq!(c.versions_to_fetch("p", &diffs).len(), 4);
    let plan = c.fetch_packages(&vec![], &vec![]);
    assert_eq!(c.diffs_to_run("p", &diffs, &plan.paths).len(), 0);
    let fetched = nothing(&c);
    let rec = told(c.fetch_and_diffstat_all("p", &diffs, fetched, vec![]));
    assert_eq!(rec, (12, 10, 44, "-44".to_string()));
    let fetched = nothing(&c);
    let rec = told(c.fetch_and_diffstat_all("p", &vec![delta(7, 10)], fetched, vec![]));
    assert_eq!(rec, (7, 10, 51, "+51".to_string()));
    let fetched = nothing(&c);
    let rec = told(c.fetch_and_diffstat_all("p", &vec![delta(3, 3)], fetched, vec![]));
    assert_eq!(rec, (3, 3, 0, "+0".to_string()));
    assert!(c.known_stat("p", &delta(7, 10)).is_none());
}

#[test]
fn sizes_are_made_up_only_where_they_fit() {
    let mut c = trial();
    let none = c.fetch_packages(&vec![], &vec![]).paths;
    assert!(c.is_made_up("p", &delta(1, 2), &none));
    assert!(c.can_make_up("p", &delta(1, 2), &none));
    // The square does not fit in 64 bits.
    let large = delta(1, 1 << 32);
    assert!(!c.can_make_up("p", &large, &none));
    assert!(!c.can_make_up("p", &delta(1 << 32, 1), &none));
    // The largest square that fits counts as -8589934591.
    assert!(c.can_make_up("p", &delta(1, (1 << 32) - 1), &none));
    // One that counts as large and one that counts as negative are too far apart.
    assert!(!c.can_make_up("p", &delta(3037000500, 3037000499), &none));
    c.learn_stat("p", &large, &stat(1));
    assert!(!c.is_made_up("p", &large, &none));
    assert!(c.can_make_up("p", &large, &none));
    let c = cache(false);
    let both = vec![id("p", 1), id("p", 1 << 32)];
    let paths = c.fetch_packages(&both, &vec![probe(false, true); 2]).paths;
    assert!(!c.is_made_up("p", &large, &paths));
    assert!(c.can_make_up("p", &large, &paths));
    assert!(c.is_made_up("p", &delta(1, 3), &paths));
}

#[test]
fn the_first_of_the_smallest_diffs_is_recommended() {
    let mut c = cache(false);
    c.learn_stat("p", &delta(2, 9), &stat(20));
    let diffs = vec![delta(1, 9), delta(2, 9), delta(3, 9)];
    let versions = c.versions_to_fetch("p", &diffs);
    let majors: Vec<u64> = versions.iter().map(|v| v.major()).collect();
    assert_eq!(majors, vec![1, 3, 9]);
    let packages: Vec<PackageId> = majors.iter().map(|m| id("p", *m)).collect();
    let probes = vec![probe(false, true); 3];
    let plan = c.fetch_packages(&packages, &probes);
    let runs = c.diffs_to_run("p", &diffs, &plan.paths);
    assert_eq!(runs.len(), 2);
    assert_eq!(place(&runs[0].0), at(Root::Temp, &["packages", "p-1.0.0"]));
    assert_eq!(place(&runs[0].1), at(Root::Temp, &["packages", "p-9.0.0"]));
    assert_eq!(place(&runs[1].0), at(Root::Temp, &["packages", "p-3.0.0"]));
    let runs = vec![Ok(stat(30)), Ok(stat(20))];
    let rec = told(c.fetch_and_diffstat_all("p", &diffs, finish_fetch(plan, vec![]), runs));
    assert_eq!(rec, (2, 9, 20, "20 lines".to_string()));
    // Asking again needs nothing more, and gives the same answer.
    assert_eq!(c.versions_to_fetch("p", &diffs).len(), 0);
    let empty = c.fetch_packages(&vec![], &vec![]);
    assert_eq!(c.diffs_to_run("p", &diffs, &empty.paths).len(), 0);
    let rec = told(c.fetch_and_diffstat_all("p", &diffs, Ok(empty.paths), vec![]));
    assert_eq!(rec, (2, 9, 20, "20 lines".to_string()));
}

#[test]
fn a_failed_comparison_ends_the_search() {
    let mut c = cache(false);
    let diffs = vec![delta(1, 9), delta(2, 9), delta(3, 9)];
    let packages = vec![id("p", 1), id("p", 2), id("p", 3), id("p", 9)];
    let plan = c.fetch_packages(&packages, &vec![probe(false, true); 4]);
    let runs = vec![Ok(stat(5)), Err("git".to_string())];
    match c.fetch_and_diffstat_all("p", &diffs, Ok(plan.paths), runs) {
        Err(m) => assert_eq!(m, "git"),
        Ok(_) => panic!(),
    }
    assert_eq!(c.known_stat("p", &delta(1, 9)).unwrap().count, 5);
    assert!(c.known_stat("p", &delta(2, 9)).is_none());
}

fn ok() -> Result<(), String> {
    Ok(())
}

fn failed(m: &str) -> Result<(), String> {
    Err(m.to_string())
}

#[test]
fn a_fetch_ends_with_its_downloads() {
    let c = cache(false);
    let packages = vec![id("p", 1), id("p", 2), id("p", 3)];
    let plan = c.fetch_packages(&packages, &vec![probe(false, false); 3]);
    assert_eq!(plan.downloads.len(), 3);
    let none: Vec<Result<(), String>> = vec![];
    assert_eq!(next_download(&plan, &none), Some(0));
    assert_eq!(next_download(&plan, &vec![ok()]), Some(1));
    assert_eq!(next_download(&plan, &vec![ok(), ok()]), Some(2));
    assert_eq!(next_download(&plan, &vec![ok(), ok(), ok()]), None);
    match finish_fetch(plan, vec![ok(), ok(), ok()]) {
        Ok(fetched) => {
            let p = fetched_place(&fetched, &packages[2]).unwrap();
            assert_eq!(place(&p), at(Root::Temp, &["packages", "p-3.0.0"]));
        }
        Err(_) => panic!(),
    }
}

#[test]
fn a_failed_download_ends_the_fetch() {
    let c = cache(false);
    let packages = vec![id("p", 1), id("p", 2), id("p", 3)];
    let plan = c.fetch_packages(&packages, &vec![probe(false, false); 3]);
    let mut done = vec![ok()];
    assert_eq!(next_download(&plan, &done), Some(1));
    done.push(failed("no route"));
    assert_eq!(next_download(&plan, &done), None);
    match finish_fetch(plan, done) {
        Err(m) => assert_eq!(m, "no route"),
        Ok(_) => panic!(),
    }
    let plan = c.fetch_packages(&packages, &vec![probe(false, false); 3]);
    match finish_fetch(plan, vec![failed("a"), failed("b"), ok()]) {
        Err(m) => assert_eq!(m, "a"),
        Ok(_) => panic!(),
    }
}

#[test]
fn a_failed_download_ends_the_search_and_changes_nothing() {
    let mut c = cache(false);
    c.learn_stat("p", &delta(2, 9), &stat(20));
    let diffs = vec![delta(1, 9), delta(2, 9)];
    let plan =
        c.fetch_packages(&vec![id("p", 1), id("p", 9)], &vec![probe(false, false); 2]);
    let fetched = finish_fetch(plan, vec![ok(), failed("no route")]);
    match c.fetch_and_diffstat_all("p", &diffs, fetched, vec![]) {
        Err(m) => assert_eq!(m, "no route"),
        Ok(_) => panic!(),
    }
    assert_eq!(c.known_stat("p", &delta(2, 9)).unwrap().count, 20);
    assert!(c.known_stat("p", &delta(1, 9)).is_none());
}

#[test]
fn wanted_versions_come_in_order_and_once() {
    let c = cache(false);
    let version = |s: &str| Version::parse(s).unwrap();
    let diffs = vec![
        Delta { from: version("1.10.0"), to: version("2.0.0") },
        Delta { from: version("1.9.0"), to: version("2.0.0") },
        Delta { from: version("2.0.0-rc.1"), to: version("1.10.0") },
    ];
    let texts: Vec<String> =
        c.versions_to_fetch("p", &diffs).iter().map(|v| v.to_text()).collect();
    assert_eq!(texts, vec!["1.9.0", "1.10.0", "2.0.0-rc.1", "2.0.0"]);
}

#[test]
fn deltas_are_put_in_order() {
    let version = |s: &str| Version::parse(s).unwrap();
    let step = |a: &str, b: &str| Delta { from: version(a), to: version(b) };
    let ordered = ordered_deltas(vec![
        step("2.0.0", "3.0.0"),
        step("1.10.0", "3.0.0"),
        step("1.9.0", "3.0.0"),
        step("1.10.0", "3.0.0-rc.1"),
        step("2.0.0", "3.0.0"),
    ]);
    let texts: Vec<String> =
        ordered.iter().map(|d| format!("{} {}", d.from.to_text(), d.to.to_text())).collect();
    assert_eq!(
        texts,
        vec!["1.9.0 3.0.0", "1.10.0 3.0.0-rc.1", "1.10.0 3.0.0", "2.0.0 3.0.0"]
    );
    assert_eq!(ordered_deltas(vec![]).len(), 0);
}

#[test]
fn the_recommendation_depends_on_the_set_alone() {
    // The deltas are of the same size in a trial.
    let lists = [
        vec![delta(5, 7), delta(1, 5), delta(7, 5), delta(5, 1)],
        vec![delta(7, 5), delta(5, 1), delta(5, 7), delta(1, 5), delta(5, 1)],
    ];
    for list in lists {
        let mut c = trial();
        let diffs = ordered_deltas(list);
        assert_eq!(diffs.len(), 4);
        let fetched = nothing(&c);
        let rec = told(c.fetch_and_diffstat_all("p", &diffs, fetched, vec![]));
        assert_eq!(rec, (1, 5, 24, "+24".to_string()));
    }
}
