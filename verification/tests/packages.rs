use cargo_vet::format::{AuditsFile, ConfigFile, ImportsFile};
use cargo_vet::metadata::{foreign_packages, init_files, Metadata, Package, PackageExt};
use cargo_vet::version::Version;

const CRATES_IO: &str = "registry+https://github.com/rust-lang/crates.io-index";

fn package(name: &str, major: u64, source: Option<&str>) -> Package {
    Package {
        name: name.to_string(),
        version: Version::new(major, 0, 0),
        source: source.map(|s| s.to_string()),
    }
}

fn workspace() -> Metadata {
    Metadata {
        packages: vec![
            package("root", 1, None),
            package("serde", 1, Some(CRATES_IO)),
            package("git-dep", 2, Some("git+https://example.com/dep")),
            package("syn", 1, Some(CRATES_IO)),
            package("serde", 2, Some(CRATES_IO)),
        ],
    }
}

#[test]
fn packages_of_crates_io_are_third_party() {
    assert!(package("a", 1, Some(CRATES_IO)).is_third_party());
    assert!(!package("a", 1, None).is_third_party());
    assert!(!package("a", 1, Some("")).is_third_party());
    assert!(!package("a", 1, Some("registry+https://github.com/rust-lang/crates.io-index/"))
        .is_third_party());
    assert!(!package("a", 1, Some("git+https://example.com/dep")).is_third_party());
}

#[test]
fn foreign_packages_keep_their_order() {
    let metadata = workspace();
    let found: Vec<(String, u64)> = foreign_packages(&metadata)
        .iter()
        .map(|p| (p.name.clone(), p.version.major()))
        .collect();
    assert_eq!(
        found,
        vec![("serde".to_string(), 1), ("syn".to_string(), 1), ("serde".to_string(), 2)]
    );
}

#[test]
fn a_fresh_store_accepts_every_foreign_package() {
    let files: (ConfigFile<u8>, AuditsFile<u8>, ImportsFile<u8>) =
        init_files(&workspace(), "safe-to-run", "safe-to-deploy");
    let (config, audits, imports) = files;
    assert_eq!(config.default_criteria, "safe-to-deploy");
    assert_eq!(config.imports.len(), 0);
    assert_eq!(config.policy.len(), 0);
    assert_eq!(audits.criteria.len(), 0);
    assert_eq!(audits.audits.len(), 0);
    assert_eq!(imports.audits.len(), 0);
    assert_eq!(config.unaudited.len(), 2);
    assert_eq!(config.unaudited.key_at(0), "serde");
    assert_eq!(config.unaudited.key_at(1), "syn");
    let serde = config.unaudited.value_at(0);
    assert_eq!(serde.len(), 2);
    assert_eq!(serde[0].version.to_text(), "1.0.0");
    assert_eq!(serde[1].version.to_text(), "2.0.0");
    assert!(serde[0].suggest);
    assert_eq!(serde[0].criteria, "safe-to-run");
    assert_eq!(serde[0].notes.as_deref(), Some("automatically imported by 'cargo vet init'"));
    assert_eq!(config.unaudited.value_at(1).len(), 1);
}

#[test]
fn a_fresh_store_of_an_empty_workspace_is_empty() {
    let files: (ConfigFile<u8>, AuditsFile<u8>, ImportsFile<u8>) =
        init_files(&Metadata { packages: vec![] }, "c", "d");
    assert_eq!(files.0.unaudited.len(), 0);
}
