use cargo_vet::certify::{certify, cmd_certify, is_foreign_package, CertifyError};
use cargo_vet::format::{AuditKind, AuditsFile, ConfigFile};
use cargo_vet::metadata::{Metadata, Package};
use cargo_vet::stable_map::StableMap;
use cargo_vet::version::Version;

fn metadata() -> Metadata {
    Metadata {
        packages: vec![
            Package {
                name: "serde".to_string(),
                version: Version::new(1, 0, 0),
                source: Some("registry+https://github.com/rust-lang/crates.io-index".to_string()),
            },
            Package { name: "mine".to_string(), version: Version::new(1, 0, 0), source: None },
        ],
    }
}

fn config() -> ConfigFile<u8> {
    ConfigFile {
        default_criteria: "safe-to-run".to_string(),
        imports: StableMap::new(),
        unaudited: StableMap::new(),
        policy: StableMap::new(),
    }
}

fn audits() -> AuditsFile<u8> {
    AuditsFile { criteria: StableMap::new(), audits: StableMap::new() }
}

#[test]
fn foreign_packages_are_known_by_name() {
    assert!(is_foreign_package(&metadata(), "serde"));
    assert!(!is_foreign_package(&metadata(), "mine"));
    assert!(!is_foreign_package(&metadata(), "syn"));
}

#[test]
fn reviews_are_recorded_in_order() {
    let mut file = audits();
    assert_eq!(cmd_certify(&mut file, &config(), &metadata(), "serde", "1.0.0-rc.1", None), Ok(()));
    assert_eq!(
        cmd_certify(&mut file, &config(), &metadata(), "serde", "1.0.0-rc.1", Some("1.0.0")),
        Ok(())
    );
    assert_eq!(file.audits.len(), 1);
    let list = file.audits.value_at(0);
    assert_eq!(list.len(), 2);
    match &list[0].kind {
        AuditKind::Full { version, dependency_criteria } => {
            assert_eq!(version.to_text(), "1.0.0-rc.1");
            assert_eq!(dependency_criteria.len(), 0);
        }
        _ => panic!(),
    }
    match &list[1].kind {
        AuditKind::Delta { delta, dependency_criteria } => {
            assert_eq!(delta.from.to_text(), "1.0.0-rc.1");
            assert_eq!(delta.to.to_text(), "1.0.0");
            assert_eq!(dependency_criteria.len(), 0);
        }
        _ => panic!(),
    }
    assert_eq!(list[0].criteria, "safe-to-run");
    assert_eq!(list[0].who.as_deref(), Some("?TODO?"));
    assert_eq!(list[0].notes.as_deref(), Some("?TODO?"));
}

#[test]
fn what_is_no_version_is_refused_before_anything_else() {
    let mut file = audits();
    let m = metadata();
    let c = config();
    assert_eq!(cmd_certify(&mut file, &c, &m, "syn", "one", None), Err(CertifyError::Version1));
    assert_eq!(
        cmd_certify(&mut file, &c, &m, "serde", "one", Some("two")),
        Err(CertifyError::Version1)
    );
    assert_eq!(
        cmd_certify(&mut file, &c, &m, "syn", "1.0.0", Some("two")),
        Err(CertifyError::Version2)
    );
    assert_eq!(cmd_certify(&mut file, &c, &m, "mine", "1.0.0", None), Err(CertifyError::NotForeign));
    assert_eq!(file.audits.len(), 0);
}

#[test]
fn no_audit_is_lost() {
    let mut file = audits();
    let mut m = metadata();
    m.packages.push(Package {
        name: "syn".to_string(),
        version: Version::new(1, 0, 0),
        source: Some("registry+https://github.com/rust-lang/crates.io-index".to_string()),
    });
    assert_eq!(certify(&mut file, &config(), &m, "serde", Version::new(1, 0, 0), None), Ok(()));
    assert_eq!(certify(&mut file, &config(), &m, "syn", Version::new(2, 0, 0), None), Ok(()));
    assert_eq!(certify(&mut file, &config(), &m, "serde", Version::new(3, 0, 0), None), Ok(()));
    assert_eq!(file.audits.len(), 2);
    assert_eq!(file.audits.value_at(0).len(), 2);
    assert_eq!(file.audits.value_at(1).len(), 1);
    assert!(matches!(&file.audits.value_at(0)[0].kind, AuditKind::Full { version, .. } if version.major() == 1));
    assert!(matches!(&file.audits.value_at(0)[1].kind, AuditKind::Full { version, .. } if version.major() == 3));
}
