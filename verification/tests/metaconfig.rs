use cargo_vet::metaconfig::{configure, MetaConfigError, MetaConfigInstance, Store};

fn table(version: Option<u64>, path: Option<&str>) -> MetaConfigInstance {
    MetaConfigInstance { version, store: path.map(|p| Store { path: Some(p.to_string()) }) }
}

#[test]
fn the_defaults_hold_where_nothing_is_set() {
    match configure("/w/supply-chain".to_string(), None, None) {
        Ok(m) => {
            assert_eq!(m.version(), 1);
            assert_eq!(m.store_path(), "/w/supply-chain");
        }
        Err(_) => panic!(),
    }
    let empty = MetaConfigInstance { version: None, store: Some(Store { path: None }) };
    match configure("/d".to_string(), Some(Ok(empty)), None) {
        Ok(m) => {
            assert_eq!(m.version(), 1);
            assert_eq!(m.store_path(), "/d");
        }
        Err(_) => panic!(),
    }
}

#[test]
fn a_table_overrides_the_defaults() {
    match configure("/d".to_string(), Some(Ok(table(Some(2), None))), None) {
        Ok(m) => {
            assert_eq!(m.version(), 2);
            assert_eq!(m.store_path(), "/d");
        }
        Err(_) => panic!(),
    }
    match configure("/d".to_string(), None, Some(Ok(table(None, Some("/p"))))) {
        Ok(m) => {
            assert_eq!(m.version(), 1);
            assert_eq!(m.store_path(), "/p");
        }
        Err(_) => panic!(),
    }
}

#[test]
fn malformed_and_double_tables_are_refused() {
    match configure("/d".to_string(), Some(Err("w".to_string())), Some(Err("p".to_string()))) {
        Err(MetaConfigError::Workspace(m)) => assert_eq!(m, "w"),
        _ => panic!(),
    }
    match configure("/d".to_string(), Some(Ok(table(None, None))), Some(Err("p".to_string()))) {
        Err(MetaConfigError::Package(m)) => assert_eq!(m, "p"),
        _ => panic!(),
    }
    assert!(matches!(
        configure("/d".to_string(), Some(Ok(table(None, None))), Some(Ok(table(None, None)))),
        Err(MetaConfigError::Both)
    ));
}
