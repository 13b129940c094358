use cargo_vet::registry::{find_cargo_registry, RegistryEntry, RegistryError};

fn dir(name: &str) -> Result<RegistryEntry, String> {
    Ok(RegistryEntry { name: name.to_string(), is_dir: true })
}

fn file(name: &str) -> Result<RegistryEntry, String> {
    Ok(RegistryEntry { name: name.to_string(), is_dir: false })
}

fn found(entries: Vec<Result<RegistryEntry, String>>) -> Option<usize> {
    find_cargo_registry(true, true, Ok(entries)).ok()
}

#[test]
fn the_package_sources_are_found() {
    assert_eq!(found(vec![file("x"), dir("index.crates.io-6f17"), file("y")]), Some(1));
    assert_eq!(found(vec![dir("a"), dir("b")]), Some(0));
    assert_eq!(found(vec![dir("a"), dir("github.com-1ecc"), dir("b")]), Some(1));
    assert_eq!(found(vec![dir("github.com-1"), dir("b"), dir("github.com-2")]), Some(2));
    assert_eq!(found(vec![dir("github.com-1"), dir("b")]), Some(0));
    assert_eq!(found(vec![dir("a"), file("github.com-1ecc")]), Some(0));
}

#[test]
fn missing_package_sources_are_reported() {
    match find_cargo_registry(false, true, Ok(vec![dir("a")])) {
        Err(e) => {
            assert!(matches!(e, RegistryError::NoCargoHome));
            assert_eq!(e.message(), "Could not resolve CARGO_HOME!?");
        }
        Ok(_) => panic!(),
    }
    match find_cargo_registry(true, false, Ok(vec![dir("a")])) {
        Err(e) => {
            assert!(matches!(e, RegistryError::NoCache));
            assert_eq!(e.message(), "Cargo registry src cache doesn't exist!?");
        }
        Ok(_) => panic!(),
    }
    match find_cargo_registry(true, true, Err("denied".to_string())) {
        Err(e) => {
            assert!(matches!(e, RegistryError::Read(_)));
            assert_eq!(e.message(), "denied");
        }
        Ok(_) => panic!(),
    }
    match find_cargo_registry(true, true, Ok(vec![dir("a"), Err("gone".to_string())])) {
        Err(e) => {
            assert!(matches!(e, RegistryError::Read(_)));
            assert_eq!(e.message(), "gone");
        }
        Ok(_) => panic!(),
    }
    match find_cargo_registry(true, true, Ok(vec![file("a")])) {
        Err(e) => {
            assert!(matches!(e, RegistryError::NoSources));
            assert_eq!(e.message(), "failed to find cargo package sources");
        }
        Ok(_) => panic!(),
    }
}
