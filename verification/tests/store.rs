use cargo_vet::format::{
    AuditsFile, ConfigFile, DiffCache, ImportsFile, RemoteImport, UnauditedDependency,
};
use cargo_vet::metadata::{init_files, Metadata, Package};
use cargo_vet::place::{Place, Root};
use cargo_vet::stable_map::StableMap;
use cargo_vet::store::{
    audits_place, config_place, fetch_foreign_audits, forget_suggested, imports_place,
    load_audits, load_config, load_diff_cache, load_imports, load_toml, store_audits,
    store_config, store_diff_cache, store_imports, store_toml, ForeignReply, LoadError,
};
use cargo_vet::text::lines;
use cargo_vet::version::Version;

fn no_audits() -> AuditsFile<u8> {
    AuditsFile { criteria: StableMap::new(), audits: StableMap::new() }
}

fn audits_with(name: &str) -> AuditsFile<u8> {
    let mut file = no_audits();
    file.criteria.insert(name.to_string(), 1);
    file
}

fn config_with(imports: &[(&str, &str)]) -> ConfigFile<u8> {
    let mut map = StableMap::new();
    for (name, url) in imports {
        map.insert(name.to_string(), RemoteImport { url: url.to_string(), extra: 0u8 });
    }
    ConfigFile {
        default_criteria: "c".to_string(),
        imports: map,
        unaudited: StableMap::new(),
        policy: StableMap::new(),
    }
}

#[test]
fn files_are_loaded_or_refused() {
    assert!(matches!(load_toml::<u8>(Ok(Ok(5))), Ok(5)));
    match load_audits::<u8>(Err("gone".to_string()), Ok(())) {
        Err(LoadError::Read(m)) => assert_eq!(m, "gone"),
        _ => panic!(),
    }
    match load_config::<u8>(Ok(Err("bad".to_string())), Ok(())) {
        Err(LoadError::Parse(m)) => assert_eq!(m, "bad"),
        _ => panic!(),
    }
    let imports = ImportsFile { audits: StableMap::new() };
    match load_imports::<u8>(Ok(Ok(imports)), Err("odd".to_string())) {
        Err(LoadError::Invalid(m)) => assert_eq!(m, "odd"),
        _ => panic!(),
    }
    match load_audits(Ok(Ok(audits_with("x"))), Ok(())) {
        Ok(file) => assert_eq!(file.criteria.key_at(0), "x"),
        Err(_) => panic!(),
    }
    // What could not be read is not called invalid.
    assert!(matches!(
        load_audits::<u8>(Err("gone".to_string()), Err("odd".to_string())),
        Err(LoadError::Read(_))
    ));
}

#[test]
fn the_diff_cache_is_loaded_without_a_check() {
    let mut cache: DiffCache = StableMap::new();
    cache.insert("p".to_string(), StableMap::new());
    match load_diff_cache(Ok(Ok(cache))) {
        Ok(c) => assert_eq!(c.len(), 1),
        Err(_) => panic!(),
    }
    assert!(matches!(load_diff_cache(Err("x".to_string())), Err(LoadError::Read(_))));
    assert!(matches!(load_diff_cache(Ok(Err("x".to_string()))), Err(LoadError::Parse(_))));
}

#[test]
fn stored_files_begin_with_a_heading() {
    let audits = store_audits("a = 1\n");
    assert_eq!(audits.text, "\n# cargo-vet audits file\n\na = 1\n\n");
    assert_eq!(audits.place.root, Root::Store);
    assert_eq!(audits.place.path, vec!["audits.toml"]);
    let config = store_config("b = 2\n");
    assert_eq!(config.text, "\n# cargo-vet config file\n\nb = 2\n\n");
    assert_eq!(config.place.path, vec!["config.toml"]);
    let imports = store_imports("");
    assert_eq!(imports.text, "\n# cargo-vet imports lock\n\n\n");
    assert_eq!(imports.place.path, vec!["imports.lock"]);
    let cache = store_diff_cache(Place::at(Root::DiffCache), "c = 3\n");
    assert_eq!(cache.text, "\nc = 3\n\n");
    assert_eq!(cache.place.root, Root::DiffCache);
    assert_eq!(audits_place().path, vec!["audits.toml"]);
    assert_eq!(config_place().path, vec!["config.toml"]);
    assert_eq!(imports_place().path, vec!["imports.lock"]);
}

#[test]
fn a_heading_keeps_the_lines_of_the_tables() {
    let heading = "\n# about\n";
    let tables = "[a]\r\nb = 1";
    let text = store_toml(heading, tables);
    assert_eq!(text, "\n# about\n\n[a]\r\nb = 1\n");
    let mut expected = lines("\n# about\n\n");
    expected.extend(lines("[a]\r\nb = 1\n"));
    assert_eq!(lines(&text), expected);
    assert_eq!(lines(&text), vec!["", "# about", "", "[a]", "b = 1"]);
}

fn unaudited(major: u64, suggest: bool) -> UnauditedDependency {
    UnauditedDependency {
        version: Version::new(major, 0, 0),
        notes: None,
        suggest,
        criteria: "c".to_string(),
    }
}

#[test]
fn suggested_entries_are_forgotten() {
    let mut config = config_with(&[("foo", "https://foo")]);
    config.unaudited.push_at("a".to_string(), unaudited(1, true));
    config.unaudited.push_at("a".to_string(), unaudited(2, false));
    config.unaudited.push_at("a".to_string(), unaudited(3, true));
    config.unaudited.push_at("a".to_string(), unaudited(4, false));
    config.unaudited.push_at("b".to_string(), unaudited(5, true));
    for _ in 0..2 {
        forget_suggested(&mut config);
        assert_eq!(config.unaudited.len(), 2);
        let left: Vec<u64> = config.unaudited.value_at(0).iter().map(|d| d.version.major()).collect();
        assert_eq!(left, vec![2, 4]);
        assert_eq!(config.unaudited.key_at(1), "b");
        assert_eq!(config.unaudited.value_at(1).len(), 0);
    }
    assert_eq!(config.imports.len(), 1);
    assert_eq!(config.default_criteria, "c");
}

#[test]
fn nothing_of_a_fresh_store_is_left_by_a_suggestion() {
    let metadata = Metadata {
        packages: vec![Package {
            name: "serde".to_string(),
            version: Version::new(1, 0, 0),
            source: Some("registry+https://github.com/rust-lang/crates.io-index".to_string()),
        }],
    };
    let files: (ConfigFile<u8>, AuditsFile<u8>, ImportsFile<u8>) = init_files(&metadata, "c", "c");
    let mut config = files.0;
    assert_eq!(config.unaudited.value_at(0).len(), 1);
    forget_suggested(&mut config);
    assert_eq!(config.unaudited.len(), 1);
    assert_eq!(config.unaudited.value_at(0).len(), 0);
}

#[test]
fn foreign_audits_are_collected() {
    let config = config_with(&[("foo", "https://foo"), ("bar", "https://bar")]);
    let replies =
        vec![ForeignReply::Parsed(audits_with("x")), ForeignReply::Parsed(audits_with("y"))];
    match fetch_foreign_audits(&config, replies) {
        Ok(imports) => {
            assert_eq!(imports.audits.len(), 2);
            assert_eq!(imports.audits.key_at(0), "foo");
            assert_eq!(imports.audits.value_at(0).criteria.key_at(0), "x");
            assert_eq!(imports.audits.key_at(1), "bar");
            assert_eq!(imports.audits.value_at(1).criteria.key_at(0), "y");
        }
        Err(_) => panic!(),
    }
}

#[test]
fn the_first_failed_import_is_reported() {
    let config = config_with(&[("foo", "https://foo"), ("bar", "https://bar")]);
    let replies = vec![
        ForeignReply::Parsed(no_audits()),
        ForeignReply::NotParsed("expected a table".to_string()),
    ];
    match fetch_foreign_audits(&config, replies) {
        Err(m) => assert_eq!(m, "Could not parse bar @ https://bar - expected a table"),
        Ok(_) => panic!(),
    }
    let replies = vec![ForeignReply::NotLoaded("no route".to_string())];
    match fetch_foreign_audits(&config, replies) {
        Err(m) => assert_eq!(m, "Could not load foo @ https://foo - no route"),
        Ok(_) => panic!(),
    }
}

#[test]
fn without_imports_nothing_is_collected() {
    match fetch_foreign_audits(&config_with(&[]), vec![]) {
        Ok(imports) => assert_eq!(imports.audits.len(), 0),
        Err(_) => panic!(),
    }
}
