use cargo_vet::cli::{
    check_start, feature_options, guesses_deeper, is_freestanding, is_init, other_options,
    CertifyArgs, Cli, Commands, DiffArgs, FeatureOption, Features, InspectArgs, StartError,
    SuggestArgs, Verbose, Workspace,
};

fn strings(list: &[&str]) -> Vec<String> {
    list.iter().map(|s| s.to_string()).collect()
}

#[test]
fn the_trial_command_line_asks_for_nothing() {
    let cli = Cli::mock();
    assert!(cli.command.is_none());
    assert!(cli.locked);
    assert_eq!(cli.verbose, Verbose::Off);
    assert!(!cli.diff_cache);
    assert_eq!(feature_options(&cli.features).len(), 0);
    assert_eq!(other_options(&cli.workspace).len(), 0);
}

#[test]
fn features_are_handed_on() {
    let options = feature_options(&Features {
        all_features: true,
        no_default_features: true,
        features: strings(&["a", "b"]),
    });
    assert_eq!(options.len(), 3);
    assert!(matches!(options[0], FeatureOption::All));
    assert!(matches!(options[1], FeatureOption::NoDefault));
    assert!(matches!(&options[2], FeatureOption::Listed(l) if *l == strings(&["a", "b"])));
    let options = feature_options(&Features {
        all_features: false,
        no_default_features: true,
        features: vec![],
    });
    assert_eq!(options.len(), 1);
    assert!(matches!(options[0], FeatureOption::NoDefault));
}

#[test]
fn packages_are_chosen_and_left_out() {
    let all = Workspace {
        package: strings(&["a", "b"]),
        workspace: false,
        all: true,
        exclude: strings(&["c"]),
    };
    assert_eq!(
        other_options(&all),
        strings(&["--workspace", "--package", "a", "--package", "b", "--exclude", "c"])
    );
    let some = Workspace {
        package: vec![],
        workspace: false,
        all: false,
        exclude: strings(&["c", "d"]),
    };
    assert_eq!(other_options(&some), strings(&["--exclude", "c", "--exclude", "d"]));
    let workspace = Workspace { package: vec![], workspace: true, all: false, exclude: vec![] };
    assert_eq!(other_options(&workspace), strings(&["--workspace"]));
}

fn inspect() -> Commands {
    Commands::Inspect(InspectArgs { package: "p".to_string(), version: "1.0.0".to_string() })
}

fn diff() -> Commands {
    Commands::Diff(DiffArgs {
        package: "p".to_string(),
        version1: "1.0.0".to_string(),
        version2: "2.0.0".to_string(),
    })
}

fn certify() -> Commands {
    Commands::Certify(CertifyArgs {
        package: "p".to_string(),
        version1: "1.0.0".to_string(),
        version2: None,
    })
}

#[test]
fn some_commands_stand_alone() {
    assert!(is_freestanding(&Some(Commands::HelpMarkdown)));
    assert!(is_freestanding(&Some(inspect())));
    assert!(is_freestanding(&Some(diff())));
    assert!(!is_freestanding(&Some(certify())));
    assert!(!is_freestanding(&Some(Commands::Init)));
    assert!(!is_freestanding(&None));
}

#[test]
fn commands_start_where_they_may() {
    assert!(is_init(true));
    assert!(!is_init(false));
    assert_eq!(check_start(&Some(Commands::Init), true), Err(StartError::AlreadyInitialized));
    assert_eq!(check_start(&Some(Commands::Init), false), Ok(()));
    for command in [None, Some(certify()), Some(Commands::Fmt), Some(Commands::AcceptCriteriaChange)] {
        assert_eq!(check_start(&command, true), Ok(()));
        assert_eq!(check_start(&command, false), Err(StartError::NotInitialized));
    }
    for command in [Some(Commands::HelpMarkdown), Some(inspect()), Some(diff())] {
        assert_eq!(check_start(&command, true), Ok(()));
        assert_eq!(check_start(&command, false), Ok(()));
    }
}

#[test]
fn only_a_suggestion_guesses() {
    assert!(guesses_deeper(&Some(Commands::Suggest(SuggestArgs { guess_deeper: true }))));
    assert!(!guesses_deeper(&Some(Commands::Suggest(SuggestArgs { guess_deeper: false }))));
    assert!(!guesses_deeper(&None));
}
