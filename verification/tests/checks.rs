use cargo_vet::cli::{DiffArgs, InspectArgs};
use cargo_vet::request::{cmd_diff, cmd_inspect, DiffRequestError};
use cargo_vet::vet::{begin_check, cmd_suggest, cmd_vet, CheckEvent, CheckStep};

#[test]
fn a_check_saves_the_imports_at_the_end() {
    let mut step = begin_check();
    assert_eq!(step, CheckStep::LoadAudits);
    step = cmd_vet(false, step, CheckEvent::Done);
    assert_eq!(step, CheckStep::LoadConfig);
    step = cmd_vet(false, step, CheckEvent::Done);
    assert_eq!(step, CheckStep::FetchImports);
    step = cmd_vet(false, step, CheckEvent::Done);
    assert_eq!(step, CheckStep::Resolve { forget: false });
    step = cmd_vet(false, step, CheckEvent::Resolved { has_errors: false });
    assert_eq!(step, CheckStep::Report { has_errors: false });
    step = cmd_vet(false, step, CheckEvent::Done);
    assert_eq!(step, CheckStep::SaveImports);
    step = cmd_vet(false, step, CheckEvent::Done);
    assert_eq!(step, CheckStep::Finished);
}

#[test]
fn a_check_with_errors_saves_nothing() {
    let step = cmd_vet(
        true,
        CheckStep::Resolve { forget: false },
        CheckEvent::Resolved { has_errors: true },
    );
    assert_eq!(step, CheckStep::Report { has_errors: true });
    assert_eq!(cmd_vet(true, step, CheckEvent::Done), CheckStep::Finished);
    for step in [
        CheckStep::LoadAudits,
        CheckStep::LoadConfig,
        CheckStep::FetchImports,
        CheckStep::LoadImports,
        CheckStep::Report { has_errors: false },
        CheckStep::SaveImports,
    ] {
        assert_eq!(cmd_vet(true, step, CheckEvent::Failed), CheckStep::Failed);
        assert_eq!(cmd_suggest(true, step, CheckEvent::Failed), CheckStep::Failed);
    }
}

#[test]
fn a_locked_check_reads_the_imports_lock() {
    assert_eq!(cmd_vet(true, CheckStep::LoadConfig, CheckEvent::Done), CheckStep::LoadImports);
    assert_eq!(cmd_suggest(true, CheckStep::LoadConfig, CheckEvent::Done), CheckStep::LoadImports);
    assert_eq!(
        cmd_vet(true, CheckStep::LoadImports, CheckEvent::Done),
        CheckStep::Resolve { forget: false }
    );
}

#[test]
fn a_suggestion_forgets_and_saves_nothing() {
    assert_eq!(
        cmd_suggest(false, CheckStep::FetchImports, CheckEvent::Done),
        CheckStep::Resolve { forget: true }
    );
    assert_eq!(
        cmd_suggest(false, CheckStep::Report { has_errors: false }, CheckEvent::Done),
        CheckStep::Finished
    );
}

#[test]
fn a_package_to_look_at() {
    let args = |v: &str| InspectArgs { package: "serde".to_string(), version: v.to_string() };
    let id = cmd_inspect(&args("1.2.3-rc.1")).unwrap();
    assert_eq!(id.name, "serde");
    assert_eq!(id.version.to_text(), "1.2.3-rc.1");
    assert!(cmd_inspect(&args("1.2")).is_none());
}

#[test]
fn versions_to_compare() {
    let args = |a: &str, b: &str| DiffArgs {
        package: "serde".to_string(),
        version1: a.to_string(),
        version2: b.to_string(),
    };
    match cmd_diff(&args("1.0.0", "2.0.0+x")) {
        Ok(request) => {
            assert_eq!(request.line, "fetching serde 1.0.0 and 2.0.0+x ...");
            assert_eq!(request.first.version.to_text(), "1.0.0");
            assert_eq!(request.second.version.to_text(), "2.0.0+x");
            assert_eq!(request.second.name, "serde");
        }
        Err(_) => panic!(),
    }
    assert!(matches!(cmd_diff(&args("x", "y")), Err(DiffRequestError::First)));
    assert!(matches!(cmd_diff(&args("1.0.0", "y")), Err(DiffRequestError::Second)));
}
