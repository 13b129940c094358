use cargo_vet::unpack::{
    begin_unpack, entry_is_under, fetch_is_ok, mark_text, unpack_package, Outcome, PathPart,
    UnpackError, UnpackStep,
};

fn path(parts: &[&str]) -> Vec<PathPart> {
    let mut out = Vec::new();
    for part in parts {
        if *part == ".." {
            out.push(PathPart::Special);
        } else {
            out.push(PathPart::Normal(part.as_bytes().to_vec()));
        }
    }
    out
}

fn dir() -> Vec<u8> {
    b"serde-1.0.0".to_vec()
}

fn after(step: UnpackStep, outcome: Outcome) -> UnpackStep {
    unpack_package(step, outcome, &dir())
}

#[test]
fn entries_lie_under_the_package_directory() {
    assert!(entry_is_under(&path(&["serde-1.0.0", "src", "lib.rs"]), &dir()));
    assert!(entry_is_under(&path(&["serde-1.0.0"]), &dir()));
    assert!(!entry_is_under(&path(&["serde-1.0.1", "src"]), &dir()));
    assert!(!entry_is_under(&path(&["serde-1.0.0x"]), &dir()));
    assert!(!entry_is_under(&path(&["..", "serde-1.0.0"]), &dir()));
    assert!(!entry_is_under(&path(&[]), &dir()));
}

#[test]
fn unpacking_begins_with_a_clean_slate() {
    assert!(matches!(begin_unpack(true), UnpackStep::Remove));
    assert!(matches!(begin_unpack(false), UnpackStep::Create));
}

#[test]
fn unpacking_takes_its_course() {
    let mut step = begin_unpack(true);
    step = after(step, Outcome::Done);
    assert!(matches!(step, UnpackStep::Create));
    step = after(step, Outcome::Done);
    assert!(matches!(step, UnpackStep::Open));
    step = after(step, Outcome::Done);
    assert!(matches!(step, UnpackStep::Next));
    step = after(step, Outcome::Entry(Ok(path(&["serde-1.0.0", "lib.rs"]))));
    assert!(matches!(&step, UnpackStep::Unpack(p) if p.len() == 2));
    step = after(step, Outcome::Done);
    assert!(matches!(step, UnpackStep::Next));
    step = after(step, Outcome::End);
    assert!(matches!(step, UnpackStep::OpenMark));
    step = after(step, Outcome::Done);
    assert!(matches!(step, UnpackStep::WriteMark));
    step = after(step, Outcome::Done);
    assert!(matches!(step, UnpackStep::Finished));
}

#[test]
fn an_entry_outside_ends_the_unpacking() {
    let step = after(UnpackStep::Next, Outcome::Entry(Ok(path(&["other-1.0.0", "lib.rs"]))));
    assert!(matches!(step, UnpackStep::Failed(UnpackError::Outside(p)) if p.len() == 2));
}

#[test]
fn each_failure_is_told_apart() {
    let e = || Outcome::Failed("x".to_string());
    for step in [UnpackStep::Remove, UnpackStep::Create, UnpackStep::Open, UnpackStep::WriteMark] {
        assert!(matches!(after(step, e()), UnpackStep::Failed(UnpackError::Io(m)) if m == "x"));
    }
    assert!(matches!(
        after(UnpackStep::Next, e()),
        UnpackStep::Failed(UnpackError::Iterate(m)) if m == "x"
    ));
    assert!(matches!(
        after(UnpackStep::Next, Outcome::Entry(Err("y".to_string()))),
        UnpackStep::Failed(UnpackError::EntryPath(m)) if m == "y"
    ));
    assert!(matches!(
        after(UnpackStep::Unpack(path(&["serde-1.0.0"])), e()),
        UnpackStep::Failed(UnpackError::Unpack(p, m)) if p.len() == 1 && m == "x"
    ));
    assert!(matches!(
        after(UnpackStep::OpenMark, e()),
        UnpackStep::Failed(UnpackError::OpenMark(m)) if m == "x"
    ));
}

#[test]
fn the_mark_tells_that_a_package_was_unpacked() {
    assert_eq!(mark_text(), "ok");
    assert!(fetch_is_ok(true, true, Some(mark_text())));
    assert!(!fetch_is_ok(true, true, Some("ok\n")));
    assert!(!fetch_is_ok(true, true, Some("")));
    assert!(!fetch_is_ok(true, true, None));
    assert!(!fetch_is_ok(true, false, Some("ok")));
    assert!(!fetch_is_ok(false, false, Some("ok")));
}

/// Unpacks an archive whose own file in the place of the mark holds `left`, and tells what that
/// file holds in the end.
fn mark_after_unpacking(left: &str) -> String {
    let mut file = String::new();
    let mut entries = vec![path(&["serde-1.0.0", ".cargo-ok"])];
    let mut step = begin_unpack(false);
    loop {
        let outcome = match &step {
            UnpackStep::Next => match entries.pop() {
                Some(entry) => Outcome::Entry(Ok(entry)),
                None => Outcome::End,
            },
            UnpackStep::Unpack(_) => {
                file = left.to_string();
                Outcome::Done
            }
            UnpackStep::OpenMark => {
                file.clear();
                Outcome::Done
            }
            UnpackStep::WriteMark => {
                let start = mark_text().len().min(file.len());
                file.replace_range(..start, mark_text());
                Outcome::Done
            }
            UnpackStep::Finished => return file,
            UnpackStep::Failed(_) => panic!(),
            _ => Outcome::Done,
        };
        step = after(step, outcome);
    }
}

#[test]
fn a_file_of_the_archive_in_place_of_the_mark_is_overwritten() {
    for left in ["", "o", "ok", "no", "okay", "okok", "anything else\n"] {
        let file = mark_after_unpacking(left);
        assert_eq!(file, "ok");
        assert!(fetch_is_ok(true, true, Some(&file)));
    }
    assert!(!fetch_is_ok(true, true, Some("okay")));
}
