use cargo_vet::diffstat::{
    diff_crate, diffstat_crate, parse_diffnum, parse_diffstat, read_diffstat, DiffStatError,
};

#[test]
fn numbers_of_parts() {
    assert_eq!(parse_diffnum(Some(" 9 insertions(+)")), Some(9));
    assert_eq!(parse_diffnum(Some(" 3 deletions(-)\n")), Some(3));
    assert_eq!(parse_diffnum(Some("9")), None);
    assert_eq!(parse_diffnum(Some(" nine insertions")), None);
    assert_eq!(parse_diffnum(Some("")), None);
    assert_eq!(parse_diffnum(None), None);
}

#[test]
fn reports_are_counted() {
    let report = " 3 files changed, 9 insertions(+), 3 deletions(-)\n";
    let stat = parse_diffstat(report.to_string());
    assert_eq!(stat.count, 12);
    assert_eq!(stat.raw, report);
    assert_eq!(parse_diffstat(String::new()).count, 0);
    assert_eq!(parse_diffstat(" 1 file changed, 1 insertion(+)\n".to_string()).count, 1);
    assert_eq!(parse_diffstat(" 1 file changed, 4 deletions(-)\n".to_string()).count, 4);
    assert_eq!(parse_diffstat(" 2 files changed\n".to_string()).count, 0);
    assert_eq!(parse_diffstat(" 2 files changed, many, 5 deletions(-)".to_string()).count, 5);
}

#[test]
fn a_run_of_git_is_read() {
    let report = b" 1 file changed, 2 insertions(+), 5 deletions(-)\n".to_vec();
    match diffstat_crate(Some(1), report.clone(), vec![]) {
        Ok(stat) => {
            assert_eq!(stat.count, 7);
            assert_eq!(stat.raw.as_bytes(), report.as_slice());
        }
        Err(_) => panic!(),
    }
    match diffstat_crate(Some(0), vec![], vec![0xff]) {
        Ok(stat) => {
            assert_eq!(stat.count, 0);
            assert_eq!(stat.raw, "");
        }
        Err(_) => panic!(),
    }
    match diffstat_crate(Some(1), "é, 1 ü\n".as_bytes().to_vec(), vec![]) {
        Ok(stat) => {
            assert_eq!(stat.count, 1);
            assert_eq!(stat.raw, "é, 1 ü\n");
        }
        Err(_) => panic!(),
    }
}

#[test]
fn a_failed_run_of_git_is_reported() {
    assert!(matches!(diffstat_crate(None, vec![], vec![]), Err(DiffStatError::NoStatus)));
    match diffstat_crate(Some(128), b"some".to_vec(), b"fatal".to_vec()) {
        Err(DiffStatError::Failed(m)) => assert_eq!(m, "command failed!\nout:\nsome\nstderr:\nfatal"),
        _ => panic!(),
    }
    assert!(matches!(
        diffstat_crate(Some(2), vec![0xff], vec![]),
        Err(DiffStatError::FailedWithoutText)
    ));
    assert!(matches!(
        diffstat_crate(Some(-1), vec![], vec![0xc3, 0x28]),
        Err(DiffStatError::FailedWithoutText)
    ));
    assert!(matches!(diffstat_crate(Some(1), vec![0xff], vec![]), Err(DiffStatError::NotText)));
}

#[test]
fn odd_reports_are_refused() {
    match read_diffstat("a, 1 b, 2 c, 3 d".to_string()) {
        Err(DiffStatError::TooManyParts(m)) => assert_eq!(m, "a, 1 b, 2 c, 3 d"),
        _ => panic!(),
    }
    match read_diffstat("a, 18446744073709551615 b, 1 c".to_string()) {
        Err(DiffStatError::TooManyLines(m)) => assert_eq!(m, "a, 18446744073709551615 b, 1 c"),
        _ => panic!(),
    }
    match read_diffstat("a, 18446744073709551615 b, 0 c".to_string()) {
        Ok(stat) => assert_eq!(stat.count, u64::MAX),
        Err(_) => panic!(),
    }
}

#[test]
fn showing_a_diff_succeeds_or_fails() {
    assert_eq!(diff_crate(Some(0)), Ok(()));
    assert_eq!(diff_crate(Some(1)), Ok(()));
    for status in [Some(2), Some(128), Some(-1), None] {
        assert_eq!(
            diff_crate(status),
            Err("git diff failed! (this is probably just a bug in how we check error codes)"
                .to_string())
        );
    }
}
