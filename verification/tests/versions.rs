use cargo_vet::version::{root_version, Order, Version};
use std::cmp::Ordering;

const GOOD: [&str; 20] = [
    "0.0.0",
    "1.2.3",
    "10.20.30",
    "18446744073709551615.0.1",
    "1.0.0-alpha",
    "1.0.0-alpha.1",
    "1.0.0-alpha.beta",
    "1.0.0-beta.2",
    "1.0.0-beta.11",
    "1.0.0-rc.1",
    "1.0.0",
    "1.0.0+build",
    "1.0.0+0",
    "1.0.0+00",
    "1.0.0+007.a",
    "1.0.0-0",
    "1.0.0-00a",
    "1.0.0--",
    "1.0.0-x-y.z+001.-",
    "1.0.1",
];

const BAD: [&str; 20] = [
    "",
    "1",
    "1.2",
    "1.2.",
    "1.2.3.4",
    "01.2.3",
    "1.02.3",
    "1.2.03",
    "v1.2.3",
    " 1.2.3",
    "1.2.3 ",
    "1.2.3-",
    "1.2.3+",
    "1.2.3-01",
    "1.2.3-a..b",
    "1.2.3+a..b",
    "1.2.3-é",
    "1.2.x",
    "18446744073709551616.0.0",
    "-1.2.3",
];

#[test]
fn versions_are_read_and_written() {
    for s in GOOD {
        let v = Version::parse(s).unwrap();
        assert_eq!(v.to_text(), s);
        let outside = cargo_metadata::Version::parse(s).unwrap();
        assert_eq!(outside.to_string(), s);
        assert_eq!(v.major(), outside.major);
    }
}

#[test]
fn other_texts_are_no_versions() {
    for s in BAD {
        assert!(Version::parse(s).is_none(), "{:?}", s);
        assert!(cargo_metadata::Version::parse(s).is_err(), "{:?}", s);
    }
}

#[test]
fn the_text_names_the_version() {
    for a in GOOD {
        for b in GOOD {
            let x = Version::parse(a).unwrap();
            let y = Version::parse(b).unwrap();
            assert_eq!(x.same(&y), a == b);
            assert!(x.same(&x.clone()));
        }
    }
    assert!(!Version::parse("1.0.0+0").unwrap().same(&Version::parse("1.0.0+00").unwrap()));
}

#[test]
fn versions_are_ordered_as_semantic_versions() {
    for a in GOOD {
        for b in GOOD {
            let x = Version::parse(a).unwrap();
            let y = Version::parse(b).unwrap();
            let p = cargo_metadata::Version::parse(a).unwrap();
            let q = cargo_metadata::Version::parse(b).unwrap();
            let expected = match p.cmp(&q) {
                Ordering::Less => Order::Before,
                Ordering::Equal => Order::Same,
                Ordering::Greater => Order::After,
            };
            assert_eq!(x.order(&y), expected, "{} {}", a, b);
        }
    }
    let early = Version::parse("1.0.0-beta.2").unwrap();
    let late = Version::parse("1.0.0-beta.11").unwrap();
    assert_eq!(early.order(&late), Order::Before);
    assert_eq!(late.order(&early), Order::After);
    assert_eq!(Version::new(2, 0, 0).order(&Version::new(10, 0, 0)), Order::Before);
}

#[test]
fn versions_of_three_numbers() {
    assert_eq!(Version::new(1, 20, u64::MAX).to_text(), "1.20.18446744073709551615");
    assert!(Version::new(1, 2, 3).same(&Version::parse("1.2.3").unwrap()));
    assert_eq!(root_version().to_text(), "0.0.0");
}
