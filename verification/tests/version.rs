use phm::version::{PhpVersion, UpperBound, VersionConstraint};

#[test]
fn test_parse() {
    assert_eq!(PhpVersion::parse("8.2"), Some(PhpVersion::new(8, 2)));
    assert_eq!(PhpVersion::parse("7.4"), Some(PhpVersion::new(7, 4)));
    assert_eq!(PhpVersion::parse("8.2.30"), Some(PhpVersion::new(8, 2)));
}

#[test]
fn test_constraints() {
    assert_eq!(
        PhpVersion::from_constraint(">=8.2"),
        Some(PhpVersion::new(8, 2))
    );
    assert_eq!(
        PhpVersion::from_constraint("^8.2"),
        Some(PhpVersion::new(8, 2))
    );
    assert_eq!(
        PhpVersion::from_constraint("~8.2"),
        Some(PhpVersion::new(8, 2))
    );
    assert_eq!(
        PhpVersion::from_constraint("8.2.*"),
        Some(PhpVersion::new(8, 2))
    );
    assert_eq!(
        PhpVersion::from_constraint("~8.2.0"),
        Some(PhpVersion::new(8, 2))
    );
}

#[test]
fn test_or_constraints() {
    // Should pick highest group
    assert_eq!(
        PhpVersion::from_constraint("^7.4 || ^8.0"),
        Some(PhpVersion::new(8, 0))
    );
    assert_eq!(
        PhpVersion::from_constraint("^7.4|^8.0"),
        Some(PhpVersion::new(8, 0))
    );
}

#[test]
fn test_resolve() {
    let installed = vec![
        PhpVersion::new(7, 4),
        PhpVersion::new(8, 1),
        PhpVersion::new(8, 2),
        PhpVersion::new(8, 4),
        PhpVersion::new(8, 5),
    ];

    // >=8.2 should resolve to 8.2 (lowest matching)
    assert_eq!(
        PhpVersion::resolve(">=8.2", &installed),
        Some(PhpVersion::new(8, 2))
    );

    // ^8.1 should resolve to 8.1
    assert_eq!(
        PhpVersion::resolve("^8.1", &installed),
        Some(PhpVersion::new(8, 1))
    );

    // >=9.0 should resolve to None
    assert_eq!(PhpVersion::resolve(">=9.0", &installed), None);
}

#[test]
fn parse_trims_whitespace() {
    assert_eq!(PhpVersion::parse("  8.3\n"), Some(PhpVersion::new(8, 3)));
    assert_eq!(PhpVersion::parse("\t7.4 "), Some(PhpVersion::new(7, 4)));
}

#[test]
fn parse_rejects_malformed_text() {
    assert_eq!(PhpVersion::parse("8"), None);
    assert_eq!(PhpVersion::parse(""), None);
    assert_eq!(PhpVersion::parse("8."), None);
    assert_eq!(PhpVersion::parse(".2"), None);
    assert_eq!(PhpVersion::parse("a.b"), None);
    assert_eq!(PhpVersion::parse("256.1"), None);
    assert_eq!(PhpVersion::parse("-1.2"), None);
    assert_eq!(PhpVersion::parse("8 .2"), None);
}

#[test]
fn parse_follows_u8_parsing() {
    assert_eq!(PhpVersion::parse("+8.+2"), Some(PhpVersion::new(8, 2)));
    assert_eq!(PhpVersion::parse("08.02"), Some(PhpVersion::new(8, 2)));
    assert_eq!(PhpVersion::parse("255.255"), Some(PhpVersion::new(255, 255)));
    assert_eq!(PhpVersion::parse("+.2"), None);
}

#[test]
fn to_string_prints_major_dot_minor() {
    assert_eq!(PhpVersion::new(8, 2).to_string(), "8.2");
    assert_eq!(PhpVersion::new(10, 0).to_string(), "10.0");
    assert_eq!(PhpVersion::new(255, 17).to_string(), "255.17");
}

#[test]
fn to_string_then_parse_gives_version_back() {
    for major in [0u8, 5, 7, 8, 9, 10, 99, 100, 255] {
        for minor in [0u8, 1, 4, 10, 200, 255] {
            let v = PhpVersion::new(major, minor);
            assert_eq!(PhpVersion::parse(&v.to_string()), Some(v));
        }
    }
}

#[test]
fn readme_constraint_table() {
    assert_eq!(PhpVersion::from_constraint(">=8.2"), Some(PhpVersion::new(8, 2)));
    assert_eq!(PhpVersion::from_constraint("^8.2"), Some(PhpVersion::new(8, 2)));
    assert_eq!(PhpVersion::from_constraint("~8.2"), Some(PhpVersion::new(8, 2)));
    assert_eq!(PhpVersion::from_constraint("^7.4 || ^8.0"), Some(PhpVersion::new(8, 0)));
    assert_eq!(PhpVersion::from_constraint("8.2.*"), Some(PhpVersion::new(8, 2)));
}

#[test]
fn and_constraint_takes_lower_bound() {
    assert_eq!(PhpVersion::from_constraint(">=8.1 <9.0"), Some(PhpVersion::new(8, 1)));
    assert_eq!(PhpVersion::from_constraint("<9.0 >8.3"), Some(PhpVersion::new(8, 3)));
    // no lower bound: the first part decides
    assert_eq!(PhpVersion::from_constraint("^8.1 <9.0"), Some(PhpVersion::new(8, 1)));
    assert_eq!(PhpVersion::from_constraint(">=x.y   ~7.3"), None);
}

#[test]
fn or_constraint_edge_cases() {
    assert_eq!(PhpVersion::from_constraint("^8.0 || ^7.4"), Some(PhpVersion::new(8, 0)));
    assert_eq!(PhpVersion::from_constraint("bogus || ^7.2"), Some(PhpVersion::new(7, 2)));
    assert_eq!(PhpVersion::from_constraint("a || b"), None);
    assert_eq!(PhpVersion::from_constraint("  ^5.6|7.0|^8.3  "), Some(PhpVersion::new(8, 3)));
}

#[test]
fn or_constraint_takes_lowest_of_highest_major() {
    assert_eq!(PhpVersion::from_constraint("^8.1 || ^8.3"), Some(PhpVersion::new(8, 1)));
    assert_eq!(PhpVersion::from_constraint("^8.3 || ^8.1"), Some(PhpVersion::new(8, 1)));
    assert_eq!(PhpVersion::from_constraint("^8.3|^8.1"), Some(PhpVersion::new(8, 1)));
    assert_eq!(PhpVersion::from_constraint("^7.4 || ^8.2 || ^8.1"), Some(PhpVersion::new(8, 1)));
    assert_eq!(
        VersionConstraint::from_composer("~8.2 || 8.2.*").unwrap(),
        VersionConstraint { target: PhpVersion::new(8, 2), upper: UpperBound::SameMajor }
    );
    assert_eq!(
        VersionConstraint::from_composer("8.2.* || ~8.2").unwrap(),
        VersionConstraint { target: PhpVersion::new(8, 2), upper: UpperBound::SameMinor }
    );
}

#[test]
fn resolve_keeps_within_the_upper_bound() {
    let installed = vec![PhpVersion::new(8, 3), PhpVersion::new(8, 5)];
    assert_eq!(PhpVersion::resolve("8.4.*", &installed), None);
    assert_eq!(PhpVersion::resolve("^8.4", &[PhpVersion::new(9, 0)]), None);
    assert_eq!(
        PhpVersion::resolve("^8.4", &[PhpVersion::new(8, 5), PhpVersion::new(9, 0)]),
        Some(PhpVersion::new(8, 5))
    );
    assert_eq!(
        PhpVersion::resolve("^8.4", &[PhpVersion::new(9, 0), PhpVersion::new(8, 5)]),
        Some(PhpVersion::new(8, 5))
    );
    assert_eq!(PhpVersion::resolve("~8.3.0", &installed), Some(PhpVersion::new(8, 3)));
    assert_eq!(PhpVersion::resolve(">=8.4", &installed), Some(PhpVersion::new(8, 5)));
}

#[test]
fn single_constraint_operators() {
    assert_eq!(PhpVersion::from_constraint("<=7.4"), Some(PhpVersion::new(7, 4)));
    assert_eq!(PhpVersion::from_constraint("<8.0"), Some(PhpVersion::new(8, 0)));
    assert_eq!(PhpVersion::from_constraint(">8.0"), Some(PhpVersion::new(8, 0)));
    assert_eq!(PhpVersion::from_constraint("8.1"), Some(PhpVersion::new(8, 1)));
    assert_eq!(PhpVersion::from_constraint("8.1.*.*"), Some(PhpVersion::new(8, 1)));
    assert_eq!(PhpVersion::from_constraint("*"), None);
    assert_eq!(PhpVersion::from_constraint(""), None);
}

#[test]
fn resolve_picks_lowest_satisfying() {
    let installed = vec![PhpVersion::new(8, 5), PhpVersion::new(8, 3), PhpVersion::new(7, 4)];
    assert_eq!(PhpVersion::resolve("^8.0", &installed), Some(PhpVersion::new(8, 3)));
    assert_eq!(PhpVersion::resolve("^7.0", &installed), Some(PhpVersion::new(7, 4)));
    assert_eq!(PhpVersion::resolve("junk", &installed), None);
    assert_eq!(PhpVersion::resolve(">=8.0", &[]), None);
}

#[test]
fn composer_constraint_bounds() {
    let c = VersionConstraint::from_composer("8.4.*").unwrap();
    assert_eq!(c.target(), PhpVersion::new(8, 4));
    assert_eq!(c.upper, UpperBound::SameMinor);
    assert_eq!(VersionConstraint::from_composer("^8.4").unwrap().upper, UpperBound::SameMajor);
    assert_eq!(VersionConstraint::from_composer("~8.4").unwrap().upper, UpperBound::SameMajor);
    assert_eq!(VersionConstraint::from_composer("~8.4.0").unwrap().upper, UpperBound::SameMinor);
    assert_eq!(VersionConstraint::from_composer(">=8.4").unwrap().upper, UpperBound::Unbounded);
    assert_eq!(VersionConstraint::from_composer("8.4").unwrap().upper, UpperBound::SameMinor);
    assert_eq!(
        VersionConstraint::from_composer(">=8.1 <9.0").unwrap(),
        VersionConstraint { target: PhpVersion::new(8, 1), upper: UpperBound::Unbounded }
    );
    assert_eq!(
        VersionConstraint::from_composer("^7.4 || 8.0.*").unwrap(),
        VersionConstraint { target: PhpVersion::new(8, 0), upper: UpperBound::SameMinor }
    );
    assert_eq!(VersionConstraint::from_composer("nope"), None);
}

#[test]
fn wildcard_does_not_fall_back_to_higher_release() {
    let installed = vec![PhpVersion::new(8, 3), PhpVersion::new(8, 5)];
    let c = VersionConstraint::from_composer("8.4.*").unwrap();
    assert_eq!(c.resolve(&installed), None);
    let c = VersionConstraint::from_composer("^8.4").unwrap();
    assert_eq!(c.resolve(&installed), Some(PhpVersion::new(8, 5)));
    let c = VersionConstraint::from_composer(">=7.0").unwrap();
    assert_eq!(c.resolve(&installed), Some(PhpVersion::new(8, 3)));
}

#[test]
fn exact_constraint_accepts_only_its_version() {
    let c = VersionConstraint::exact(PhpVersion::new(8, 2));
    assert!(c.satisfies(PhpVersion::new(8, 2)));
    assert!(!c.satisfies(PhpVersion::new(8, 3)));
    assert!(!c.satisfies(PhpVersion::new(8, 1)));
    assert_eq!(c.target(), PhpVersion::new(8, 2));
    let installed = vec![PhpVersion::new(8, 1), PhpVersion::new(8, 2), PhpVersion::new(8, 3)];
    assert_eq!(c.resolve(&installed), Some(PhpVersion::new(8, 2)));
}

#[test]
fn same_major_constraint_stays_in_major() {
    let c = VersionConstraint { target: PhpVersion::new(7, 4), upper: UpperBound::SameMajor };
    assert!(c.satisfies(PhpVersion::new(7, 4)));
    assert!(!c.satisfies(PhpVersion::new(8, 0)));
    assert!(!c.satisfies(PhpVersion::new(7, 3)));
}

#[test]
fn version_order_is_major_then_minor() {
    assert!(PhpVersion::new(7, 4).le(&PhpVersion::new(8, 0)));
    assert!(PhpVersion::new(8, 0).le(&PhpVersion::new(8, 0)));
    assert!(!PhpVersion::new(8, 1).le(&PhpVersion::new(8, 0)));
    assert!(PhpVersion::new(7, 4) < PhpVersion::new(8, 0));
}

#[test]
fn constraint_forms_target_their_version() {
    for v in [PhpVersion::new(5, 6), PhpVersion::new(7, 4), PhpVersion::new(8, 2), PhpVersion::new(10, 0), PhpVersion::new(255, 255)] {
        for op in ["", ">=", ">", "^", "~"] {
            for sfx in ["", ".*", ".0"] {
                let c = format!("{}{}{}", op, v.to_string(), sfx);
                assert_eq!(PhpVersion::from_constraint(&c), Some(v), "{}", c);
            }
        }
    }
}
