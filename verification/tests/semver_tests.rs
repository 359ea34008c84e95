use package_lib::semver::{Position, Version, VersionError};

#[test]
fn parse_simple_version() {
    let v = Version::parse("1.2.3").unwrap();
    assert_eq!(v, Version { major: 1, minor: 2, patch: 3 });
}

#[test]
fn parse_zero_components() {
    let v = Version::parse("0.0.0").unwrap();
    assert_eq!(v, Version { major: 0, minor: 0, patch: 0 });
}

#[test]
fn parse_max_components() {
    let v = Version::parse("65535.65535.65535").unwrap();
    assert_eq!(v, Version { major: 65535, minor: 65535, patch: 65535 });
}

#[test]
fn round_trip_parse_then_display() {
    for s in ["1.2.3", "0.0.0", "10.0.999", "65535.0.1", "7.65535.0"] {
        let v = Version::parse(s).unwrap();
        assert_eq!(v.to_text(), s);
    }
}

#[test]
fn round_trip_display_then_parse() {
    let vs = [
        Version { major: 0, minor: 0, patch: 0 },
        Version { major: 1, minor: 2, patch: 3 },
        Version { major: 65535, minor: 1, patch: 65535 },
        Version { major: 10, minor: 200, patch: 3000 },
    ];
    for v in vs {
        assert_eq!(Version::parse(v.to_text().as_str()).unwrap(), v);
    }
}

#[test]
fn rejects_empty() {
    assert_eq!(Version::parse(""), Err(VersionError::Empty));
}

#[test]
fn rejects_missing_patch() {
    assert_eq!(
        Version::parse("1.2"),
        Err(VersionError::UnexpectedEnd(Position::Patch))
    );
}

#[test]
fn rejects_leading_zero_in_major() {
    assert_eq!(
        Version::parse("01.2.3"),
        Err(VersionError::LeadingZero(Position::Major))
    );
}

#[test]
fn rejects_trailing_characters() {
    assert_eq!(
        Version::parse("1.2.3x"),
        Err(VersionError::UnexpectedCharAfter(Position::Patch, 'x'))
    );
}

#[test]
fn rejects_major_overflow() {
    assert_eq!(
        Version::parse("70000.0.0"),
        Err(VersionError::Overflow(Position::Major))
    );
}

#[test]
fn rejects_non_digit_where_digit_expected() {
    assert_eq!(
        Version::parse("a.2.3"),
        Err(VersionError::UnexpectedChar(Position::Major, 'a'))
    );
    assert_eq!(
        Version::parse("1.x.3"),
        Err(VersionError::UnexpectedChar(Position::Minor, 'x'))
    );
}

#[test]
fn rejects_missing_minor() {
    assert_eq!(
        Version::parse("1"),
        Err(VersionError::UnexpectedEnd(Position::Minor))
    );
    assert_eq!(
        Version::parse("1."),
        Err(VersionError::UnexpectedEnd(Position::Minor))
    );
}

#[test]
fn rejects_leading_zero_elsewhere() {
    assert_eq!(
        Version::parse("1.02.3"),
        Err(VersionError::LeadingZero(Position::Minor))
    );
    assert_eq!(
        Version::parse("1.2.00"),
        Err(VersionError::LeadingZero(Position::Patch))
    );
}

#[test]
fn single_zero_components_are_fine() {
    assert_eq!(
        Version::parse("0.1.0").unwrap(),
        Version { major: 0, minor: 1, patch: 0 }
    );
}

#[test]
fn increment_major_resets_lower_fields() {
    let v = Version { major: 1, minor: 2, patch: 3 };
    assert_eq!(v.increment_major(), Version { major: 2, minor: 0, patch: 0 });
}

#[test]
fn increment_minor_resets_patch() {
    let v = Version { major: 1, minor: 2, patch: 3 };
    assert_eq!(v.increment_minor(), Version { major: 1, minor: 3, patch: 0 });
}

#[test]
fn increment_patch_keeps_other_fields() {
    let v = Version { major: 1, minor: 2, patch: 3 };
    assert_eq!(v.increment_patch(), Version { major: 1, minor: 2, patch: 4 });
}

#[test]
fn display_has_no_leading_zeros() {
    let v = Version { major: 10, minor: 0, patch: 305 };
    assert_eq!(v.to_text(), "10.0.305");
}

#[test]
fn error_text_names_field_and_character() {
    assert_eq!(
        VersionError::Empty.to_text(),
        "Empty version string"
    );
    assert_eq!(
        VersionError::UnexpectedEnd(Position::Patch).to_text(),
        "Unexpected end of input while parsing patch version number"
    );
    assert_eq!(
        VersionError::UnexpectedChar(Position::Minor, 'x').to_text(),
        "Unexpected character 'x' while parsing minor version number"
    );
    assert_eq!(
        VersionError::UnexpectedCharAfter(Position::Patch, '!').to_text(),
        "Unexpected character '!' after patch version number"
    );
    assert_eq!(
        VersionError::LeadingZero(Position::Major).to_text(),
        "Leading zero while parsing major version number"
    );
    assert_eq!(
        VersionError::Overflow(Position::Major).to_text(),
        "Value of major version number exceeds u16::MAX"
    );
}

#[test]
fn position_text_names_the_field() {
    assert_eq!(Position::Major.to_text(), "major version number");
    assert_eq!(Position::Minor.to_text(), "minor version number");
    assert_eq!(Position::Patch.to_text(), "patch version number");
}

#[test]
fn version_order_is_lexicographic() {
    let a = Version { major: 1, minor: 9, patch: 9 };
    let b = Version { major: 2, minor: 0, patch: 0 };
    assert!(a < b);
    let c = Version { major: 1, minor: 10, patch: 0 };
    assert!(a < c);
}
