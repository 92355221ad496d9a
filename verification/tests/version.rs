use smvr::{BuildMetadata, Dialect, Error, PartType, Prerelease, PrereleaseComponent, Version};

#[test]
fn parsing_minimal_version_with_standard_dialect() {
    let version = Version::parse("1", Dialect::Standard).unwrap();

    assert_eq!(version.major, 1);
    assert_eq!(version.minor, 0);
    assert_eq!(version.patch, 0);
}

#[test]
fn parsing_only_version_with_standard_dialect() {
    let version = Version::parse("1.2.2", Dialect::Standard).unwrap();

    assert_eq!(version.major, 1);
    assert_eq!(version.minor, 2);
    assert_eq!(version.patch, 2);
}

#[test]
fn parsing_version_with_standard_dialect() {
    let version = Version::parse("12.19.1-alpha.12+build1234", Dialect::Standard).unwrap();

    assert_eq!(version.major, 12);
    assert_eq!(version.minor, 19);
    assert_eq!(version.patch, 1);
    assert_eq!(
        version.prerelease,
        Prerelease::Identifier(vec![
            PrereleaseComponent::String("alpha".to_string()),
            PrereleaseComponent::Number(12)
        ])
    );
    assert_eq!(
        version.build_metadata,
        BuildMetadata::Identifier("build1234".to_string())
    );

    assert_eq!("12.19.1-alpha.12+build1234", version.to_string());
}

#[test]
fn parsing_version_with_proceeding_major_zero_standard_dialect() {
    let version = Version::parse("0.1.0", Dialect::Standard).unwrap();

    assert_eq!(version.major, 0);
    assert_eq!(version.minor, 1);
    assert_eq!(version.patch, 0);
}

#[test]
fn parsing_version_with_only_build_metadata_standard_dialect() {
    let version = Version::parse("0.1.12+build.1234", Dialect::Standard).unwrap();

    assert_eq!(version.major, 0);
    assert_eq!(version.minor, 1);
    assert_eq!(version.patch, 12);
    assert_eq!(version.prerelease, Prerelease::Empty);
    assert_eq!(
        version.build_metadata,
        BuildMetadata::Identifier("build.1234".to_string())
    );
}

#[test]
fn parsing_version_with_proceeding_zero_standard_dialect() {
    let version = Version::parse("12.019.1", Dialect::Standard);

    let Err(error) = version else {
        panic!("Parsing should have returned an error")
    };

    assert_eq!(error, Error::InvalidPrecedingZero(PartType::Minor));
}

#[test]
fn parsing_minimal_version_has_no_prerelease_and_no_build_metadata() {
    let version = Version::parse("1", Dialect::Standard).unwrap();

    assert_eq!(version.prerelease, Prerelease::Empty);
    assert_eq!(version.build_metadata, BuildMetadata::Empty);
    assert_eq!(version.dialect, Dialect::Standard);
    assert_eq!(version.to_string(), "1.0.0");
}

#[test]
fn parsing_letters_in_major_is_an_invalid_character() {
    let version = Version::parse("abc.1.0", Dialect::Standard);

    assert_eq!(version.unwrap_err(), Error::InvalidCharacter(PartType::Major));
}

#[test]
fn parsing_preceding_zero_in_each_numeric_part() {
    let major = Version::parse("01.1.0", Dialect::Standard);
    let minor = Version::parse("1.001.0", Dialect::Standard);
    let patch = Version::parse("1.0.01-x", Dialect::Standard);

    assert_eq!(major.unwrap_err(), Error::InvalidPrecedingZero(PartType::Major));
    assert_eq!(minor.unwrap_err(), Error::InvalidPrecedingZero(PartType::Minor));
    assert_eq!(patch.unwrap_err(), Error::InvalidPrecedingZero(PartType::Patch));
}

#[test]
fn parsing_invalid_character_in_each_part() {
    let cases = [
        ("1x.0.0", PartType::Major),
        ("1.x.0", PartType::Minor),
        ("1.0.x", PartType::Patch),
        ("1.0.1.0", PartType::Patch),
        ("1.0.0-al_pha", PartType::Prerelease),
        ("1.0.0-alpha+b_1", PartType::BuildMetadata),
        ("1.0.0+a+b", PartType::BuildMetadata),
        ("1-alpha", PartType::Major),
        ("1.2+build", PartType::Minor),
    ];

    for (text, part) in cases {
        assert_eq!(
            Version::parse(text, Dialect::Standard).unwrap_err(),
            Error::InvalidCharacter(part)
        );
    }
}

#[test]
fn parsing_reports_the_first_error_only() {
    let version = Version::parse("1.2x.00", Dialect::Standard);

    assert_eq!(version.unwrap_err(), Error::InvalidCharacter(PartType::Minor));
}

#[test]
fn parsing_zero_followed_by_a_letter_is_a_preceding_zero() {
    let major = Version::parse("0x.1.0", Dialect::Standard);
    let minor = Version::parse("1.0x.00", Dialect::Standard);
    let minor_before_plus = Version::parse("1.0+build", Dialect::Standard);

    assert_eq!(major.unwrap_err(), Error::InvalidPrecedingZero(PartType::Major));
    assert_eq!(minor.unwrap_err(), Error::InvalidPrecedingZero(PartType::Minor));
    assert_eq!(
        minor_before_plus.unwrap_err(),
        Error::InvalidPrecedingZero(PartType::Minor)
    );
}

#[test]
fn parsing_patch_zero_followed_by_a_dot_is_a_preceding_zero() {
    let version = Version::parse("1.0.0.0", Dialect::Standard);

    assert_eq!(version.unwrap_err(), Error::InvalidPrecedingZero(PartType::Patch));
}

#[test]
fn parsing_non_ascii_text_is_an_invalid_character() {
    let major = Version::parse("é.1.0", Dialect::Standard);
    let prerelease = Version::parse("1.0.0-bêta", Dialect::Standard);
    let build = Version::parse("1.0.0+日本", Dialect::Standard);

    assert_eq!(major.unwrap_err(), Error::InvalidCharacter(PartType::Major));
    assert_eq!(prerelease.unwrap_err(), Error::InvalidCharacter(PartType::Prerelease));
    assert_eq!(build.unwrap_err(), Error::InvalidCharacter(PartType::BuildMetadata));
}

#[test]
fn parsing_parts_that_were_not_reached_gives_zero() {
    let empty = Version::parse("", Dialect::Standard).unwrap();
    let major_only = Version::parse("7.", Dialect::Standard).unwrap();
    let two_parts = Version::parse("7.3", Dialect::Standard).unwrap();
    let dots = Version::parse("..", Dialect::Standard).unwrap();

    assert_eq!((empty.major, empty.minor, empty.patch), (0, 0, 0));
    assert_eq!((major_only.major, major_only.minor, major_only.patch), (7, 0, 0));
    assert_eq!((two_parts.major, two_parts.minor, two_parts.patch), (7, 3, 0));
    assert_eq!((dots.major, dots.minor, dots.patch), (0, 0, 0));
    assert_eq!(dots.prerelease, Prerelease::Empty);
}

#[test]
fn parsing_a_number_too_large_for_the_machine_gives_zero() {
    let version =
        Version::parse("340282366920938463463374607431768211456.2.3", Dialect::Standard).unwrap();

    assert_eq!(version.major, 0);
    assert_eq!(version.minor, 2);
    assert_eq!(version.patch, 3);
}

#[test]
fn parsing_the_largest_number_of_32_bits() {
    let version = Version::parse("4294967295.65536.1000000000", Dialect::Standard).unwrap();

    assert_eq!(version.major, 4294967295);
    assert_eq!(version.minor, 65536);
    assert_eq!(version.patch, 1000000000);
    assert_eq!(version.to_string(), "4294967295.65536.1000000000");
}

#[test]
fn parsing_prerelease_components() {
    let version = Version::parse("1.0.0-0.x-y.007.7a.-", Dialect::Standard).unwrap();

    assert_eq!(
        version.prerelease,
        Prerelease::Identifier(vec![
            PrereleaseComponent::Number(0),
            PrereleaseComponent::String("x-y".to_string()),
            PrereleaseComponent::Number(7),
            PrereleaseComponent::String("7a".to_string()),
            PrereleaseComponent::String("-".to_string()),
        ])
    );
    assert_eq!(version.build_metadata, BuildMetadata::Empty);
}

#[test]
fn parsing_empty_prerelease_components_gives_zero() {
    let bare = Version::parse("1.0.0-", Dialect::Standard).unwrap();
    let inner = Version::parse("1.0.0-a..b+", Dialect::Standard).unwrap();

    assert_eq!(
        bare.prerelease,
        Prerelease::Identifier(vec![PrereleaseComponent::Number(0)])
    );
    assert_eq!(
        inner.prerelease,
        Prerelease::Identifier(vec![
            PrereleaseComponent::String("a".to_string()),
            PrereleaseComponent::Number(0),
            PrereleaseComponent::String("b".to_string()),
        ])
    );
    assert_eq!(inner.build_metadata, BuildMetadata::Empty);
    assert_eq!(inner.to_string(), "1.0.0-a.0.b");
}

#[test]
fn parsing_build_metadata_keeps_dots_and_hyphens() {
    let version = Version::parse("1.2.3-rc.1+exp.sha-5114f85..x", Dialect::Standard).unwrap();

    assert_eq!(
        version.build_metadata,
        BuildMetadata::Identifier("exp.sha-5114f85..x".to_string())
    );
    assert_eq!(version.to_string(), "1.2.3-rc.1+exp.sha-5114f85..x");
}

#[test]
fn parsing_patch_zero_before_prerelease_and_build_metadata() {
    let prerelease = Version::parse("1.0.0-x", Dialect::Standard).unwrap();
    let build = Version::parse("1.0.0+x", Dialect::Standard).unwrap();

    assert_eq!(prerelease.patch, 0);
    assert_eq!(
        prerelease.prerelease,
        Prerelease::Identifier(vec![PrereleaseComponent::String("x".to_string())])
    );
    assert_eq!(build.patch, 0);
    assert_eq!(build.build_metadata, BuildMetadata::Identifier("x".to_string()));
}

#[test]
fn parsing_various_valid_version_strings() {
    let texts = [
        "0.0.0",
        "1.2.3",
        "10.20.30",
        "1.0.0-alpha",
        "1.0.0-alpha.1",
        "1.0.0-0.3.7",
        "1.0.0-x.7.z.92",
        "1.0.0-x-y-z.--",
        "1.0.0-alpha+001",
        "1.0.0+20130313144700",
        "1.0.0-beta+exp.sha.5114f85",
        "1.0.0+21AF26D3----117B344092BD",
        "10.2.1-alpha.1+build-1",
    ];

    for text in texts {
        let version = Version::parse(text, Dialect::Standard);

        assert!(version.is_ok());
        assert_eq!(version.unwrap().to_string(), text);
    }
}

#[test]
fn formatting_and_parsing_again_gives_an_equal_version() {
    let texts = ["1", "1.2", "", "1.0.0-007", "1.0.0-a..b", "1.0.0+", "99999999999999999999999.1.1-rc+b"];

    for text in texts {
        let version = Version::parse(text, Dialect::Standard).unwrap();
        let again = Version::parse(&version.to_string(), Dialect::Standard).unwrap();

        assert_eq!(again, version);
        assert_eq!(again.prerelease, version.prerelease);
        assert_eq!(again.build_metadata, version.build_metadata);
        assert_eq!(again.to_string(), version.to_string());
    }
}

#[test]
fn formatting_writes_numbers_in_decimal() {
    let version = Version::new(
        10,
        0,
        907,
        Some(vec![
            PrereleaseComponent::Number(120),
            PrereleaseComponent::String("rc".to_string()),
        ]),
        Some("b.1".to_string()),
        Dialect::Standard,
    );

    assert_eq!(version.to_string(), "10.0.907-120.rc+b.1");
}

#[test]
fn formatting_joins_components_with_dots() {
    let none = Version::new(1, 2, 3, Some(vec![]), None, Dialect::Standard);
    let empty_first = Version::new(
        1,
        2,
        3,
        Some(vec![
            PrereleaseComponent::String("".to_string()),
            PrereleaseComponent::String("a".to_string()),
        ]),
        None,
        Dialect::Standard,
    );

    assert_eq!(none.to_string(), "1.2.3-");
    assert_eq!(empty_first.to_string(), "1.2.3-.a");
}

#[test]
fn new_keeps_the_parts() {
    let version = Version::new(
        1,
        2,
        3,
        Some(vec![PrereleaseComponent::Number(4)]),
        Some("five".to_string()),
        Dialect::Standard,
    );

    assert_eq!((version.major, version.minor, version.patch), (1, 2, 3));
    assert_eq!(
        version.prerelease,
        Prerelease::Identifier(vec![PrereleaseComponent::Number(4)])
    );
    assert_eq!(version.build_metadata, BuildMetadata::Identifier("five".to_string()));

    let bare = Version::new(1, 2, 3, None, None, Dialect::Standard);

    assert_eq!(bare.prerelease, Prerelease::Empty);
    assert_eq!(bare.build_metadata, BuildMetadata::Empty);
}

#[test]
fn parse_part_stops_at_the_delimiter() {
    let (part, rest, next) =
        Version::parse_part(b"12.19.1", Dialect::Standard, PartType::Major).unwrap();

    assert_eq!(part, vec![b'1', b'2']);
    assert_eq!(rest, &b"19.1"[..]);
    assert_eq!(next, Some(PartType::Minor));
}

#[test]
fn parse_part_runs_to_the_end_of_input() {
    let (part, rest, next) =
        Version::parse_part(b"a.b-c", Dialect::Standard, PartType::BuildMetadata).unwrap();

    assert_eq!(part, b"a.b-c".to_vec());
    assert!(rest.is_empty());
    assert_eq!(next, None);
}

#[test]
fn parse_part_splits_prerelease_components() {
    let (part, rest, next) =
        Version::parse_part(b"alpha.1+b", Dialect::Standard, PartType::Prerelease).unwrap();

    assert_eq!(part, b"alpha".to_vec());
    assert_eq!(rest, &b"1+b"[..]);
    assert_eq!(next, Some(PartType::Prerelease));

    let (part, rest, next) =
        Version::parse_part(rest, Dialect::Standard, PartType::Prerelease).unwrap();

    assert_eq!(part, b"1".to_vec());
    assert_eq!(rest, &b"b"[..]);
    assert_eq!(next, Some(PartType::BuildMetadata));
}

#[test]
fn parse_part_fails_at_the_first_bad_byte() {
    let result = Version::parse_part(b"1a.0", Dialect::Standard, PartType::Minor);

    assert_eq!(result.unwrap_err(), Error::InvalidCharacter(PartType::Minor));
}

#[test]
fn part_types_have_names() {
    assert_eq!(PartType::Major.to_string(), "major");
    assert_eq!(PartType::Minor.to_string(), "minor");
    assert_eq!(PartType::Patch.to_string(), "patch");
    assert_eq!(PartType::Prerelease.to_string(), "prerelease");
    assert_eq!(PartType::BuildMetadata.to_string(), "build metadata");
}

#[test]
fn prerelease_components_are_written_as_read() {
    assert_eq!(PrereleaseComponent::Number(0).to_string(), "0");
    assert_eq!(PrereleaseComponent::Number(1203).to_string(), "1203");
    assert_eq!(PrereleaseComponent::String("rc-1".to_string()).to_string(), "rc-1");
}
