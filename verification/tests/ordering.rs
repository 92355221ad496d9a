use smvr::{BuildMetadata, Dialect, Prerelease, PrereleaseComponent, Version};
use std::cmp::Ordering;

fn parse(text: &str) -> Version {
    Version::parse(text, Dialect::Standard).unwrap()
}

#[test]
fn versions_are_ordered_by_their_numbers() {
    assert!(parse("1.0.0") < parse("1.0.1"));
    assert!(parse("1.0.9") < parse("1.1.0"));
    assert!(parse("1.9.9") < parse("2.0.0"));
    assert!(parse("2.0.0") < parse("10.0.0"));
    assert!(parse("1.2.0") > parse("1.1.9"));
    assert_ne!(parse("1.0.0"), parse("1.0.1"));
}

#[test]
fn prereleases_come_before_the_release() {
    let version_1_0_1_alpha_9 = parse("1.0.1-alpha.9");
    let version_1_0_1_beta_2 = parse("1.0.1-beta.2");
    let version_1_0_1_beta_10 = parse("1.0.1-beta.10");
    let version_1_0_1 = parse("1.0.1");

    assert!(version_1_0_1_alpha_9 < version_1_0_1_beta_2);
    assert!(version_1_0_1_alpha_9 < version_1_0_1_beta_10);
    assert!(version_1_0_1_beta_2 < version_1_0_1_beta_10);
    assert!(version_1_0_1_beta_10 < version_1_0_1);
    assert!(version_1_0_1 > version_1_0_1_alpha_9);
}

#[test]
fn precedence_follows_the_semver_example() {
    let chain = [
        "1.0.0-alpha",
        "1.0.0-alpha.1",
        "1.0.0-alpha.beta",
        "1.0.0-beta",
        "1.0.0-beta.2",
        "1.0.0-beta.11",
        "1.0.0-rc.1",
        "1.0.0",
    ];

    for i in 0..chain.len() {
        for j in 0..chain.len() {
            let expected = i.cmp(&j);

            assert_eq!(parse(chain[i]).partial_cmp(&parse(chain[j])), Some(expected));
        }
    }
}

#[test]
fn numbers_come_before_texts() {
    assert!(parse("1.0.0-999") < parse("1.0.0-0a"));
    assert!(parse("1.0.0-a.999") < parse("1.0.0-a.-"));
    assert_eq!(
        parse("1.0.0-a").partial_cmp(&parse("1.0.0-1")),
        Some(Ordering::Greater)
    );
}

#[test]
fn texts_are_ordered_byte_by_byte() {
    assert!(parse("1.0.0-Z") < parse("1.0.0-a"));
    assert!(parse("1.0.0-a") < parse("1.0.0-aa"));
    assert!(parse("1.0.0-a-") < parse("1.0.0-aa"));
    assert!(parse("1.0.0-b") > parse("1.0.0-abc"));
}

#[test]
fn equality_ignores_build_metadata() {
    assert_eq!(parse("1.0.0+a"), parse("1.0.0+b"));
    assert_eq!(parse("1.0.0+a"), parse("1.0.0"));
    assert_eq!(parse("1.0.0-rc.1+a"), parse("1.0.0-rc.1+b"));
    assert_ne!(parse("1.0.0-rc.1+a"), parse("1.0.0-rc.2+a"));
    assert_ne!(parse("1.0.0-rc+a"), parse("1.0.0+a"));
}

#[test]
fn ordering_ties_on_build_metadata() {
    assert_eq!(
        parse("1.0.0+a").partial_cmp(&parse("1.0.0+b")),
        Some(Ordering::Equal)
    );
    assert_eq!(
        parse("1.0.0-x.1+a").partial_cmp(&parse("1.0.0-x.1")),
        Some(Ordering::Equal)
    );
    assert!(!(parse("1.0.0+a") < parse("1.0.0+b")));
    assert!(!(parse("1.0.0+a") > parse("1.0.0+b")));
    assert!(parse("1.0.0+z") < parse("1.0.1+a"));
}

#[test]
fn a_version_equals_itself() {
    let version = parse("3.1.4-pre.15+92");

    assert_eq!(version.partial_cmp(&version), Some(Ordering::Equal));
    assert!(version == version);
}

#[test]
fn texts_outside_ascii_are_ordered_by_their_bytes() {
    let with = |text: &str| {
        Version::new(
            1,
            0,
            0,
            Some(vec![PrereleaseComponent::String(text.to_string())]),
            None,
            Dialect::Standard,
        )
    };

    assert!(with("z") < with("é"));
    assert!(with("é") < with("日"));
    assert!(with("") < with("a"));
    assert_eq!(with("é"), with("é"));
}

#[test]
fn an_empty_prerelease_comes_first() {
    let empty = Version::new(1, 0, 0, Some(vec![]), None, Dialect::Standard);

    assert!(empty < parse("1.0.0-0"));
    assert!(empty < parse("1.0.0"));
    assert_ne!(empty, parse("1.0.0"));
}

#[test]
fn components_are_ordered_numbers_first() {
    let number = |n: usize| PrereleaseComponent::Number(n);
    let text = |t: &str| PrereleaseComponent::String(t.to_string());

    assert!(number(2) < number(10));
    assert!(number(usize::MAX) < text("0a"));
    assert!(text("alpha") < text("beta"));
    assert!(text("alpha") < text("alpha1"));
    assert!(text("a") > number(7));
    assert_eq!(number(3).partial_cmp(&number(3)), Some(Ordering::Equal));
    assert_eq!(text("x").partial_cmp(&text("x")), Some(Ordering::Equal));
    assert_eq!(number(3), number(3));
    assert_ne!(number(3), text("3"));
    assert_ne!(text("a"), text("b"));
    assert_eq!(text("a").clone(), text("a"));
}

#[test]
fn prerelease_identifiers_are_ordered_as_written() {
    let of = |texts: &[&str]| {
        Prerelease::Identifier(
            texts
                .iter()
                .map(|t| PrereleaseComponent::String(t.to_string()))
                .collect(),
        )
    };

    assert!(Prerelease::Empty < of(&[]));
    assert!(of(&[]) < of(&["a"]));
    assert!(of(&["a"]) < of(&["a", "a"]));
    assert!(of(&["a", "b"]) < of(&["b"]));
    assert!(of(&["b"]) > of(&["a", "z"]));
    assert_eq!(of(&["a", "b"]), of(&["a", "b"]));
    assert_ne!(of(&["a", "b"]), of(&["a"]));
    assert_ne!(of(&[]), Prerelease::Empty);
    assert_eq!(
        Prerelease::Empty.partial_cmp(&Prerelease::Empty),
        Some(Ordering::Equal)
    );
}

#[test]
fn build_metadata_is_equal_where_the_text_is() {
    let of = |text: &str| BuildMetadata::Identifier(text.to_string());

    assert_eq!(of("a.1"), of("a.1"));
    assert_ne!(of("a.1"), of("a.2"));
    assert_ne!(of(""), BuildMetadata::Empty);
    assert_eq!(BuildMetadata::Empty, BuildMetadata::Empty);
}
