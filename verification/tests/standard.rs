use smvr::{DialectParser, Error, PartType, Standard};

#[test]
fn should_move_to_minor_from_major() {
    let result =
        Standard::parse_byte(&b'.', (PartType::Major, &vec![b'1']), &[b'1', b'2']).unwrap();

    let next_type = result;

    assert_eq!(next_type, Some(PartType::Minor))
}

#[test]
fn should_move_to_patch_from_minor() {
    let result =
        Standard::parse_byte(&b'.', (PartType::Minor, &vec![b'1', b'1']), &[b'0']).unwrap();

    let next_type = result;

    assert_eq!(next_type, Some(PartType::Patch))
}

#[test]
fn should_move_to_prerelease_from_patch() {
    let result = Standard::parse_byte(&b'-', (PartType::Patch, &vec![b'0']), &[b'a']).unwrap();

    let next_type = result;

    assert_eq!(next_type, Some(PartType::Prerelease))
}

#[test]
fn should_move_to_build_from_patch() {
    let result = Standard::parse_byte(&b'+', (PartType::Patch, &vec![b'0']), &[b'a']).unwrap();

    let next_type = result;

    assert_eq!(next_type, Some(PartType::BuildMetadata))
}

#[test]
fn should_fail_non_numerics_in_major() {
    let result = Standard::parse_byte(&b'a', (PartType::Major, &vec![b'1']), &[b'1', b'2']);

    assert_eq!(Err(Error::InvalidCharacter(PartType::Major)), result);
}

#[test]
fn should_fail_non_numerics_in_minor() {
    let result = Standard::parse_byte(&b'a', (PartType::Minor, &vec![]), &[b'1', b'2']);

    assert_eq!(Err(Error::InvalidCharacter(PartType::Minor)), result);
}

#[test]
fn should_fail_using_dot_after_patch() {
    let result = Standard::parse_byte(&b'.', (PartType::Patch, &vec![b'9']), &[b'1', b'2']);

    assert_eq!(Err(Error::InvalidCharacter(PartType::Patch)), result);
}

#[test]
fn should_fail_non_numerics_in_patch() {
    let result = Standard::parse_byte(&b'a', (PartType::Patch, &vec![b'9']), &[b'1', b'2']);

    assert_eq!(Err(Error::InvalidCharacter(PartType::Patch)), result);
}

#[test]
fn should_move_to_build_from_prerelease() {
    let result = Standard::parse_byte(&b'+', (PartType::Prerelease, &vec![b'a']), &[b'b']);

    assert_eq!(result, Ok(Some(PartType::BuildMetadata)));
}

#[test]
fn should_stay_in_prerelease_on_dot() {
    let result = Standard::parse_byte(&b'.', (PartType::Prerelease, &vec![b'a']), &[b'1']);

    assert_eq!(result, Ok(Some(PartType::Prerelease)));
}

#[test]
fn should_capture_dot_in_build_metadata() {
    let result = Standard::parse_byte(&b'.', (PartType::BuildMetadata, &vec![b'a']), &[b'1']);

    assert_eq!(result, Ok(None));
}

#[test]
fn should_not_leave_build_metadata() {
    let plus = Standard::parse_byte(&b'+', (PartType::BuildMetadata, &vec![b'a']), &[b'1']);
    let hyphen = Standard::parse_byte(&b'-', (PartType::BuildMetadata, &vec![b'a']), &[b'1']);

    assert_eq!(plus, Err(Error::InvalidCharacter(PartType::BuildMetadata)));
    assert_eq!(hyphen, Ok(None));
}

#[test]
fn should_not_leave_major_on_hyphen_or_plus() {
    let hyphen = Standard::parse_byte(&b'-', (PartType::Major, &vec![b'1']), &[b'a']);
    let plus = Standard::parse_byte(&b'+', (PartType::Minor, &vec![b'1']), &[b'a']);

    assert_eq!(hyphen, Err(Error::InvalidCharacter(PartType::Major)));
    assert_eq!(plus, Err(Error::InvalidCharacter(PartType::Minor)));
}

#[test]
fn should_capture_digits_and_lone_zero() {
    let digit = Standard::parse_byte(&b'7', (PartType::Major, &vec![]), &[b'0', b'.']);
    let zero_at_end = Standard::parse_byte(&b'0', (PartType::Major, &vec![]), &[]);
    let zero_before_dot = Standard::parse_byte(&b'0', (PartType::Minor, &vec![]), &[b'.', b'1']);
    let later_zero = Standard::parse_byte(&b'0', (PartType::Patch, &vec![b'1']), &[b'0']);

    assert_eq!(digit, Ok(None));
    assert_eq!(zero_at_end, Ok(None));
    assert_eq!(zero_before_dot, Ok(None));
    assert_eq!(later_zero, Ok(None));
}

#[test]
fn should_fail_zero_before_more_digits() {
    let major = Standard::parse_byte(&b'0', (PartType::Major, &vec![]), &[b'1']);
    let minor = Standard::parse_byte(&b'0', (PartType::Minor, &vec![]), &[b'1', b'9']);
    let patch = Standard::parse_byte(&b'0', (PartType::Patch, &vec![]), &[b'1']);

    assert_eq!(major, Err(Error::InvalidPrecedingZero(PartType::Major)));
    assert_eq!(minor, Err(Error::InvalidPrecedingZero(PartType::Minor)));
    assert_eq!(patch, Err(Error::InvalidPrecedingZero(PartType::Patch)));
}

#[test]
fn should_close_patch_zero_on_hyphen_and_plus_only() {
    let hyphen = Standard::parse_byte(&b'0', (PartType::Patch, &vec![]), &[b'-', b'a']);
    let plus = Standard::parse_byte(&b'0', (PartType::Patch, &vec![]), &[b'+', b'a']);
    let dot = Standard::parse_byte(&b'0', (PartType::Patch, &vec![]), &[b'.', b'1']);
    let major_hyphen = Standard::parse_byte(&b'0', (PartType::Major, &vec![]), &[b'-']);

    assert_eq!(hyphen, Ok(None));
    assert_eq!(plus, Ok(None));
    assert_eq!(dot, Err(Error::InvalidPrecedingZero(PartType::Patch)));
    assert_eq!(major_hyphen, Err(Error::InvalidPrecedingZero(PartType::Major)));
}

#[test]
fn should_fail_other_bytes_in_prerelease() {
    let underscore = Standard::parse_byte(&b'_', (PartType::Prerelease, &vec![]), &[]);
    let high = Standard::parse_byte(&0xc3, (PartType::Prerelease, &vec![]), &[0xa9]);
    let hyphen = Standard::parse_byte(&b'-', (PartType::Prerelease, &vec![]), &[]);
    let letter = Standard::parse_byte(&b'Z', (PartType::Prerelease, &vec![]), &[]);

    assert_eq!(underscore, Err(Error::InvalidCharacter(PartType::Prerelease)));
    assert_eq!(high, Err(Error::InvalidCharacter(PartType::Prerelease)));
    assert_eq!(hyphen, Ok(None));
    assert_eq!(letter, Ok(None));
}
