//! Reading and writing agree: a version that was read is written as a string
//! that is read as the same version, and a string in canonical form is
//! written back as it was.

use crate::component::{ComponentView, PartType};
use crate::decimal::{
    decimal_digits, decimal_value, is_numeral, lemma_decimal_digits_form_numeral,
    lemma_decimal_digits_of_value, lemma_value_of_decimal_digits,
};
use crate::dialect::grammar::all_content;
use crate::dialect::rendering::component_texts;
use crate::dialect::Dialect;
use crate::error::Error;
use crate::notation::{
    build_spelling, is_identifier, lemma_grammatical_string_scans, prerelease_spelling,
};
use crate::reading::{lemma_content_bytes, lemma_scan_part_shape, scan, scan_part, Groups};
use crate::text::{
    all_ascii, all_digits, ascii_bytes, ascii_text, join, lemma_ascii_bytes_text,
    lemma_ascii_text_encoding, DOT, HYPHEN, PLUS,
};
use crate::version::{assemble, component_of, parse_spec, VersionView};
use vstd::prelude::*;
use vstd::utf8::*;

verus! {

impl ComponentView {
    /// Whether the component is one that reading gives: a number that fits
    /// the machine, or a text of letters, digits and hyphens that is not made
    /// of digits alone.
    pub open spec fn is_well_formed(self) -> bool {
        match self {
            ComponentView::Number(n) => n <= usize::MAX,
            ComponentView::Text(text) => {
                &&& is_ascii_chars(text)
                &&& is_identifier(ascii_bytes(text))
                &&& !all_digits(ascii_bytes(text))
            },
        }
    }

    /// The bytes that the component is written as.
    pub open spec fn spelling(self) -> Seq<u8> {
        match self {
            ComponentView::Number(n) => decimal_digits(n),
            ComponentView::Text(text) => ascii_bytes(text),
        }
    }
}

impl VersionView {
    /// Whether the version is one that reading gives: its numbers fit the
    /// machine; its prerelease, where it has one, has a component at least,
    /// and well-formed ones only; its build metadata, where it has any, is a
    /// text of letters, digits, hyphens and dots that is not empty.
    pub open spec fn is_well_formed(self) -> bool {
        &&& self.major <= usize::MAX
        &&& self.minor <= usize::MAX
        &&& self.patch <= usize::MAX
        &&& match self.prerelease {
            Some(components) => {
                &&& components.len() > 0
                &&& forall|k: int|
                    0 <= k < components.len() ==> (#[trigger] components[k]).is_well_formed()
            },
            None => true,
        }
        &&& match self.build_metadata {
            Some(text) => {
                &&& text.len() > 0
                &&& is_ascii_chars(text)
                &&& all_content(PartType::BuildMetadata, ascii_bytes(text))
            },
            None => true,
        }
    }

    /// The parts that the version is written as.
    pub open spec fn written(self) -> Groups {
        Groups {
            major: decimal_digits(self.major),
            minor: decimal_digits(self.minor),
            patch: decimal_digits(self.patch),
            prerelease: match self.prerelease {
                Some(components) => Seq::new(components.len(), |k: int| components[k].spelling()),
                None => Seq::empty(),
            },
            build_metadata: match self.build_metadata {
                Some(text) => ascii_bytes(text),
                None => Seq::empty(),
            },
        }
    }
}

impl Groups {
    /// Whether every group holds bytes that may stand in its part.
    pub open spec fn is_readable(self) -> bool {
        &&& all_content(PartType::Major, self.major)
        &&& all_content(PartType::Minor, self.minor)
        &&& all_content(PartType::Patch, self.patch)
        &&& forall|k: int|
            0 <= k < self.prerelease.len() ==> all_content(
                PartType::Prerelease,
                #[trigger] self.prerelease[k],
            )
        &&& all_content(PartType::BuildMetadata, self.build_metadata)
    }

    /// Whether the groups are the parts of a string in canonical form: parts
    /// as the grammar has them, with numbers that fit the machine, and with
    /// no prerelease component that is a number with leading zeros or one
    /// that does not fit.
    pub open spec fn is_canonical(self) -> bool {
        &&& self.is_grammatical()
        &&& decimal_value(self.major) <= usize::MAX
        &&& decimal_value(self.minor) <= usize::MAX
        &&& decimal_value(self.patch) <= usize::MAX
        &&& forall|k: int|
            0 <= k < self.prerelease.len() && all_digits(#[trigger] self.prerelease[k])
                ==> is_numeral(self.prerelease[k]) && decimal_value(self.prerelease[k])
                <= usize::MAX
    }
}

/// Reading captures, for each part, bytes that may stand in it.
proof fn lemma_scan_is_readable(bytes: Seq<u8>, dialect: Dialect, part: PartType, groups: Groups)
    requires
        groups.is_readable(),
    ensures
        scan(bytes, dialect, part, groups) matches Ok(read) ==> read.is_readable(),
    decreases bytes.len(),
{
    lemma_scan_part_shape(bytes, dialect, part);
    match scan_part(bytes, dialect, part) {
        Ok((captured, remaining, next)) => {
            lemma_content_bytes(bytes, dialect, part, captured.len() as int);
            let read = groups.put(part, captured);
            assert(read.is_readable()) by {
                if part == PartType::Prerelease {
                    assert forall|k: int| 0 <= k < read.prerelease.len() implies all_content(
                        PartType::Prerelease,
                        #[trigger] read.prerelease[k],
                    ) by {
                        if k < groups.prerelease.len() {
                            assert(read.prerelease[k] == groups.prerelease[k]);
                        }
                    }
                }
            }
            match next {
                Some(opened) => {
                    lemma_scan_is_readable(remaining, dialect, opened, read);
                },
                None => {},
            }
        },
        Err(_) => {},
    }
}

/// Bytes that may stand in a part are ASCII, and spell the text they are
/// the bytes of.
proof fn lemma_content_text(part: PartType, bytes: Seq<u8>)
    requires
        all_content(part, bytes),
    ensures
        all_ascii(bytes),
        is_ascii_chars(ascii_text(bytes)),
        ascii_bytes(ascii_text(bytes)) == bytes,
{
    assert forall|i: int| 0 <= i < bytes.len() implies #[trigger] bytes[i] < 0x80 by {
        assert(crate::dialect::grammar::is_content(part, bytes[i]));
    }
    lemma_ascii_bytes_text(bytes);
}

/// Readable groups are assembled to a well-formed version.
proof fn lemma_assembled_is_well_formed(groups: Groups, dialect: Dialect)
    requires
        groups.is_readable(),
    ensures
        assemble(groups, dialect).is_well_formed(),
{
    let version = assemble(groups, dialect);
    if groups.prerelease.len() > 0 {
        let components = version.prerelease->0;
        assert forall|k: int| 0 <= k < components.len() implies (
        #[trigger] components[k]).is_well_formed() by {
            let group = groups.prerelease[k];
            assert(components[k] == component_of(group));
            lemma_content_text(PartType::Prerelease, group);
        }
    }
    lemma_content_text(PartType::BuildMetadata, groups.build_metadata);
}

/// A version that was read is well-formed.
pub proof fn lemma_parsed_version_is_well_formed(bytes: Seq<u8>, dialect: Dialect)
    ensures
        parse_spec(bytes, dialect) matches Ok(version) ==> version.is_well_formed(),
{
    lemma_scan_is_readable(bytes, dialect, PartType::Major, Groups::empty());
    match scan(bytes, dialect, PartType::Major, Groups::empty()) {
        Ok(groups) => {
            lemma_assembled_is_well_formed(groups, dialect);
        },
        Err(_) => {},
    }
}

/// The digits of a number may stand in any part.
proof fn lemma_digits_are_content(part: PartType, n: nat)
    ensures
        all_content(part, decimal_digits(n)),
        all_ascii(decimal_digits(n)),
{
    lemma_decimal_digits_form_numeral(n);
    let digits = decimal_digits(n);
    assert forall|i: int| 0 <= i < digits.len() implies crate::dialect::grammar::is_content(
        part,
        #[trigger] digits[i],
    ) && digits[i] < 0x80 by {
        assert(crate::text::is_digit(digits[i]));
    }
}

/// A well-formed version is written in parts as the grammar has them.
proof fn lemma_written_is_grammatical(version: VersionView)
    requires
        version.is_well_formed(),
    ensures
        version.written().is_grammatical(),
{
    let groups = version.written();
    lemma_decimal_digits_form_numeral(version.major);
    lemma_decimal_digits_form_numeral(version.minor);
    lemma_decimal_digits_form_numeral(version.patch);
    assert forall|k: int| 0 <= k < groups.prerelease.len() implies is_identifier(
        #[trigger] groups.prerelease[k],
    ) by {
        let component = version.prerelease->0[k];
        assert(component.is_well_formed());
        assert(groups.prerelease[k] == component.spelling());
        match component {
            ComponentView::Number(n) => {
                lemma_digits_are_content(PartType::Prerelease, n);
                lemma_decimal_digits_form_numeral(n);
            },
            ComponentView::Text(_) => {},
        }
    }
}

/// The parts that a well-formed version is written as are assembled to the
/// version.
proof fn lemma_written_assembles(version: VersionView)
    requires
        version.is_well_formed(),
    ensures
        assemble(version.written(), version.dialect) == version,
{
    let groups = version.written();
    let again = assemble(groups, version.dialect);
    lemma_value_of_decimal_digits(version.major);
    lemma_value_of_decimal_digits(version.minor);
    lemma_value_of_decimal_digits(version.patch);
    match version.prerelease {
        Some(components) => {
            assert forall|k: int| 0 <= k < components.len() implies component_of(
                #[trigger] groups.prerelease[k],
            ) == components[k] by {
                let component = components[k];
                assert(component.is_well_formed());
                assert(groups.prerelease[k] == component.spelling());
                match component {
                    ComponentView::Number(n) => {
                        lemma_decimal_digits_form_numeral(n);
                        lemma_value_of_decimal_digits(n);
                    },
                    ComponentView::Text(text) => {
                        lemma_ascii_text_encoding(text);
                    },
                }
            }
            assert(again.prerelease->0 =~= components);
        },
        None => {},
    }
    match version.build_metadata {
        Some(text) => {
            lemma_ascii_text_encoding(text);
        },
        None => {},
    }
}

/// The text of joined ASCII pieces is the joined texts of the pieces.
proof fn lemma_text_of_joined(pieces: Seq<Seq<u8>>, texts: Seq<Seq<char>>)
    requires
        pieces.len() == texts.len(),
        forall|k: int| 0 <= k < pieces.len() ==> ascii_text(#[trigger] pieces[k]) == texts[k],
        forall|k: int| 0 <= k < pieces.len() ==> all_ascii(#[trigger] pieces[k]),
    ensures
        ascii_text(join(pieces, DOT)) == join(texts, '.'),
        all_ascii(join(pieces, DOT)),
    decreases pieces.len(),
{
    if pieces.len() == 0 {
        assert(ascii_text(join(pieces, DOT)) =~= join(texts, '.'));
    } else if pieces.len() == 1 {
        assert(all_ascii(pieces[0]));
    } else {
        lemma_text_of_joined(pieces.drop_last(), texts.drop_last());
        let front = join(pieces.drop_last(), DOT);
        assert(all_ascii(pieces.last()));
        assert(ascii_text(front.push(DOT) + pieces.last()) =~= ascii_text(front).push('.')
            + ascii_text(pieces.last()));
        assert forall|i: int| 0 <= i < join(pieces, DOT).len() implies #[trigger] join(
            pieces,
            DOT,
        )[i] < 0x80 by {
            if i < front.len() {
                assert(front[i] < 0x80);
            } else if i > front.len() {
                assert(pieces.last()[i - front.len() - 1] < 0x80);
            }
        }
    }
}

/// The string that a well-formed version is written as is ASCII, and spells
/// the text of the version.
proof fn lemma_written_spells_text(version: VersionView)
    requires
        version.is_well_formed(),
    ensures
        all_ascii(version.written().spelling()),
        ascii_text(version.written().spelling()) == version.text(),
        encode_utf8(version.text()) == version.written().spelling(),
{
    let groups = version.written();
    let numbers = groups.major.push(DOT) + groups.minor.push(DOT) + groups.patch;
    let prerelease = prerelease_spelling(groups.prerelease);
    let build = build_spelling(groups.build_metadata);
    lemma_digits_are_content(PartType::Major, version.major);
    lemma_digits_are_content(PartType::Major, version.minor);
    lemma_digits_are_content(PartType::Major, version.patch);
    assert(all_ascii(numbers));

    let prerelease_text: Seq<char> = match version.prerelease {
        Some(components) => seq!['-'] + join(component_texts(components), '.'),
        None => Seq::empty(),
    };
    assert(all_ascii(prerelease) && ascii_text(prerelease) == prerelease_text) by {
        match version.prerelease {
            Some(components) => {
                let texts = component_texts(components);
                assert forall|k: int| 0 <= k < components.len() implies ascii_text(
                    #[trigger] groups.prerelease[k],
                ) == texts[k] && all_ascii(groups.prerelease[k]) by {
                    let component = components[k];
                    assert(component.is_well_formed());
                    assert(groups.prerelease[k] == component.spelling());
                    match component {
                        ComponentView::Number(n) => {
                            lemma_digits_are_content(PartType::Prerelease, n);
                        },
                        ComponentView::Text(text) => {
                            lemma_ascii_text_encoding(text);
                            lemma_content_text(PartType::Prerelease, ascii_bytes(text));
                        },
                    }
                }
                lemma_text_of_joined(groups.prerelease, texts);
                assert(ascii_text(seq![HYPHEN] + join(groups.prerelease, DOT)) =~= seq!['-']
                    + join(texts, '.'));
            },
            None => {
                assert(ascii_text(prerelease) =~= prerelease_text);
            },
        }
    }

    let build_text: Seq<char> = match version.build_metadata {
        Some(text) => seq!['+'] + text,
        None => Seq::empty(),
    };
    assert(all_ascii(build) && ascii_text(build) == build_text) by {
        match version.build_metadata {
            Some(text) => {
                lemma_ascii_text_encoding(text);
                lemma_content_text(PartType::BuildMetadata, ascii_bytes(text));
                assert(ascii_text(seq![PLUS] + ascii_bytes(text)) =~= seq!['+'] + text);
            },
            None => {
                assert(ascii_text(build) =~= build_text);
            },
        }
    }

    let spelling = groups.spelling();
    assert(spelling == numbers + prerelease + build);
    assert(all_ascii(spelling));
    assert(ascii_text(numbers) =~= ascii_text(groups.major).push('.') + ascii_text(
        groups.minor,
    ).push('.') + ascii_text(groups.patch));
    assert(ascii_text(spelling) =~= ascii_text(numbers) + ascii_text(prerelease) + ascii_text(
        build,
    ));
    assert(version.text() == ascii_text(numbers) + prerelease_text + build_text);
    lemma_ascii_bytes_text(spelling);
}

/// The text of a well-formed version is read as the version.
pub proof fn lemma_text_parses_back(version: VersionView)
    requires
        version.is_well_formed(),
    ensures
        parse_spec(encode_utf8(version.text()), version.dialect) == Ok::<VersionView, Error>(
            version,
        ),
{
    lemma_written_is_grammatical(version);
    lemma_written_spells_text(version);
    lemma_written_assembles(version);
    lemma_grammatical_string_scans(version.written());
}

/// Reading, writing and reading again gives the version that was read
/// first: whatever string is read as a version, the text of that version is
/// read as the same version, build metadata included.
pub proof fn lemma_round_trip(bytes: Seq<u8>, dialect: Dialect)
    ensures
        parse_spec(bytes, dialect) matches Ok(version) ==> parse_spec(
            encode_utf8(version.text()),
            dialect,
        ) == Ok::<VersionView, Error>(version),
{
    lemma_parsed_version_is_well_formed(bytes, dialect);
    match parse_spec(bytes, dialect) {
        Ok(version) => {
            lemma_text_parses_back(version);
        },
        Err(_) => {},
    }
}

/// A string that the grammar allows is read, and as the version that its
/// parts are assembled to.
pub proof fn lemma_grammatical_string_parses(groups: Groups, dialect: Dialect)
    requires
        groups.is_grammatical(),
    ensures
        parse_spec(groups.spelling(), dialect) == Ok::<VersionView, Error>(
            assemble(groups, dialect),
        ),
{
    lemma_grammatical_string_scans(groups);
}

/// A string in canonical form is written back as it was: the text of the
/// version that it is read as is the string itself.
pub proof fn lemma_canonical_string_is_reproduced(groups: Groups, dialect: Dialect)
    requires
        groups.is_canonical(),
    ensures
        parse_spec(groups.spelling(), dialect) matches Ok(version) && encode_utf8(version.text())
            == groups.spelling(),
{
    lemma_grammatical_string_scans(groups);
    let version = assemble(groups, dialect);
    lemma_parsed_version_is_well_formed(groups.spelling(), dialect);
    lemma_written_spells_text(version);
    let written = version.written();
    lemma_decimal_digits_of_value(groups.major);
    lemma_decimal_digits_of_value(groups.minor);
    lemma_decimal_digits_of_value(groups.patch);
    assert(written.prerelease =~= groups.prerelease) by {
        if groups.prerelease.len() > 0 {
            assert forall|k: int| 0 <= k < groups.prerelease.len() implies
                #[trigger] written.prerelease[k] == groups.prerelease[k] by {
                let group = groups.prerelease[k];
                assert(is_identifier(group));
                assert(written.prerelease[k] == component_of(group).spelling());
                if all_digits(group) {
                    lemma_decimal_digits_of_value(group);
                } else {
                    lemma_content_text(PartType::Prerelease, group);
                }
            }
        }
    }
    assert(written.build_metadata =~= groups.build_metadata) by {
        lemma_content_text(PartType::BuildMetadata, groups.build_metadata);
    }
    assert(written == groups);
}

} // verus!
