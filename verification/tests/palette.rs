use settings4000::parsers::palette::{is_bare_hex, PaletteFile, ParseWarningKind, SetValueError, PALETTE_KEYS};

const EVERFOREST_FIXTURE: &str = "\
# Everforest Dark palette
# edit this file, then run: scripts/generate-colors everforest

# Backgrounds
bg0=272e33
bg1=2e383c
bg2=374145
bg3=414b50

# Foregrounds
fg0=d3c6aa
fg1=9da9a0
fg2=859289

# Accents
accent0=83c092
accent1=a7c080
accent2=7fbbb3
accent3=d699b6

# Named colors
red=e67e80
orange=e69875
yellow=dbbc7f
green=a7c080
blue=7fbbb3
purple=d699b6

# example override (disabled): highlight=ffffff
";

#[test]
fn palette_round_trip_identity_on_a_realistic_fixture() {
    let (palette, warnings) = PaletteFile::parse(EVERFOREST_FIXTURE);
    assert_eq!(
        palette.emit(),
        EVERFOREST_FIXTURE,
        "emit must reproduce the input byte-for-byte"
    );
    assert!(
        warnings.is_empty(),
        "a clean, well-formed palette must yield no parse warnings, got {warnings:?}"
    );
    assert!(
        palette.value("highlight").is_none(),
        "a commented-out line must never be treated as an entry"
    );
    assert!(palette.validate().is_valid());
}

#[test]
fn palette_round_trips_empty_input_and_a_final_line_without_a_newline() {
    for input in [
        "",
        "bg0=272e33",
        "# only a comment",
        "\n\n",
        "bg0=272e33\n# tail",
    ] {
        let (palette, _) = PaletteFile::parse(input);
        assert_eq!(palette.emit(), input, "round-trip failed for {input:?}");
    }
}

#[test]
fn editing_one_key_changes_exactly_that_value_span() {
    let (mut palette, _) = PaletteFile::parse(EVERFOREST_FIXTURE);
    palette
        .set_value("accent0", "abcdef")
        .expect("accent0 exists and abcdef is valid hex");

    let edited = palette.emit();

    let original_lines: Vec<&str> = EVERFOREST_FIXTURE.lines().collect();
    let edited_lines: Vec<&str> = edited.lines().collect();
    assert_eq!(
        original_lines.len(),
        edited_lines.len(),
        "an edit must not add or remove lines"
    );

    let differing: Vec<usize> = original_lines
        .iter()
        .zip(&edited_lines)
        .enumerate()
        .filter_map(|(index, (before, after))| (before != after).then_some(index))
        .collect();
    let accent0_index = original_lines
        .iter()
        .position(|line| *line == "accent0=83c092")
        .expect("the fixture contains the accent0 entry");
    assert_eq!(
        differing,
        vec![accent0_index],
        "exactly the accent0 line must change"
    );
    assert_eq!(
        edited_lines[accent0_index], "accent0=abcdef",
        "only the value span changed: the key, `=`, and layout are preserved"
    );
    assert_eq!(palette.value("accent0"), Some("abcdef"));
}

#[test]
fn palette_editing_preserves_surrounding_whitespace() {
    let input = "  accent2 = 7fbbb3   \n";
    let (mut palette, warnings) = PaletteFile::parse(input);
    assert!(warnings.is_empty());
    palette.set_value("accent2", "abcdef").expect("valid edit");
    assert_eq!(
        palette.emit(),
        "  accent2 = abcdef   \n",
        "only the six value bytes change; all surrounding whitespace is preserved"
    );
}

#[test]
fn set_value_rejects_unknown_key_and_invalid_hex_without_changing_the_file() {
    let (mut palette, _) = PaletteFile::parse(EVERFOREST_FIXTURE);

    assert_eq!(
        palette.set_value("nonexistent", "abcdef"),
        Err(SetValueError::UnknownKey("nonexistent".to_string()))
    );
    assert_eq!(
        palette.set_value("highlight", "abcdef"),
        Err(SetValueError::UnknownKey("highlight".to_string()))
    );
    assert_eq!(
        palette.set_value("bg0", "#abcdef"),
        Err(SetValueError::InvalidValue("#abcdef".to_string()))
    );
    assert_eq!(
        palette.set_value("bg0", "12345"),
        Err(SetValueError::InvalidValue("12345".to_string()))
    );

    assert_eq!(palette.emit(), EVERFOREST_FIXTURE);
}

#[test]
fn validation_flags_unknown_and_missing_keys() {
    let input = "\
bg0=272e33
bg1=2e383c
bg2=374145
bg3=414b50
fg0=d3c6aa
fg1=9da9a0
fg2=859289
accent0=83c092
accent1=a7c080
accent2=7fbbb3
accent3=d699b6
red=e67e80
orange=e69875
yellow=dbbc7f
green=a7c080
blue=7fbbb3
magenta=d699b6
";
    let (palette, _) = PaletteFile::parse(input);
    let report = palette.validate();
    assert!(!report.is_valid());
    assert_eq!(report.unknown_keys(), ["magenta".to_string()]);
    assert_eq!(report.missing_keys(), ["purple"]);
    assert!(report.duplicate_keys().is_empty());
}

#[test]
fn validation_flags_duplicate_keys() {
    let mut input = String::new();
    for key in PALETTE_KEYS {
        input.push_str(&format!("{key}=abcdef\n"));
    }
    input.push_str("bg0=123456\n"); // bg0 now appears twice

    let (palette, _) = PaletteFile::parse(&input);
    let report = palette.validate();
    assert!(!report.is_valid());
    assert_eq!(report.duplicate_keys(), ["bg0".to_string()]);
    assert!(report.unknown_keys().is_empty());
    assert!(report.missing_keys().is_empty());
}

#[test]
fn palette_a_malformed_line_is_preserved_and_warned_without_panicking() {
    let input = "\
bg0=272e33
this line has no equals sign
bg1=2e383c
";
    let (palette, warnings) = PaletteFile::parse(input);

    assert_eq!(palette.emit(), input);

    assert_eq!(warnings.len(), 1);
    assert_eq!(warnings[0].line(), 2);
    assert_eq!(warnings[0].kind(), &ParseWarningKind::MalformedLine);

    assert!(palette.value("this").is_none());
}

#[test]
fn a_non_hex_value_is_warned_but_stays_an_editable_entry() {
    let input = "bg0=notacolor\nbg1=2e383c\n";
    let (mut palette, warnings) = PaletteFile::parse(input);

    assert_eq!(palette.emit(), input, "the bad value must be preserved");
    assert_eq!(warnings.len(), 1);
    assert_eq!(warnings[0].line(), 1);
    assert_eq!(
        warnings[0].kind(),
        &ParseWarningKind::InvalidHexValue {
            key: "bg0".to_string(),
            value: "notacolor".to_string(),
        }
    );

    assert_eq!(palette.value("bg0"), Some("notacolor"));
    palette.set_value("bg0", "abcdef").expect("editable entry");
    assert_eq!(palette.emit(), "bg0=abcdef\nbg1=2e383c\n");
}

#[test]
fn crlf_line_endings_round_trip_and_an_edit_never_pulls_in_the_carriage_return() {
    let input = "# CRLF palette\r\nbg0=272e33\r\nbg1=2e383c\r\n";
    let (mut palette, warnings) = PaletteFile::parse(input);
    assert!(
        warnings.is_empty(),
        "CRLF values are still valid hex; no warnings expected, got {warnings:?}"
    );

    assert_eq!(palette.emit(), input, "CRLF endings must be preserved");

    assert_eq!(palette.value("bg0"), Some("272e33"));

    palette.set_value("bg0", "abcdef").expect("valid edit");
    assert_eq!(
        palette.emit(),
        "# CRLF palette\r\nbg0=abcdef\r\nbg1=2e383c\r\n",
        "only the value changed; the carriage return and newline are untouched"
    );
}

#[test]
fn an_empty_value_parses_as_an_editable_entry_and_warns() {
    let input = "bg0=\nbg1=2e383c\n";
    let (mut palette, warnings) = PaletteFile::parse(input);

    assert_eq!(palette.emit(), input, "the empty value must be preserved");
    assert_eq!(warnings.len(), 1);
    assert_eq!(warnings[0].line(), 1);
    assert_eq!(
        warnings[0].kind(),
        &ParseWarningKind::InvalidHexValue {
            key: "bg0".to_string(),
            value: String::new(),
        }
    );

    assert_eq!(palette.value("bg0"), Some(""));
    palette.set_value("bg0", "abcdef").expect("editable entry");
    assert_eq!(palette.emit(), "bg0=abcdef\nbg1=2e383c\n");
}

#[test]
fn set_value_edits_only_the_first_occurrence_of_a_duplicate_key() {
    let input = "bg0=111111\nbg1=2e383c\nbg0=222222\n";
    let (mut palette, _) = PaletteFile::parse(input);

    palette
        .set_value("bg0", "abcdef")
        .expect("first bg0 is editable");

    assert_eq!(
        palette.emit(),
        "bg0=abcdef\nbg1=2e383c\nbg0=222222\n",
        "only the first bg0 value changes; the duplicate is untouched"
    );
    assert_eq!(palette.value("bg0"), Some("abcdef"));
}

#[test]
fn is_bare_hex_accepts_six_digits_of_either_case_and_rejects_the_rest() {
    assert!(is_bare_hex("272e33"));
    assert!(is_bare_hex("ABCDEF"));
    assert!(!is_bare_hex("#272e33"), "a leading # is not bare hex");
    assert!(!is_bare_hex("272e3"), "too short");
    assert!(!is_bare_hex("272e333"), "too long");
    assert!(!is_bare_hex("gggggg"), "non-hex digits");
    assert!(!is_bare_hex(""), "empty");
}
