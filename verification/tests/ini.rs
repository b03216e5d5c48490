use settings4000::parsers::ini::{EditError, IniFile, ParseWarningKind, SetOutcome};

const SETTINGS_INI: &str = "\
# Managed by the dotfiles. In an XSETTINGS/dconf session GTK takes the cursor
# from gsettings (org.gnome.desktop.interface), which may differ from this file.
[Settings]
gtk-theme-name=Everforest-Green-Dark
gtk-icon-theme-name=Everforest-Dark
gtk-cursor-theme-name=Nordic-cursors
gtk-cursor-theme-size=16
gtk-font-name=Noto Sans  10
gtk-application-prefer-dark-theme=1
";

fn differing_line_indices(before: &str, after: &str) -> Vec<usize> {
    let before_lines: Vec<&str> = before.lines().collect();
    let after_lines: Vec<&str> = after.lines().collect();
    assert_eq!(
        before_lines.len(),
        after_lines.len(),
        "an in-place edit must not add or remove lines"
    );
    before_lines
        .iter()
        .zip(&after_lines)
        .enumerate()
        .filter_map(|(index, (b, a))| (b != a).then_some(index))
        .collect()
}

#[test]
fn ini_round_trip_identity_on_a_realistic_fixture() {
    let (ini, warnings) = IniFile::parse(SETTINGS_INI);
    assert_eq!(
        ini.emit(),
        SETTINGS_INI,
        "emit must reproduce the input byte-for-byte"
    );
    assert!(
        warnings.is_empty(),
        "a clean, well-formed file must yield no warnings, got {warnings:?}"
    );
    assert_eq!(
        ini.value("Settings", "gtk-font-name"),
        Some("Noto Sans  10")
    );
    assert_eq!(
        ini.value("Settings", "gtk-cursor-theme-name"),
        Some("Nordic-cursors")
    );
    assert_eq!(ini.value("Settings", "gtk-xft-dpi"), None);
    assert_eq!(ini.value("Other", "gtk-theme-name"), None);
}

#[test]
fn ini_round_trips_edge_cases() {
    for input in [
        "",
        "[Settings]",
        "[Settings]\ngtk-theme-name=Adwaita",
        "# only a comment\n",
        "\n\n",
        "[Settings]\r\ngtk-theme-name=Adwaita\r\n",
    ] {
        let (ini, _) = IniFile::parse(input);
        assert_eq!(ini.emit(), input, "round-trip failed for {input:?}");
    }
}

#[test]
fn editing_an_existing_key_changes_exactly_that_value_span() {
    let (mut ini, _) = IniFile::parse(SETTINGS_INI);
    let outcome = ini
        .set_value("Settings", "gtk-theme-name", "Nordic")
        .expect("gtk-theme-name exists in [Settings]");
    assert_eq!(outcome, SetOutcome::Edited);

    let edited = ini.emit();
    let differing = differing_line_indices(SETTINGS_INI, &edited);
    let theme_index = SETTINGS_INI
        .lines()
        .position(|line| line == "gtk-theme-name=Everforest-Green-Dark")
        .expect("fixture contains the theme entry");
    assert_eq!(
        differing,
        vec![theme_index],
        "exactly the gtk-theme-name line may change"
    );
    assert_eq!(
        edited.lines().nth(theme_index),
        Some("gtk-theme-name=Nordic"),
        "only the value span changed: the key, `=`, and layout are preserved"
    );
    assert_eq!(ini.value("Settings", "gtk-theme-name"), Some("Nordic"));
}

#[test]
fn ini_editing_preserves_surrounding_whitespace() {
    let input = "[Settings]\n  gtk-cursor-theme-size = 16  \n";
    let (mut ini, warnings) = IniFile::parse(input);
    assert!(warnings.is_empty());
    ini.set_value("Settings", "gtk-cursor-theme-size", "24")
        .expect("valid edit");
    assert_eq!(
        ini.emit(),
        "[Settings]\n  gtk-cursor-theme-size = 24  \n",
        "only the value bytes change; all surrounding whitespace is preserved"
    );
}

#[test]
fn appending_a_new_key_lands_at_the_section_end() {
    let (mut ini, _) = IniFile::parse(SETTINGS_INI);
    let outcome = ini
        .set_value("Settings", "gtk-xft-dpi", "96")
        .expect("append into existing section");
    assert_eq!(outcome, SetOutcome::AppendedKey);

    let edited = ini.emit();
    assert!(
        edited.starts_with(SETTINGS_INI),
        "every original byte is preserved and the new key is added after them"
    );
    assert_eq!(
        edited,
        format!("{SETTINGS_INI}gtk-xft-dpi=96\n"),
        "the new key lands at the end of the section, in GTK's bare key=value style"
    );
    assert_eq!(ini.value("Settings", "gtk-xft-dpi"), Some("96"));
}

#[test]
fn appending_lands_before_a_following_section_and_copies_sibling_style() {
    let input = "\
[Settings]
gtk-theme-name = Adwaita

[Other]
foo = bar
";
    let (mut ini, _) = IniFile::parse(input);
    ini.set_value("Settings", "gtk-icon-theme-name", "Papirus")
        .expect("append into the first of two sections");
    assert_eq!(
        ini.emit(),
        "\
[Settings]
gtk-theme-name = Adwaita
gtk-icon-theme-name = Papirus

[Other]
foo = bar
",
        "the new key lands within [Settings], before the blank line and [Other], \
             copying the sibling's ` = ` separator"
    );
    assert_eq!(ini.value("Other", "foo"), Some("bar"));
}

#[test]
fn create_from_scratch_from_empty_builds_a_settings_section() {
    let mut ini = IniFile::empty();
    assert_eq!(ini.emit(), "", "an untouched empty file emits nothing");

    let outcome = ini
        .set_value("Settings", "gtk-theme-name", "Everforest-Green-Dark")
        .expect("create from scratch");
    assert_eq!(outcome, SetOutcome::CreatedSection);
    assert_eq!(
        ini.emit(),
        "[Settings]\ngtk-theme-name=Everforest-Green-Dark\n",
        "the create path emits a well-formed [Settings] section"
    );

    let (mut from_parse, _) = IniFile::parse("");
    from_parse
        .set_value("Settings", "gtk-theme-name", "Everforest-Green-Dark")
        .expect("create from parsed-empty");
    assert_eq!(from_parse.emit(), ini.emit());
}

#[test]
fn create_then_add_a_second_key_finds_the_new_section() {
    let mut ini = IniFile::empty();
    assert_eq!(
        ini.set_value("Settings", "gtk-theme-name", "Nordic"),
        Ok(SetOutcome::CreatedSection)
    );
    assert_eq!(
        ini.set_value("Settings", "gtk-cursor-theme-name", "Nordic-cursors"),
        Ok(SetOutcome::AppendedKey)
    );
    assert_eq!(
        ini.emit(),
        "[Settings]\ngtk-theme-name=Nordic\ngtk-cursor-theme-name=Nordic-cursors\n",
    );
}

#[test]
fn create_section_in_a_non_empty_file_gets_a_blank_separator() {
    let (mut ini, _) = IniFile::parse("[Other]\nfoo=bar");
    ini.set_value("Settings", "gtk-theme-name", "Nordic")
        .expect("create a second section");
    assert_eq!(
        ini.emit(),
        "[Other]\nfoo=bar\n\n[Settings]\ngtk-theme-name=Nordic\n",
    );
}

#[test]
fn both_gtk_files_receive_identical_writes() {
    let gtk3 = "[Settings]\ngtk-cursor-theme-name=OldCursors\ngtk-cursor-theme-size=24\n";
    let gtk4 = "# gtk4 has its own header\n[Settings]\ngtk-cursor-theme-name=OldCursors\n";
    let (mut ini3, _) = IniFile::parse(gtk3);
    let (mut ini4, _) = IniFile::parse(gtk4);

    for ini in [&mut ini3, &mut ini4] {
        ini.set_value("Settings", "gtk-cursor-theme-name", "Nordic-cursors")
            .expect("cursor theme is set in both files");
        ini.set_value("Settings", "gtk-cursor-theme-size", "16")
            .expect("cursor size is set/appended in both files");
    }

    assert_eq!(
        ini3.value("Settings", "gtk-cursor-theme-name"),
        ini4.value("Settings", "gtk-cursor-theme-name"),
        "both files carry the same cursor theme after identical writes"
    );
    assert_eq!(
        ini3.value("Settings", "gtk-cursor-theme-size"),
        ini4.value("Settings", "gtk-cursor-theme-size"),
    );
    assert_eq!(
        ini3.emit(),
        "[Settings]\ngtk-cursor-theme-name=Nordic-cursors\ngtk-cursor-theme-size=16\n"
    );
    assert_eq!(
        ini4.emit(),
        "# gtk4 has its own header\n[Settings]\ngtk-cursor-theme-name=Nordic-cursors\ngtk-cursor-theme-size=16\n"
    );
}

#[test]
fn ini_a_malformed_line_is_preserved_and_warned_without_panicking() {
    let input = "\
[Settings]
gtk-theme-name=Adwaita
[unterminated section
this line has no equals sign
gtk-icon-theme-name=Papirus
";
    let (mut ini, warnings) = IniFile::parse(input);

    assert_eq!(ini.emit(), input);

    assert_eq!(warnings.len(), 2);
    assert_eq!(warnings[0].line(), 3);
    assert_eq!(warnings[0].kind(), &ParseWarningKind::MalformedLine);
    assert_eq!(warnings[1].line(), 4);
    assert_eq!(warnings[1].kind(), &ParseWarningKind::MalformedLine);

    assert_eq!(ini.value("Settings", "gtk-theme-name"), Some("Adwaita"));
    assert_eq!(
        ini.value("Settings", "gtk-icon-theme-name"),
        Some("Papirus")
    );
    ini.set_value("Settings", "gtk-theme-name", "Nordic")
        .expect("still editable around malformed lines");
    assert_eq!(
        ini.emit(),
        input.replace("gtk-theme-name=Adwaita", "gtk-theme-name=Nordic")
    );
}

#[test]
fn a_commented_out_entry_is_never_treated_as_editable() {
    let input = "[Settings]\n# gtk-theme-name=Disabled\n";
    let (mut ini, _) = IniFile::parse(input);
    assert_eq!(ini.value("Settings", "gtk-theme-name"), None);
    assert_eq!(
        ini.set_value("Settings", "gtk-theme-name", "Nordic"),
        Ok(SetOutcome::AppendedKey)
    );
    assert_eq!(
        ini.emit(),
        "[Settings]\n# gtk-theme-name=Disabled\ngtk-theme-name=Nordic\n",
        "the commented-out line is preserved and the real key is appended"
    );
}

#[test]
fn ini_set_value_rejects_unsafe_input_without_changing_the_file() {
    let (mut ini, _) = IniFile::parse(SETTINGS_INI);

    assert_eq!(
        ini.set_value("Settings", "gtk-theme-name", "Nord\nic"),
        Err(EditError::InvalidValue("Nord\nic".to_string()))
    );
    assert_eq!(
        ini.set_value("Settings", "bad=key", "x"),
        Err(EditError::InvalidKey("bad=key".to_string()))
    );
    assert_eq!(
        ini.set_value("Bad]Section", "gtk-theme-name", "x"),
        Err(EditError::InvalidSection("Bad]Section".to_string()))
    );

    assert_eq!(ini.emit(), SETTINGS_INI);
}

#[test]
fn crlf_endings_round_trip_and_an_edit_keeps_them() {
    let input = "[Settings]\r\ngtk-theme-name=Adwaita\r\n";
    let (mut ini, warnings) = IniFile::parse(input);
    assert!(warnings.is_empty());
    assert_eq!(ini.emit(), input, "CRLF endings must be preserved");
    assert_eq!(ini.value("Settings", "gtk-theme-name"), Some("Adwaita"));

    ini.set_value("Settings", "gtk-theme-name", "Nordic")
        .expect("valid edit");
    assert_eq!(ini.emit(), "[Settings]\r\ngtk-theme-name=Nordic\r\n");

    ini.set_value("Settings", "gtk-cursor-theme-size", "16")
        .expect("append keeps CRLF");
    assert_eq!(
        ini.emit(),
        "[Settings]\r\ngtk-theme-name=Nordic\r\ngtk-cursor-theme-size=16\r\n"
    );
}

#[test]
fn value_and_set_value_target_the_last_occurrence_of_a_duplicate_key() {
    let input = "[Settings]\ngtk-theme-name=First\ngtk-theme-name=Second\n";
    let (mut ini, _) = IniFile::parse(input);

    assert_eq!(ini.value("Settings", "gtk-theme-name"), Some("Second"));

    ini.set_value("Settings", "gtk-theme-name", "Nordic")
        .expect("last occurrence is editable");
    assert_eq!(
        ini.emit(),
        "[Settings]\ngtk-theme-name=First\ngtk-theme-name=Nordic\n",
        "the last occurrence is rewritten; the shadowed first stays byte-identical"
    );
    assert_eq!(ini.value("Settings", "gtk-theme-name"), Some("Nordic"));
}

#[test]
fn a_semicolon_line_is_not_a_glib_comment() {
    let (with_eq, warnings) = IniFile::parse("[Settings]\n;gtk-theme-name=Adwaita\n");
    assert!(
        warnings.is_empty(),
        "`;key=value` is a well-formed entry, not a malformed line"
    );
    assert_eq!(
        with_eq.value("Settings", ";gtk-theme-name"),
        Some("Adwaita")
    );
    assert_eq!(with_eq.value("Settings", "gtk-theme-name"), None);

    let (without_eq, warnings) = IniFile::parse("[Settings]\n; just a note\n");
    assert_eq!(without_eq.emit(), "[Settings]\n; just a note\n");
    assert_eq!(warnings.len(), 1);
    assert_eq!(warnings[0].line(), 2);
    assert_eq!(warnings[0].kind(), &ParseWarningKind::MalformedLine);
}

#[test]
fn a_hash_inside_a_value_is_kept_not_treated_as_a_comment() {
    let input = "[Settings]\ngtk-font-name=Noto Sans #1\n";
    let (mut ini, warnings) = IniFile::parse(input);
    assert!(warnings.is_empty());
    assert_eq!(ini.emit(), input, "the `#`-bearing value round-trips");
    assert_eq!(
        ini.value("Settings", "gtk-font-name"),
        Some("Noto Sans #1"),
        "the value includes the literal `#`"
    );

    ini.set_value("Settings", "gtk-font-name", "Cantarell #2")
        .expect("`#` is allowed inside a value");
    assert_eq!(ini.emit(), "[Settings]\ngtk-font-name=Cantarell #2\n");
}

#[test]
fn appending_into_a_header_only_section_without_a_final_newline() {
    let (mut ini, _) = IniFile::parse("[Settings]");
    let outcome = ini
        .set_value("Settings", "gtk-theme-name", "Nordic")
        .expect("append into an empty, unterminated section");
    assert_eq!(outcome, SetOutcome::AppendedKey);
    assert_eq!(
        ini.emit(),
        "[Settings]\ngtk-theme-name=Nordic\n",
        "the header gains a terminator and the key lands right after it"
    );
}
