use settings4000::parsers::env::{EditError, EnvFile, GtkThemeOverride, ParseWarningKind, SetOutcome};

const UWSM_ENV_COMMENTED: &str = "\
# uwsm session environment (app-owned)
export GDK_BACKEND=wayland,x11
#export GTK_THEME=Nordic-bluish-accent
# Cursor theme/size: canonical value; keep in sync with config/hypr/hyprland.conf
export XCURSOR_THEME=Nordic-cursors
export XCURSOR_SIZE=16
export QT_QPA_PLATFORM=\"wayland;xcb\"
export QT_QPA_PLATFORMTHEME=gtk3
";

const UWSM_ENV_ACTIVE_OVERRIDE: &str = "\
# uwsm session environment (app-owned)
export GDK_BACKEND=wayland,x11
export GTK_THEME=Nordic-bluish-accent
# Cursor theme/size: canonical value; keep in sync with config/hypr/hyprland.conf
export XCURSOR_THEME=Nordic-cursors
export XCURSOR_SIZE=16
export QT_QPA_PLATFORM=\"wayland;xcb\"
export QT_QPA_PLATFORMTHEME=gtk3
";

fn differing_line_indices(before: &str, after: &str) -> Vec<usize> {
    let before_lines: Vec<&str> = before.lines().collect();
    let after_lines: Vec<&str> = after.lines().collect();
    assert_eq!(
        before_lines.len(),
        after_lines.len(),
        "an in-place edit must not add or remove lines"
    );
    before_lines
        .iter()
        .zip(&after_lines)
        .enumerate()
        .filter_map(|(index, (b, a))| (b != a).then_some(index))
        .collect()
}

#[test]
fn env_round_trip_identity_on_a_realistic_fixture() {
    let (env, warnings) = EnvFile::parse(UWSM_ENV_COMMENTED);
    assert_eq!(
        env.emit(),
        UWSM_ENV_COMMENTED,
        "emit must reproduce the input byte-for-byte"
    );
    assert!(
        warnings.is_empty(),
        "a clean, well-formed file must yield no warnings, got {warnings:?}"
    );
    assert_eq!(env.value("XCURSOR_THEME"), Some("Nordic-cursors"));
    assert_eq!(env.value("XCURSOR_SIZE"), Some("16"));
    assert_eq!(env.value("QT_QPA_PLATFORM"), Some("\"wayland;xcb\""));
    assert_eq!(env.value("GTK_THEME"), None);
    assert_eq!(env.value("NOT_PRESENT"), None);
}

#[test]
fn env_round_trips_edge_cases() {
    for input in [
        "",
        "export XCURSOR_SIZE=16",
        "# only a comment\n",
        "\n\n",
        "export XCURSOR_THEME=Nordic-cursors\r\nexport XCURSOR_SIZE=16\r\n",
    ] {
        let (env, _) = EnvFile::parse(input);
        assert_eq!(env.emit(), input, "round-trip failed for {input:?}");
    }
}

#[test]
fn editing_xcursor_theme_changes_exactly_that_value_span() {
    let (mut env, _) = EnvFile::parse(UWSM_ENV_COMMENTED);
    let outcome = env
        .set_value("XCURSOR_THEME", "Adwaita")
        .expect("XCURSOR_THEME exists");
    assert_eq!(outcome, SetOutcome::Edited);

    let edited = env.emit();
    let differing = differing_line_indices(UWSM_ENV_COMMENTED, &edited);
    let theme_index = UWSM_ENV_COMMENTED
        .lines()
        .position(|line| line == "export XCURSOR_THEME=Nordic-cursors")
        .expect("fixture contains the cursor theme export");
    assert_eq!(
        differing,
        vec![theme_index],
        "exactly the XCURSOR_THEME line may change"
    );
    assert_eq!(
        edited.lines().nth(theme_index),
        Some("export XCURSOR_THEME=Adwaita"),
        "only the value span changed: `export `, the key, and `=` are preserved"
    );
    assert_eq!(env.value("XCURSOR_THEME"), Some("Adwaita"));
}

#[test]
fn editing_xcursor_size_changes_exactly_that_value_span() {
    let (mut env, _) = EnvFile::parse(UWSM_ENV_COMMENTED);
    env.set_value("XCURSOR_SIZE", "24")
        .expect("XCURSOR_SIZE exists");

    let edited = env.emit();
    let differing = differing_line_indices(UWSM_ENV_COMMENTED, &edited);
    let size_index = UWSM_ENV_COMMENTED
        .lines()
        .position(|line| line == "export XCURSOR_SIZE=16")
        .expect("fixture contains the cursor size export");
    assert_eq!(differing, vec![size_index]);
    assert_eq!(
        edited.lines().nth(size_index),
        Some("export XCURSOR_SIZE=24")
    );
}

#[test]
fn a_bare_assignment_is_recognized_edited_and_not_flagged() {
    let input = "XCURSOR_THEME=Nordic-cursors\nexport XCURSOR_SIZE=16\n";
    let (mut env, warnings) = EnvFile::parse(input);
    assert!(
        warnings.is_empty(),
        "a bare assignment is well-formed, not malformed, got {warnings:?}"
    );
    assert_eq!(env.emit(), input, "the bare assignment round-trips");
    assert_eq!(env.value("XCURSOR_THEME"), Some("Nordic-cursors"));

    let outcome = env
        .set_value("XCURSOR_THEME", "Adwaita")
        .expect("a bare assignment is editable");
    assert_eq!(outcome, SetOutcome::Edited);
    assert_eq!(
        env.emit(),
        "XCURSOR_THEME=Adwaita\nexport XCURSOR_SIZE=16\n",
        "only the value span changed; the bare form (no `export`) is preserved"
    );
}

#[test]
fn env_editing_preserves_surrounding_whitespace() {
    let input = "  export XCURSOR_SIZE= 16  \n";
    let (mut env, warnings) = EnvFile::parse(input);
    assert!(warnings.is_empty());
    env.set_value("XCURSOR_SIZE", "24").expect("valid edit");
    assert_eq!(
        env.emit(),
        "  export XCURSOR_SIZE= 24  \n",
        "only the value bytes change; all surrounding whitespace is preserved"
    );
}

#[test]
fn appending_an_absent_export_lands_at_end_of_file() {
    let (mut env, _) = EnvFile::parse(UWSM_ENV_COMMENTED);
    let outcome = env
        .set_value("MOZ_ENABLE_WAYLAND", "1")
        .expect("append a new export");
    assert_eq!(outcome, SetOutcome::Appended);

    let edited = env.emit();
    assert!(
        edited.starts_with(UWSM_ENV_COMMENTED),
        "every original byte is preserved and the new export is added after them"
    );
    assert_eq!(
        edited,
        format!("{UWSM_ENV_COMMENTED}export MOZ_ENABLE_WAYLAND=1\n"),
        "the new export lands at EOF in the canonical `export KEY=value` form"
    );
    assert_eq!(env.value("MOZ_ENABLE_WAYLAND"), Some("1"));
}

#[test]
fn appending_repairs_a_missing_final_newline() {
    let (mut env, _) = EnvFile::parse("export XCURSOR_SIZE=16");
    env.set_value("XCURSOR_THEME", "Nordic-cursors")
        .expect("append");
    assert_eq!(
        env.emit(),
        "export XCURSOR_SIZE=16\nexport XCURSOR_THEME=Nordic-cursors\n"
    );
}

#[test]
fn an_uncommented_gtk_theme_is_reported_as_an_active_override() {
    let (env, warnings) = EnvFile::parse(UWSM_ENV_ACTIVE_OVERRIDE);
    assert!(warnings.is_empty());
    let override_state = env.gtk_theme_override();
    assert_eq!(
        override_state,
        GtkThemeOverride::Active {
            value: "Nordic-bluish-accent".to_string()
        }
    );
    assert!(
        override_state.is_active(),
        "an uncommented GTK_THEME must disable the GTK-theme drop-down"
    );
    assert_eq!(env.value("GTK_THEME"), Some("Nordic-bluish-accent"));
}

#[test]
fn a_bare_uncommented_gtk_theme_is_an_active_override() {
    let input = "export XCURSOR_SIZE=16\nGTK_THEME=Nordic\n";
    let (env, warnings) = EnvFile::parse(input);
    assert!(warnings.is_empty(), "a bare assignment is not malformed");
    let override_state = env.gtk_theme_override();
    assert_eq!(
        override_state,
        GtkThemeOverride::Active {
            value: "Nordic".to_string()
        }
    );
    assert!(override_state.is_active());
    assert_eq!(env.value("GTK_THEME"), Some("Nordic"));
}

#[test]
fn a_commented_gtk_theme_is_present_but_commented_and_never_edited() {
    let (mut env, warnings) = EnvFile::parse(UWSM_ENV_COMMENTED);
    assert!(warnings.is_empty());
    let override_state = env.gtk_theme_override();
    assert_eq!(
        override_state,
        GtkThemeOverride::Commented {
            value: "Nordic-bluish-accent".to_string()
        }
    );
    assert!(
        !override_state.is_active(),
        "a commented-out GTK_THEME must not disable the drop-down"
    );

    let outcome = env
        .set_value("GTK_THEME", "SomethingElse")
        .expect("append, not edit");
    assert_eq!(outcome, SetOutcome::Appended);
    assert!(
        env.emit()
            .contains("#export GTK_THEME=Nordic-bluish-accent"),
        "the commented-out line must be preserved byte-identically"
    );
    assert_eq!(
        env.emit(),
        format!("{UWSM_ENV_COMMENTED}export GTK_THEME=SomethingElse\n"),
    );
}

#[test]
fn a_spaced_comment_hash_still_detects_the_commented_override() {
    let input = "# export GTK_THEME=Nordic-bluish-accent\nexport XCURSOR_SIZE=16\n";
    let (env, _) = EnvFile::parse(input);
    assert_eq!(
        env.gtk_theme_override(),
        GtkThemeOverride::Commented {
            value: "Nordic-bluish-accent".to_string()
        }
    );
}

#[test]
fn a_commented_bare_gtk_theme_is_reported_commented() {
    let input = "# GTK_THEME=Nordic\nexport XCURSOR_SIZE=16\n";
    let (env, _) = EnvFile::parse(input);
    assert_eq!(
        env.gtk_theme_override(),
        GtkThemeOverride::Commented {
            value: "Nordic".to_string()
        }
    );
}

#[test]
fn an_absent_gtk_theme_is_reported_absent() {
    let input = "export XCURSOR_THEME=Nordic-cursors\nexport XCURSOR_SIZE=16\n";
    let (env, _) = EnvFile::parse(input);
    assert_eq!(env.gtk_theme_override(), GtkThemeOverride::Absent);
    assert!(!env.gtk_theme_override().is_active());
}

#[test]
fn an_active_override_wins_over_a_commented_line() {
    let input = "\
#export GTK_THEME=OldValue
export GTK_THEME=LiveValue
";
    let (env, _) = EnvFile::parse(input);
    assert_eq!(
        env.gtk_theme_override(),
        GtkThemeOverride::Active {
            value: "LiveValue".to_string()
        }
    );
}

#[test]
fn an_active_override_wins_over_a_later_commented_line() {
    let input = "\
export GTK_THEME=LiveValue
#export GTK_THEME=OldValue
";
    let (env, _) = EnvFile::parse(input);
    assert_eq!(
        env.gtk_theme_override(),
        GtkThemeOverride::Active {
            value: "LiveValue".to_string()
        }
    );
}

#[test]
fn env_a_malformed_line_is_preserved_and_warned_without_panicking() {
    let input = "\
export XCURSOR_THEME=Nordic-cursors
BARE_ASSIGNMENT=exported_by_allexport
this line is not an assignment
export XCURSOR_SIZE=16
";
    let (mut env, warnings) = EnvFile::parse(input);

    assert_eq!(env.emit(), input);

    assert_eq!(warnings.len(), 1);
    assert_eq!(warnings[0].line(), 3);
    assert_eq!(warnings[0].kind(), &ParseWarningKind::MalformedLine);

    assert_eq!(env.value("BARE_ASSIGNMENT"), Some("exported_by_allexport"));

    assert_eq!(env.value("XCURSOR_THEME"), Some("Nordic-cursors"));
    env.set_value("XCURSOR_THEME", "Adwaita")
        .expect("still editable around a malformed line");
    assert_eq!(
        env.emit(),
        input.replace(
            "export XCURSOR_THEME=Nordic-cursors",
            "export XCURSOR_THEME=Adwaita"
        )
    );
}

#[test]
fn env_set_value_rejects_unsafe_input_without_changing_the_file() {
    let (mut env, _) = EnvFile::parse(UWSM_ENV_COMMENTED);

    assert_eq!(
        env.set_value("XCURSOR_THEME", "Nord\nic"),
        Err(EditError::InvalidValue("Nord\nic".to_string()))
    );
    assert_eq!(
        env.set_value("2BAD", "x"),
        Err(EditError::InvalidKey("2BAD".to_string()))
    );
    assert_eq!(
        env.set_value("BAD-KEY", "x"),
        Err(EditError::InvalidKey("BAD-KEY".to_string()))
    );

    assert_eq!(env.emit(), UWSM_ENV_COMMENTED);
}

#[test]
fn a_quoted_value_round_trips_and_is_untouched_by_an_unrelated_edit() {
    let (mut env, _) = EnvFile::parse(UWSM_ENV_COMMENTED);
    env.set_value("XCURSOR_SIZE", "24")
        .expect("edit an unrelated key");
    assert!(
        env.emit()
            .contains("export QT_QPA_PLATFORM=\"wayland;xcb\""),
        "the quoted value is preserved verbatim across an unrelated edit"
    );
}

#[test]
fn editing_a_quoted_value_replaces_the_whole_span_including_quotes() {
    let (mut env, _) = EnvFile::parse(UWSM_ENV_COMMENTED);
    assert_eq!(env.value("QT_QPA_PLATFORM"), Some("\"wayland;xcb\""));

    let outcome = env
        .set_value("QT_QPA_PLATFORM", "wayland")
        .expect("the quoted key is editable");
    assert_eq!(outcome, SetOutcome::Edited);

    let edited = env.emit();
    let differing = differing_line_indices(UWSM_ENV_COMMENTED, &edited);
    let qt_index = UWSM_ENV_COMMENTED
        .lines()
        .position(|line| line == "export QT_QPA_PLATFORM=\"wayland;xcb\"")
        .expect("fixture contains the quoted QT export");
    assert_eq!(
        differing,
        vec![qt_index],
        "exactly the quoted line may change"
    );
    assert_eq!(
        edited.lines().nth(qt_index),
        Some("export QT_QPA_PLATFORM=wayland"),
        "the whole quoted span (including the quotes) is replaced by the new value"
    );
    assert_eq!(env.value("QT_QPA_PLATFORM"), Some("wayland"));
}

#[test]
fn crlf_endings_round_trip_and_edits_keep_them() {
    let input = "export XCURSOR_THEME=Nordic-cursors\r\nexport XCURSOR_SIZE=16\r\n";
    let (mut env, warnings) = EnvFile::parse(input);
    assert!(warnings.is_empty());
    assert_eq!(env.emit(), input, "CRLF endings must be preserved");
    assert_eq!(env.value("XCURSOR_THEME"), Some("Nordic-cursors"));

    env.set_value("XCURSOR_THEME", "Adwaita")
        .expect("valid edit");
    assert_eq!(
        env.emit(),
        "export XCURSOR_THEME=Adwaita\r\nexport XCURSOR_SIZE=16\r\n"
    );

    env.set_value("GDK_BACKEND", "wayland")
        .expect("append keeps CRLF");
    assert_eq!(
        env.emit(),
        "export XCURSOR_THEME=Adwaita\r\nexport XCURSOR_SIZE=16\r\nexport GDK_BACKEND=wayland\r\n"
    );
}

#[test]
fn value_and_set_value_target_the_last_assignment_of_a_duplicate() {
    let input = "export XCURSOR_SIZE=16\nexport XCURSOR_SIZE=24\n";
    let (mut env, _) = EnvFile::parse(input);
    assert_eq!(env.value("XCURSOR_SIZE"), Some("24"));

    env.set_value("XCURSOR_SIZE", "32")
        .expect("last occurrence is editable");
    assert_eq!(
        env.emit(),
        "export XCURSOR_SIZE=16\nexport XCURSOR_SIZE=32\n",
        "the last assignment is rewritten; the shadowed first stays byte-identical"
    );
    assert_eq!(env.value("XCURSOR_SIZE"), Some("32"));
}

#[test]
fn the_export_keyword_must_be_a_whole_word() {
    let (mut env, warnings) = EnvFile::parse("exported=value\n");
    assert!(warnings.is_empty(), "a bare assignment is well-formed");
    assert_eq!(env.value("exported"), Some("value"));
    assert_eq!(env.value("value"), None);
    env.set_value("exported", "changed")
        .expect("the bare assignment is editable");
    assert_eq!(env.emit(), "exported=changed\n");
}

#[test]
fn an_export_separated_by_a_tab_is_recognized_and_editable() {
    let input = "export\tXCURSOR_SIZE=16\n";
    let (mut env, warnings) = EnvFile::parse(input);
    assert!(warnings.is_empty());
    assert_eq!(env.value("XCURSOR_SIZE"), Some("16"));
    env.set_value("XCURSOR_SIZE", "24")
        .expect("a tab-separated export is editable");
    assert_eq!(env.emit(), "export\tXCURSOR_SIZE=24\n");
}

#[test]
fn a_hash_inside_a_value_is_kept_as_part_of_the_value() {
    let input = "export XCURSOR_THEME=Nordic#dark\n";
    let (mut env, warnings) = EnvFile::parse(input);
    assert!(warnings.is_empty());
    assert_eq!(env.emit(), input);
    assert_eq!(env.value("XCURSOR_THEME"), Some("Nordic#dark"));

    env.set_value("XCURSOR_THEME", "Other#value")
        .expect("`#` is allowed inside a value");
    assert_eq!(env.emit(), "export XCURSOR_THEME=Other#value\n");
}
