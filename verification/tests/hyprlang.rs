use settings4000::parsers::hyprlang::{EditError, HyprlangFile, KeyPath, ParseWarningKind, SectionStep};

const INPUT_CONF: &str = "\
# Input configuration (keyboard layout/options, sensitivity, touchpad)
# Sourced by hyprland.conf. App-owned: written by the settings app; keep it small.
input {
    kb_layout=us,se
    kb_variant=
    kb_model=
    kb_options=grp:win_space_toggle,caps:escape
    kb_rules=

    sensitivity=0.3
    follow_mouse=1

    touchpad {
        natural_scroll=true
        tap-to-click=true
        scroll_factor=1.0
    }
}
";

const HYPRIDLE_CONF: &str = "\
general {
    lock_cmd = pidof hyprlock || hyprlock
    before_sleep_cmd = loginctl lock-session
    after_sleep_cmd = hyprctl dispatch dpms on
}

listener {
    timeout = 150          # 2.5 min
    on-timeout = brightnessctl -s set 10   # dim the backlight
    on-resume = brightnessctl -r           # restore the backlight
}

listener {
    timeout = 300          # 5 min
    on-timeout = loginctl lock-session
}

listener {
    timeout = 330          # 5.5 min
    on-timeout = hyprctl dispatch dpms off # screen off
    on-resume = hyprctl dispatch dpms on
}
";

const HYPRPAPER_CONF: &str = "\
wallpaper {
    monitor =
    # Keep in sync with hyprlock.conf's background.path (same image).
    path = ~/Pictures/wallpaper/18.jpg
    fit_mode = cover
}

splash = false
";

const HYPRLAND_ENV: &str = "\
# Hyprland main config (excerpt)
source = ~/.config/hypr/colors.conf
source = ~/.config/hypr/monitors.conf
source = ~/.config/hypr/input.conf

# Cursor env, kept identical to uwsm/env (canonical). No other env lines here.
env = XCURSOR_THEME,Nordic-cursors
env = XCURSOR_SIZE,16

# A commented-out example that must never be matched by an edit:
#env = XCURSOR_THEME,DecoyShouldNeverMatch

#exec-once=dbus-update-activation-environment --systemd WAYLAND_DISPLAY
exec-once = hyprpaper
";

const HYPRLOCK_CONF: &str = "\
source = ~/.config/hypr/colors.conf

background {
    monitor =
    path = ~/Pictures/wallpaper/18.jpg
    blur_passes = 2 # 0 disables blurring
}

label {
    text = Hi
    color = $fg2
    font_family = Noto Sans
}
";

const NESTED_DUPLICATE: &str = "\
outer {
    group {
        item = first
    }
    group {
        item = second
    }
}
";

const HYPRLAND_CONF: &str = "\
# Hyprland config (excerpt)
source = ~/.config/hypr/colors.conf

$mainMod = SUPER
$terminal = kitty

general {
    gaps_in = 5
    gaps_out = 10
    border_size = 2
    col.active_border = rgb(83c092) rgb(a7c080) 45deg
    col.inactive_border = rgb(414b50)
    layout = dwindle
}

decoration {
    rounding = 8

    blur {
        enabled = true
        size = 3
        passes = 3 # minimum 1, more passes = more resource intensive.
    }
}

env = XCURSOR_THEME,Nordic-cursors
env = XCURSOR_SIZE,16

bind = $mainMod, Return, exec, $terminal
";

fn well_formed_fixtures() -> Vec<(&'static str, &'static str)> {
    vec![
        ("input.conf", INPUT_CONF),
        ("hypridle.conf", HYPRIDLE_CONF),
        ("hyprpaper.conf", HYPRPAPER_CONF),
        ("hyprland.conf env", HYPRLAND_ENV),
        ("hyprland.conf", HYPRLAND_CONF),
        ("hyprlock.conf", HYPRLOCK_CONF),
        ("nested duplicate", NESTED_DUPLICATE),
    ]
}

fn differing_line_indices(before: &str, after: &str) -> Vec<usize> {
    let before_lines: Vec<&str> = before.lines().collect();
    let after_lines: Vec<&str> = after.lines().collect();
    assert_eq!(
        before_lines.len(),
        after_lines.len(),
        "an in-place edit must not add or remove lines"
    );
    before_lines
        .iter()
        .zip(&after_lines)
        .enumerate()
        .filter_map(|(i, (b, a))| (b != a).then_some(i))
        .collect()
}

#[test]
fn round_trip_identity_on_realistic_fixtures() {
    for (name, fixture) in well_formed_fixtures() {
        let (file, warnings) = HyprlangFile::parse(fixture);
        assert_eq!(file.emit(), fixture, "round-trip failed for {name}");
        assert!(
            warnings.is_empty(),
            "well-formed fixture {name} should yield no warnings, got {warnings:?}"
        );
    }
}

#[test]
fn hyprlang_round_trips_empty_input_and_a_final_line_without_a_newline() {
    for input in [
        "",
        "splash = false",
        "# only a comment",
        "\n\n",
        "input {\n    kb_layout=us\n}",
    ] {
        let (file, _) = HyprlangFile::parse(input);
        assert_eq!(file.emit(), input, "round-trip failed for {input:?}");
    }
}

#[test]
fn editing_a_deeply_nested_value_changes_only_that_span() {
    let (mut file, _) = HyprlangFile::parse(INPUT_CONF);
    let path = KeyPath::at(&["input", "touchpad"], "natural_scroll");
    assert_eq!(file.value(&path), Some("true"));

    file.set_value(&path, "false").expect("editable entry");
    let edited = file.emit();

    let changed = differing_line_indices(INPUT_CONF, &edited);
    let target = INPUT_CONF
        .lines()
        .position(|l| l == "        natural_scroll=true")
        .expect("fixture contains the natural_scroll entry");
    assert_eq!(changed, vec![target], "exactly one line may change");
    assert_eq!(
        edited.lines().nth(target),
        Some("        natural_scroll=false"),
        "only the value span changed: indentation, key, and `=` are preserved"
    );
}

#[test]
fn input_path_addresses_input_conf_not_hyprland() {
    let path = KeyPath::at(&["input", "touchpad"], "natural_scroll");

    let (input_conf, _) = HyprlangFile::parse(INPUT_CONF);
    assert_eq!(input_conf.value(&path), Some("true"));

    let (mut hyprland, _) = HyprlangFile::parse(HYPRLAND_ENV);
    assert_eq!(hyprland.value(&path), None);
    assert_eq!(
        hyprland.set_value(&path, "false"),
        Err(EditError::SectionNotFound(
            "input.touchpad.natural_scroll".to_string()
        )),
        "an input.* edit must not fall back to some other section"
    );
    assert_eq!(
        hyprland.emit(),
        HYPRLAND_ENV,
        "the rejected edit changed nothing"
    );
}

#[test]
fn duplicate_sections_are_addressed_by_occurrence() {
    let (mut file, _) = HyprlangFile::parse(HYPRIDLE_CONF);

    let first = KeyPath::new(vec![SectionStep::nth("listener", 0)], "timeout");
    let second = KeyPath::new(vec![SectionStep::nth("listener", 1)], "timeout");
    let third = KeyPath::new(vec![SectionStep::nth("listener", 2)], "timeout");
    assert_eq!(file.value(&first), Some("150"));
    assert_eq!(file.value(&second), Some("300"));
    assert_eq!(file.value(&third), Some("330"));

    file.set_value(&second, "600").expect("editable entry");
    let edited = file.emit();

    let changed = differing_line_indices(HYPRIDLE_CONF, &edited);
    let target = HYPRIDLE_CONF
        .lines()
        .position(|l| l == "    timeout = 300          # 5 min")
        .expect("fixture contains the second listener's timeout");
    assert_eq!(
        changed,
        vec![target],
        "only the second listener's timeout line may change"
    );
    assert_eq!(
        edited.lines().nth(target),
        Some("    timeout = 600          # 5 min"),
        "the value changed and the inline comment is preserved"
    );
}

#[test]
fn nested_duplicate_sections_compose_occurrence_indexing() {
    let (mut file, _) = HyprlangFile::parse(NESTED_DUPLICATE);

    let first = KeyPath::new(
        vec![SectionStep::first("outer"), SectionStep::nth("group", 0)],
        "item",
    );
    let second = KeyPath::new(
        vec![SectionStep::first("outer"), SectionStep::nth("group", 1)],
        "item",
    );
    assert_eq!(file.value(&first), Some("first"));
    assert_eq!(file.value(&second), Some("second"));

    file.set_value(&second, "edited").expect("editable entry");
    assert_eq!(
        file.emit(),
        NESTED_DUPLICATE.replace("item = second", "item = edited"),
        "only the second nested group's item changed"
    );
}

#[test]
fn repeatable_key_edit_touches_only_the_matched_line() {
    let (mut file, _) = HyprlangFile::parse(HYPRLAND_ENV);
    assert_eq!(
        file.repeatable_field_value("env", "XCURSOR_THEME"),
        Some("Nordic-cursors")
    );
    assert_eq!(
        file.repeatable_field_value("env", "XCURSOR_SIZE"),
        Some("16")
    );

    file.set_repeatable_field_value("env", "XCURSOR_THEME", "Bibata-Modern-Ice")
        .expect("matched env line");
    let edited = file.emit();

    let changed = differing_line_indices(HYPRLAND_ENV, &edited);
    let target = HYPRLAND_ENV
        .lines()
        .position(|l| l == "env = XCURSOR_THEME,Nordic-cursors")
        .expect("fixture contains the cursor-theme env line");
    assert_eq!(
        changed,
        vec![target],
        "only the matched env line may change"
    );
    assert_eq!(
        edited.lines().nth(target),
        Some("env = XCURSOR_THEME,Bibata-Modern-Ice"),
        "the first field is preserved; only the value after the comma changed"
    );
    assert!(edited.contains("env = XCURSOR_SIZE,16"));
    assert!(edited.contains("#env = XCURSOR_THEME,DecoyShouldNeverMatch"));
}

#[test]
fn commented_out_lines_are_never_matched() {
    let (file, _) = HyprlangFile::parse(HYPRLAND_ENV);
    assert_eq!(
        file.value(&KeyPath::top_level("exec-once")),
        Some("hyprpaper"),
        "the real exec-once is read, not the commented-out one"
    );
    assert_eq!(
        file.repeatable_field_value("env", "XCURSOR_THEME"),
        Some("Nordic-cursors")
    );
}

#[test]
fn reads_a_top_level_and_a_section_value() {
    let (hyprpaper, _) = HyprlangFile::parse(HYPRPAPER_CONF);
    assert_eq!(
        hyprpaper.value(&KeyPath::top_level("splash")),
        Some("false")
    );
    assert_eq!(
        hyprpaper.value(&KeyPath::at(&["wallpaper"], "path")),
        Some("~/Pictures/wallpaper/18.jpg")
    );

    let (hypridle, _) = HyprlangFile::parse(HYPRIDLE_CONF);
    assert_eq!(
        hypridle.value(&KeyPath::at(&["general"], "lock_cmd")),
        Some("pidof hyprlock || hyprlock"),
        "a value containing `||` is read whole, up to the end of the value"
    );
}

#[test]
fn editing_a_value_with_a_trailing_inline_comment_preserves_the_comment() {
    let (mut file, _) = HyprlangFile::parse(HYPRIDLE_CONF);
    let path = KeyPath::new(vec![SectionStep::nth("listener", 2)], "on-timeout");
    assert_eq!(file.value(&path), Some("hyprctl dispatch dpms off"));

    file.set_value(&path, "systemctl suspend")
        .expect("editable entry");
    assert!(
        file.emit()
            .contains("    on-timeout = systemctl suspend # screen off"),
        "the value changed and the trailing inline comment is preserved"
    );
}

#[test]
fn appending_a_missing_key_lands_at_the_end_of_its_section() {
    let (mut file, _) = HyprlangFile::parse(INPUT_CONF);
    let path = KeyPath::at(&["input", "touchpad"], "disable_while_typing");
    assert_eq!(file.value(&path), None);

    file.set_value(&path, "true").expect("appends a new key");
    let expected = INPUT_CONF.replace(
        "        scroll_factor=1.0\n    }",
        "        scroll_factor=1.0\n        disable_while_typing=true\n    }",
    );
    assert_eq!(
        file.emit(),
        expected,
        "the new key is inserted just before the touchpad closing brace"
    );
    assert_eq!(file.value(&path), Some("true"));
}

#[test]
fn appending_a_top_level_key_lands_at_end_of_file() {
    let (mut file, _) = HyprlangFile::parse(HYPRPAPER_CONF);
    file.set_value(&KeyPath::top_level("ipc"), "off")
        .expect("appends a new top-level key");
    assert_eq!(
        file.emit(),
        format!("{HYPRPAPER_CONF}ipc = off\n"),
        "the new top-level key is appended at end-of-file"
    );
}

#[test]
fn appending_into_a_section_without_siblings_indents_one_level_in() {
    let (mut file, _) = HyprlangFile::parse("region {\n}\n");
    file.set_value(&KeyPath::at(&["region"], "key"), "val")
        .expect("appends into an empty section");
    assert_eq!(file.emit(), "region {\n    key = val\n}\n");
}

#[test]
fn hyprlang_a_malformed_line_is_preserved_and_warned_without_panicking() {
    let input = "input {\n    this line has no equals or brace\n    kb_layout=us\n}\n";
    let (file, warnings) = HyprlangFile::parse(input);
    assert_eq!(file.emit(), input, "the malformed line is preserved");
    assert_eq!(warnings.len(), 1);
    assert_eq!(warnings[0].line(), 2);
    assert_eq!(warnings[0].kind(), &ParseWarningKind::MalformedLine);
    assert_eq!(
        file.value(&KeyPath::at(&["input"], "kb_layout")),
        Some("us")
    );
}

#[test]
fn unbalanced_braces_are_reported_but_preserved() {
    let stray = "outer {\n    a = 1\n}\n}\n";
    let (file, warnings) = HyprlangFile::parse(stray);
    assert_eq!(file.emit(), stray);
    assert_eq!(warnings.len(), 1);
    assert_eq!(warnings[0].line(), 4);
    assert_eq!(warnings[0].kind(), &ParseWarningKind::StrayClosingBrace);

    let unclosed = "outer {\n    a = 1\n";
    let (file, warnings) = HyprlangFile::parse(unclosed);
    assert_eq!(file.emit(), unclosed);
    assert_eq!(warnings.len(), 1);
    assert_eq!(warnings[0].line(), 1);
    assert_eq!(
        warnings[0].kind(),
        &ParseWarningKind::UnclosedSection {
            name: "outer".to_string()
        }
    );
}

#[test]
fn edits_reject_values_that_would_break_hyprlang() {
    let (mut file, _) = HyprlangFile::parse(INPUT_CONF);
    let path = KeyPath::at(&["input"], "kb_layout");
    for bad in ["us\nse", "us # comment", "us\rse"] {
        assert_eq!(
            file.set_value(&path, bad),
            Err(EditError::InvalidValue(bad.to_string()))
        );
    }
    assert_eq!(file.emit(), INPUT_CONF, "no rejected edit changed the file");

    let (mut env, _) = HyprlangFile::parse(HYPRLAND_ENV);
    assert_eq!(
        env.set_repeatable_field_value("env", "XCURSOR_THEME", "a#b"),
        Err(EditError::InvalidValue("a#b".to_string()))
    );
    assert_eq!(env.emit(), HYPRLAND_ENV);
}

#[test]
fn repeatable_edit_reports_a_missing_target() {
    let (mut file, _) = HyprlangFile::parse(HYPRLAND_ENV);
    assert_eq!(
        file.set_repeatable_field_value("env", "GDK_BACKEND", "wayland"),
        Err(EditError::RepeatableKeyNotFound {
            key: "env".to_string(),
            field: "GDK_BACKEND".to_string(),
        })
    );
    assert_eq!(file.emit(), HYPRLAND_ENV);
}

#[test]
fn crlf_line_endings_round_trip_and_edits_never_pull_in_the_carriage_return() {
    let input = "input {\r\n    kb_layout=us,se\r\n}\r\n";
    let (mut file, warnings) = HyprlangFile::parse(input);
    assert!(warnings.is_empty());
    assert_eq!(file.emit(), input, "CRLF endings must be preserved");

    let path = KeyPath::at(&["input"], "kb_layout");
    assert_eq!(file.value(&path), Some("us,se"));
    file.set_value(&path, "us,se,no").expect("valid edit");
    assert_eq!(
        file.emit(),
        "input {\r\n    kb_layout=us,se,no\r\n}\r\n",
        "only the value changed; the carriage return and newline are untouched"
    );
}

#[test]
fn edits_only_the_first_occurrence_of_a_duplicate_key_in_a_section() {
    let input = "s {\n    k = one\n    k = two\n}\n";
    let (mut file, _) = HyprlangFile::parse(input);
    file.set_value(&KeyPath::at(&["s"], "k"), "edited")
        .expect("first k is editable");
    assert_eq!(file.emit(), "s {\n    k = edited\n    k = two\n}\n");
}

#[test]
fn key_path_display_renders_occurrences() {
    assert_eq!(
        KeyPath::at(&["input", "touchpad"], "natural_scroll").to_string(),
        "input.touchpad.natural_scroll"
    );
    assert_eq!(
        KeyPath::new(vec![SectionStep::nth("listener", 2)], "timeout").to_string(),
        "listener[2].timeout"
    );
    assert_eq!(KeyPath::top_level("splash").to_string(), "splash");
}

#[test]
fn live_hyprland_conf_classifies_dotted_and_variable_keys_as_entries() {
    let (file, warnings) = HyprlangFile::parse(HYPRLAND_CONF);
    assert_eq!(file.emit(), HYPRLAND_CONF);
    assert!(
        warnings.is_empty(),
        "a live hyprland.conf must yield no warnings, got {warnings:?}"
    );
    assert_eq!(
        file.value(&KeyPath::top_level("$mainMod")),
        Some("SUPER"),
        "a $variable declaration is an addressable top-level entry"
    );
    assert_eq!(
        file.value(&KeyPath::at(&["general"], "col.active_border")),
        Some("rgb(83c092) rgb(a7c080) 45deg"),
        "a dotted key with an rgb() value is read whole"
    );
    assert_eq!(
        file.value(&KeyPath::at(&["decoration", "blur"], "passes")),
        Some("3"),
        "a nested value with a trailing inline comment reads without the comment"
    );
}

#[test]
fn repeatable_key_edit_preserves_whitespace_after_the_comma() {
    let input = "env = XCURSOR_THEME, Nordic-cursors\n";
    let (mut file, _) = HyprlangFile::parse(input);
    assert_eq!(
        file.repeatable_field_value("env", "XCURSOR_THEME"),
        Some("Nordic-cursors")
    );
    file.set_repeatable_field_value("env", "XCURSOR_THEME", "Bibata-Modern-Ice")
        .expect("matched env line");
    assert_eq!(
        file.emit(),
        "env = XCURSOR_THEME, Bibata-Modern-Ice\n",
        "the field, the comma, and the space after it are all preserved"
    );
}

#[test]
fn appending_terminates_a_final_line_that_lacks_a_newline() {
    let (mut file, _) = HyprlangFile::parse("splash = false");
    file.set_value(&KeyPath::top_level("ipc"), "off")
        .expect("appends a top-level key");
    assert_eq!(file.emit(), "splash = false\nipc = off\n");
}

#[test]
fn appending_into_a_crlf_file_uses_crlf() {
    let input = "wallpaper {\r\n    path = ~/a.png\r\n}\r\n";
    let (mut file, _) = HyprlangFile::parse(input);
    file.set_value(&KeyPath::at(&["wallpaper"], "fit_mode"), "cover")
        .expect("appends into the wallpaper section");
    assert_eq!(
        file.emit(),
        "wallpaper {\r\n    path = ~/a.png\r\n    fit_mode = cover\r\n}\r\n"
    );
}

#[test]
fn section_count_enumerates_repeated_blocks() {
    let (hypridle, _) = HyprlangFile::parse(HYPRIDLE_CONF);
    assert_eq!(hypridle.section_count(&[], "listener"), 3);
    assert_eq!(hypridle.section_count(&[], "general"), 1);
    assert_eq!(hypridle.section_count(&[], "absent"), 0);

    let (nested, _) = HyprlangFile::parse(NESTED_DUPLICATE);
    assert_eq!(
        nested.section_count(&[SectionStep::first("outer")], "group"),
        2
    );
}
