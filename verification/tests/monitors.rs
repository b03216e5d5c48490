use settings4000::parsers::monitors::{EditError, MonitorField, MonitorState, MonitorsFile, ParseWarningKind, SetOutcome};

const MONITORS_CONF: &str = "\
# monitors.conf — per-output configuration; later rules win.
# Single source of truth for the eDP panel's mode and scale:
# scripts/hypr-display-profile.sh awk-parses the eDP-1 record below, splitting on
# commas into name,mode,position,scale[,extras]. Keep every record awk-parseable.

# Built-in laptop panel (10-bit).
monitor=eDP-1,2880x1800@120,0x0,1.333333,bitdepth,10

# A docked external display, currently disabled.
monitor=desc:AU Optronics 0x2036,disable

# Fallback for anything else plugged in.
monitor=,preferred,auto,1

# End of monitor configuration.
";

fn differing_line_indices(before: &str, after: &str) -> Vec<usize> {
    let before_lines: Vec<&str> = before.lines().collect();
    let after_lines: Vec<&str> = after.lines().collect();
    assert_eq!(
        before_lines.len(),
        after_lines.len(),
        "an in-place edit must not add or remove lines"
    );
    before_lines
        .iter()
        .zip(&after_lines)
        .enumerate()
        .filter_map(|(i, (b, a))| (b != a).then_some(i))
        .collect()
}

fn record_line<'a>(text: &'a str, name: &str) -> &'a str {
    let needle = format!("monitor={name},");
    text.lines()
        .find(|line| line.starts_with(&needle))
        .unwrap_or_else(|| panic!("no record line for `{name}` in:\n{text}"))
}

#[test]
fn monitors_round_trip_identity_on_a_realistic_fixture() {
    let (file, warnings) = MonitorsFile::parse(MONITORS_CONF);
    assert_eq!(
        file.emit(),
        MONITORS_CONF,
        "emit must reproduce the input byte-for-byte"
    );
    assert!(
        warnings.is_empty(),
        "a well-formed monitors.conf must yield no warnings, got {warnings:?}"
    );

    assert_eq!(
        file.record_names(),
        vec!["eDP-1", "desc:AU Optronics 0x2036", ""],
    );
}

#[test]
fn monitors_round_trips_empty_input_and_a_final_line_without_a_newline() {
    for input in [
        "",
        "monitor=eDP-1,preferred,auto,1",
        "# only a comment",
        "\n\n",
        "monitor=,preferred,auto,1\n# tail",
    ] {
        let (file, _) = MonitorsFile::parse(input);
        assert_eq!(file.emit(), input, "round-trip failed for {input:?}");
    }
}

#[test]
fn reads_fields_and_enabled_state() {
    let (file, _) = MonitorsFile::parse(MONITORS_CONF);

    assert_eq!(
        file.field("eDP-1", MonitorField::Mode),
        Some("2880x1800@120")
    );
    assert_eq!(file.field("eDP-1", MonitorField::Position), Some("0x0"));
    assert_eq!(file.field("eDP-1", MonitorField::Scale), Some("1.333333"));
    assert_eq!(file.is_enabled("eDP-1"), Some(true));

    assert_eq!(file.is_enabled("desc:AU Optronics 0x2036"), Some(false));
    assert_eq!(
        file.field("desc:AU Optronics 0x2036", MonitorField::Mode),
        None
    );

    assert_eq!(file.field("", MonitorField::Mode), Some("preferred"));
    assert_eq!(file.field("", MonitorField::Scale), Some("1"));

    assert_eq!(file.is_enabled("DP-9"), None);
    assert_eq!(file.field("DP-9", MonitorField::Mode), None);
}

#[test]
fn editing_edp_mode_and_scale_touches_only_that_record() {
    let (mut file, _) = MonitorsFile::parse(MONITORS_CONF);
    file.set_field("eDP-1", MonitorField::Mode, "1920x1200@60")
        .expect("eDP-1 mode is editable");
    file.set_field("eDP-1", MonitorField::Scale, "1.0")
        .expect("eDP-1 scale is editable");

    let edited = file.emit();
    let changed = differing_line_indices(MONITORS_CONF, &edited);
    let target = MONITORS_CONF
        .lines()
        .position(|l| l == "monitor=eDP-1,2880x1800@120,0x0,1.333333,bitdepth,10")
        .expect("fixture contains the eDP-1 record");
    assert_eq!(
        changed,
        vec![target],
        "only the eDP-1 record line may change"
    );
    assert_eq!(
        edited.lines().nth(target),
        Some("monitor=eDP-1,1920x1200@60,0x0,1.0,bitdepth,10"),
        "mode (field 2) and scale (field 4) changed; name, position, and extras preserved"
    );
}

#[test]
fn edited_record_stays_awk_parseable() {
    let original_fields: Vec<&str> = record_line(MONITORS_CONF, "eDP-1").split(',').collect();
    assert_eq!(
        original_fields[0], "monitor=eDP-1",
        "field 1 is the name token"
    );
    assert_eq!(original_fields[1], "2880x1800@120", "field 2 is the mode");
    assert_eq!(original_fields[3], "1.333333", "field 4 is the scale");

    let (mut file, _) = MonitorsFile::parse(MONITORS_CONF);
    file.set_field("eDP-1", MonitorField::Mode, "1920x1200@60")
        .expect("editable");
    file.set_field("eDP-1", MonitorField::Scale, "1.25")
        .expect("editable");
    let edited = file.emit();

    let fields: Vec<&str> = record_line(&edited, "eDP-1").split(',').collect();
    assert_eq!(fields[0], "monitor=eDP-1", "field 1 still the name token");
    assert_eq!(fields[1], "1920x1200@60", "field 2 still the mode");
    assert_eq!(fields[3], "1.25", "field 4 still the scale");
    assert_eq!(
        &fields[4..],
        &["bitdepth", "10"],
        "the trailing extras keep their positions after the scale"
    );
}

#[test]
fn set_field_rejects_a_comma_to_keep_records_awk_parseable() {
    let (mut file, _) = MonitorsFile::parse(MONITORS_CONF);
    assert_eq!(
        file.set_field("eDP-1", MonitorField::Mode, "1920x1200@60,extra"),
        Err(EditError::InvalidValue("1920x1200@60,extra".to_string()))
    );
    assert_eq!(
        file.set_field("eDP-1", MonitorField::Scale, "1.0\n"),
        Err(EditError::InvalidValue("1.0\n".to_string()))
    );
    assert_eq!(
        file.emit(),
        MONITORS_CONF,
        "a rejected edit changes nothing"
    );
}

#[test]
fn set_field_reports_missing_and_disabled_targets_without_changing_the_file() {
    let (mut file, _) = MonitorsFile::parse(MONITORS_CONF);

    assert_eq!(
        file.set_field("DP-9", MonitorField::Mode, "1920x1080@60"),
        Err(EditError::NoSuchMonitor("DP-9".to_string()))
    );
    assert_eq!(
        file.set_field(
            "desc:AU Optronics 0x2036",
            MonitorField::Mode,
            "1920x1080@60"
        ),
        Err(EditError::RecordDisabled(
            "desc:AU Optronics 0x2036".to_string()
        ))
    );
    assert_eq!(
        file.emit(),
        MONITORS_CONF,
        "no rejected edit changed the file"
    );
}

#[test]
fn appending_a_new_monitor_inserts_after_the_last_monitor_line() {
    let (mut file, _) = MonitorsFile::parse(MONITORS_CONF);
    let outcome = file
        .set_state(
            "DP-3",
            &MonitorState::Active {
                mode: "3840x2160@60".to_string(),
                position: "2880x0".to_string(),
                scale: "1.5".to_string(),
            },
        )
        .expect("appending a valid record succeeds");
    assert_eq!(outcome, SetOutcome::Appended);

    let expected = MONITORS_CONF.replace(
        "monitor=,preferred,auto,1\n",
        "monitor=,preferred,auto,1\nmonitor=DP-3,3840x2160@60,2880x0,1.5\n",
    );
    assert_eq!(
        file.emit(),
        expected,
        "the new record sits right after the last monitor= line, all else unchanged"
    );
}

#[test]
fn appending_with_no_existing_record_adds_at_end_of_file() {
    let (mut file, _) = MonitorsFile::parse("# just a comment\n");
    let outcome = file
        .set_state(
            "eDP-1",
            &MonitorState::Active {
                mode: "2880x1800@120".to_string(),
                position: "0x0".to_string(),
                scale: "1.333333".to_string(),
            },
        )
        .expect("append succeeds");
    assert_eq!(outcome, SetOutcome::Appended);
    assert_eq!(
        file.emit(),
        "# just a comment\nmonitor=eDP-1,2880x1800@120,0x0,1.333333\n"
    );
}

#[test]
fn appending_copies_the_last_records_separator_style() {
    let (mut file, _) = MonitorsFile::parse("monitor = eDP-1,2560x1440,0x0,1\n");
    file.set_state("DP-1", &MonitorState::Disabled)
        .expect("append succeeds");
    assert_eq!(
        file.emit(),
        "monitor = eDP-1,2560x1440,0x0,1\nmonitor = DP-1,disable\n"
    );
}

#[test]
fn disabling_an_active_record_collapses_it_to_the_disable_form() {
    let (mut file, _) = MonitorsFile::parse(MONITORS_CONF);
    let outcome = file
        .set_state("eDP-1", &MonitorState::Disabled)
        .expect("editable");
    assert_eq!(outcome, SetOutcome::Edited);

    let edited = file.emit();
    let changed = differing_line_indices(MONITORS_CONF, &edited);
    let target = MONITORS_CONF
        .lines()
        .position(|l| l == "monitor=eDP-1,2880x1800@120,0x0,1.333333,bitdepth,10")
        .expect("fixture contains the eDP-1 record");
    assert_eq!(changed, vec![target], "only the eDP-1 line may change");
    assert_eq!(edited.lines().nth(target), Some("monitor=eDP-1,disable"));
    assert_eq!(file.is_enabled("eDP-1"), Some(false));
    assert_eq!(file.field("eDP-1", MonitorField::Mode), None);
}

#[test]
fn enable_then_disable_round_trips_a_disabled_record() {
    let (mut file, _) = MonitorsFile::parse(MONITORS_CONF);
    let name = "desc:AU Optronics 0x2036";

    file.set_state(
        name,
        &MonitorState::Active {
            mode: "2560x1440@60".to_string(),
            position: "auto".to_string(),
            scale: "1.066667".to_string(),
        },
    )
    .expect("enable succeeds");
    assert_eq!(file.is_enabled(name), Some(true));
    assert_eq!(file.field(name, MonitorField::Scale), Some("1.066667"));
    assert_eq!(
        record_line(&file.emit(), name),
        "monitor=desc:AU Optronics 0x2036,2560x1440@60,auto,1.066667"
    );

    file.set_state(name, &MonitorState::Disabled)
        .expect("disable succeeds");
    assert_eq!(
        file.emit(),
        MONITORS_CONF,
        "disable/enable/disable returns the file to its original bytes"
    );
}

#[test]
fn a_malformed_monitor_line_is_preserved_and_warned_without_panicking() {
    let input = "\
# external head
monitor=HDMI-A-1,badmode
monitor=,preferred,auto,1
";
    let (file, warnings) = MonitorsFile::parse(input);

    assert_eq!(file.emit(), input);

    assert_eq!(warnings.len(), 1);
    assert_eq!(warnings[0].line(), 2);
    assert_eq!(
        warnings[0].kind(),
        &ParseWarningKind::UnexpectedRecordShape { field_count: 2 }
    );

    assert_eq!(file.record_names(), vec!["HDMI-A-1", ""]);
    assert_eq!(file.is_enabled("HDMI-A-1"), Some(true));
    assert_eq!(file.field("HDMI-A-1", MonitorField::Mode), Some("badmode"));
    assert_eq!(file.field("HDMI-A-1", MonitorField::Position), None);
}

#[test]
fn non_monitor_lines_are_never_touched() {
    let input = "workspace=1,monitor:eDP-1\nmonitor=eDP-1,preferred,auto,1\n";
    let (file, warnings) = MonitorsFile::parse(input);
    assert!(warnings.is_empty(), "a non-monitor line is not a warning");
    assert_eq!(file.emit(), input);
    assert_eq!(file.record_names(), vec!["eDP-1"]);
}

#[test]
fn a_commented_out_record_is_never_matched() {
    let input = "# monitor=eDP-1,2880x1800@120,0x0,1\nmonitor=,preferred,auto,1\n";
    let (mut file, _) = MonitorsFile::parse(input);
    assert_eq!(file.record_names(), vec![""]);
    assert_eq!(file.is_enabled("eDP-1"), None);
    assert_eq!(
        file.set_field("eDP-1", MonitorField::Mode, "1920x1080@60"),
        Err(EditError::NoSuchMonitor("eDP-1".to_string()))
    );
    assert_eq!(file.emit(), input, "the commented-out line is untouched");
}

#[test]
fn editing_preserves_a_trailing_inline_comment() {
    let input = "monitor=eDP-1,2880x1800@120,0x0,1.0 # primary panel\n";
    let (mut file, _) = MonitorsFile::parse(input);
    assert_eq!(file.field("eDP-1", MonitorField::Scale), Some("1.0"));
    file.set_field("eDP-1", MonitorField::Scale, "1.25")
        .expect("editable");
    assert_eq!(
        file.emit(),
        "monitor=eDP-1,2880x1800@120,0x0,1.25 # primary panel\n",
        "only the scale field changed; the inline comment is preserved"
    );
}

#[test]
fn crlf_line_endings_round_trip_and_survive_an_edit() {
    let input = "# CRLF\r\nmonitor=eDP-1,2880x1800@120,0x0,1.0\r\n";
    let (mut file, warnings) = MonitorsFile::parse(input);
    assert!(warnings.is_empty());
    assert_eq!(file.emit(), input, "CRLF endings must be preserved");
    assert_eq!(file.field("eDP-1", MonitorField::Scale), Some("1.0"));

    file.set_field("eDP-1", MonitorField::Scale, "1.5")
        .expect("editable");
    assert_eq!(
        file.emit(),
        "# CRLF\r\nmonitor=eDP-1,2880x1800@120,0x0,1.5\r\n"
    );
}

#[test]
fn edits_target_the_last_matching_duplicate_record() {
    let input = "\
monitor=eDP-1,2880x1800@120,0x0,1.0
monitor=eDP-1,1920x1200@60,0x0,1.5
";
    let (mut file, _) = MonitorsFile::parse(input);

    assert_eq!(
        file.field("eDP-1", MonitorField::Mode),
        Some("1920x1200@60")
    );
    assert_eq!(file.field("eDP-1", MonitorField::Scale), Some("1.5"));

    file.set_field("eDP-1", MonitorField::Scale, "2.0")
        .expect("editable");
    assert_eq!(
        file.emit(),
        "\
monitor=eDP-1,2880x1800@120,0x0,1.0
monitor=eDP-1,1920x1200@60,0x0,2.0
",
        "only the last (effective) duplicate changed; the first stayed identical"
    );
}

#[test]
fn set_field_preserves_whitespace_around_fields() {
    let input = "monitor = eDP-1, 2880x1800@120 , 0x0 , 1.5\n";
    let (mut file, _) = MonitorsFile::parse(input);
    assert_eq!(
        file.field("eDP-1", MonitorField::Mode),
        Some("2880x1800@120")
    );

    file.set_field("eDP-1", MonitorField::Mode, "1920x1200@60")
        .expect("editable");
    assert_eq!(
        file.emit(),
        "monitor = eDP-1, 1920x1200@60 , 0x0 , 1.5\n",
        "only the mode value changed; all surrounding whitespace is preserved"
    );
    assert_eq!(file.field("eDP-1", MonitorField::Position), Some("0x0"));
    assert_eq!(file.field("eDP-1", MonitorField::Scale), Some("1.5"));
}

#[test]
fn multi_extra_record_keeps_every_extra_in_position_after_a_scale_edit() {
    let input = "monitor=eDP-1,2880x1800@120,0x0,1.5,bitdepth,10,vrr,1\n";
    let (mut file, _) = MonitorsFile::parse(input);

    file.set_field("eDP-1", MonitorField::Scale, "1.25")
        .expect("editable");
    let edited = file.emit();

    let fields: Vec<&str> = record_line(&edited, "eDP-1").split(',').collect();
    assert_eq!(fields[0], "monitor=eDP-1", "field 1 still the name token");
    assert_eq!(fields[1], "2880x1800@120", "field 2 still the mode");
    assert_eq!(fields[3], "1.25", "field 4 still the scale");
    assert_eq!(
        &fields[4..],
        &["bitdepth", "10", "vrr", "1"],
        "every extra field (5..8) keeps its exact position"
    );
}

#[test]
fn appending_after_a_record_without_a_trailing_newline() {
    let (mut file, _) = MonitorsFile::parse("monitor=eDP-1,preferred,auto,1");
    let outcome = file
        .set_state(
            "DP-1",
            &MonitorState::Active {
                mode: "1920x1080@60".to_string(),
                position: "0x0".to_string(),
                scale: "1".to_string(),
            },
        )
        .expect("append succeeds");
    assert_eq!(outcome, SetOutcome::Appended);
    assert_eq!(
        file.emit(),
        "monitor=eDP-1,preferred,auto,1\nmonitor=DP-1,1920x1080@60,0x0,1\n"
    );

    let (reparsed, warnings) = MonitorsFile::parse(&file.emit());
    assert!(warnings.is_empty());
    assert_eq!(reparsed.record_names(), vec!["eDP-1", "DP-1"]);
    assert_eq!(
        reparsed.field("DP-1", MonitorField::Mode),
        Some("1920x1080@60")
    );
}

#[test]
fn set_state_preserves_a_trailing_inline_comment() {
    let input = "monitor=eDP-1,2880x1800@120,0x0,1.0 # primary panel\n";
    let (mut file, _) = MonitorsFile::parse(input);

    file.set_state(
        "eDP-1",
        &MonitorState::Active {
            mode: "1920x1200@60".to_string(),
            position: "0x0".to_string(),
            scale: "1.5".to_string(),
        },
    )
    .expect("editable");
    assert_eq!(
        file.emit(),
        "monitor=eDP-1,1920x1200@60,0x0,1.5 # primary panel\n",
        "the body was rewritten but the inline comment is preserved"
    );
}
