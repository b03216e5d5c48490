use settings4000::parsers::swaync::{ParseError, SwayncConfigFile};

const SWAYNC_FIXTURE: &str = "\
{
  \"$schema\": \"/etc/xdg/swaync/configSchema.json\",
  \"positionX\": \"right\",
  \"positionY\": \"top\",
  \"control-center-margin-top\": 52,
  \"notification-2fa-action\": true,
  \"timeout\": 10,
  \"timeout-low\": 5,
  \"timeout-critical\": 0,
  \"fit-to-screen\": false,
  \"keyboard-shortcuts\": true,
  \"image-visibility\": \"when-available\",
  \"widgets\": [
    \"inhibitors\",
    \"title\",
    \"dnd\",
    \"notifications\"
  ],
  \"widget-config\": {
    \"dnd\": {
      \"text\": \"Do Not Disturb\"
    }
  }
}
";

fn top_level_keys(json: &str) -> Vec<String> {
    json.lines()
        .filter_map(|line| {
            let rest = line.strip_prefix("  ")?;
            if rest.starts_with(' ') || !rest.starts_with('"') {
                return None;
            }
            let after_open = &rest[1..];
            let close = after_open.find('"')?;
            Some(after_open[..close].to_string())
        })
        .collect()
}

#[test]
fn no_op_round_trip_preserves_bytes_and_key_order() {
    let config = SwayncConfigFile::parse(SWAYNC_FIXTURE).expect("fixture is valid JSON");
    let emitted = config.emit();
    assert_eq!(
        emitted, SWAYNC_FIXTURE,
        "a no-op round-trip must reproduce the canonical file byte-for-byte"
    );

    assert_eq!(
        top_level_keys(&emitted),
        top_level_keys(SWAYNC_FIXTURE),
        "top-level key order must be stable across a no-op round-trip"
    );
}

#[test]
fn emitted_output_ends_with_exactly_one_trailing_newline() {
    let config = SwayncConfigFile::parse(SWAYNC_FIXTURE).expect("valid JSON");
    let emitted = config.emit();
    assert!(
        emitted.ends_with("}\n"),
        "must end with a closing brace + newline"
    );
    assert!(
        !emitted.ends_with("}\n\n"),
        "must not accumulate extra trailing newlines"
    );
}

#[test]
fn position_and_timeout_edits_round_trip_and_touch_nothing_else() {
    let mut config = SwayncConfigFile::parse(SWAYNC_FIXTURE).expect("valid JSON");
    config.set_string("positionX", "left");
    config.set_integer("timeout", 30);

    assert_eq!(config.string("positionX"), Some("left"));
    assert_eq!(config.integer("timeout"), Some(30));

    let expected = SWAYNC_FIXTURE
        .replace("\"positionX\": \"right\"", "\"positionX\": \"left\"")
        .replace("\"timeout\": 10", "\"timeout\": 30");
    assert_eq!(
        config.emit(),
        expected,
        "only the edited values may change; all other bytes and the key order stay put"
    );

    assert_eq!(config.string("positionY"), Some("top"));
    assert_eq!(config.integer("timeout-low"), Some(5));
    assert_eq!(config.integer("timeout-critical"), Some(0));
    assert_eq!(config.boolean("keyboard-shortcuts"), Some(true));
}

#[test]
fn boolean_edit_round_trips() {
    let mut config = SwayncConfigFile::parse(SWAYNC_FIXTURE).expect("valid JSON");
    assert_eq!(config.boolean("fit-to-screen"), Some(false));
    config.set_boolean("fit-to-screen", true);
    assert_eq!(config.boolean("fit-to-screen"), Some(true));

    let reparsed = SwayncConfigFile::parse(&config.emit()).expect("emit stays valid JSON");
    assert_eq!(reparsed.boolean("fit-to-screen"), Some(true));
}

#[test]
fn updating_an_existing_key_keeps_its_position_setting_a_new_key_appends() {
    let mut config = SwayncConfigFile::parse(SWAYNC_FIXTURE).expect("valid JSON");
    let original_order = top_level_keys(SWAYNC_FIXTURE);

    config.set_string("positionY", "bottom");
    assert_eq!(
        top_level_keys(&config.emit()),
        original_order,
        "updating an existing key must not reorder the object"
    );

    config.set_integer("transition-time", 250);
    let mut expected_order = original_order.clone();
    expected_order.push("transition-time".to_string());
    assert_eq!(
        top_level_keys(&config.emit()),
        expected_order,
        "a new key must be appended after the existing keys"
    );
}

#[test]
fn typed_getters_return_none_for_absent_or_wrongly_typed_keys() {
    let config = SwayncConfigFile::parse(SWAYNC_FIXTURE).expect("valid JSON");

    assert_eq!(config.string("does-not-exist"), None);
    assert_eq!(config.integer("does-not-exist"), None);
    assert_eq!(config.boolean("does-not-exist"), None);

    assert_eq!(config.integer("positionX"), None);
    assert_eq!(config.boolean("positionX"), None);
    assert_eq!(config.string("timeout"), None);
    assert_eq!(config.boolean("timeout"), None);
}

#[test]
fn integer_returns_none_for_a_fractional_or_out_of_range_number() {
    let config =
        SwayncConfigFile::parse("{ \"frac\": 10.0, \"huge\": 1e20 }").expect("valid JSON");
    assert_eq!(
        config.integer("frac"),
        None,
        "a fractional number is not an i64"
    );
    assert_eq!(
        config.integer("huge"),
        None,
        "a number beyond i64's range is not an i64"
    );
}

#[test]
fn malformed_json_returns_an_error_without_panicking() {
    let err = SwayncConfigFile::parse("{ \"positionX\": \"right\", }")
        .expect_err("a trailing comma is invalid JSON");
    assert!(matches!(err, ParseError::InvalidJson(_)));
    assert!(!err.to_string().is_empty());
}

#[test]
fn valid_json_that_is_not_an_object_is_rejected() {
    let err =
        SwayncConfigFile::parse("[1, 2, 3]").expect_err("root is an array, not an object");
    assert!(matches!(err, ParseError::NotAnObject));
}

#[test]
fn compact_input_is_normalized_to_canonical_pretty_form() {
    let compact = "{\"positionX\":\"right\",\"timeout\":10}";
    let config = SwayncConfigFile::parse(compact).expect("valid JSON");
    assert_eq!(
        config.emit(),
        "{\n  \"positionX\": \"right\",\n  \"timeout\": 10\n}\n"
    );
}

#[test]
fn string_escapes_and_non_ascii_survive_a_round_trip() {
    let fixture = "{\n  \"text-empty\": \"a \\\"quote\\\" and a \\\\ and café ☕\"\n}\n";
    let config = SwayncConfigFile::parse(fixture).expect("valid JSON");

    assert_eq!(
        config.string("text-empty"),
        Some("a \"quote\" and a \\ and café ☕")
    );

    assert_eq!(config.emit(), fixture);
}
