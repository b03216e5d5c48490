use settings4000::parsers::env::{EditError as EnvError, EnvFile, GtkThemeOverride};
use settings4000::parsers::hyprlang::{
    EditError as HyprlangError, HyprlangFile, KeyPath, ParseWarningKind as HyprlangWarning,
    SectionStep,
};
use settings4000::parsers::ini::{EditError as IniError, IniFile};
use settings4000::parsers::monitors::{
    EditError as MonitorError, MonitorField, MonitorState, MonitorsFile, SetOutcome,
};
use settings4000::parsers::generated::parse_scheme_swatch;
use settings4000::parsers::palette::{
    PaletteFile, ParseWarningKind, SetValueError, PALETTE_KEYS,
};
use settings4000::parsers::swaync::{ParseError, SwayncConfigFile};

const ODD_TEXTS: &[&str] = &[
    "",
    "\n",
    "\r\n",
    "a",
    "a=b",
    "a = b\r\n\r\nc",
    "\r",
    "x\r\r\ny = 1\r",
    "}\n{\n= \n#\n\u{a0}k = v\u{2003}\n",
    "[s]\nk=v",
    "monitor=\nmonitor=,\nmonitor = a , b",
];

#[test]
fn every_line_format_writes_back_what_it_read() {
    for text in ODD_TEXTS {
        assert_eq!(HyprlangFile::parse(text).0.emit(), *text);
        assert_eq!(IniFile::parse(text).0.emit(), *text);
        assert_eq!(EnvFile::parse(text).0.emit(), *text);
        assert_eq!(MonitorsFile::parse(text).0.emit(), *text);
        assert_eq!(PaletteFile::parse(text).0.emit(), *text);
    }
}

#[test]
fn hyprlang_value_is_read_back_and_others_stay() {
    let text = "a = 1\nsec {\n\tk = old # why\n\tother=2\n}\nsec {\n k = third\n}\n";
    let (mut file, warnings) = HyprlangFile::parse(text);
    assert!(warnings.is_empty());
    let path = KeyPath::at(&["sec"], "k");
    let second = KeyPath::new(vec![SectionStep::nth("sec", 1)], "k");
    file.set_value(&path, "  new value ").expect("the key is there");
    assert_eq!(file.value(&path), Some("  new value "));
    assert_eq!(
        file.emit(),
        "a = 1\nsec {\n\tk =   new value  # why\n\tother=2\n}\nsec {\n k = third\n}\n"
    );
    let (again, _) = HyprlangFile::parse(&file.emit());
    assert_eq!(again.value(&path), Some("new value"));
    assert_eq!(again.value(&second), Some("third"));
    assert_eq!(again.value(&KeyPath::top_level("a")), Some("1"));
    assert_eq!(again.value(&KeyPath::at(&["sec"], "other")), Some("2"));
    assert_eq!(again.section_count(&[], "sec"), 2);
}

#[test]
fn hyprlang_set_to_the_current_value_changes_nothing() {
    let text = "sec {\n  k =\t v  # c\n}";
    let (mut file, _) = HyprlangFile::parse(text);
    file.set_value(&KeyPath::at(&["sec"], "k"), "v").expect("ok");
    assert_eq!(file.emit(), text);
}

#[test]
fn hyprlang_new_assignment_takes_the_layout_of_its_section() {
    let (mut file, _) = HyprlangFile::parse("sec {\n\ta=1\n}\ntail");
    file.set_value(&KeyPath::at(&["sec"], "b"), "2").expect("ok");
    assert_eq!(file.emit(), "sec {\n\ta=1\n\tb=2\n}\ntail");
    file.set_value(&KeyPath::top_level("z"), "3").expect("ok");
    assert_eq!(file.emit(), "sec {\n\ta=1\n\tb=2\n}\ntail\nz = 3\n");
    let (mut bare, _) = HyprlangFile::parse("  sec {\r\n  }\r\n");
    bare.set_value(&KeyPath::at(&["sec"], "k"), "v").expect("ok");
    assert_eq!(bare.emit(), "  sec {\r\n      k = v\r\n  }\r\n");
}

#[test]
fn hyprlang_key_behind_an_open_section_lies_inside_it() {
    let (mut file, warnings) = HyprlangFile::parse("sec {\n");
    assert_eq!(warnings.len(), 1);
    assert_eq!(
        warnings[0].to_string(),
        "line 1: section `sec` opened here is never closed"
    );
    file.set_value(&KeyPath::top_level("k"), "v").expect("ok");
    assert_eq!(file.value(&KeyPath::top_level("k")), None);
    assert_eq!(file.value(&KeyPath::at(&["sec"], "k")), Some("v"));
}

#[test]
fn hyprlang_portion_is_read_back_and_other_fields_stay() {
    let text = "env = A, one two \nenv = B,2\nenv = C\n";
    let (mut file, _) = HyprlangFile::parse(text);
    file.set_repeatable_field_value("env", "A", " x ").expect("ok");
    assert_eq!(file.emit(), "env = A,  x  \nenv = B,2\nenv = C\n");
    assert_eq!(file.repeatable_field_value("env", "A"), Some("x "));
    let (again, _) = HyprlangFile::parse(&file.emit());
    assert_eq!(again.repeatable_field_value("env", "A"), Some("x"));
    assert_eq!(again.repeatable_field_value("env", "B"), Some("2"));
    assert_eq!(again.repeatable_field_value("env", "C"), None);
}

#[test]
fn hyprlang_failures_leave_the_file_and_say_why() {
    let text = "env = C\n";
    let (mut file, _) = HyprlangFile::parse(text);
    let missing = file
        .set_value(&KeyPath::at(&["a", "b"], "k"), "v")
        .expect_err("no section");
    assert_eq!(
        missing.to_string(),
        "no section for `a.b.k` to edit or append into"
    );
    assert!(matches!(missing, HyprlangError::SectionNotFound(_)));
    let nested = KeyPath::new(vec![SectionStep::first("a"), SectionStep::nth("b", 12)], "k");
    assert_eq!(nested.to_string(), "a.b[12].k");
    assert_eq!(
        file.set_repeatable_field_value("env", "C", "v")
            .expect_err("no comma")
            .to_string(),
        "the `env` entry with first field `C` has no comma, so no value portion to edit"
    );
    assert_eq!(
        file.set_repeatable_field_value("env", "D", "v")
            .expect_err("no such field")
            .to_string(),
        "no `env` entry whose first field is `D` to edit"
    );
    for bad in ["a\nb", "a\rb", "a#b"] {
        assert_eq!(
            file.set_value(&KeyPath::top_level("env"), bad),
            Err(HyprlangError::InvalidValue(bad.to_string()))
        );
    }
    assert_eq!(
        HyprlangError::InvalidValue("a#b".to_string()).to_string(),
        "`a#b` contains a newline or `#`, which would break hyprlang parsing"
    );
    assert_eq!(file.emit(), text);
}

#[test]
fn hyprlang_warnings_name_the_line() {
    let (_, warnings) = HyprlangFile::parse("}\n!!\n");
    assert_eq!(
        warnings.iter().map(|w| w.to_string()).collect::<Vec<_>>(),
        vec![
            "line 1: `}` with no matching section header".to_string(),
            "line 2: not a comment, blank line, section header, or key = value entry".to_string(),
        ]
    );
}

#[test]
fn ini_value_is_read_back_and_others_stay() {
    let (mut file, _) = IniFile::parse("[Settings]\r\nk = old\r\nother=2\r\n[Tail]\r\nk=3");
    file.set_value("Settings", "k", " new ").expect("ok");
    assert_eq!(file.value("Settings", "k"), Some(" new "));
    let (again, _) = IniFile::parse(&file.emit());
    assert_eq!(again.value("Settings", "k"), Some("new"));
    assert_eq!(again.value("Settings", "other"), Some("2"));
    assert_eq!(again.value("Tail", "k"), Some("3"));
}

#[test]
fn ini_new_entry_stands_behind_its_section() {
    let (mut file, _) = IniFile::parse("[A]\n a = 1\n\n[B]\nb=2\n");
    file.set_value("A", "c", "3").expect("ok");
    assert_eq!(file.emit(), "[A]\n a = 1\n c = 3\n\n[B]\nb=2\n");
    assert_eq!(file.value("A", "c"), Some("3"));
}

#[test]
fn ini_new_section_stands_at_the_end() {
    let (mut file, _) = IniFile::parse("[A]\na=1");
    file.set_value("B", "b", "2").expect("ok");
    assert_eq!(file.emit(), "[A]\na=1\n\n[B]\nb=2\n");
    let mut new = IniFile::empty();
    new.set_value("B", "b", "2").expect("ok");
    assert_eq!(new.emit(), "[B]\nb=2\n");
}

#[test]
fn ini_failures_leave_the_file_and_say_why() {
    let (mut file, warnings) = IniFile::parse("[A]\noops\n");
    assert_eq!(
        warnings[0].to_string(),
        "line 2: not a comment, blank line, `[section]` header, or key=value entry"
    );
    assert_eq!(
        file.set_value("A", "k", "a\rb").map(|_| ()),
        Err(IniError::InvalidValue("a\rb".to_string()))
    );
    assert_eq!(
        file.set_value("A", "k=", "v").map(|_| ()),
        Err(IniError::InvalidKey("k=".to_string()))
    );
    assert_eq!(
        file.set_value("B]", "k", "v").map(|_| ()),
        Err(IniError::InvalidSection("B]".to_string()))
    );
    assert_eq!(
        IniError::InvalidSection("B]".to_string()).to_string(),
        "`B]` is not a usable section name (empty, or contains `[`, `]`, a newline, or a carriage return)"
    );
    assert_eq!(
        IniError::InvalidKey("".to_string()).to_string(),
        "`` is not a usable settings key (empty, or contains `=`, a newline, or a carriage return)"
    );
    assert_eq!(
        IniError::InvalidValue("x".to_string()).to_string(),
        "`x` contains a newline or carriage return, which would split the line"
    );
    assert_eq!(file.emit(), "[A]\noops\n");
}

#[test]
fn env_value_is_read_back_and_the_last_assignment_counts() {
    let (mut file, _) = EnvFile::parse("A=1\nexport A = 2 \nB=3");
    assert_eq!(file.value("A"), Some("1"));
    assert_eq!(file.value("B"), Some("3"));
    let (mut twice, _) = EnvFile::parse("A=1\n\texport\tA=2\t\n");
    assert_eq!(twice.value("A"), Some("2"));
    twice.set_value("A", "x y").expect("ok");
    assert_eq!(twice.emit(), "A=1\n\texport\tA=x y\t\n");
    file.set_value("C", " 4 ").expect("ok");
    assert_eq!(file.emit(), "A=1\nexport A = 2 \nB=3\nexport C= 4 \n");
    assert_eq!(file.value("C"), Some("4"));
    assert_eq!(file.value("B"), Some("3"));
}

#[test]
fn env_comments_stay_when_a_value_is_added() {
    let (mut file, _) = EnvFile::parse("x=1\r\n ## export GTK_THEME=Nordic\r");
    assert_eq!(
        file.gtk_theme_override(),
        GtkThemeOverride::Commented {
            value: "Nordic".to_string()
        }
    );
    file.set_value("Y", "2").expect("ok");
    assert_eq!(
        file.gtk_theme_override(),
        GtkThemeOverride::Commented {
            value: "Nordic".to_string()
        }
    );
    assert!(!file.gtk_theme_override().is_active());
}

#[test]
fn env_failures_leave_the_file_and_say_why() {
    let (mut file, warnings) = EnvFile::parse("1A=b\n");
    assert_eq!(
        warnings[0].to_string(),
        "line 1: not a comment, blank line, or `KEY=value` assignment"
    );
    for key in ["", "1A", "A-B", "\u{e9}"] {
        assert_eq!(
            file.set_value(key, "v").map(|_| ()),
            Err(EnvError::InvalidKey(key.to_string()))
        );
    }
    assert_eq!(
        file.set_value("A", "v\n").map(|_| ()),
        Err(EnvError::InvalidValue("v\n".to_string()))
    );
    assert_eq!(
        EnvError::InvalidKey("1A".to_string()).to_string(),
        "`1A` is not a valid shell identifier (empty, starts with a digit, or contains a character outside [A-Za-z0-9_])"
    );
    assert_eq!(
        EnvError::InvalidValue("v".to_string()).to_string(),
        "`v` contains a newline or carriage return, which would split the line"
    );
    assert_eq!(file.emit(), "1A=b\n");
}

fn active(mode: &str, position: &str, scale: &str) -> MonitorState {
    MonitorState::Active {
        mode: mode.to_string(),
        position: position.to_string(),
        scale: scale.to_string(),
    }
}

#[test]
fn monitor_field_is_read_back_and_the_commas_stay() {
    let text = "monitor = A , 1x1 ,0x0, 1 ,transform,1 # c\nmonitor=B,2x2,0x0,2\n";
    let (mut file, _) = MonitorsFile::parse(text);
    file.set_field("A", MonitorField::Position, " 5x5 ").expect("ok");
    assert_eq!(
        file.emit(),
        "monitor = A , 1x1 , 5x5 , 1 ,transform,1 # c\nmonitor=B,2x2,0x0,2\n"
    );
    assert_eq!(file.field("A", MonitorField::Position), Some("5x5"));
    assert_eq!(file.field("A", MonitorField::Mode), Some("1x1"));
    assert_eq!(file.field("A", MonitorField::Scale), Some("1"));
    assert_eq!(file.field("B", MonitorField::Position), Some("0x0"));
    let (again, _) = MonitorsFile::parse(&file.emit());
    assert_eq!(again.field("A", MonitorField::Position), Some("5x5"));
    assert_eq!(again.record_names(), vec!["A", "B"]);
}

#[test]
fn monitor_state_is_read_back_and_undone() {
    let (mut file, _) = MonitorsFile::parse("monitor=A,1x1,0x0,1\nmonitor=B,disable\n");
    assert_eq!(
        file.set_state("A", &MonitorState::Disabled),
        Ok(SetOutcome::Edited)
    );
    assert_eq!(file.is_enabled("A"), Some(false));
    assert_eq!(file.field("A", MonitorField::Mode), None);
    assert_eq!(file.is_enabled("B"), Some(false));
    assert_eq!(
        file.set_state("A", &active("1x1", "0x0", "1")),
        Ok(SetOutcome::Edited)
    );
    assert_eq!(file.emit(), "monitor=A,1x1,0x0,1\nmonitor=B,disable\n");
}

#[test]
fn monitor_record_is_added_behind_the_last_one() {
    let (mut file, _) = MonitorsFile::parse("  monitor =  A,1x1,0x0,1\nworkspace = 1");
    assert_eq!(
        file.set_state("C", &active(" 2x2", "auto", "1.5")),
        Ok(SetOutcome::Appended)
    );
    assert_eq!(
        file.emit(),
        "  monitor =  A,1x1,0x0,1\n  monitor =  C, 2x2,auto,1.5\nworkspace = 1"
    );
    assert_eq!(file.field("C", MonitorField::Mode), Some("2x2"));
    assert_eq!(file.field("A", MonitorField::Mode), Some("1x1"));
    let (mut none, _) = MonitorsFile::parse("# none");
    none.set_state("D", &MonitorState::Disabled).expect("ok");
    assert_eq!(none.emit(), "# none\nmonitor=D,disable\n");
}

#[test]
fn monitor_failures_leave_the_file_and_say_why() {
    let text = "monitor=A,disable\nmonitor=B,1x1\n";
    let (mut file, warnings) = MonitorsFile::parse(text);
    assert_eq!(
        warnings[0].to_string(),
        "line 2: `monitor=` record has 2 comma field(s); expected `<name>,disable` or `<name>,mode,position,scale[,extras]` (at least four fields)"
    );
    let disabled = file
        .set_field("A", MonitorField::Mode, "1x1")
        .expect_err("disabled");
    assert_eq!(disabled, MonitorError::RecordDisabled("A".to_string()));
    assert_eq!(
        disabled.to_string(),
        "the `monitor=` record named `A` is disabled and has no field to edit"
    );
    assert_eq!(
        file.set_field("B", MonitorField::Scale, "1")
            .expect_err("too short")
            .to_string(),
        "the `monitor=` record named `B` has no scale field"
    );
    assert_eq!(
        file.set_field("C", MonitorField::Mode, "1")
            .expect_err("no record")
            .to_string(),
        "no `monitor=` record named `C` to edit"
    );
    assert_eq!(
        file.set_state("C", &active("1,2", "0x0", "1")),
        Err(MonitorError::InvalidValue("1,2".to_string()))
    );
    assert_eq!(
        file.set_state("C,D", &MonitorState::Disabled),
        Err(MonitorError::InvalidValue("C,D".to_string()))
    );
    assert_eq!(
        MonitorError::InvalidValue("1,2".to_string()).to_string(),
        "`1,2` contains a comma, newline, or `#`, which would break the record's positional (awk-parseable) structure"
    );
    assert_eq!(file.emit(), text);
}

#[test]
fn palette_value_is_read_back_and_others_stay() {
    let (mut file, _) = PaletteFile::parse("bg = 1d2021 \nfg=d4be98\n");
    file.set_value("bg", "ABCdef").expect("ok");
    assert_eq!(file.emit(), "bg = ABCdef \nfg=d4be98\n");
    let (again, _) = PaletteFile::parse(&file.emit());
    assert_eq!(again.value("bg"), Some("ABCdef"));
    assert_eq!(again.value("fg"), Some("d4be98"));
}

#[test]
fn complete_scheme_shows_every_color_in_order() {
    let text: String = PALETTE_KEYS
        .iter()
        .rev()
        .enumerate()
        .map(|(i, key)| format!("{key} = {i:06x}\n"))
        .collect();
    let swatch = parse_scheme_swatch(&text);
    assert!(swatch.validation().is_valid());
    let keys: Vec<&str> = swatch.colors().iter().map(|color| color.key()).collect();
    assert_eq!(keys, PALETTE_KEYS);
    assert_eq!(swatch.color(PALETTE_KEYS[0]), Some("000010"));
    let twice = format!("{text}{} = 000000\n", PALETTE_KEYS[3]);
    assert!(!parse_scheme_swatch(&twice).validation().is_valid());
}

#[test]
fn palette_failures_leave_the_file_and_say_why() {
    let (mut file, warnings) = PaletteFile::parse("bg=12345\n???\n");
    assert_eq!(warnings.len(), 2);
    assert!(matches!(
        warnings[0].kind(),
        ParseWarningKind::InvalidHexValue { .. }
    ));
    assert_eq!(
        warnings[1].to_string(),
        "line 2: not a comment, blank line, or key=value entry"
    );
    assert_eq!(
        file.set_value("bg", "#12345"),
        Err(SetValueError::InvalidValue("#12345".to_string()))
    );
    assert_eq!(
        file.set_value("nope", "123456"),
        Err(SetValueError::UnknownKey("nope".to_string()))
    );
    assert_eq!(
        SetValueError::UnknownKey("nope".to_string()).to_string(),
        "no palette entry named `nope` to edit"
    );
    assert_eq!(
        SetValueError::InvalidValue("x".to_string()).to_string(),
        "`x` is not a bare-hex color (expected six hex digits)"
    );
    assert_eq!(file.emit(), "bg=12345\n???\n");
}

#[test]
fn swaync_values_are_read_back_and_keys_keep_their_order() {
    let text = "{\n  \"b\": 1,\n  \"a\": {\n    \"z\": null,\n    \"y\": [\n      true\n    ]\n  },\n  \"s\": \"t\"\n}\n";
    let mut file = SwayncConfigFile::parse(text).expect("an object");
    assert_eq!(file.emit(), text);
    file.set_boolean("b", false);
    file.set_string("s", "\"\\\n\u{1F600}");
    file.set_integer("n", i64::MIN);
    let again = SwayncConfigFile::parse(&file.emit()).expect("an object");
    assert_eq!(again.boolean("b"), Some(false));
    assert_eq!(again.integer("b"), None);
    assert_eq!(again.string("s"), Some("\"\\\n\u{1F600}"));
    assert_eq!(again.integer("n"), Some(i64::MIN));
    assert_eq!(again.string("a"), None);
    assert_eq!(again.emit(), file.emit());
    assert_eq!(
        file.emit(),
        "{\n  \"b\": false,\n  \"a\": {\n    \"z\": null,\n    \"y\": [\n      true\n    ]\n  },\n  \"s\": \"\\\"\\\\\\n\u{1F600}\",\n  \"n\": -9223372036854775808\n}\n"
    );
}

#[test]
fn swaync_reads_deep_documents_back() {
    let deep = format!("{{\"k\":{}1{}}}", "[".repeat(126), "]".repeat(126));
    let file = SwayncConfigFile::parse(&deep).expect("as deep as can be read");
    let again = SwayncConfigFile::parse(&file.emit()).expect("reads back");
    assert_eq!(again.emit(), file.emit());
    let deeper = format!("{{\"k\":{}1{}}}", "[".repeat(127), "]".repeat(127));
    assert!(matches!(
        SwayncConfigFile::parse(&deeper),
        Err(ParseError::InvalidJson(_))
    ));
}

#[test]
fn swaync_integers_beyond_the_type_are_none() {
    let file = SwayncConfigFile::parse(
        "{\"big\": 9223372036854775808, \"max\": 9223372036854775807, \"real\": 1.0, \"dup\": 1, \"dup\": 2}",
    )
    .expect("an object");
    assert_eq!(file.integer("big"), None);
    assert_eq!(file.integer("max"), Some(i64::MAX));
    assert_eq!(file.integer("real"), None);
    assert_eq!(file.integer("dup"), Some(2));
    assert_eq!(file.integer("none"), None);
}

#[test]
fn swaync_failures_say_why() {
    let broken = SwayncConfigFile::parse("{").expect_err("not JSON");
    assert!(matches!(broken, ParseError::InvalidJson(_)));
    assert_eq!(
        broken.to_string(),
        "swaync config is not valid JSON: EOF while parsing an object at line 1 column 1"
    );
    assert_eq!(
        broken.message("why"),
        "swaync config is not valid JSON: why"
    );
    let other = SwayncConfigFile::parse("[]").expect_err("no object");
    assert_eq!(
        other.to_string(),
        "swaync config's top-level JSON value is not an object"
    );
    assert!(matches!(
        SwayncConfigFile::from_document(Ok(None)),
        Err(ParseError::NotAnObject)
    ));
}

#[test]
fn closed_file_takes_what_its_sections_name() {
    let text = "a {\n    b {\n        k = 1 # one\n    }\n    b {\n    }\n}\nx = 0\n";
    let (file, warnings) = HyprlangFile::parse(text);
    assert!(warnings.is_empty());
    let second = KeyPath::new(vec![SectionStep::first("a"), SectionStep::nth("b", 1)], "k");
    let third = KeyPath::new(vec![SectionStep::first("a"), SectionStep::nth("b", 2)], "k");
    assert_eq!(file.section_count(&[SectionStep::first("a")], "b"), 2);

    let mut edited = file.clone();
    assert!(edited.set_value(&KeyPath::at(&["a", "b"], "k"), "2").is_ok());
    assert_eq!(edited.emit(), text.replace("k = 1 # one", "k = 2 # one"));
    assert_eq!(file.emit(), text);

    let mut edited = file.clone();
    assert!(edited.set_value(&second, "3").is_ok());
    assert_eq!(edited.value(&second), Some("3"));

    let mut edited = file.clone();
    assert!(matches!(
        edited.set_value(&third, "3"),
        Err(HyprlangError::SectionNotFound(_))
    ));
    assert!(matches!(
        edited.set_value(&KeyPath::at(&["b"], "k"), "3"),
        Err(HyprlangError::SectionNotFound(_))
    ));
    assert_eq!(
        edited.set_value(&third, "a#b"),
        Err(HyprlangError::InvalidValue("a#b".to_string()))
    );
    assert_eq!(edited.emit(), text);
}

#[test]
fn unclosed_section_is_warned_of_exactly_where_one_stays_open() {
    for (text, open) in [
        ("a {\n}\n", false),
        ("a {\n", true),
        ("}\na {\n}\n", false),
        ("a {\nb {\n}\n", true),
        ("k = v\n", false),
    ] {
        let (_, warnings) = HyprlangFile::parse(text);
        let warned = warnings
            .iter()
            .any(|warning| matches!(warning.kind(), HyprlangWarning::UnclosedSection { .. }));
        assert_eq!(warned, open, "{text:?}");
    }
}

#[test]
fn env_line_is_found_by_its_first_field() {
    let (file, _) = HyprlangFile::parse("env = A,1\nenv = B\ns {\nenv = C,1\n}\n#env = D,1\n");
    assert!(file.has_repeatable("env", "A"));
    assert!(file.has_repeatable("env", "B"));
    assert!(!file.has_repeatable("env", "C"));
    assert!(!file.has_repeatable("env", "D"));
}

#[test]
fn copies_of_files_are_the_same_and_apart() {
    let (mut env, _) = EnvFile::parse("export A=1\n# c\n");
    let copy = env.clone();
    assert!(env.set_value("A", "2").is_ok());
    assert_eq!(copy.emit(), "export A=1\n# c\n");
    assert_eq!(copy.value("A"), Some("1"));

    let (mut ini, _) = IniFile::parse("[s]\nk=1\n");
    let copy = ini.clone();
    assert!(ini.set_value("s", "k", "2").is_ok());
    assert_eq!(copy.emit(), "[s]\nk=1\n");
    assert_eq!(copy.value("s", "k"), Some("1"));

    let (mut monitors, _) = MonitorsFile::parse("monitor=A,1x1,0x0,1\n");
    let copy = monitors.clone();
    assert!(monitors
        .set_field("A", MonitorField::Mode, "2x2")
        .is_ok());
    assert_eq!(copy.emit(), "monitor=A,1x1,0x0,1\n");

    let (mut palette, _) = PaletteFile::parse("base=000000\n");
    let copy = palette.clone();
    assert!(palette.set_value("base", "ffffff").is_ok());
    assert_eq!(copy.emit(), "base=000000\n");

    let mut config = SwayncConfigFile::parse("{\"b\": 1, \"a\": \"x\"}").expect("an object");
    let copy = config.clone();
    config.set_integer("b", 2);
    assert_eq!(copy.emit(), "{\n  \"b\": 1,\n  \"a\": \"x\"\n}\n");
    assert_eq!(copy.integer("b"), Some(1));
}

#[test]
fn failure_to_read_json_says_where() {
    let error = SwayncConfigFile::parse("{\n  \"a\": }").expect_err("not JSON");
    assert_eq!(
        error.to_string(),
        "swaync config is not valid JSON: expected value at line 2 column 8"
    );
}
