use settings4000::disk::Files;
use settings4000::freshness::{ConflictReason, FreshnessTracker};
use settings4000::model::{Backing, Category, SettingId, SettingValue};
use settings4000::parsers::palette::is_bare_hex;
use settings4000::text::{decimal_text, is_whitespace, lines_of, spliced, trimmed};
use settings4000::theme::discovery::comes_before;
use settings4000::theme::palettes::parse_hex_rgb;

#[test]
fn white_space_is_that_of_the_standard_library() {
    for c in '\0'..=char::MAX {
        assert_eq!(is_whitespace(c), c.is_whitespace(), "{:?}", c);
    }
}

#[test]
fn trimming_is_that_of_the_standard_library() {
    for text in ["", " ", "a", "\u{a0} a b\t\r\n", "\u{3000}\u{200b}x\u{2029}"] {
        let all: Vec<char> = text.chars().collect();
        let kept: String = trimmed(&all).iter().collect();
        assert_eq!(kept, text.trim());
    }
}

#[test]
fn lines_keep_their_terminators() {
    assert_eq!(lines_of("a\r\n\nb"), vec!["a\r\n", "\n", "b"]);
    assert!(lines_of("").is_empty());
    assert_eq!(lines_of("\n"), vec!["\n"]);
}

#[test]
fn splicing_counts_characters() {
    assert_eq!(spliced("\u{e9}ab\u{1F600}", 1, 3, "X\u{df}"), "\u{e9}X\u{df}\u{1F600}");
}

#[test]
fn numbers_are_written_in_decimal() {
    for n in [0, 7, 10, 99, 1000, usize::MAX] {
        assert_eq!(decimal_text(n), n.to_string());
    }
}

#[test]
fn order_is_that_of_strings() {
    let texts = ["", "A", "Z", "a", "aa", "ab", "\u{e9}", "\u{ffff}", "\u{1F600}"];
    for a in texts {
        for b in texts {
            assert_eq!(comes_before(a, b), a < b, "{a:?} {b:?}");
        }
    }
}

#[test]
fn colors_have_six_hexadecimal_digits() {
    assert_eq!(parse_hex_rgb("0aF9fF"), Some((0x0a, 0xf9, 0xff)));
    assert_eq!(parse_hex_rgb("000000"), Some((0, 0, 0)));
    for bad in ["", "12345", "1234567", "+f0000", "#12345", "12345g", "\u{e9}\u{e9}\u{e9}"] {
        assert_eq!(parse_hex_rgb(bad), None, "{bad:?}");
        assert!(!is_bare_hex(bad));
    }
}

#[test]
fn text_of_a_file_is_its_utf8() {
    let mut disk = Files::new();
    disk.put("/a", "\u{e9}\u{1F600}".as_bytes().to_vec());
    disk.put("/b", vec![0xff, 0x41]);
    disk.put("/c", Vec::new());
    assert_eq!(disk.text("/a"), Some("\u{e9}\u{1F600}".to_string()));
    assert_eq!(disk.text("/b"), None);
    assert_eq!(disk.text("/c"), Some(String::new()));
    assert_eq!(disk.text("/d"), None);
    disk.put("/b", b"ok".to_vec());
    assert_eq!(disk.text("/b"), Some("ok".to_string()));
    assert_eq!(disk.len(), 3);
    assert_eq!(disk.path_at(1), "/b");
    assert_eq!(disk.bytes_at(1), &b"ok".to_vec());
}

#[test]
fn every_byte_sequence_decodes_as_the_standard_library_has_it() {
    for a in 0u8..=255 {
        for b in [0x00u8, 0x41, 0x80, 0x9f, 0xa0, 0xbf, 0xc2, 0xff] {
            for tail in [&[][..], &[0x80][..], &[0x80, 0x80][..]] {
                let mut bytes = vec![a, b];
                bytes.extend_from_slice(tail);
                let mut disk = Files::new();
                disk.put("/f", bytes.clone());
                assert_eq!(disk.text("/f"), String::from_utf8(bytes).ok());
            }
        }
    }
}

#[test]
fn conflicts_name_what_changed_and_what_is_gone() {
    let mut disk = Files::new();
    disk.put("/a", b"1".to_vec());
    disk.put("/b", b"2".to_vec());
    let mut tracker = FreshnessTracker::new();
    tracker.record_bytes("/a", &b"1".to_vec());
    tracker.record_bytes("/b", &b"2".to_vec());
    tracker.record_bytes("/gone", &b"3".to_vec());
    disk.put("/b", b"other".to_vec());
    let found: Vec<(String, ConflictReason)> = tracker
        .check_conflicts(&disk)
        .iter()
        .map(|c| (c.path().to_string(), c.reason()))
        .collect();
    assert_eq!(
        found,
        vec![
            ("/b".to_string(), ConflictReason::ContentChanged),
            ("/gone".to_string(), ConflictReason::Unreadable),
        ]
    );
    tracker.record_bytes("/b", &b"other".to_vec());
    disk.put("/gone", b"3".to_vec());
    assert!(tracker.check_conflicts(&disk).is_empty());
}

#[test]
fn floating_point_values_compare_as_numbers() {
    let numbers = [
        0.0,
        -0.0,
        1.0,
        -1.0,
        f64::MIN_POSITIVE,
        5e-324,
        f64::INFINITY,
        f64::NEG_INFINITY,
        f64::NAN,
        -f64::NAN,
        f64::MAX,
    ];
    for a in numbers {
        for b in numbers {
            let x = SettingValue::Float { bits: a.to_bits() };
            let y = SettingValue::Float { bits: b.to_bits() };
            assert_eq!(x.same(&y), a == b, "{a} {b}");
        }
    }
}

#[test]
fn values_of_two_types_are_not_the_same() {
    let values = [
        SettingValue::Bool(true),
        SettingValue::Integer(1),
        SettingValue::Float {
            bits: 1.0f64.to_bits(),
        },
        SettingValue::Text("1".to_string()),
    ];
    for (i, a) in values.iter().enumerate() {
        for (j, b) in values.iter().enumerate() {
            assert_eq!(a.same(b), i == j);
        }
        assert!(a.clone().same(a));
    }
}

#[test]
fn settings_know_where_they_live() {
    assert_eq!(SettingId::LaptopDisplayEnabled.backing(), Backing::RuntimeOnly);
    assert_eq!(SettingId::WallpaperPath.backing(), Backing::FileBacked);
    assert_eq!(SettingId::WallpaperPath.category(), Category::Theme);
    assert_eq!(SettingId::NotificationTimeout.name(), "NotificationTimeout");
}
