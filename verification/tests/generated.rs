use settings4000::parsers::generated::{detect_active_scheme, parse_scheme_swatch, read_active_scheme, read_scheme_swatch, ActiveScheme};

use settings4000::disk::Files;
use settings4000::parsers::palette::PALETTE_KEYS;

const COLORS_CONF_FIXTURE: &str = "\
# Generated from colors/everforest — do not edit manually
$bg0 = rgb(272e33)
$fg0 = rgb(d3c6aa)
$accent0 = rgb(83c092)
";

const SCHEME_FIXTURE: &str = "\
# Everforest Dark palette
bg0=272e33
bg1=2e383c
bg2=374145
bg3=414b50
fg0=d3c6aa
fg1=9da9a0
fg2=859289
accent0=83c092
accent1=a7c080
accent2=7fbbb3
accent3=d699b6
red=e67e80
orange=e69875
yellow=dbbc7f
green=a7c080
blue=7fbbb3
purple=d699b6
";

#[test]
fn well_formed_header_extracts_the_scheme_name() {
    assert_eq!(
        detect_active_scheme(COLORS_CONF_FIXTURE),
        ActiveScheme::Named("everforest".to_string())
    );
    assert_eq!(
        detect_active_scheme(COLORS_CONF_FIXTURE).name(),
        Some("everforest")
    );
}

#[test]
fn header_recognition_tolerates_whitespace_and_ascii_casing() {
    for input in [
        "#   Generated   from   colors/nord   — do not edit manually\n",
        "#Generated from colors/nord\n",
        "  # generated FROM Colors/nord\n",
    ] {
        assert_eq!(
            detect_active_scheme(input),
            ActiveScheme::Named("nord".to_string()),
            "expected `nord` from {input:?}"
        );
    }

    assert_eq!(
        detect_active_scheme("# Generated from colors/MyScheme\n"),
        ActiveScheme::Named("MyScheme".to_string())
    );

    assert_eq!(
        detect_active_scheme("# Generated from colors/gruvbox-dark — do not edit manually\n"),
        ActiveScheme::Named("gruvbox-dark".to_string())
    );
}

#[test]
fn header_below_a_leading_blank_or_comment_is_still_detected() {
    let input = "\n# some preamble\n# Generated from colors/everforest — do not edit manually\n$bg0 = rgb(272e33)\n";
    assert_eq!(
        detect_active_scheme(input),
        ActiveScheme::Named("everforest".to_string())
    );
}

#[test]
fn missing_malformed_and_empty_headers_degrade_to_unknown_without_error() {
    let cases = [
        "",
        "$bg0 = rgb(272e33)\n$fg0 = rgb(d3c6aa)\n",
        "# just a normal comment\n",
        "# This file was Generated from colors/x\n",
        "# Generated colors/everforest\n",
        "# Generated from schemes/everforest\n",
        "# Generated from colours/everforest\n",
        "# Generated from colors/\n",
        "# Generated from colors/ — do not edit manually\n",
        "Generated from colors/everforest\n",
    ];
    for input in cases {
        assert_eq!(
            detect_active_scheme(input),
            ActiveScheme::Unknown,
            "expected Unknown from {input:?}"
        );
        assert_eq!(detect_active_scheme(input).name(), None);
    }
}

#[test]
fn read_active_scheme_reads_a_file_and_treats_an_unreadable_path_as_unknown() {
    let mut disk = Files::new();
    disk.put("/hypr/colors.conf", COLORS_CONF_FIXTURE.as_bytes().to_vec());
    assert_eq!(
        read_active_scheme("/hypr/colors.conf", &disk),
        ActiveScheme::Named("everforest".to_string())
    );

    let missing = "/nonexistent/settings4000/hypr/colors.conf";
    assert_eq!(read_active_scheme(missing, &disk), ActiveScheme::Unknown);
}

#[test]
fn non_utf8_file_contents_degrade_to_unknown_without_error() {
    let mut disk = Files::new();
    disk.put("/raw", vec![0xFF, 0xFE, 0x00, 0xFF]);

    assert_eq!(read_active_scheme("/raw", &disk), ActiveScheme::Unknown);
    assert!(read_scheme_swatch("/raw", &disk).is_none());
}

#[test]
fn swatch_parse_reads_all_seventeen_colors_via_the_palette_parser() {
    let swatch = parse_scheme_swatch(SCHEME_FIXTURE);

    assert_eq!(
        swatch.colors().len(),
        PALETTE_KEYS.len(),
        "a complete scheme yields all 17 schema colors"
    );
    assert_eq!(swatch.color("bg0"), Some("272e33"));
    assert_eq!(swatch.color("accent0"), Some("83c092"));
    assert_eq!(swatch.color("purple"), Some("d699b6"));
    assert_eq!(swatch.color("not-a-key"), None);

    let first = &swatch.colors()[0];
    assert_eq!(first.key(), "bg0");
    assert_eq!(first.value(), "272e33");

    assert!(swatch.validation().is_valid());
}

#[test]
fn swatch_parse_degrades_gracefully_on_a_malformed_palette() {
    let malformed = "\
bg0=272e33
this line is not an assignment
accent0=83c092
";
    let swatch = parse_scheme_swatch(malformed);

    assert_eq!(swatch.colors().len(), 2);
    assert_eq!(swatch.color("bg0"), Some("272e33"));
    assert_eq!(swatch.color("accent0"), Some("83c092"));
    assert_eq!(swatch.color("purple"), None);
    assert!(!swatch.validation().is_valid());
}

#[test]
fn read_scheme_swatch_reads_a_file_and_returns_none_for_a_missing_path() {
    let mut disk = Files::new();
    disk.put("/colors/everforest", SCHEME_FIXTURE.as_bytes().to_vec());

    let swatch = read_scheme_swatch("/colors/everforest", &disk).expect("readable scheme file");
    assert_eq!(swatch.colors().len(), PALETTE_KEYS.len());
    assert_eq!(swatch.color("accent0"), Some("83c092"));

    let missing = "/nonexistent/settings4000/colors/everforest";
    assert!(read_scheme_swatch(missing, &disk).is_none());
}
