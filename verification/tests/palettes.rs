use settings4000::disk::Files;
use settings4000::theme::palettes::{
    enumerate_schemes, parse_hex_rgb, ColorsEntry, PaletteModel, Scheme,
};

const VALID_SCHEME: &str = "\
bg0=272e33
bg1=2e383c
bg2=374145
bg3=414b50
fg0=d3c6aa
fg1=9da9a0
fg2=859289
accent0=83c092
accent1=a7c080
accent2=7fbbb3
accent3=d699b6
red=e67e80
orange=e69875
yellow=dbbc7f
green=a7c080
blue=7fbbb3
purple=d699b6
";

fn entry(disk: &mut Files, dir: &str, name: &str, contents: &str) -> ColorsEntry {
    let path = format!("{dir}/{name}");
    disk.put(&path, contents.as_bytes().to_vec());
    ColorsEntry {
        name: name.to_string(),
        path,
        is_file: true,
    }
}

fn write_colors_dir(disk: &mut Files, dir: &str, schemes: &[&str]) -> Vec<ColorsEntry> {
    let mut entries = vec![
        entry(disk, dir, "README.md", "# Palette schemes\n"),
        entry(disk, dir, ".hidden", VALID_SCHEME),
        entry(disk, dir, "active-scheme", "nord\n"),
        ColorsEntry {
            name: "subdir".to_string(),
            path: format!("{dir}/subdir"),
            is_file: false,
        },
    ];
    for scheme in schemes.iter().rev() {
        entries.push(entry(disk, dir, scheme, VALID_SCHEME));
    }
    entries
}

fn write_active_source(disk: &mut Files, path: &str, scheme: &str) {
    let text =
        format!("# Generated from colors/{scheme} — do not edit manually\n$bg0 = rgb(272e33)\n");
    disk.put(path, text.into_bytes());
}

fn share(channel: u8) -> f64 {
    f64::from(channel) / 255.0
}

#[test]
fn enumeration_skips_dotfiles_subdirs_and_non_palette_files() {
    let mut disk = Files::new();
    let colors = write_colors_dir(&mut disk, "/colors", &["everforest", "nord"]);

    let schemes = enumerate_schemes(&colors, &disk);
    let names: Vec<&str> = schemes.iter().map(Scheme::name).collect();
    assert_eq!(
        names,
        vec!["everforest", "nord"],
        "only the two palette files are schemes, sorted by name"
    );
}

#[test]
fn a_valid_scheme_carries_a_parsed_preview() {
    let mut disk = Files::new();
    let colors = write_colors_dir(&mut disk, "/colors", &["nord"]);

    let schemes = enumerate_schemes(&colors, &disk);
    let nord = schemes.iter().find(|s| s.name() == "nord").expect("nord");
    assert_eq!(
        nord.preview().len(),
        17,
        "a complete palette previews all 17"
    );
    let (r, g, b) = nord.preview()[0];
    assert!((share(r) - f64::from(0x27) / 255.0).abs() < 1e-9);
    assert!((share(g) - f64::from(0x2e) / 255.0).abs() < 1e-9);
    assert!((share(b) - f64::from(0x33) / 255.0).abs() < 1e-9);
}

#[test]
fn active_scheme_is_detected_and_preselected() {
    let mut disk = Files::new();
    let colors = write_colors_dir(&mut disk, "/colors", &["everforest", "nord"]);
    let active_source = "/colors.conf";
    write_active_source(&mut disk, active_source, "nord");

    let model = PaletteModel::load(&colors, active_source, "/gen".to_string(), &disk);
    assert_eq!(model.active(), Some("nord"));
    assert_eq!(
        model.selected(),
        Some("nord"),
        "the active scheme is preselected"
    );
    assert_eq!(model.selected_index(), Some(1));
    assert!(!model.is_dirty(), "no switch is staged at load");
}

#[test]
fn an_undetectable_active_scheme_preselects_nothing() {
    let mut disk = Files::new();
    let colors = write_colors_dir(&mut disk, "/colors", &["everforest", "nord"]);
    let active_source = "/colors.conf";
    disk.put(active_source, "$bg0 = rgb(272e33)\n".as_bytes().to_vec());

    let model = PaletteModel::load(&colors, active_source, "/gen".to_string(), &disk);
    assert!(model.is_switchable(), "two schemes are still switchable");
    assert_eq!(model.active(), None, "an unrecognized header is unknown");
    assert_eq!(
        model.selected(),
        None,
        "nothing is selected when the active scheme is unknown"
    );
    assert_eq!(
        model.selected_index(),
        None,
        "no drop-down index is preselected when the active scheme is unknown"
    );
}

#[test]
fn an_active_scheme_absent_from_colors_preselects_nothing() {
    let mut disk = Files::new();
    let colors = write_colors_dir(&mut disk, "/colors", &["everforest", "nord"]);
    let active_source = "/colors.conf";
    write_active_source(&mut disk, active_source, "midnight");

    let model = PaletteModel::load(&colors, active_source, "/gen".to_string(), &disk);
    assert_eq!(
        model.active(),
        Some("midnight"),
        "the header's scheme name is reported even when its file is absent"
    );
    assert_eq!(
        model.selected(),
        Some("midnight"),
        "the selected scheme is the active one"
    );
    assert_eq!(
        model.selected_index(),
        None,
        "an active scheme absent from colors/ maps to no drop-down index"
    );
}

#[test]
fn fewer_than_two_schemes_degrades_to_read_only() {
    let mut disk = Files::new();
    let active_source = "/colors.conf";
    write_active_source(&mut disk, active_source, "nord");

    let one = write_colors_dir(&mut disk, "/one", &["nord"]);
    let model = PaletteModel::load(&one, active_source, "/gen".to_string(), &disk);
    assert_eq!(model.schemes().len(), 1);
    assert!(!model.is_switchable(), "one scheme is not switchable");

    let none = write_colors_dir(&mut disk, "/none", &[]);
    let model = PaletteModel::load(&none, active_source, "/gen".to_string(), &disk);
    assert!(
        model.schemes().is_empty(),
        "no valid palette files -> no schemes"
    );
    assert!(!model.is_switchable());

    let two = write_colors_dir(&mut disk, "/two", &["everforest", "nord"]);
    let model = PaletteModel::load(&two, active_source, "/gen".to_string(), &disk);
    assert!(model.is_switchable(), "two schemes are switchable");
}

#[test]
fn staging_a_different_scheme_is_dirty_and_reselecting_active_is_not() {
    let mut disk = Files::new();
    let colors = write_colors_dir(&mut disk, "/colors", &["everforest", "nord"]);
    let active_source = "/colors.conf";
    write_active_source(&mut disk, active_source, "nord");

    let mut model = PaletteModel::load(&colors, active_source, "/gen".to_string(), &disk);

    model.stage("everforest");
    assert!(model.is_dirty(), "switching to a different scheme is dirty");
    assert_eq!(model.selected(), Some("everforest"));

    model.stage("nord");
    assert!(
        !model.is_dirty(),
        "re-selecting the active scheme is not dirty"
    );
    assert_eq!(model.selected(), Some("nord"));

    model.stage("does-not-exist");
    assert!(!model.is_dirty());
}

#[test]
fn reset_discards_and_commit_promotes_the_staged_scheme() {
    let mut disk = Files::new();
    let colors = write_colors_dir(&mut disk, "/colors", &["everforest", "nord"]);
    let active_source = "/colors.conf";
    write_active_source(&mut disk, active_source, "nord");

    let mut model = PaletteModel::load(&colors, active_source, "/gen".to_string(), &disk);

    model.stage("everforest");
    model.reset();
    assert!(!model.is_dirty(), "reset discards the pending switch");
    assert_eq!(
        model.selected(),
        Some("nord"),
        "reset reverts to the active scheme"
    );

    model.stage("everforest");
    model.commit();
    assert!(!model.is_dirty(), "commit clears the dirty state");
    assert_eq!(
        model.active(),
        Some("everforest"),
        "commit promotes the staged scheme to active"
    );
}

#[test]
fn apply_contribution_is_none_when_clean_and_carries_the_generator_path_when_dirty() {
    let mut disk = Files::new();
    let colors = write_colors_dir(&mut disk, "/colors", &["everforest", "nord"]);
    let active_source = "/colors.conf";
    write_active_source(&mut disk, active_source, "nord");
    let generate_colors = "/repo/scripts/generate-colors".to_string();

    let mut model = PaletteModel::load(&colors, active_source, generate_colors.clone(), &disk);
    assert!(
        model.apply_contribution().is_none(),
        "nothing staged -> no contribution"
    );

    model.stage("everforest");
    let switch = model
        .apply_contribution()
        .expect("a staged switch contributes a PaletteSwitch");
    assert_eq!(switch.scheme, "everforest");
    assert_eq!(switch.generate_colors, generate_colors);
}

#[test]
fn parse_hex_rgb_reads_bare_hex_and_rejects_malformed_values() {
    let shares = |hex: &str| parse_hex_rgb(hex).map(|(r, g, b)| (share(r), share(g), share(b)));
    assert_eq!(shares("000000"), Some((0.0, 0.0, 0.0)));
    assert_eq!(shares("ffffff"), Some((1.0, 1.0, 1.0)));
    assert_eq!(parse_hex_rgb("fff"), None);
    assert_eq!(parse_hex_rgb("gggggg"), None);
    assert_eq!(parse_hex_rgb("#ffffff"), None);
}
