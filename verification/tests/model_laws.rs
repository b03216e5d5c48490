use settings4000::apply::FileWrite;
use settings4000::disk::Files;
use settings4000::model::{Category, SettingId, SettingValue, ValidationError};
use settings4000::parsers::palette::PALETTE_KEYS;
use settings4000::store::{FileValues, Reread, SettingsStore, StageError, StageOutcome};
use settings4000::theme::backing::BackingSet;
use settings4000::theme::palettes::{ColorsEntry, PaletteModel};
use settings4000::theme::staging::{Selection, Staged};
use settings4000::theme::themes::{
    GtkThemeOverrideSource, ThemeListing, ThemeRoots, ThemesModel, ThemesPaths,
};
use settings4000::theme::wallpaper::{WallpaperModel, WallpaperPaths};

fn put(disk: &mut Files, path: &str, text: &str) {
    disk.put(path, text.as_bytes().to_vec());
}

fn perform(disk: &mut Files, writes: &[FileWrite]) {
    for write in writes {
        disk.put(&write.path, write.contents.clone());
    }
}

#[test]
fn pending_change_is_forgotten_or_kept() {
    let mut value = Staged::new(Some("a".to_string()));
    value.stage("b");
    value.stage("c");
    assert_eq!(value.effective(), Some("c"));
    value.stage("a");
    assert!(!value.is_changed());
    value.stage("b");
    value.reset();
    assert_eq!(value.effective(), Some("a"));
    value.stage("b");
    value.commit();
    assert_eq!(value.original(), Some("b"));
    assert!(!value.is_changed());
    value.rebase(None);
    assert_eq!(value.effective(), None);
}

#[test]
fn current_value_is_among_the_options() {
    let names = vec!["x".to_string(), "y".to_string()];
    let mut choice = Selection::new(names.clone(), Some("z".to_string()));
    assert_eq!(choice.options(), ["z", "x", "y"]);
    assert_eq!(choice.selected_index(), Some(0));
    choice.stage("y");
    assert_eq!(choice.selected_index(), Some(2));
    choice.stage("unknown");
    assert_eq!(choice.selected_index(), None);
    assert_eq!(Selection::new(names, None).selected_index(), None);
}

#[test]
fn own_writes_are_no_conflict_and_are_built_on() {
    let mut disk = Files::new();
    put(&mut disk, "/a", "one");
    let mut set = BackingSet::load(&["/a", "/missing"], &disk);
    assert!(set.get("/missing").is_none());
    let write = FileWrite {
        path: "/a".to_string(),
        contents: b"two".to_vec(),
        changed_keys: Vec::new(),
        backing: settings4000::apply::BackingFile::UwsmEnv,
        validation: settings4000::apply::WriteValidation::NotNeeded,
    };
    let writes = vec![write];
    perform(&mut disk, &writes);
    assert!(set.check_conflict(&disk));
    set.absorb_writes(&writes);
    assert!(!set.check_conflict(&disk));
    assert_eq!(set.get("/a").map(|file| file.text()), Some("two"));
}

fn themes_paths() -> ThemesPaths {
    ThemesPaths {
        gtk3_settings: "/gtk3".to_string(),
        gtk4_settings: "/gtk4".to_string(),
        hyprland_conf: "/hyprland".to_string(),
        uwsm_env: "/uwsm".to_string(),
    }
}

fn load_themes(disk: &Files, app_env: Option<String>) -> ThemesModel {
    let roots = ThemeRoots {
        gtk_theme_dirs: vec!["/themes".to_string()],
        icon_dirs: vec!["/icons".to_string()],
    };
    let listing = ThemeListing {
        gtk: Vec::new(),
        icons: Vec::new(),
    };
    ThemesModel::load(&roots, themes_paths(), true, app_env, &listing, disk)
}

#[test]
fn promoted_theme_is_in_every_copy_and_loaded_again() {
    let mut disk = Files::new();
    put(&mut disk, "/gtk3", "[Settings]\ngtk-cursor-theme-name=Old\n");
    put(&mut disk, "/gtk4", "");
    put(&mut disk, "/hyprland", "env = XCURSOR_THEME,Old\n");
    put(&mut disk, "/uwsm", "export XCURSOR_THEME=Old\n");
    let mut model = load_themes(&disk, None);
    model.stage_cursor_theme("New");
    let apply = model.apply_contribution().expect("a change is pending");
    perform(&mut disk, &apply.writes);
    model.commit();
    assert!(!model.is_dirty());
    assert!(!model.check_conflict(&disk));
    assert_eq!(
        disk.text("/gtk4"),
        Some("[Settings]\ngtk-cursor-theme-name=New\n".to_string())
    );
    assert_eq!(
        disk.text("/hyprland"),
        Some("env = XCURSOR_THEME,New\n".to_string())
    );
    assert_eq!(
        disk.text("/uwsm"),
        Some("export XCURSOR_THEME=New\n".to_string())
    );
    assert_eq!(load_themes(&disk, None).cursor_theme().original(), Some("New"));
    assert!(model.apply_contribution().is_none());
}

#[test]
fn theme_that_one_copy_refuses_stays_pending() {
    let mut disk = Files::new();
    put(&mut disk, "/gtk3", "[Settings]\n");
    put(&mut disk, "/hyprland", "env = XCURSOR_THEME,Old\n");
    let mut model = load_themes(&disk, None);
    model.stage_cursor_theme("a#b");
    model.stage_gtk_theme("Plain");
    let apply = model.apply_contribution().expect("a change is pending");
    assert_eq!(apply.writes.len(), 1);
    perform(&mut disk, &apply.writes);
    model.commit();
    assert_eq!(model.gtk_theme().original(), Some("Plain"));
    assert!(!model.gtk_theme().is_changed());
    assert!(model.cursor_theme().is_changed());
    model.reset();
    assert!(!model.is_dirty());
}

#[test]
fn theme_that_breaks_a_line_is_taken_by_no_file() {
    let mut disk = Files::new();
    put(&mut disk, "/gtk3", "[Settings]\ngtk-theme-name=A\n");
    let mut model = load_themes(&disk, None);
    model.stage_gtk_theme("a\nb");
    assert!(model.is_dirty());
    model.commit();
    assert!(model.gtk_theme().is_changed());
    assert_eq!(model.gtk_theme().original(), Some("A"));
    assert_eq!(
        disk.text("/gtk3"),
        Some("[Settings]\ngtk-theme-name=A\n".to_string())
    );
}

#[test]
fn override_of_the_environment_comes_first() {
    let mut disk = Files::new();
    put(&mut disk, "/uwsm", "GTK_THEME=FromFile\n");
    assert_eq!(
        load_themes(&disk, Some("FromApp".to_string())).gtk_override(),
        Some(&GtkThemeOverrideSource::AppEnvironment("FromApp".to_string()))
    );
    let file = load_themes(&disk, Some(String::new()));
    assert_eq!(
        file.gtk_override(),
        Some(&GtkThemeOverrideSource::UwsmEnv("FromFile".to_string()))
    );
    assert_eq!(
        file.gtk_override().expect("forced").banner_message(),
        "The GTK theme is forced to \u{201c}FromFile\u{201d} by GTK_THEME in uwsm/env, so it cannot be changed here. Unset it to choose a theme."
    );
}

#[test]
fn cursor_sizes_are_positive_numbers() {
    let mut disk = Files::new();
    put(
        &mut disk,
        "/gtk3",
        "[Settings]\ngtk-cursor-theme-name=C\ngtk-cursor-theme-size=16\n",
    );
    for (size, expected) in [
        ("24", Some(24)),
        (" +32 ", Some(32)),
        ("0", None),
        ("-1", None),
        ("4294967295", Some(u32::MAX)),
        ("4294967296", None),
        ("x", None),
        ("+", None),
    ] {
        let mut model = load_themes(&disk, None);
        model.stage_cursor_size(size);
        let apply = model.apply_contribution().expect("a change is pending");
        assert_eq!(
            apply.reload_params.cursor.map(|cursor| cursor.size),
            expected,
            "{size:?}"
        );
    }
}

fn wallpaper_paths() -> WallpaperPaths {
    WallpaperPaths {
        hyprpaper_conf: "/paper".to_string(),
        hyprlock_conf: "/lock".to_string(),
    }
}

#[test]
fn wallpaper_apply_agrees_with_a_fresh_load() {
    let mut disk = Files::new();
    put(&mut disk, "/paper", "wallpaper {\n}\n");
    put(&mut disk, "/lock", "background {\n path = /a.png\n}\n");
    let mut model = WallpaperModel::load(wallpaper_paths(), true, &disk);
    assert!(model.override_on());
    assert!(!model.is_dirty());
    model.stage_wallpaper("/b.png", Ok(())).expect("valid");
    model.stage_fit("tile");
    model.set_override(false);
    let apply = model.apply_contribution().expect("a change is pending");
    perform(&mut disk, &apply.writes);
    model.commit();
    assert!(!model.is_dirty());
    assert!(!model.check_conflict(&disk));
    let fresh = model.reload(&disk);
    assert_eq!(fresh.wallpaper_original(), model.wallpaper_original());
    assert_eq!(fresh.lock_original(), Some("/b.png"));
    assert!(!fresh.override_on());
    assert_eq!(
        disk.text("/paper"),
        Some("wallpaper {\n    path = /b.png\n    fit_mode = tile\n}\n".to_string())
    );
    model.set_override(true);
    model.reset();
    assert!(!model.is_dirty());
    assert!(!model.override_on());
}

#[test]
fn lock_screen_without_an_image_gets_the_wallpaper() {
    let mut disk = Files::new();
    put(&mut disk, "/paper", "wallpaper {\npath = /a.png\n}\n");
    put(&mut disk, "/lock", "background {\n}\n");
    let model = WallpaperModel::load(wallpaper_paths(), true, &disk);
    assert!(model.is_dirty());
    let absent = WallpaperModel::load(wallpaper_paths(), false, &disk);
    assert!(!absent.is_dirty());
}

#[test]
fn invalid_image_is_not_staged() {
    let mut disk = Files::new();
    put(&mut disk, "/paper", "wallpaper {\npath = /a.png\n}\n");
    let mut model = WallpaperModel::load(wallpaper_paths(), true, &disk);
    let error = ValidationError {
        message: "no image".to_string(),
    };
    let refused = model.stage_wallpaper("/b.txt", Err(error));
    assert_eq!(refused.map_err(|e| e.to_string()), Err("no image".to_string()));
    assert!(!model.is_dirty());
}

fn entry(name: &str) -> ColorsEntry {
    ColorsEntry {
        name: name.to_string(),
        path: format!("/colors/{name}"),
        is_file: true,
    }
}

fn complete_palette(color: &str) -> String {
    PALETTE_KEYS
        .iter()
        .map(|key| format!("{key}={color}\n"))
        .collect()
}

#[test]
fn schemes_are_the_complete_palettes_in_order() {
    let mut disk = Files::new();
    put(&mut disk, "/colors/b", &complete_palette("0000ff"));
    put(&mut disk, "/colors/a", &complete_palette("00ff00"));
    put(&mut disk, "/colors/.hidden", &complete_palette("ff0000"));
    put(&mut disk, "/colors/partial", "bg=000000\n");
    let entries = vec![
        entry("b"),
        entry(".hidden"),
        entry("partial"),
        entry("a"),
        entry("missing"),
    ];
    let mut model =
        PaletteModel::load(&entries, "/colors.conf", "/generate".to_string(), &disk);
    let names: Vec<&str> = model.schemes().iter().map(|s| s.name()).collect();
    assert_eq!(names, ["a", "b"]);
    assert_eq!(
        model.schemes()[1].preview(),
        vec![(0, 0, 255); PALETTE_KEYS.len()].as_slice()
    );
    assert_eq!(model.active(), None);
    model.stage("partial");
    assert!(!model.is_dirty());
    model.stage("b");
    assert_eq!(model.selected_index(), Some(1));
    let switch = model.apply_contribution().expect("a switch is pending");
    assert_eq!(switch.scheme, "b");
    assert_eq!(switch.generate_colors, "/generate");
    model.commit();
    assert_eq!(model.active(), Some("b"));
    model.stage("b");
    assert!(!model.is_dirty());
    model.stage("a");
    model.reset();
    assert_eq!(model.selected(), Some("b"));
    assert!(model.apply_contribution().is_none());
}

fn values(bytes: &[u8], values: Vec<(SettingId, SettingValue)>) -> FileValues {
    FileValues {
        bytes: bytes.to_vec(),
        values,
    }
}

#[test]
fn session_setting_never_gets_into_the_store() {
    let mut store = SettingsStore::new();
    let id = SettingId::LaptopDisplayEnabled;
    store.load_file("/f", &values(b"x", vec![(id, SettingValue::Bool(true))]));
    assert_eq!(store.value(id), None);
    assert!(matches!(
        store.stage(id, SettingValue::Bool(false), Ok(())),
        Ok(StageOutcome::RuntimeBypass)
    ));
    assert!(!store.is_dirty());
}

#[test]
fn refresh_keeps_pending_changes_and_is_quiet_the_second_time() {
    let id = SettingId::NotificationTimeout;
    let mut disk = Files::new();
    disk.put("/f", b"5".to_vec());
    let mut store = SettingsStore::new();
    store.load_file("/f", &values(b"5", vec![(id, SettingValue::Integer(5))]));
    store
        .stage(id, SettingValue::Integer(9), Ok(()))
        .expect("loaded");
    disk.put("/f", b"7".to_vec());
    let again = vec![Reread {
        path: "/f".to_string(),
        values: values(b"7", vec![(id, SettingValue::Integer(7))]),
    }];
    let report = store.refresh(&disk, &again);
    assert_eq!(report.reloaded(), ["/f"]);
    assert!(report.failed().is_empty());
    assert_eq!(store.original(id), Some(&SettingValue::Integer(7)));
    assert_eq!(store.value(id), Some(&SettingValue::Integer(9)));
    assert!(store.refresh(&disk, &again).is_empty());
    store
        .stage(id, SettingValue::Integer(7), Ok(()))
        .expect("loaded");
    assert!(!store.is_dirty());
    assert!(!store.is_category_dirty(Category::Notifications));
}

#[test]
fn stage_failures_say_why() {
    let mut store = SettingsStore::new();
    let id = SettingId::MonitorScale;
    let missing = store
        .stage(id, SettingValue::Integer(1), Ok(()))
        .expect_err("not loaded");
    assert!(matches!(missing, StageError::NotLoaded(SettingId::MonitorScale)));
    assert_eq!(
        missing.to_string(),
        "setting MonitorScale is not loaded, so it cannot be staged"
    );
    let refused = store
        .stage(
            id,
            SettingValue::Integer(1),
            Err(ValidationError {
                message: "too small".to_string(),
            }),
        )
        .expect_err("invalid");
    assert_eq!(refused.to_string(), "too small");
    let from = StageError::from(ValidationError {
        message: "why".to_string(),
    });
    assert!(matches!(from, StageError::Invalid(_)));
}

fn float(value: f64) -> SettingValue {
    SettingValue::Float {
        bits: value.to_bits(),
    }
}

#[test]
fn no_infinity_and_no_nan_is_ever_staged() {
    let id = SettingId::MonitorScale;
    let mut store = SettingsStore::new();
    store.load_file("/f", &values(b"1", vec![(id, float(1.0))]));
    let odd = [
        f64::NAN,
        -f64::NAN,
        f64::from_bits(0x7ff0_0000_0000_0001),
        f64::INFINITY,
        f64::NEG_INFINITY,
    ];
    for value in odd {
        let refused = store
            .stage(id, float(value), Ok(()))
            .expect_err("not finite");
        assert_eq!(refused.to_string(), "not a finite number");
        assert_eq!(store.value(id), Some(&float(1.0)));
    }
    let session = store
        .stage(SettingId::LaptopDisplayEnabled, float(f64::NAN), Ok(()))
        .expect_err("not finite");
    assert!(matches!(session, StageError::Invalid(_)));
    for value in [f64::MAX, f64::MIN, f64::MIN_POSITIVE, 0.0] {
        store.stage(id, float(value), Ok(())).expect("finite");
        assert!(store.is_dirty());
    }
    store.stage(id, float(1.0), Ok(())).expect("finite");
    assert!(!store.is_dirty());
}

#[test]
fn refresh_handles_each_file_for_itself() {
    let scale = SettingId::MonitorScale;
    let timeout = SettingId::NotificationTimeout;
    let mouse = SettingId::MouseSensitivity;
    let mut disk = Files::new();
    let mut store = SettingsStore::new();
    for (path, id) in [("/a", scale), ("/b", timeout), ("/c", mouse)] {
        disk.put(path, b"1".to_vec());
        store.load_file(path, &values(b"1", vec![(id, SettingValue::Integer(1))]));
        store
            .stage(id, SettingValue::Integer(5), Ok(()))
            .expect("loaded");
    }
    let mut now = Files::new();
    now.put("/a", b"2".to_vec());
    now.put("/b", b"2".to_vec());
    let again = vec![Reread {
        path: "/b".to_string(),
        values: values(b"2", vec![(timeout, SettingValue::Integer(2))]),
    }];
    let report = store.refresh(&now, &again);
    assert_eq!(report.reloaded(), ["/b"]);
    assert_eq!(report.failed(), ["/a", "/c"]);
    assert_eq!(store.original(timeout), Some(&SettingValue::Integer(2)));
    assert_eq!(store.original(scale), Some(&SettingValue::Integer(1)));
    assert_eq!(store.original(mouse), Some(&SettingValue::Integer(1)));
    for id in [scale, timeout, mouse] {
        assert_eq!(store.value(id), Some(&SettingValue::Integer(5)));
    }
    let second = store.refresh(&now, &again);
    assert!(second.reloaded().is_empty());
    assert_eq!(second.failed(), ["/a", "/c"]);
}

#[test]
fn absent_copy_does_not_block_promotion_and_a_refused_one_does() {
    let mut disk = Files::new();
    put(&mut disk, "/gtk3", "[Settings]\ngtk-cursor-theme-name=Old\n");
    put(&mut disk, "/hyprland", "env = OTHER,x\n");
    put(&mut disk, "/uwsm", "export XCURSOR_THEME=Old\n");
    let mut model = load_themes(&disk, None);
    model.stage_cursor_theme("New#1");
    let apply = model.apply_contribution().expect("a change is pending");
    perform(&mut disk, &apply.writes);
    model.commit();
    assert!(!model.is_dirty());
    assert_eq!(disk.text("/hyprland").as_deref(), Some("env = OTHER,x\n"));
    assert_eq!(
        disk.text("/uwsm").as_deref(),
        Some("export XCURSOR_THEME=New#1\n")
    );

    put(&mut disk, "/hyprland", "env = XCURSOR_THEME,Old\n");
    let mut model = load_themes(&disk, None);
    model.stage_cursor_theme("Newer#1");
    model.commit();
    assert!(model.is_dirty());
}

fn image_paths() -> WallpaperPaths {
    WallpaperPaths {
        hyprpaper_conf: "/hyprpaper".to_string(),
        hyprlock_conf: "/hyprlock".to_string(),
    }
}

#[test]
fn reload_comes_only_with_a_write_of_hyprpaper_conf() {
    let mut disk = Files::new();
    put(&mut disk, "/hyprpaper", "splash = false\n");
    put(&mut disk, "/hyprlock", "background {\n    path = /a.png\n}\n");
    let mut model = WallpaperModel::load(image_paths(), true, &disk);
    model.set_override(false);
    model.stage_wallpaper("/b.png", Ok(())).expect("valid");
    let apply = model.apply_contribution().expect("hyprlock.conf is written");
    assert_eq!(apply.writes.len(), 1);
    assert_eq!(apply.writes[0].path, "/hyprlock");
    assert_eq!(apply.reload_params.wallpaper, None);
    assert_eq!(apply.reload_params.fit, None);
    assert_eq!(
        apply.validations,
        vec![(
            SettingId::LockBackgroundPath,
            SettingValue::Text("/b.png".to_string())
        )]
    );
}

#[test]
fn refused_wallpaper_is_not_validated_but_stays_effective() {
    let mut disk = Files::new();
    let hyprpaper = "wallpaper {\n    path = /a.png\n    fit_mode = cover\n}\n";
    put(&mut disk, "/hyprpaper", hyprpaper);
    let mut model = WallpaperModel::load(image_paths(), false, &disk);
    model.stage_wallpaper("/w#1.png", Ok(())).expect("valid");
    model.stage_fit("tile");
    let apply = model.apply_contribution().expect("the fit is written");
    assert_eq!(apply.writes.len(), 1);
    assert_eq!(
        apply.writes[0].validation,
        settings4000::apply::WriteValidation::NotNeeded
    );
    assert!(apply.validations.is_empty());
    assert_eq!(apply.reload_params.wallpaper.as_deref(), Some("/w#1.png"));
    assert_eq!(apply.reload_params.fit.as_deref(), Some("tile"));

    let mut model = WallpaperModel::load(image_paths(), false, &disk);
    model.stage_wallpaper("/b.png", Ok(())).expect("valid");
    model.stage_fit("a#b");
    let apply = model.apply_contribution().expect("the image is written");
    assert_eq!(apply.reload_params.wallpaper.as_deref(), Some("/b.png"));
    assert_eq!(apply.reload_params.fit.as_deref(), Some("a#b"));
    assert_eq!(apply.validations.len(), 1);
}

#[test]
fn copies_of_models_are_the_same_and_apart() {
    let mut value = Staged::new(Some("a".to_string()));
    value.stage("b");
    let copy = value.clone();
    value.reset();
    assert_eq!(copy.effective(), Some("b"));
    assert_eq!(copy.original(), Some("a"));

    let mut choice = Selection::new(vec!["x".to_string(), "y".to_string()], None);
    choice.stage("y");
    let other = choice.clone();
    choice.reset();
    assert_eq!(other.options(), ["x", "y"]);
    assert_eq!(other.selected_index(), Some(1));

    let mut disk = Files::new();
    put(&mut disk, "/a", "one");
    let set = BackingSet::load(&["/a"], &disk);
    let file = set.get("/a").expect("readable").clone();
    assert_eq!((file.path(), file.text()), ("/a", "one"));
}
