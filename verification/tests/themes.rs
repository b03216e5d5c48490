use settings4000::apply::{BackingFile, CursorValue, FileWrite, WriteValidation};
use settings4000::disk::Files;
use settings4000::parsers::env::GtkThemeOverride;
use settings4000::theme::discovery::{
    discover_gtk_themes, discover_icon_and_cursor_themes, DirEntry,
};
use settings4000::theme::themes::{
    resolve_gtk_override, GtkThemeOverrideSource, ThemeListing, ThemeRoots, ThemesModel,
    ThemesPaths,
};

const SETTINGS_INI: &str = "\
[Settings]
gtk-theme-name=Everforest-Green-Dark
gtk-icon-theme-name=Everforest-Dark
gtk-cursor-theme-name=Nordic-cursors
gtk-cursor-theme-size=16
";

const HYPRLAND_ENV: &str = "\
# Cursor env, kept identical to uwsm/env.
env = XCURSOR_THEME,Nordic-cursors
env = XCURSOR_SIZE,16
";

const UWSM_ENV: &str = "\
#export GTK_THEME=Nordic-bluish-accent
export XCURSOR_THEME=Nordic-cursors
export XCURSOR_SIZE=16
";

fn replace_once(text: &str, from: &str, to: &str) -> String {
    assert_eq!(text.matches(from).count(), 1, "`{from}` must occur once");
    text.replacen(from, to, 1)
}

fn config_paths() -> ThemesPaths {
    ThemesPaths {
        gtk3_settings: "/config/gtk-3.0/settings.ini".to_string(),
        gtk4_settings: "/config/gtk-4.0/settings.ini".to_string(),
        hyprland_conf: "/config/hypr/hyprland.conf".to_string(),
        uwsm_env: "/config/uwsm/env".to_string(),
    }
}

fn write(disk: &mut Files, path: &str, text: &str) {
    disk.put(path, text.as_bytes().to_vec());
}

fn read(disk: &Files, path: &str) -> String {
    disk.text(path).expect("the file is there and is text")
}

fn write_backing_fixture(disk: &mut Files, uwsm: &str) -> ThemesPaths {
    let paths = config_paths();
    write(disk, &paths.gtk3_settings, SETTINGS_INI);
    write(
        disk,
        &paths.gtk4_settings,
        "# gtk4\n[Settings]\ngtk-theme-name = Everforest-Green-Dark\ngtk-cursor-theme-name = Nordic-cursors\ngtk-cursor-theme-size = 16\n",
    );
    write(disk, &paths.hyprland_conf, HYPRLAND_ENV);
    write(disk, &paths.uwsm_env, uwsm);
    paths
}

fn directory(name: &str, has_index: bool, subdirs: &[&str]) -> DirEntry {
    DirEntry {
        name: name.to_string(),
        is_dir: true,
        has_index,
        subdirs: subdirs.iter().map(|s| s.to_string()).collect(),
    }
}

fn icon_root() -> Vec<DirEntry> {
    vec![
        directory("Papirus", true, &["scalable"]),
        directory("Bibata", false, &["cursors"]),
        directory("Nordic-cursors", true, &["cursors"]),
        directory("Adwaita", true, &["16x16", "cursors"]),
    ]
}

fn no_themes() -> ThemeListing {
    ThemeListing {
        gtk: Vec::new(),
        icons: Vec::new(),
    }
}

fn icons_only() -> ThemeListing {
    ThemeListing {
        gtk: Vec::new(),
        icons: icon_root(),
    }
}

fn gtk_only(names: &[&str]) -> ThemeListing {
    ThemeListing {
        gtk: names
            .iter()
            .map(|name| directory(name, false, &["gtk-4.0"]))
            .collect(),
        icons: Vec::new(),
    }
}

fn no_roots() -> ThemeRoots {
    ThemeRoots {
        gtk_theme_dirs: Vec::new(),
        icon_dirs: Vec::new(),
    }
}

fn load(paths: &ThemesPaths, listing: &ThemeListing, disk: &Files) -> ThemesModel {
    ThemesModel::load(&no_roots(), paths.clone(), false, None, listing, disk)
}

fn perform(disk: &mut Files, writes: &[FileWrite]) {
    for write in writes {
        disk.put(&write.path, write.contents.clone());
    }
}

#[test]
fn discovery_finds_gtk_icon_and_cursor_themes_from_fixture_roots() {
    let themes = vec![
        directory("Everforest-Green-Dark", false, &["gtk-4.0"]),
        directory("Arc", false, &["gtk-3.0"]),
        directory("NotATheme", false, &[]),
        directory(".hidden", false, &["gtk-4.0"]),
    ];

    let gtk = discover_gtk_themes(&themes);
    assert_eq!(
        gtk,
        vec![
            "Adwaita".to_string(),
            "Adwaita-dark".to_string(),
            "Arc".to_string(),
            "Everforest-Green-Dark".to_string()
        ],
        "GTK themes are the dirs with a gtk-3.0/ or gtk-4.0/ plus the built-ins, sorted; \
             dotfiles/non-themes skipped"
    );

    let (icon_themes, cursor_themes) = discover_icon_and_cursor_themes(&icon_root());
    assert_eq!(
        icon_themes,
        vec!["Adwaita".to_string(), "Papirus".to_string()],
        "a dir with index.theme AND real icon content is an icon theme, including \
             Adwaita, which also ships cursors"
    );
    assert_eq!(
        cursor_themes,
        vec![
            "Adwaita".to_string(),
            "Bibata".to_string(),
            "Nordic-cursors".to_string()
        ],
        "a cursors/ subdir marks a cursor theme; Adwaita is in both lists, and a pure \
             cursor pack with an index.theme (Nordic-cursors) stays cursor-only"
    );
}

#[test]
fn discovery_dedups_names_across_multiple_roots() {
    let user_and_system = vec![
        directory("Nordic", false, &["gtk-4.0"]),
        directory("Nordic", false, &["gtk-4.0"]),
    ];
    let gtk = discover_gtk_themes(&user_and_system);
    assert_eq!(
        gtk,
        vec![
            "Adwaita".to_string(),
            "Adwaita-dark".to_string(),
            "Nordic".to_string()
        ],
        "the duplicate name collapses to one entry alongside the built-in variants"
    );
}

#[test]
fn builtin_gtk_themes_are_offered_without_a_theme_dir_and_are_never_duplicated() {
    let without = vec![directory("Nordic", false, &["gtk-3.0"])];
    assert_eq!(
        discover_gtk_themes(&without),
        vec![
            "Adwaita".to_string(),
            "Adwaita-dark".to_string(),
            "Nordic".to_string()
        ],
        "the built-in variants are offered even though no Adwaita dir exists, merged \
             into the scan's single sort order"
    );

    let with = vec![
        directory("Adwaita", false, &["gtk-3.0"]),
        directory("Adwaita-dark", false, &["gtk-3.0"]),
        directory("Nordic", false, &["gtk-3.0"]),
    ];
    let scanned = discover_gtk_themes(&with);
    assert_eq!(
        scanned,
        vec![
            "Adwaita".to_string(),
            "Adwaita-dark".to_string(),
            "Nordic".to_string()
        ],
        "a scanned Adwaita dir collapses with the built-in entry of the same name"
    );
}

#[test]
fn a_cursor_change_writes_all_four_files_to_the_same_value_and_reloads() {
    let mut disk = Files::new();
    let paths = write_backing_fixture(&mut disk, UWSM_ENV);
    let listing = icons_only();

    let mut model = load(&paths, &listing, &disk);
    model.stage_cursor_theme("Bibata");
    model.stage_cursor_size("24");
    assert!(model.is_dirty());

    let contribution = model
        .apply_contribution()
        .expect("a cursor change contributes writes");
    assert_eq!(
        contribution.writes.len(),
        4,
        "a cursor change writes both settings.ini plus hyprland.conf and uwsm/env"
    );
    assert_eq!(
        contribution.reload_params.cursor,
        Some(CursorValue {
            theme: "Bibata".to_string(),
            size: 24
        }),
        "the reload carries the new cursor theme+size"
    );
    assert!(contribution.reload_params.gtk_theme.is_none());
    assert!(contribution.reload_params.icon_theme.is_none());

    assert!(
        contribution
            .writes
            .iter()
            .all(|write| write.validation == WriteValidation::NotNeeded),
        "every cursor copy declares that the plan validates nothing for it"
    );

    perform(&mut disk, &contribution.writes);

    let gtk3 = read(&disk, &paths.gtk3_settings);
    let gtk4 = read(&disk, &paths.gtk4_settings);
    let hypr = read(&disk, &paths.hyprland_conf);
    let uwsm = read(&disk, &paths.uwsm_env);
    assert!(gtk3.contains("gtk-cursor-theme-name=Bibata"));
    assert!(gtk3.contains("gtk-cursor-theme-size=24"));
    assert!(gtk4.contains("gtk-cursor-theme-name = Bibata"));
    assert!(gtk4.contains("gtk-cursor-theme-size = 24"));
    assert!(hypr.contains("env = XCURSOR_THEME,Bibata"));
    assert!(hypr.contains("env = XCURSOR_SIZE,24"));
    assert!(uwsm.contains("export XCURSOR_THEME=Bibata"));
    assert!(uwsm.contains("export XCURSOR_SIZE=24"));
}

#[test]
fn a_gtk_theme_change_writes_only_settings_ini_and_sets_gsettings() {
    let mut disk = Files::new();
    let paths = write_backing_fixture(&mut disk, UWSM_ENV);
    let listing = gtk_only(&["Adwaita"]);

    let mut model = load(&paths, &listing, &disk);
    model.stage_gtk_theme("Adwaita");

    let contribution = model.apply_contribution().expect("a GTK theme write");
    assert_eq!(
        contribution.writes.len(),
        2,
        "only the two settings.ini files"
    );
    assert!(
        contribution
            .writes
            .iter()
            .all(|write| write.backing == BackingFile::GtkSettings)
    );
    assert!(
        contribution
            .writes
            .iter()
            .all(|write| write.validation == WriteValidation::NotNeeded),
        "theme writes are validation-free by design"
    );
    assert_eq!(
        contribution.reload_params.gtk_theme,
        Some("Adwaita".to_string())
    );
    assert!(contribution.reload_params.cursor.is_none());

    perform(&mut disk, &contribution.writes);
    assert!(
        read(&disk, &paths.gtk3_settings)
            .contains("gtk-theme-name=Adwaita")
    );
    assert!(
        read(&disk, &paths.gtk4_settings)
            .contains("gtk-theme-name = Adwaita")
    );
}

#[test]
fn an_icon_theme_change_writes_both_settings_ini_copies_and_sets_gsettings() {
    let mut disk = Files::new();
    let paths = write_backing_fixture(&mut disk, UWSM_ENV);
    let listing = icons_only();
    let gtk3_before = read(&disk, &paths.gtk3_settings);
    let gtk4_before = read(&disk, &paths.gtk4_settings);

    let mut model = load(&paths, &listing, &disk);
    assert_eq!(
        model.icon_themes(),
        vec![
            "Everforest-Dark".to_string(),
            "Adwaita".to_string(),
            "Papirus".to_string()
        ],
        "the icon drop-down offers the discovered themes plus the configured value"
    );
    assert_eq!(
        model.selected_icon_index(),
        Some(0),
        "before any edit the drop-down preselects settings.ini's gtk-icon-theme-name"
    );

    model.stage_icon_theme("Papirus");
    assert!(model.is_dirty());
    assert_eq!(
        model.selected_icon_index(),
        Some(2),
        "the drop-down shows the staged selection while the change is pending"
    );

    let contribution = model
        .apply_contribution()
        .expect("an icon theme change contributes writes");
    assert_eq!(
        contribution.writes.len(),
        2,
        "only the two settings.ini files carry the icon theme"
    );
    assert!(
        contribution
            .writes
            .iter()
            .all(|write| write.backing == BackingFile::GtkSettings)
    );
    assert!(
        contribution
            .writes
            .iter()
            .all(|write| write.validation == WriteValidation::NotNeeded),
        "theme writes are validation-free by design"
    );
    assert_eq!(
        contribution.reload_params.icon_theme,
        Some("Papirus".to_string()),
        "the reload carries the new icon theme name"
    );
    assert!(contribution.reload_params.gtk_theme.is_none());
    assert!(contribution.reload_params.cursor.is_none());

    perform(&mut disk, &contribution.writes);

    assert_eq!(
        read(&disk, &paths.gtk3_settings),
        replace_once(
            &gtk3_before,
            "gtk-icon-theme-name=Everforest-Dark",
            "gtk-icon-theme-name=Papirus",
        ),
        "gtk-3.0/settings.ini: only the icon theme value may change"
    );
    assert_eq!(
        read(&disk, &paths.gtk4_settings),
        format!("{gtk4_before}gtk-icon-theme-name = Papirus\n"),
        "gtk-4.0/settings.ini: the absent icon key is appended, not skipped"
    );

    model.commit();
    assert!(
        !model.is_dirty(),
        "a fully written icon change leaves the page clean"
    );
    let selected = model
        .selected_icon_index()
        .and_then(|index| model.icon_themes().get(index))
        .map(String::as_str);
    assert_eq!(
        selected,
        Some("Papirus"),
        "commit promotes the applied icon theme to the current value"
    );
}

#[test]
fn a_second_apply_builds_on_the_bytes_the_first_one_wrote() {
    let mut disk = Files::new();
    let paths = write_backing_fixture(&mut disk, UWSM_ENV);
    let listing = icons_only();
    let mut model = load(&paths, &listing, &disk);

    model.stage_icon_theme("Papirus");
    let first = model
        .apply_contribution()
        .expect("an icon theme change contributes writes");
    perform(&mut disk, &first.writes);
    model.commit();

    model.stage_cursor_size("32");
    let second = model
        .apply_contribution()
        .expect("a cursor size change contributes writes");
    let expected_gtk3 = replace_once(
        &replace_once(
            SETTINGS_INI,
            "gtk-icon-theme-name=Everforest-Dark",
            "gtk-icon-theme-name=Papirus",
        ),
        "gtk-cursor-theme-size=16",
        "gtk-cursor-theme-size=32",
    );
    let rendered_gtk3 = second
        .writes
        .iter()
        .find(|write| write.path == paths.gtk3_settings)
        .map(|write| String::from_utf8(write.contents.clone()).expect("the write is text"))
        .expect("the cursor size is written to gtk-3.0/settings.ini");
    assert_eq!(
        rendered_gtk3, expected_gtk3,
        "the second write carries both the applied icon theme and the new cursor size"
    );

    perform(&mut disk, &second.writes);
    model.commit();
    assert_eq!(
        read(&disk, &paths.gtk3_settings),
        expected_gtk3,
        "two applies in a row accumulate: neither change is lost"
    );
    assert!(
        !model.is_dirty(),
        "both values reached every file that carries them, so the page is clean"
    );
}

#[test]
fn resolve_gtk_override_prefers_app_env_then_uwsm_then_none() {
    assert_eq!(
        resolve_gtk_override(Some("Foo".to_string()), None),
        Some(GtkThemeOverrideSource::AppEnvironment("Foo".to_string()))
    );
    assert_eq!(
        resolve_gtk_override(
            Some("Foo".to_string()),
            Some(&GtkThemeOverride::Active {
                value: "Bar".to_string()
            })
        ),
        Some(GtkThemeOverrideSource::AppEnvironment("Foo".to_string())),
        "the app environment takes precedence over uwsm/env"
    );
    assert_eq!(
        resolve_gtk_override(
            Some(String::new()),
            Some(&GtkThemeOverride::Active {
                value: "Bar".to_string()
            })
        ),
        Some(GtkThemeOverrideSource::UwsmEnv("Bar".to_string())),
        "an empty app-env value falls through to uwsm/env"
    );
    assert_eq!(
        resolve_gtk_override(
            None,
            Some(&GtkThemeOverride::Commented {
                value: "Bar".to_string()
            })
        ),
        None,
        "a commented-out uwsm GTK_THEME is not an override"
    );
    assert_eq!(resolve_gtk_override(None, None), None);
}

#[test]
fn an_app_env_override_disables_the_gtk_dropdown_and_ignores_edits() {
    let mut disk = Files::new();
    let paths = write_backing_fixture(&mut disk, UWSM_ENV);
    let listing = no_themes();

    let mut model = ThemesModel::load(
        &no_roots(),
        paths,
        false,
        Some("Nordic-bluish-accent".to_string()),
        &listing,
        &disk,
    );
    assert!(model.gtk_dropdown_disabled());
    let source = model.gtk_override().expect("override present");
    assert!(matches!(source, GtkThemeOverrideSource::AppEnvironment(_)));
    assert!(
        source.banner_message().contains("Nordic-bluish-accent"),
        "the banner names the override value"
    );
    model.stage_gtk_theme("Adwaita");
    assert!(
        !model.is_dirty(),
        "a GTK theme edit must not stage while a GTK_THEME override is active"
    );
}

#[test]
fn an_active_uwsm_gtk_theme_disables_the_gtk_dropdown() {
    let mut disk = Files::new();
    let uwsm = "export GTK_THEME=Nordic\nexport XCURSOR_THEME=Nordic-cursors\nexport XCURSOR_SIZE=16\n";
    let paths = write_backing_fixture(&mut disk, uwsm);
    let listing = no_themes();

    let model = load(&paths, &listing, &disk);
    assert!(model.gtk_dropdown_disabled());
    assert_eq!(
        model.gtk_override(),
        Some(&GtkThemeOverrideSource::UwsmEnv("Nordic".to_string()))
    );
}

#[test]
fn live_restyle_claim_follows_the_settings_portal() {
    let mut disk = Files::new();
    let paths = write_backing_fixture(&mut disk, UWSM_ENV);
    let listing = no_themes();
    assert!(
        ThemesModel::load(&no_roots(), paths.clone(), true, None, &listing, &disk).live_restyle()
    );
    assert!(!load(&paths, &listing, &disk).live_restyle());
}

#[test]
fn a_missing_settings_ini_hides_the_theme_rows() {
    let disk = Files::new();
    let paths = config_paths();
    let listing = no_themes();
    let model = load(&paths, &listing, &disk);
    assert!(!model.themes_editable(), "no settings.ini -> rows hidden");
    assert!(!model.is_dirty());
    assert!(model.apply_contribution().is_none());
}

#[test]
fn reselecting_the_current_value_is_not_dirty_and_reset_commit_work() {
    let mut disk = Files::new();
    let paths = write_backing_fixture(&mut disk, UWSM_ENV);
    let listing = gtk_only(&["Adwaita", "Everforest-Green-Dark"]);

    let mut model = load(&paths, &listing, &disk);
    model.stage_gtk_theme("Everforest-Green-Dark");
    assert!(
        !model.is_dirty(),
        "re-selecting the current value is not dirty"
    );

    model.stage_gtk_theme("Adwaita");
    assert!(model.is_dirty());
    model.reset();
    assert!(!model.is_dirty(), "reset discards the pending change");

    model.stage_gtk_theme("Adwaita");
    model.commit();
    assert!(!model.is_dirty(), "commit clears the dirty state");
    let selected = model
        .selected_gtk_index()
        .and_then(|index| model.gtk_themes().get(index))
        .map(String::as_str);
    assert_eq!(
        selected,
        Some("Adwaita"),
        "commit promotes the staged theme to the current value"
    );
}

#[test]
fn an_external_edit_is_a_conflict_and_reload_rebaselines() {
    let mut disk = Files::new();
    let paths = write_backing_fixture(&mut disk, UWSM_ENV);
    let listing = no_themes();

    let model = load(&paths, &listing, &disk);
    assert!(
        !model.check_conflict(&disk),
        "unchanged files are not a conflict"
    );

    write(&mut disk, &paths.gtk3_settings, "[Settings]\ngtk-theme-name=Hacked\n");
    assert!(
        model.check_conflict(&disk),
        "an external edit since load must be a conflict"
    );

    let reloaded = model.reload(&listing, &disk);
    assert!(
        !reloaded.check_conflict(&disk),
        "reload re-baselines against the current bytes"
    );
}

#[test]
fn cursor_preselect_falls_back_to_uwsm_env_when_settings_ini_lacks_it() {
    let mut disk = Files::new();
    let paths = config_paths();
    write(&mut disk, &paths.gtk3_settings, "[Settings]\ngtk-theme-name=Everforest-Green-Dark\n");
    write(&mut disk, &paths.gtk4_settings, "[Settings]\ngtk-theme-name=Everforest-Green-Dark\n");
    write(&mut disk, &paths.hyprland_conf, HYPRLAND_ENV);
    write(&mut disk, &paths.uwsm_env, UWSM_ENV);
    let listing = no_themes();

    let model = load(&paths, &listing, &disk);
    let cursor = model
        .selected_cursor_index()
        .and_then(|index| model.cursor_themes().get(index))
        .map(String::as_str);
    assert_eq!(
        cursor,
        Some("Nordic-cursors"),
        "cursor theme preselect falls back to uwsm/env's XCURSOR_THEME"
    );
    let size = model
        .selected_cursor_size_index()
        .and_then(|index| model.cursor_sizes().get(index))
        .map(String::as_str);
    assert_eq!(
        size,
        Some("16"),
        "cursor size preselect falls back to uwsm/env's XCURSOR_SIZE"
    );
}

#[test]
fn a_committed_theme_apply_is_not_a_self_conflict() {
    let mut disk = Files::new();
    let paths = write_backing_fixture(&mut disk, UWSM_ENV);
    let listing = icons_only();

    let mut model = load(&paths, &listing, &disk);
    model.stage_cursor_theme("Bibata");
    model.stage_cursor_size("24");
    let contribution = model
        .apply_contribution()
        .expect("a cursor change contributes");

    perform(&mut disk, &contribution.writes);

    assert!(
        model.check_conflict(&disk),
        "before commit, the on-disk write differs from the load-time baseline"
    );
    model.commit();
    assert!(
        !model.check_conflict(&disk),
        "after commit the app's own write is not a self-conflict"
    );
}

#[test]
fn a_non_numeric_cursor_size_writes_files_but_skips_the_live_cursor_reload() {
    let mut disk = Files::new();
    let paths = config_paths();
    let ini = "[Settings]\ngtk-cursor-theme-name=Nordic-cursors\ngtk-cursor-theme-size=big\n";
    write(&mut disk, &paths.gtk3_settings, ini);
    write(&mut disk, &paths.gtk4_settings, ini);
    write(&mut disk, &paths.hyprland_conf, HYPRLAND_ENV);
    write(&mut disk, &paths.uwsm_env, UWSM_ENV);
    let listing = icons_only();

    let mut model = load(&paths, &listing, &disk);
    model.stage_cursor_theme("Bibata");
    let contribution = model
        .apply_contribution()
        .expect("a cursor theme change contributes writes");
    assert!(
        !contribution.writes.is_empty(),
        "the cursor theme is still written to the backing files"
    );
    assert!(
        contribution.reload_params.cursor.is_none(),
        "a non-numeric cursor size skips the live cursor reload (setcursor needs a number)"
    );
}

#[test]
fn a_missing_hyprland_env_field_still_writes_the_present_one() {
    let mut disk = Files::new();
    let paths = write_backing_fixture(&mut disk, UWSM_ENV);
    write(&mut disk, &paths.hyprland_conf, "env = XCURSOR_THEME,Nordic-cursors\n");
    let listing = icons_only();

    let mut model = load(&paths, &listing, &disk);
    model.stage_cursor_theme("Bibata");
    model.stage_cursor_size("24");
    let contribution = model
        .apply_contribution()
        .expect("a cursor change contributes");

    let hypr_write = contribution
        .writes
        .iter()
        .find(|write| write.path == paths.hyprland_conf)
        .expect("hyprland.conf is still written despite the missing XCURSOR_SIZE line");
    let text = String::from_utf8(hypr_write.contents.clone()).unwrap();
    assert!(
        text.contains("env = XCURSOR_THEME,Bibata"),
        "the present theme field is written"
    );
    assert!(
        !text.contains("XCURSOR_SIZE"),
        "the absent size line is not fabricated (the repeatable writer never appends)"
    );
    assert_eq!(
        hypr_write.changed_keys,
        vec!["cursor theme (hyprland.conf env)".to_string()],
        "only the present field is recorded for the hyprland.conf write"
    );
}

#[test]
fn a_skipped_settings_ini_key_leaves_only_that_selection_dirty() {
    let mut disk = Files::new();
    let paths = write_backing_fixture(&mut disk, UWSM_ENV);
    let listing = gtk_only(&["Adwaita"]);

    let mut model = load(&paths, &listing, &disk);
    model.stage_gtk_theme("Adwaita");
    model.stage_icon_theme("Papirus\ngtk-theme-name=Injected");

    let contribution = model
        .apply_contribution()
        .expect("the writable GTK theme change still contributes");
    assert_eq!(
        contribution.writes.len(),
        2,
        "both settings.ini copies are written (so the loop below is not vacuous)"
    );
    for write in &contribution.writes {
        assert_eq!(
            write.changed_keys,
            vec!["GTK theme".to_string()],
            "the rejected icon value is skipped; only the GTK theme is written"
        );
        assert!(
            !String::from_utf8(write.contents.clone())
                .expect("settings.ini stays UTF-8")
                .contains("Injected"),
            "the rejected value never reaches the file contents"
        );
    }

    model.commit();
    let selected_gtk = model
        .selected_gtk_index()
        .and_then(|index| model.gtk_themes().get(index))
        .map(String::as_str);
    assert_eq!(
        selected_gtk,
        Some("Adwaita"),
        "the GTK theme reached both settings.ini files, so it is promoted"
    );
    assert_eq!(
        model.icon_theme().original(),
        Some("Everforest-Dark"),
        "the icon baseline still matches what is on disk"
    );
    assert!(
        model.icon_theme().is_changed(),
        "the skipped icon selection stays staged"
    );
    assert!(
        model.is_dirty(),
        "the page stays dirty, so the user sees the change is not applied and can retry"
    );

    assert!(
        model.apply_contribution().is_none(),
        "with only the rejected value staged, no file can be written"
    );
    model.commit();
    assert!(
        model.icon_theme().is_changed() && model.is_dirty(),
        "a commit with no rendered write promotes nothing"
    );
}

#[test]
fn a_value_one_existing_copy_refuses_is_not_promoted() {
    let mut disk = Files::new();
    let paths = write_backing_fixture(&mut disk, UWSM_ENV);
    let mut listing = icons_only();
    listing.icons.push(directory("Nord#ic", false, &["cursors"]));

    let mut model = load(&paths, &listing, &disk);
    assert!(
        model.cursor_themes().contains(&"Nord#ic".to_string()),
        "discovery surfaces the `#`-named cursor theme, so the drop-down offers it"
    );
    model.stage_cursor_theme("Nord#ic");

    let contribution = model
        .apply_contribution()
        .expect("the copies that accept the value are still written");
    assert_eq!(
        contribution.writes.len(),
        3,
        "both settings.ini copies and uwsm/env accept the value"
    );
    assert!(
        !contribution
            .writes
            .iter()
            .any(|write| write.path == paths.hyprland_conf),
        "hyprland.conf refuses the `#` value, so it contributes no write"
    );

    model.commit();
    assert_eq!(
        model.cursor_theme().original(),
        Some("Nordic-cursors"),
        "the cursor baseline is not promoted while one existing copy holds the old value"
    );
    assert!(
        model.cursor_theme().is_changed() && model.is_dirty(),
        "the page stays dirty, so the user is not told a half-written change is applied"
    );
}

#[test]
fn a_cursor_change_is_still_promoted_when_hyprland_conf_has_no_env_line() {
    let mut disk = Files::new();
    let paths = write_backing_fixture(&mut disk, UWSM_ENV);
    write(&mut disk, &paths.hyprland_conf, "env = XCURSOR_THEME,Nordic-cursors\n");
    let listing = icons_only();

    let mut model = load(&paths, &listing, &disk);
    model.stage_cursor_size("24");

    let contribution = model
        .apply_contribution()
        .expect("the three copies carrying the size are written");
    assert!(
        !contribution
            .writes
            .iter()
            .any(|write| write.path == paths.hyprland_conf),
        "with no XCURSOR_SIZE line to edit, hyprland.conf contributes no write"
    );

    model.commit();
    let size = model
        .selected_cursor_size_index()
        .and_then(|index| model.cursor_sizes().get(index))
        .map(String::as_str);
    assert_eq!(
        size,
        Some("24"),
        "the size is promoted on the strength of the copies that carry it"
    );
    assert!(
        !model.is_dirty(),
        "an absent copy does not keep the page dirty"
    );
}
