use settings4000::apply::{BackingFile, FileWrite, WriteValidation};
use settings4000::disk::Files;
use settings4000::model::{SettingId, SettingValue, ValidationError};
use settings4000::theme::wallpaper::{WallpaperModel, WallpaperPaths};

const HYPRPAPER_CONF: &str = "\
wallpaper {
    monitor =
    # Keep in sync with hyprlock.conf's background.path (same image).
    path = ~/Pictures/wallpaper/18.jpg
    fit_mode = cover
}

splash = false
";

const HYPRLOCK_CONF: &str = "\
source = ~/.config/hypr/colors.conf

background {
    monitor =
    path = ~/Pictures/wallpaper/18.jpg
    blur_passes = 2 # 0 disables blurring
}

label {
    text = Hi
}
";

fn write(disk: &mut Files, path: &str, text: &str) {
    disk.put(path, text.as_bytes().to_vec());
}

fn read(disk: &Files, path: &str) -> String {
    disk.text(path).expect("the file is there and is text")
}

fn config_paths() -> WallpaperPaths {
    WallpaperPaths {
        hyprpaper_conf: "/config/hypr/hyprpaper.conf".to_string(),
        hyprlock_conf: "/config/hypr/hyprlock.conf".to_string(),
    }
}

fn write_wallpaper_fixture(disk: &mut Files) -> WallpaperPaths {
    let paths = config_paths();
    write(disk, &paths.hyprpaper_conf, HYPRPAPER_CONF);
    write(disk, &paths.hyprlock_conf, HYPRLOCK_CONF);
    paths
}

fn write_image(disk: &mut Files, name: &str) -> String {
    let path = format!("/images/{name}");
    write(disk, &path, "img");
    path
}

fn validate(disk: &Files, path: &str) -> Result<(), ValidationError> {
    if disk.get(path).is_some() && path.ends_with(".png") {
        Ok(())
    } else {
        Err(ValidationError {
            message: format!("{path} is not an image"),
        })
    }
}

fn perform(disk: &mut Files, writes: &[FileWrite]) {
    for write in writes {
        disk.put(&write.path, write.contents.clone());
    }
}

#[test]
fn a_wallpaper_and_fit_change_writes_both_files_and_reloads_hyprpaper() {
    let mut disk = Files::new();
    let paths = write_wallpaper_fixture(&mut disk);
    let wall = write_image(&mut disk, "wall.png");

    let mut model = WallpaperModel::load(paths.clone(), true, &disk);
    assert!(
        !model.override_on(),
        "the unified same-image default means no override"
    );
    model
        .stage_wallpaper(&wall, validate(&disk, &wall))
        .expect("a real image validates");
    model.stage_fit("contain");
    assert!(model.is_dirty());

    let contribution = model.apply_contribution().expect("a change contributes");
    assert_eq!(
        contribution.writes.len(),
        2,
        "both hyprpaper.conf and hyprlock.conf are written (same path to both)"
    );
    assert_eq!(
        contribution.validations,
        vec![
            (SettingId::WallpaperPath, SettingValue::Text(wall.clone())),
            (SettingId::LockBackgroundPath, SettingValue::Text(wall.clone())),
        ]
    );
    assert!(
        contribution
            .writes
            .iter()
            .all(|write| write.validation == WriteValidation::InPlan),
        "a path-carrying write's values are validated by the plan"
    );

    perform(&mut disk, &contribution.writes);

    let expected_hyprpaper = HYPRPAPER_CONF
        .replace("~/Pictures/wallpaper/18.jpg", &wall)
        .replace("fit_mode = cover", "fit_mode = contain");
    assert_eq!(
        read(&disk, &paths.hyprpaper_conf),
        expected_hyprpaper
    );
    let expected_hyprlock = HYPRLOCK_CONF.replace("~/Pictures/wallpaper/18.jpg", &wall);
    assert_eq!(
        read(&disk, &paths.hyprlock_conf),
        expected_hyprlock
    );

    assert_eq!(
        contribution.reload_params.wallpaper.as_deref(),
        Some(wall.as_str())
    );
    assert_eq!(contribution.reload_params.fit.as_deref(), Some("contain"));
}

#[test]
fn a_fit_only_change_reloads_hyprpaper_with_the_new_fit() {
    let mut disk = Files::new();
    let paths = write_wallpaper_fixture(&mut disk);

    let mut model = WallpaperModel::load(paths, true, &disk);
    model.stage_fit("tile");
    assert!(model.is_dirty());

    let contribution = model
        .apply_contribution()
        .expect("a fit change contributes");
    assert_eq!(
        contribution.writes.len(),
        1,
        "only hyprpaper.conf is written"
    );
    assert_eq!(contribution.writes[0].backing, BackingFile::HyprpaperConf);
    assert!(
        contribution.validations.is_empty(),
        "a fit-only change re-validates no path (the wallpaper is unchanged)"
    );
    assert_eq!(
        contribution.writes[0].validation,
        WriteValidation::NotNeeded,
        "a fit-only write carries nothing to validate and must say so"
    );
    assert_eq!(
        contribution.reload_params.wallpaper.as_deref(),
        Some("~/Pictures/wallpaper/18.jpg")
    );
    assert_eq!(contribution.reload_params.fit.as_deref(), Some("tile"));

    perform(&mut disk, &contribution.writes);
}

#[test]
fn a_lock_override_only_change_writes_hyprlock_with_no_reload() {
    let mut disk = Files::new();
    let paths = write_wallpaper_fixture(&mut disk);
    let lock_image = write_image(&mut disk, "lock.png");

    let mut model = WallpaperModel::load(paths.clone(), true, &disk);
    model.set_override(true);
    model
        .stage_lock(&lock_image, validate(&disk, &lock_image))
        .expect("a real image validates");
    assert!(model.is_dirty());

    let contribution = model.apply_contribution().expect("a change contributes");
    assert_eq!(
        contribution.writes.len(),
        1,
        "only hyprlock.conf is written for a lock-override-only change"
    );
    assert_eq!(contribution.writes[0].backing, BackingFile::HyprlockConf);
    assert!(
        contribution.reload_params.wallpaper.is_none(),
        "a hyprlock-only change carries no wallpaper reload parameter"
    );

    perform(&mut disk, &contribution.writes);

    assert_eq!(
        read(&disk, &paths.hyprpaper_conf),
        HYPRPAPER_CONF
    );
    let expected_hyprlock = HYPRLOCK_CONF.replace("~/Pictures/wallpaper/18.jpg", &lock_image);
    assert_eq!(
        read(&disk, &paths.hyprlock_conf),
        expected_hyprlock
    );
}

#[test]
fn staging_rejects_a_non_existent_or_non_image_path() {
    let mut disk = Files::new();
    let paths = write_wallpaper_fixture(&mut disk);
    let mut model = WallpaperModel::load(paths, true, &disk);

    let missing = "/images/no-such.png";
    assert!(
        model.stage_wallpaper(missing, validate(&disk, missing)).is_err(),
        "a non-existent path is rejected"
    );
    let text = "/images/notes.txt";
    write(&mut disk, text, "hi");
    assert!(
        model.stage_wallpaper(text, validate(&disk, text)).is_err(),
        "a non-image file is rejected"
    );
    assert!(
        model.stage_lock(missing, validate(&disk, missing)).is_err(),
        "the lock override path is validated too"
    );
    assert!(!model.is_dirty(), "a rejected path is never staged");
}

#[test]
fn controls_hide_when_hyprlock_is_absent_or_config_is_unreadable() {
    let mut disk = Files::new();
    let paths = write_wallpaper_fixture(&mut disk);

    let mut no_lock = WallpaperModel::load(paths.clone(), false, &disk);
    assert!(no_lock.wallpaper_editable());
    assert!(
        !no_lock.lock_editable(),
        "no hyprlock -> no lock-override control"
    );
    let wall = write_image(&mut disk, "wall.png");
    no_lock.stage_wallpaper(&wall, validate(&disk, &wall)).unwrap();
    let contribution = no_lock
        .apply_contribution()
        .expect("a wallpaper change contributes");
    assert_eq!(
        contribution.writes.len(),
        1,
        "only hyprpaper.conf is written"
    );
    assert_eq!(contribution.writes[0].backing, BackingFile::HyprpaperConf);

    let unreadable = WallpaperModel::load(
        WallpaperPaths {
            hyprpaper_conf: "/config/hypr/does-not-exist.conf".to_string(),
            hyprlock_conf: paths.hyprlock_conf.clone(),
        },
        true,
        &disk,
    );
    assert!(
        !unreadable.wallpaper_editable(),
        "an unreadable hyprpaper.conf hides the wallpaper rows"
    );
}

#[test]
fn reset_restores_the_override_toggle_and_commit_is_not_a_self_conflict() {
    let mut disk = Files::new();
    let paths = write_wallpaper_fixture(&mut disk);
    let wall = write_image(&mut disk, "wall.png");
    let lock_image = write_image(&mut disk, "lock.png");

    let mut model = WallpaperModel::load(paths, true, &disk);
    model.set_override(true);
    model.stage_lock(&lock_image, validate(&disk, &lock_image)).unwrap();
    assert!(model.is_dirty());
    model.reset();
    assert!(!model.is_dirty(), "reset discards the pending override");
    assert!(
        !model.override_on(),
        "reset restores the toggle baseline (off)"
    );

    model.stage_wallpaper(&wall, validate(&disk, &wall)).unwrap();
    let contribution = model.apply_contribution().expect("a change contributes");
    perform(&mut disk, &contribution.writes);
    assert!(
        model.check_conflict(&disk),
        "before commit the write differs from the load-time baseline"
    );
    model.commit();
    assert!(!model.is_dirty(), "commit clears the dirty state");
    assert!(
        !model.check_conflict(&disk),
        "after commit the app's own write is not a self-conflict"
    );
}

fn write_distinct_wallpaper_fixture(disk: &mut Files) -> (WallpaperPaths, String, String) {
    let wallpaper_a = write_image(disk, "wall_a.png");
    let lock_b = write_image(disk, "lock_b.png");
    let paths = config_paths();
    write(
        disk,
        &paths.hyprpaper_conf,
        &HYPRPAPER_CONF.replace("~/Pictures/wallpaper/18.jpg", &wallpaper_a),
    );
    write(
        disk,
        &paths.hyprlock_conf,
        &HYPRLOCK_CONF.replace("~/Pictures/wallpaper/18.jpg", &lock_b),
    );
    (paths, wallpaper_a, lock_b)
}

#[test]
fn distinct_on_disk_paths_start_with_the_override_on() {
    let mut disk = Files::new();
    let (paths, wallpaper_a, lock_b) = write_distinct_wallpaper_fixture(&mut disk);

    let model = WallpaperModel::load(paths, true, &disk);
    assert!(
        model.override_on(),
        "distinct on-disk paths -> the override starts on"
    );
    assert_eq!(model.wallpaper_path(), Some(wallpaper_a.as_str()));
    assert_eq!(model.lock_path(), Some(lock_b.as_str()));
    assert!(!model.is_dirty(), "no edit is staged at load");
}

#[test]
fn a_distinct_lock_override_writes_both_files_to_their_two_paths() {
    let mut disk = Files::new();
    let (paths, _wallpaper_a, _lock_b) = write_distinct_wallpaper_fixture(&mut disk);
    let wallpaper_c = write_image(&mut disk, "wall_c.png");
    let lock_d = write_image(&mut disk, "lock_d.png");

    let mut model = WallpaperModel::load(paths.clone(), true, &disk);
    assert!(model.override_on());
    model
        .stage_wallpaper(&wallpaper_c, validate(&disk, &wallpaper_c))
        .expect("a real image validates");
    model.stage_lock(&lock_d, validate(&disk, &lock_d)).expect("a real image validates");

    let contribution = model.apply_contribution().expect("a change contributes");
    assert_eq!(
        contribution.writes.len(),
        2,
        "both files are written, to their two different paths"
    );

    perform(&mut disk, &contribution.writes);

    assert!(
        read(&disk, &paths.hyprpaper_conf)
            .contains(&format!("path = {wallpaper_c}")),
        "hyprpaper.conf points at the new wallpaper"
    );
    assert!(
        read(&disk, &paths.hyprlock_conf)
            .contains(&format!("path = {lock_d}")),
        "hyprlock.conf points at the distinct override image"
    );
}

#[test]
fn turning_the_override_off_resyncs_the_lock_to_the_wallpaper_with_no_reload() {
    let mut disk = Files::new();
    let (paths, wallpaper_a, _lock_b) = write_distinct_wallpaper_fixture(&mut disk);

    let mut model = WallpaperModel::load(paths, true, &disk);
    assert!(model.override_on());
    model.set_override(false);
    assert!(
        model.is_dirty(),
        "resyncing the lock back to the wallpaper is a pending change"
    );

    let contribution = model.apply_contribution().expect("the resync contributes");
    assert_eq!(
        contribution.writes.len(),
        1,
        "only hyprlock.conf is written on a resync"
    );
    assert_eq!(contribution.writes[0].backing, BackingFile::HyprlockConf);
    assert!(
        contribution.reload_params.wallpaper.is_none(),
        "a hyprlock-only resync carries no wallpaper reload parameter -> no reload"
    );
    let text = String::from_utf8(contribution.writes[0].contents.clone()).unwrap();
    assert!(
        text.contains(&format!("path = {wallpaper_a}")),
        "the lock background is resynced to the wallpaper path"
    );
}

#[test]
fn an_unusual_on_disk_fit_mode_stays_selectable() {
    let mut disk = Files::new();
    let paths = write_wallpaper_fixture(&mut disk);
    write(&mut disk, &paths.hyprpaper_conf, &HYPRPAPER_CONF.replace("fit_mode = cover", "fit_mode = stretch"));

    let model = WallpaperModel::load(paths, true, &disk);
    let selected = model
        .selected_fit_index()
        .and_then(|index| model.fit_options().get(index))
        .map(String::as_str);
    assert_eq!(
        selected,
        Some("stretch"),
        "an unusual on-disk fit_mode stays the preselected option"
    );
    assert!(
        model.fit_options().contains(&"stretch".to_string()),
        "the unusual value is present among the options"
    );
}

#[test]
fn a_skipped_hyprlock_write_leaves_the_lock_path_un_promoted() {
    let mut disk = Files::new();
    let paths = write_wallpaper_fixture(&mut disk);
    write(&mut disk, &paths.hyprlock_conf, "source = ~/.config/hypr/colors.conf\n\nlabel {\n    text = Hi\n}\n");
    let hyprlock_before =
        read(&disk, &paths.hyprlock_conf);
    let wall = write_image(&mut disk, "wall.png");

    let mut model = WallpaperModel::load(paths.clone(), true, &disk);
    model
        .stage_wallpaper(&wall, validate(&disk, &wall))
        .expect("a real image validates");

    let contribution = model
        .apply_contribution()
        .expect("the wallpaper change contributes");
    assert_eq!(
        contribution.writes.len(),
        1,
        "only hyprpaper.conf could be rendered"
    );
    assert_eq!(contribution.writes[0].backing, BackingFile::HyprpaperConf);

    perform(&mut disk, &contribution.writes);

    model.commit();
    assert_eq!(
        read(&disk, &paths.hyprlock_conf),
        hyprlock_before,
        "hyprlock.conf is byte-identical: it never received the path"
    );
    assert_eq!(
        model.lock_original(), None,
        "the lock baseline is not promoted to a path the file never received"
    );
    assert!(
        model.is_dirty(),
        "the pending lock write survives the commit, so a retry can still write it"
    );
    assert_eq!(
        model.wallpaper_path(),
        Some(wall.as_str()),
        "the wallpaper path, which was written, is promoted"
    );
}

#[test]
fn a_rejected_wallpaper_path_stays_dirty_while_the_fit_mode_is_promoted() {
    let mut disk = Files::new();
    let paths = write_wallpaper_fixture(&mut disk);
    let hashed = write_image(&mut disk, "wall#1.png");

    let mut model = WallpaperModel::load(paths, true, &disk);
    model
        .stage_wallpaper(&hashed, validate(&disk, &hashed))
        .expect("a real image file validates");
    model.stage_fit("tile");

    let contribution = model
        .apply_contribution()
        .expect("the fit-mode change still contributes");
    assert_eq!(
        contribution.writes.len(),
        1,
        "hyprpaper.conf carries the fit mode; the lock write is rejected for the same reason"
    );
    assert_eq!(
        contribution.writes[0].changed_keys,
        vec!["fit mode".to_string()],
        "the rejected wallpaper path is skipped"
    );
    let rendered = String::from_utf8(contribution.writes[0].contents.clone())
        .expect("hyprpaper.conf stays UTF-8");
    assert!(
        rendered.contains("fit_mode = tile")
            && rendered.contains("path = ~/Pictures/wallpaper/18.jpg"),
        "the fit mode is rewritten while the wallpaper path keeps its on-disk value"
    );

    model.commit();
    let selected_fit = model
        .selected_fit_index()
        .and_then(|index| model.fit_options().get(index))
        .map(String::as_str);
    assert_eq!(
        selected_fit,
        Some("tile"),
        "the fit mode reached the file, so it is promoted"
    );
    assert_eq!(
        model.wallpaper_original(),
        Some("~/Pictures/wallpaper/18.jpg"),
        "the wallpaper baseline still matches what is on disk"
    );
    assert!(
        model.wallpaper_changed() && model.is_dirty(),
        "the rejected wallpaper path stays staged and the page stays dirty"
    );
}

#[test]
fn a_hyprpaper_only_write_rebaselines_the_override_toggle_from_the_new_paths() {
    let mut disk = Files::new();
    let paths = write_wallpaper_fixture(&mut disk);
    let wall = write_image(&mut disk, "new_wall.png");

    let mut model = WallpaperModel::load(paths.clone(), true, &disk);
    assert!(
        !model.override_on(),
        "the unified fixture (both files on the same image) starts with no override"
    );
    model.set_override(true);
    model
        .stage_wallpaper(&wall, validate(&disk, &wall))
        .expect("a real image validates");

    let contribution = model
        .apply_contribution()
        .expect("the wallpaper change contributes");
    assert_eq!(
        contribution.writes.len(),
        1,
        "hyprlock.conf already holds the path the override keeps, so only \
             hyprpaper.conf is written"
    );
    assert_eq!(contribution.writes[0].backing, BackingFile::HyprpaperConf);

    perform(&mut disk, &contribution.writes);

    model.commit();
    assert!(!model.is_dirty(), "the applied change leaves a clean page");
    assert!(model.override_on(), "the override the user set stays on");

    model.reset();
    assert!(
        model.override_on(),
        "Reset keeps the override on, because that is what the two files now say"
    );
    assert!(
        !model.is_dirty(),
        "Reset on a clean page creates no pending change"
    );

    let reloaded = WallpaperModel::load(paths, true, &disk);
    assert!(
        reloaded.override_on(),
        "a fresh load of the written files also derives the override as on"
    );
    assert_eq!(
        reloaded.wallpaper_path(),
        Some(wall.as_str()),
        "the wallpaper on disk is the new image"
    );
    assert_eq!(
        reloaded.lock_path(),
        Some("~/Pictures/wallpaper/18.jpg"),
        "the lock background on disk is untouched, which is why the two now differ"
    );
}
