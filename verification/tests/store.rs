use settings4000::disk::Files;
use settings4000::model::{Category, SettingId, SettingValue, ValidationError};
use settings4000::store::{FileValues, Reread, SettingsStore, StageError, StageOutcome};

fn float(value: f64) -> SettingValue {
    SettingValue::Float {
        bits: value.to_bits(),
    }
}

fn invalid(message: &str) -> Result<(), ValidationError> {
    Err(ValidationError {
        message: message.to_string(),
    })
}

fn read_timeout(disk: &Files, path: &str) -> Option<FileValues> {
    let bytes = disk.get(path)?.clone();
    let seconds: i64 = String::from_utf8_lossy(&bytes).trim().parse().ok()?;
    Some(FileValues {
        bytes,
        values: vec![(
            SettingId::NotificationTimeout,
            SettingValue::Integer(seconds),
        )],
    })
}

fn reread(disk: &Files, path: &str) -> Vec<Reread> {
    read_timeout(disk, path)
        .into_iter()
        .map(|values| Reread {
            path: path.to_string(),
            values,
        })
        .collect()
}

fn load_timeout(store: &mut SettingsStore, disk: &mut Files, seconds: i64) -> String {
    let path = "/timeout.conf".to_string();
    disk.put(&path, seconds.to_string().into_bytes());
    let initial = read_timeout(disk, &path).expect("read back the timeout fixture");
    store.load_file(&path, &initial);
    path
}

fn load_scale(store: &mut SettingsStore, disk: &mut Files) {
    disk.put("/scale.conf", b"1.0".to_vec());
    store.load_file(
        "/scale.conf",
        &FileValues {
            bytes: b"1.0".to_vec(),
            values: vec![(SettingId::MonitorScale, float(1.0))],
        },
    );
}

#[test]
fn stage_marks_dirty_then_reset_returns_clean() {
    let mut disk = Files::new();
    let mut store = SettingsStore::new();
    load_timeout(&mut store, &mut disk, 300);

    assert!(!store.is_dirty(), "a freshly loaded store is clean");
    assert_eq!(
        store.value(SettingId::NotificationTimeout),
        Some(&SettingValue::Integer(300))
    );

    let outcome = store
        .stage(SettingId::NotificationTimeout, SettingValue::Integer(120), Ok(()))
        .expect("a valid file-backed edit stages");
    assert_eq!(outcome, StageOutcome::Staged);
    assert!(
        store.is_dirty(),
        "staging a different value makes the store dirty"
    );
    assert!(store.is_category_dirty(Category::Notifications));
    assert_eq!(
        store.value(SettingId::NotificationTimeout),
        Some(&SettingValue::Integer(120))
    );
    assert_eq!(store.dirty_ids(), vec![SettingId::NotificationTimeout]);

    store.reset();
    assert!(!store.is_dirty(), "reset discards staged edits");
    assert!(store.dirty_ids().is_empty());
    assert_eq!(
        store.value(SettingId::NotificationTimeout),
        Some(&SettingValue::Integer(300)),
        "after reset the effective value is the original again"
    );
}

#[test]
fn staging_the_original_value_is_not_dirty() {
    let mut disk = Files::new();
    let mut store = SettingsStore::new();
    load_timeout(&mut store, &mut disk, 300);

    let outcome = store
        .stage(SettingId::NotificationTimeout, SettingValue::Integer(300), Ok(()))
        .expect("staging the original value succeeds");
    assert_eq!(outcome, StageOutcome::Staged);
    assert!(
        !store.is_dirty(),
        "staging a value equal to the original is not a change"
    );
}

#[test]
fn dirty_rolls_up_per_page() {
    let mut disk = Files::new();
    let mut store = SettingsStore::new();
    load_timeout(&mut store, &mut disk, 300);

    load_scale(&mut store, &mut disk);

    store
        .stage(SettingId::NotificationTimeout, SettingValue::Integer(120), Ok(()))
        .expect("stage the notification timeout");
    assert!(store.is_category_dirty(Category::Notifications));
    assert!(
        !store.is_category_dirty(Category::Display),
        "editing Notifications must not flag Display"
    );

    store
        .stage(SettingId::MonitorScale, float(1.5), Ok(()))
        .expect("stage the monitor scale");
    assert!(store.is_category_dirty(Category::Display));
    assert_eq!(
        store.dirty_ids(),
        vec![SettingId::MonitorScale, SettingId::NotificationTimeout],
        "both settings are dirty, reported in SettingId order"
    );
}

#[test]
fn runtime_only_setting_bypasses_staging() {
    let mut store = SettingsStore::new();

    let outcome = store
        .stage(SettingId::LaptopDisplayEnabled, SettingValue::Bool(true), Ok(()))
        .expect("a runtime-only edit is accepted");
    assert_eq!(outcome, StageOutcome::RuntimeBypass);
    assert!(
        !store.is_dirty(),
        "a runtime-only edit never makes the store dirty"
    );
    assert!(store.dirty_ids().is_empty());
    assert!(
        store.value(SettingId::LaptopDisplayEnabled).is_none(),
        "the store holds no value for a runtime-only setting"
    );
    assert!(
        !store.is_category_dirty(Category::Display),
        "a runtime-only edit on the Display page never flags the page"
    );
}

#[test]
fn staging_nan_is_rejected_and_leaves_state_well_behaved() {
    let mut disk = Files::new();
    let mut store = SettingsStore::new();
    load_scale(&mut store, &mut disk);

    store
        .stage(SettingId::MonitorScale, float(1.5), Ok(()))
        .expect("a valid scale stages");
    assert!(store.is_dirty());

    let error = store
        .stage(SettingId::MonitorScale, float(f64::NAN), Ok(()))
        .expect_err("a NaN scale must be rejected");
    assert!(matches!(error, StageError::Invalid(_)));
    assert_eq!(
        store.value(SettingId::MonitorScale),
        Some(&float(1.5)),
        "a rejected NaN must not overwrite the previously staged value"
    );

    store.reset();
    assert!(!store.is_dirty(), "reset returns the store to clean");
    assert_eq!(
        store.value(SettingId::MonitorScale),
        Some(&float(1.0))
    );
}

#[test]
fn staging_an_out_of_range_value_is_rejected() {
    let mut disk = Files::new();
    let mut store = SettingsStore::new();
    load_scale(&mut store, &mut disk);

    let error = store
        .stage(SettingId::MonitorScale, float(10.0), invalid("out of range"))
        .expect_err("a scale outside the range must be rejected");
    assert!(matches!(error, StageError::Invalid(_)));
    assert!(!store.is_dirty(), "a rejected value must not be staged");
}

#[test]
fn staging_an_unloaded_file_backed_setting_is_an_error() {
    let mut store = SettingsStore::new();
    let error = store
        .stage(SettingId::NotificationTimeout, SettingValue::Integer(120), Ok(()))
        .expect_err("an unloaded setting cannot be staged");
    assert!(matches!(
        error,
        StageError::NotLoaded(SettingId::NotificationTimeout)
    ));
}

#[test]
fn external_change_triggers_reload_of_originals() {
    let mut disk = Files::new();
    let mut store = SettingsStore::new();
    let path = load_timeout(&mut store, &mut disk, 300);

    assert!(
        store.refresh(&disk, &reread(&disk, &path)).is_empty(),
        "an untouched file is not a conflict"
    );

    disk.put(&path, b"600".to_vec());

    let report = store.refresh(&disk, &reread(&disk, &path));
    assert_eq!(
        report.reloaded(),
        &[path.clone()],
        "the edited file is reloaded"
    );
    assert!(report.failed().is_empty());
    assert_eq!(
        store.original(SettingId::NotificationTimeout),
        Some(&SettingValue::Integer(600)),
        "the original is refreshed from the new file contents"
    );

    assert!(
        store.refresh(&disk, &reread(&disk, &path)).is_empty(),
        "re-baselining must clear the conflict"
    );
}

#[test]
fn reload_preserves_a_pending_staged_edit() {
    let mut disk = Files::new();
    let mut store = SettingsStore::new();
    let path = load_timeout(&mut store, &mut disk, 300);

    store
        .stage(SettingId::NotificationTimeout, SettingValue::Integer(120), Ok(()))
        .expect("stage a pending edit");

    disk.put(&path, b"600".to_vec());
    let report = store.refresh(&disk, &reread(&disk, &path));
    assert_eq!(report.reloaded(), &[path]);

    assert_eq!(
        store.original(SettingId::NotificationTimeout),
        Some(&SettingValue::Integer(600)),
        "original refreshed to the external value"
    );
    assert_eq!(
        store.value(SettingId::NotificationTimeout),
        Some(&SettingValue::Integer(120)),
        "the pending staged edit is preserved"
    );
    assert!(
        store.is_dirty(),
        "the preserved edit still differs from the new original"
    );
}

#[test]
fn a_deleted_backing_file_is_reported_as_failed() {
    let mut disk = Files::new();
    let mut store = SettingsStore::new();
    let path = load_timeout(&mut store, &mut disk, 300);

    let disk = Files::new();

    let report = store.refresh(&disk, &reread(&disk, &path));
    assert!(report.reloaded().is_empty());
    assert_eq!(
        report.failed(),
        &[path],
        "a deleted file is reported as failed"
    );
    assert_eq!(
        store.original(SettingId::NotificationTimeout),
        Some(&SettingValue::Integer(300)),
        "the last-known original is retained when reload fails"
    );
}

#[test]
fn reset_after_a_conflict_reload_lands_on_the_new_baseline() {
    let mut disk = Files::new();
    let mut store = SettingsStore::new();
    let path = load_timeout(&mut store, &mut disk, 300);

    store
        .stage(SettingId::NotificationTimeout, SettingValue::Integer(120), Ok(()))
        .expect("stage a pending edit");

    disk.put(&path, b"600".to_vec());
    assert_eq!(store.refresh(&disk, &reread(&disk, &path)).reloaded(), &[path]);

    store.reset();
    assert!(!store.is_dirty(), "reset clears the pending edit");
    assert_eq!(
        store.value(SettingId::NotificationTimeout),
        Some(&SettingValue::Integer(600)),
        "after reset the effective value is the re-baselined original, not the \
             stale pre-conflict 300"
    );
}

#[test]
fn load_file_skips_a_runtime_only_setting() {
    let bytes = b"unused".to_vec();

    let mut store = SettingsStore::new();
    store.load_file(
        "/mixed.conf",
        &FileValues {
            bytes,
            values: vec![
                (SettingId::NotificationTimeout, SettingValue::Integer(300)),
                (SettingId::LaptopDisplayEnabled, SettingValue::Bool(true)),
            ],
        },
    );

    assert_eq!(
        store.value(SettingId::NotificationTimeout),
        Some(&SettingValue::Integer(300)),
        "the file-backed setting is stored"
    );
    assert!(
        store.value(SettingId::LaptopDisplayEnabled).is_none(),
        "the runtime-only setting is skipped, never stored"
    );
}
