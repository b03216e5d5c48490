use settings4000::apply::{BackingFile, WriteValidation};
use settings4000::model::{SettingId, SettingValue};
use settings4000::store_write::{RenderedEdit, StoreBackedFile, StoreWriteError};

#[derive(Debug, PartialEq)]
struct FakeRenderError;

const RENDERER_WORDS: &str = "the renderer said no";

fn target(path: &str) -> StoreBackedFile {
    StoreBackedFile {
        path: path.to_string(),
        name: "test.conf",
        backing: BackingFile::InputConf,
        validation: WriteValidation::InPlan,
        read_failure_log: "could not read test.conf",
        render_failure_log: "could not render test.conf",
    }
}

fn one_dirty() -> Vec<(SettingId, SettingValue)> {
    vec![(
        SettingId::MouseSensitivity,
        SettingValue::Float {
            bits: 0.5f64.to_bits(),
        },
    )]
}

fn before() -> Result<Vec<u8>, String> {
    Ok(b"before\n".to_vec())
}

#[test]
fn nothing_dirty_renders_no_write_without_touching_the_file() {
    let file = target("/nonexistent/test.conf");
    let write = file
        .render_write(
            &Vec::new(),
            || panic!("the file must not be read with nothing dirty"),
            |_, _| -> Result<RenderedEdit, FakeRenderError> {
                panic!("the renderer must not run with nothing dirty")
            },
        )
        .expect("no error");
    assert!(write.is_none());
}

#[test]
fn a_rendered_edit_becomes_a_file_write_carrying_the_file_declarations() {
    let path = "/config/test.conf";
    let file = target(path);

    let write = file
        .render_write(&one_dirty(), before, |bytes, dirty| {
            assert_eq!(bytes, b"before\n", "the renderer sees the current bytes");
            assert_eq!(dirty.len(), 1, "and the dirty settings it must apply");
            Ok::<_, FakeRenderError>(RenderedEdit {
                contents: b"after\n".to_vec(),
                changed_keys: vec!["some.key".to_string()],
            })
        })
        .expect("no error")
        .expect("a dirty setting produces a write");

    assert_eq!(write.path, path);
    assert_eq!(write.contents, b"after\n");
    assert_eq!(write.changed_keys, vec!["some.key".to_string()]);
    assert_eq!(write.backing, BackingFile::InputConf);
    assert_eq!(write.validation, WriteValidation::InPlan);
}

#[test]
fn a_renderer_that_changed_no_key_renders_no_write() {
    let write = target("/config/test.conf")
        .render_write(&one_dirty(), before, |_, _| {
            Ok::<_, FakeRenderError>(RenderedEdit {
                contents: b"before\n".to_vec(),
                changed_keys: Vec::new(),
            })
        })
        .expect("no error");
    assert!(write.is_none());
}

#[test]
fn an_unreadable_file_fails_naming_the_file_for_the_dialog() {
    let file = target("/config/gone.conf");
    let error = file
        .render_write(
            &one_dirty(),
            || Err("No such file or directory (os error 2)".to_string()),
            |_, _| -> Result<RenderedEdit, FakeRenderError> {
                panic!("the renderer must not run when the file cannot be read")
            },
        )
        .expect_err("an unreadable file must fail");
    assert!(matches!(error, StoreWriteError::Read { .. }));
    let message = error.message(RENDERER_WORDS);
    assert!(
        message.starts_with("test.conf could not be read: "),
        "the message names the file: {message}"
    );
    assert_eq!(
        message,
        "test.conf could not be read: No such file or directory (os error 2)"
    );
}

#[test]
fn a_rejected_edit_fails_quoting_the_renderers_own_reason() {
    let error = target("/config/test.conf")
        .render_write(
            &one_dirty(),
            before,
            |_, _| -> Result<RenderedEdit, FakeRenderError> { Err(FakeRenderError) },
        )
        .expect_err("a rejected edit must fail");
    assert!(matches!(
        error,
        StoreWriteError::Render {
            error: FakeRenderError,
            ..
        }
    ));
    assert_eq!(
        error.message(RENDERER_WORDS),
        "the test.conf edit could not be applied: the renderer said no"
    );
}
