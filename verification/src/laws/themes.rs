//! The laws of the GTK, icon and cursor themes.

use crate::apply::{BackingFile, Write};
use crate::laws::backing as backing_laws;
use crate::laws::env as env_laws;
use crate::laws::hyprlang as hyprlang_laws;
use crate::laws::hyprlang_fields as field_laws;
use crate::laws::ini as ini_laws;
use crate::lines;
use crate::parsers::env;
use crate::parsers::hyprlang;
use crate::parsers::ini;
use crate::table;
use crate::text;
use crate::theme::backing;
use crate::theme::discovery::Entry;
use crate::theme::staging::{Choice, Pending};
use crate::theme::themes;
use crate::theme::themes::{Paths, Rendered, Rendering, ThemeRenderRecord, ThemeValue, Themes};
use vstd::prelude::*;

verus! {

/// The choice of a value.
pub open spec fn choice_of(model: Themes, value: ThemeValue) -> Choice {
    match value {
        ThemeValue::GtkTheme => model.gtk_theme,
        ThemeValue::IconTheme => model.icon_theme,
        ThemeValue::CursorTheme => model.cursor_theme,
        ThemeValue::CursorSize => model.cursor_size,
    }
}

/// A value and its pending change.
pub open spec fn pending(model: Themes, value: ThemeValue) -> Pending {
    choice_of(model, value).value
}

/// The key of a value in a `settings.ini`.
pub open spec fn ini_key(value: ThemeValue) -> Seq<char> {
    match value {
        ThemeValue::GtkTheme => "gtk-theme-name"@,
        ThemeValue::IconTheme => "gtk-icon-theme-name"@,
        ThemeValue::CursorTheme => "gtk-cursor-theme-name"@,
        ThemeValue::CursorSize => "gtk-cursor-theme-size"@,
    }
}

/// Whether a value is one of the two of the cursor, which have copies outside the `settings.ini`.
pub open spec fn is_of_cursor(value: ThemeValue) -> bool {
    value is CursorTheme || value is CursorSize
}

/// The variable of a value of the cursor.
pub open spec fn variable_of(value: ThemeValue) -> Seq<char> {
    if value is CursorSize {
        "XCURSOR_SIZE"@
    } else {
        "XCURSOR_THEME"@
    }
}

/// Whether a change is pending that fits on one line.
pub open spec fn fits_on_a_line(value: Pending) -> bool {
    value.staged matches Some(v) && !text::breaks_line(v)
}

/// A value of a `settings.ini` after the pending changes are rendered into its text, which is then
/// read again.
pub open spec fn value_after(old_value: Option<Seq<char>>, value: Pending) -> Option<Seq<char>> {
    if fits_on_a_line(value) {
        Some(text::trim(value.staged->0))
    } else {
        old_value
    }
}

proof fn lemma_ini_keys(a: ThemeValue, b: ThemeValue)
    ensures
        ini_laws::is_readable_key(ini_key(a)),
        a != b ==> ini_key(a) != ini_key(b),
        !ini::is_unusable_section("Settings"@),
        text::trim("Settings"@) == "Settings"@,
{
    reveal_strlit("Settings");
    reveal_strlit("gtk-theme-name");
    reveal_strlit("gtk-icon-theme-name");
    reveal_strlit("gtk-cursor-theme-name");
    reveal_strlit("gtk-cursor-theme-size");
    let name = "Settings"@;
    text::lemma_trim_is(name, 0, 8);
    assert(name.subrange(0, 8) =~= name);
    let key = ini_key(a);
    let n = key.len() as int;
    text::lemma_trim_is(key, 0, n);
    assert(key.subrange(0, n) =~= key);
    if a != b && ini_key(a) == ini_key(b) {
        assert(ini_key(a).len() == ini_key(b).len());
        assert(ini_key(a)[17] == ini_key(b)[17]);
    }
}

/// What one step of rendering does to a `settings.ini`.
proof fn lemma_ini_step(
    state: Rendering<ini::Kind>,
    id: ThemeValue,
    value: Pending,
    label: Seq<char>,
)
    requires
        ini_laws::sound_file(state.lines),
    ensures
        ({
            let after = themes::ini_step(state, id, ini_key(id), value, label);
            let key = ini_key(id);
            &&& ini_laws::sound_file(after.lines)
            &&& after.record == if value.staged is None {
                state.record
            } else if fits_on_a_line(value) {
                state.record.with_written(id)
            } else {
                state.record.with_diverged(id)
            }
            &&& after.changed_keys.len() == state.changed_keys.len() ==> after == (Rendering {
                record: after.record,
                ..state
            })
            &&& after.changed_keys.len() >= state.changed_keys.len()
            &&& forall|other: ThemeValue|
                other != id ==> #[trigger] ini::value_of(after.lines, "Settings"@, ini_key(other))
                    == ini::value_of(state.lines, "Settings"@, ini_key(other))
            &&& if fits_on_a_line(value) {
                &&& ini::value_of(after.lines, "Settings"@, key) matches Some(v)
                &&& text::trim(v) == text::trim(value.staged->0)
            } else {
                ini::value_of(after.lines, "Settings"@, key) == ini::value_of(
                    state.lines,
                    "Settings"@,
                    key,
                )
            }
        }),
{
    let section = "Settings"@;
    let key = ini_key(id);
    let after = themes::ini_step(state, id, key, value, label);
    lemma_ini_keys(id, id);
    if let Some(v) = value.staged {
        assert(ini::accepts(state.lines, section, key, v) == !text::breaks_line(v));
        if !text::breaks_line(v) {
            ini_laws::set_keeps_sound(state.lines, section, key, v);
            ini_laws::read_after_set(state.lines, section, key, v);
            text::lemma_trim_twice(v);
        }
        assert forall|other: ThemeValue| other != id implies #[trigger] ini::value_of(
            after.lines,
            section,
            ini_key(other),
        ) == ini::value_of(state.lines, section, ini_key(other)) by {
            lemma_ini_keys(id, other);
            if !text::breaks_line(v) {
                ini_laws::set_keeps_other_values(
                    state.lines,
                    section,
                    key,
                    v,
                    section,
                    ini_key(other),
                );
            }
        }
    }
}

/// Every `settings.ini` that is rendered holds each pending change that fits on a line, and
/// otherwise what it held. A change that does not fit is refused.
pub proof fn settings_hold_the_changes(model: Themes, text: Seq<char>, id: ThemeValue)
    ensures
        ({
            let done = model.rendered_ini(text);
            let again = ini::parsed(lines::emitted(done.lines));
            &&& ini::value_of(again, "Settings"@, ini_key(id)) == value_after(
                ini::value_of(ini::parsed(text), "Settings"@, ini_key(id)),
                pending(model, id),
            )
            &&& done.record.written.of(id) <==> fits_on_a_line(pending(model, id))
            &&& done.record.diverged.of(id) <==> pending(model, id).staged is Some
                && !fits_on_a_line(pending(model, id))
            &&& done.changed_keys.len() == 0 ==> lines::emitted(done.lines) == text
        }),
{
    let section = "Settings"@;
    let start = themes::unrendered(ini::parsed(text));
    ini_laws::parsed_is_sound(text);
    ini_laws::round_trip(text);
    let a = themes::ini_step(
        start,
        ThemeValue::GtkTheme,
        ini_key(ThemeValue::GtkTheme),
        model.gtk_theme.value,
        "GTK theme"@,
    );
    lemma_ini_step(start, ThemeValue::GtkTheme, model.gtk_theme.value, "GTK theme"@);
    let b = themes::ini_step(
        a,
        ThemeValue::IconTheme,
        ini_key(ThemeValue::IconTheme),
        model.icon_theme.value,
        "icon theme"@,
    );
    lemma_ini_step(a, ThemeValue::IconTheme, model.icon_theme.value, "icon theme"@);
    let c = themes::ini_step(
        b,
        ThemeValue::CursorTheme,
        ini_key(ThemeValue::CursorTheme),
        model.cursor_theme.value,
        "cursor theme"@,
    );
    lemma_ini_step(b, ThemeValue::CursorTheme, model.cursor_theme.value, "cursor theme"@);
    let done = model.rendered_ini(text);
    lemma_ini_step(c, ThemeValue::CursorSize, model.cursor_size.value, "cursor size"@);
    ini_laws::reread(done.lines, section, ini_key(id));
    ini_laws::reread(start.lines, section, ini_key(id));
    assert(ini::value_of(start.lines, section, ini_key(id)) matches Some(v) ==> text::trim(v)
        == v);
}

proof fn lemma_variables()
    ensures
        env::is_identifier("XCURSOR_THEME"@),
        env::is_identifier("XCURSOR_SIZE"@),
        "XCURSOR_THEME"@ != "XCURSOR_SIZE"@,
{
    reveal_strlit("XCURSOR_THEME");
    reveal_strlit("XCURSOR_SIZE");
    assert("XCURSOR_THEME"@.len() != "XCURSOR_SIZE"@.len());
}

/// What one step of rendering does to `uwsm/env`.
proof fn lemma_uwsm_step(
    state: Rendering<env::Kind>,
    id: ThemeValue,
    key: Seq<char>,
    value: Pending,
    label: Seq<char>,
)
    requires
        env_laws::sound_file(state.lines),
        env::is_identifier(key),
    ensures
        ({
            let after = themes::uwsm_step(state, id, key, value, label);
            &&& env_laws::sound_file(after.lines)
            &&& after.record == if value.staged is None {
                state.record
            } else if fits_on_a_line(value) {
                state.record.with_written(id)
            } else {
                state.record.with_diverged(id)
            }
            &&& after.changed_keys.len() == state.changed_keys.len() ==> after == (Rendering {
                record: after.record,
                ..state
            })
            &&& after.changed_keys.len() >= state.changed_keys.len()
            &&& forall|other: Seq<char>|
                other != key ==> #[trigger] env::value_of(after.lines, other) == env::value_of(
                    state.lines,
                    other,
                )
            &&& if fits_on_a_line(value) {
                &&& env::value_of(after.lines, key) matches Some(v)
                &&& text::trim(v) == text::trim(value.staged->0)
            } else {
                env::value_of(after.lines, key) == env::value_of(state.lines, key)
            }
        }),
{
    let after = themes::uwsm_step(state, id, key, value, label);
    if let Some(v) = value.staged {
        if !text::breaks_line(v) {
            env_laws::set_keeps_sound(state.lines, key, v);
            env_laws::read_after_set(state.lines, key, v, key);
            text::lemma_trim_twice(v);
        }
        assert forall|other: Seq<char>| other != key implies #[trigger] env::value_of(
            after.lines,
            other,
        ) == env::value_of(state.lines, other) by {
            if !text::breaks_line(v) {
                env_laws::read_after_set(state.lines, key, v, other);
            }
        }
    }
}

/// `uwsm/env`, where it is rendered, holds each pending change of the cursor that fits on a line,
/// and otherwise what it held. A change that does not fit is refused.
pub proof fn environment_holds_the_changes(model: Themes, text: Seq<char>, id: ThemeValue)
    requires
        is_of_cursor(id),
    ensures
        ({
            let done = model.rendered_uwsm(text);
            let again = env::parsed(lines::emitted(done.lines));
            &&& env::value_of(again, variable_of(id)) == value_after(
                env::value_of(env::parsed(text), variable_of(id)),
                pending(model, id),
            )
            &&& done.record.written.of(id) <==> fits_on_a_line(pending(model, id))
            &&& done.record.diverged.of(id) <==> pending(model, id).staged is Some
                && !fits_on_a_line(pending(model, id))
            &&& done.changed_keys.len() == 0 ==> lines::emitted(done.lines) == text
        }),
{
    let start = themes::unrendered(env::parsed(text));
    lemma_variables();
    env_laws::parsed_is_sound(text);
    env_laws::round_trip(text);
    let a = themes::uwsm_step(
        start,
        ThemeValue::CursorTheme,
        "XCURSOR_THEME"@,
        model.cursor_theme.value,
        "cursor theme (uwsm/env)"@,
    );
    lemma_uwsm_step(
        start,
        ThemeValue::CursorTheme,
        "XCURSOR_THEME"@,
        model.cursor_theme.value,
        "cursor theme (uwsm/env)"@,
    );
    lemma_uwsm_step(
        a,
        ThemeValue::CursorSize,
        "XCURSOR_SIZE"@,
        model.cursor_size.value,
        "cursor size (uwsm/env)"@,
    );
    let done = model.rendered_uwsm(text);
    env_laws::reread(done.lines, variable_of(id));
    env_laws::reread(start.lines, variable_of(id));
}

/// Whether `hyprland.conf` takes a pending change: it has an `env` line for the variable, with a
/// value after the comma, and the change neither breaks the line nor begins a comment.
pub open spec fn hyprland_takes(text: Seq<char>, id: ThemeValue, value: Pending) -> bool {
    &&& value.staged is Some
    &&& !hyprlang::is_unsafe(value.staged->0)
    &&& hyprlang::field_of(hyprlang::parsed(text), "env"@, variable_of(id)) is Some
}

/// Whether `hyprland.conf` has an `env` line for a variable.
pub open spec fn hyprland_has(text: Seq<char>, id: ThemeValue) -> bool {
    hyprlang::repeated_at(hyprlang::parsed(text), "env"@, variable_of(id)) is Some
}

/// Whether `hyprland.conf` refuses a pending change: it has an `env` line for the variable, but the
/// line has no value, or the change would break it or begin a comment.
pub open spec fn hyprland_refuses(text: Seq<char>, id: ThemeValue, value: Pending) -> bool {
    &&& value.staged is Some
    &&& hyprland_has(text, id)
    &&& hyprlang::is_unsafe(value.staged->0) || hyprlang::field_of(
        hyprlang::parsed(text),
        "env"@,
        variable_of(id),
    ) is None
}

/// What one step of rendering does to `hyprland.conf`.
proof fn lemma_hyprland_step(
    state: Rendering<hyprlang::Kind>,
    id: ThemeValue,
    field: Seq<char>,
    value: Pending,
    label: Seq<char>,
)
    requires
        hyprlang_laws::sound_file(state.lines),
    ensures
        ({
            let after = themes::hyprland_step(state, id, field, value, label);
            let key = "env"@;
            let taken = value.staged matches Some(v) && !hyprlang::is_unsafe(v)
                && hyprlang::field_of(state.lines, key, field) is Some;
            &&& hyprlang_laws::sound_file(after.lines)
            &&& after.record == if taken {
                state.record.with_written(id)
            } else if value.staged is Some && hyprlang::repeated_at(
                state.lines,
                key,
                field,
            ) is Some {
                state.record.with_diverged(id)
            } else {
                state.record
            }
            &&& after.changed_keys.len() == state.changed_keys.len() ==> after == (Rendering {
                record: after.record,
                ..state
            })
            &&& after.changed_keys.len() >= state.changed_keys.len()
            &&& forall|other: Seq<char>|
                other != field ==> #[trigger] hyprlang::field_of(after.lines, key, other)
                    == hyprlang::field_of(state.lines, key, other)
            &&& forall|other: Seq<char>| #[trigger]
                hyprlang::repeated_at(after.lines, key, other) == hyprlang::repeated_at(
                    state.lines,
                    key,
                    other,
                )
            &&& if taken {
                &&& hyprlang::field_of(after.lines, key, field) matches Some(v)
                &&& text::trim(v) == text::trim(value.staged->0)
            } else {
                hyprlang::field_of(after.lines, key, field) == hyprlang::field_of(
                    state.lines,
                    key,
                    field,
                )
            }
        }),
{
    let key = "env"@;
    let after = themes::hyprland_step(state, id, field, value, label);
    if let Some(v) = value.staged {
        if hyprlang::accepts_field(state.lines, key, field, v) {
            hyprlang_laws::sound_fits(state.lines);
            field_laws::set_field_keeps_sound(state.lines, key, field, v);
            field_laws::read_after_set_field(state.lines, key, field, v, key, field);
            text::lemma_trim_start(v);
            assert forall|other: Seq<char>| other != field implies #[trigger] hyprlang::field_of(
                after.lines,
                key,
                other,
            ) == hyprlang::field_of(state.lines, key, other) by {
                field_laws::read_after_set_field(state.lines, key, field, v, key, other);
            }
            assert forall|other: Seq<char>| #[trigger]
                hyprlang::repeated_at(after.lines, key, other) == hyprlang::repeated_at(
                state.lines,
                key,
                other,
            ) by {
                field_laws::set_field_keeps_places(state.lines, key, field, v, key, other);
            }
        }
    }
}

/// `hyprland.conf`, where it is rendered, holds each pending change of the cursor that it takes, and
/// otherwise what it held.
pub proof fn hyprland_holds_the_changes(model: Themes, text: Seq<char>, id: ThemeValue)
    requires
        is_of_cursor(id),
    ensures
        ({
            let done = model.rendered_hyprland(text);
            let again = hyprlang::parsed(lines::emitted(done.lines));
            &&& hyprlang::field_of(again, "env"@, variable_of(id)) == if hyprland_takes(
                text,
                id,
                pending(model, id),
            ) {
                Some(text::trim(pending(model, id).staged->0))
            } else {
                hyprlang::field_of(hyprlang::parsed(text), "env"@, variable_of(id))
            }
            &&& done.record.written.of(id) <==> hyprland_takes(text, id, pending(model, id))
            &&& done.record.diverged.of(id) <==> hyprland_refuses(text, id, pending(model, id))
            &&& done.changed_keys.len() == 0 ==> lines::emitted(done.lines) == text
        }),
{
    let start = themes::unrendered(hyprlang::parsed(text));
    lemma_variables();
    hyprlang_laws::parsed_is_sound(text);
    hyprlang_laws::round_trip(text);
    let a = themes::hyprland_step(
        start,
        ThemeValue::CursorTheme,
        "XCURSOR_THEME"@,
        model.cursor_theme.value,
        "cursor theme (hyprland.conf env)"@,
    );
    lemma_hyprland_step(
        start,
        ThemeValue::CursorTheme,
        "XCURSOR_THEME"@,
        model.cursor_theme.value,
        "cursor theme (hyprland.conf env)"@,
    );
    lemma_hyprland_step(
        a,
        ThemeValue::CursorSize,
        "XCURSOR_SIZE"@,
        model.cursor_size.value,
        "cursor size (hyprland.conf env)"@,
    );
    let done = model.rendered_hyprland(text);
    field_laws::reread_field(done.lines, "env"@, variable_of(id));
    field_laws::reread_field(start.lines, "env"@, variable_of(id));
}

/// The file at a path after the given writes.
pub open spec fn text_after(model: Themes, writes: Seq<Write>, path: Seq<char>) -> Option<
    Seq<char>,
> {
    table::lookup(backing::absorbed_all(model.backing, writes).files, path)
}

/// What one more rendered file does to the files that are known.
proof fn lemma_and<K>(
    model: Themes,
    sofar: Rendered,
    state: Rendering<K>,
    to: Seq<char>,
    file: BackingFile,
    path: Seq<char>,
)
    ensures
        ({
            let done = sofar.and(state, to, file);
            text_after(model, done.writes, path) == if path == to && state.changed_keys.len() > 0
                && text_after(model, sofar.writes, path) is Some {
                Some(lines::emitted(state.lines))
            } else {
                text_after(model, sofar.writes, path)
            }
        }),
{
    let done = sofar.and(state, to, file);
    let text = lines::emitted(state.lines);
    if state.changed_keys.len() > 0 {
        let write = themes::write_of(state, to, file)[0];
        assert(done.writes =~= sofar.writes.push(write));
        backing_laws::lemma_absorbed_add(model.backing, sofar.writes, write);
        vstd::utf8::encode_utf8_valid_utf8(text);
        vstd::utf8::encode_utf8_decode_utf8(text);
        let before = backing::absorbed_all(model.backing, sofar.writes);
        table::lemma_lookup_put(before.files, to, text, path);
    } else {
        assert(done.writes =~= sofar.writes);
    }
}

/// Whether the configuration files are four.
pub open spec fn are_distinct(paths: Paths) -> bool {
    &&& paths.gtk3_settings != paths.gtk4_settings
    &&& paths.gtk3_settings != paths.hyprland_conf
    &&& paths.gtk3_settings != paths.uwsm_env
    &&& paths.gtk4_settings != paths.hyprland_conf
    &&& paths.gtk4_settings != paths.uwsm_env
    &&& paths.hyprland_conf != paths.uwsm_env
}

spec fn no_write() -> Rendered {
    Rendered { writes: Seq::empty(), record: ThemeRenderRecord::nothing() }
}

/// What the files are after the pending changes are written.
proof fn lemma_texts_after(model: Themes)
    requires
        are_distinct(model.paths),
        model.is_dirty(),
    ensures
        ({
            let writes = model.rendered().writes;
            let paths = model.paths;
            &&& text_after(model, writes, paths.gtk3_settings) == match model.text_at(
                paths.gtk3_settings,
            ) {
                Some(text) => Some(lines::emitted(model.rendered_ini(text).lines)),
                None => None,
            }
            &&& text_after(model, writes, paths.gtk4_settings) == match model.text_at(
                paths.gtk4_settings,
            ) {
                Some(text) => Some(lines::emitted(model.rendered_ini(text).lines)),
                None => None,
            }
            &&& model.cursor_changed() ==> text_after(model, writes, paths.hyprland_conf)
                == match model.text_at(paths.hyprland_conf) {
                Some(text) => Some(lines::emitted(model.rendered_hyprland(text).lines)),
                None => None,
            }
            &&& model.cursor_changed() ==> text_after(model, writes, paths.uwsm_env)
                == match model.text_at(paths.uwsm_env) {
                Some(text) => Some(lines::emitted(model.rendered_uwsm(text).lines)),
                None => None,
            }
        }),
{
    let paths = model.paths;
    let a = model.and_ini(no_write(), paths.gtk3_settings);
    let b = model.and_ini(a, paths.gtk4_settings);
    let c = model.and_hyprland(b, paths.hyprland_conf);
    lemma_texts_after_each(model, paths.gtk3_settings);
    lemma_texts_after_each(model, paths.gtk4_settings);
    lemma_texts_after_each(model, paths.hyprland_conf);
    lemma_texts_after_each(model, paths.uwsm_env);
    if let Some(text) = model.text_at(paths.gtk3_settings) {
        settings_hold_the_changes(model, text, ThemeValue::GtkTheme);
    }
    if let Some(text) = model.text_at(paths.gtk4_settings) {
        settings_hold_the_changes(model, text, ThemeValue::GtkTheme);
    }
    if let Some(text) = model.text_at(paths.hyprland_conf) {
        hyprland_holds_the_changes(model, text, ThemeValue::CursorTheme);
    }
    if let Some(text) = model.text_at(paths.uwsm_env) {
        environment_holds_the_changes(model, text, ThemeValue::CursorTheme);
    }
}

/// How the writes of the four files follow each other for the file at one path.
proof fn lemma_texts_after_each(model: Themes, path: Seq<char>)
    requires
        model.is_dirty(),
    ensures
        ({
            let paths = model.paths;
            let a = model.and_ini(no_write(), paths.gtk3_settings);
            let b = model.and_ini(a, paths.gtk4_settings);
            let c = model.and_hyprland(b, paths.hyprland_conf);
            let d = model.and_uwsm(c, paths.uwsm_env);
            &&& text_after(model, no_write().writes, path) == model.text_at(path)
            &&& model.rendered() == if model.cursor_changed() {
                d
            } else {
                b
            }
            &&& text_after(model, a.writes, path) == match model.text_at(paths.gtk3_settings) {
                Some(text) => if path == paths.gtk3_settings && model.rendered_ini(
                    text,
                ).changed_keys.len() > 0 {
                    Some(lines::emitted(model.rendered_ini(text).lines))
                } else {
                    model.text_at(path)
                },
                None => model.text_at(path),
            }
            &&& text_after(model, b.writes, path) == match model.text_at(paths.gtk4_settings) {
                Some(text) => if path == paths.gtk4_settings && model.rendered_ini(
                    text,
                ).changed_keys.len() > 0 {
                    Some(lines::emitted(model.rendered_ini(text).lines))
                } else {
                    text_after(model, a.writes, path)
                },
                None => text_after(model, a.writes, path),
            }
            &&& text_after(model, c.writes, path) == match model.text_at(paths.hyprland_conf) {
                Some(text) => if path == paths.hyprland_conf && model.rendered_hyprland(
                    text,
                ).changed_keys.len() > 0 {
                    Some(lines::emitted(model.rendered_hyprland(text).lines))
                } else {
                    text_after(model, b.writes, path)
                },
                None => text_after(model, b.writes, path),
            }
            &&& text_after(model, d.writes, path) == match model.text_at(paths.uwsm_env) {
                Some(text) => if path == paths.uwsm_env && model.rendered_uwsm(
                    text,
                ).changed_keys.len() > 0 {
                    Some(lines::emitted(model.rendered_uwsm(text).lines))
                } else {
                    text_after(model, c.writes, path)
                },
                None => text_after(model, c.writes, path),
            }
        }),
{
    let paths = model.paths;
    let set = model.backing;
    let a = model.and_ini(no_write(), paths.gtk3_settings);
    let b = model.and_ini(a, paths.gtk4_settings);
    let c = model.and_hyprland(b, paths.hyprland_conf);
    backing_laws::lemma_known_stays_known(set, a.writes, a.writes.len() as int, path);
    backing_laws::lemma_known_stays_known(set, b.writes, b.writes.len() as int, path);
    backing_laws::lemma_known_stays_known(set, c.writes, c.writes.len() as int, path);
    if let Some(text) = model.text_at(paths.gtk3_settings) {
        lemma_and(
            model,
            no_write(),
            model.rendered_ini(text),
            paths.gtk3_settings,
            BackingFile::GtkSettings,
            path,
        );
    }
    if let Some(text) = model.text_at(paths.gtk4_settings) {
        lemma_and(
            model,
            a,
            model.rendered_ini(text),
            paths.gtk4_settings,
            BackingFile::GtkSettings,
            path,
        );
    }
    if let Some(text) = model.text_at(paths.hyprland_conf) {
        lemma_and(
            model,
            b,
            model.rendered_hyprland(text),
            paths.hyprland_conf,
            BackingFile::HyprlandConf,
            path,
        );
    }
    if let Some(text) = model.text_at(paths.uwsm_env) {
        lemma_and(
            model,
            c,
            model.rendered_uwsm(text),
            paths.uwsm_env,
            BackingFile::UwsmEnv,
            path,
        );
    }
}

/// A value is taken for written only where some file took it and no file that has a copy refused
/// it, so that every copy then holds the same: in both `settings.ini` files, and for the cursor in
/// `uwsm/env` and on the `env` line of `hyprland.conf`.
pub proof fn promoted_value_is_in_every_copy(model: Themes, id: ThemeValue)
    requires
        are_distinct(model.paths),
        model.rendered().record.promotes(id),
    ensures
        ({
            let after = model.commit();
            let value = text::trim(pending(model, id).staged->0);
            let paths = model.paths;
            &&& pending(model, id).staged is Some
            &&& pending(after, id) == (Pending { original: pending(model, id).staged, staged: None })
            &&& after.text_at(paths.gtk3_settings) matches Some(text) ==> themes::setting(
                Some(text),
                ini_key(id),
            ) == Some(value)
            &&& after.text_at(paths.gtk4_settings) matches Some(text) ==> themes::setting(
                Some(text),
                ini_key(id),
            ) == Some(value)
            &&& is_of_cursor(id) ==> {
                &&& after.text_at(paths.uwsm_env) matches Some(text) ==> themes::variable(
                    Some(text),
                    variable_of(id),
                ) == Some(value)
                &&& after.text_at(paths.hyprland_conf) matches Some(text) ==> {
                    let found = hyprlang::field_of(hyprlang::parsed(text), "env"@, variable_of(id));
                    found is None || found == Some(value)
                }
            }
        }),
{
    let paths = model.paths;
    lemma_record(model, id);
    lemma_texts_after(model);
    if let Some(text) = model.text_at(paths.gtk3_settings) {
        settings_hold_the_changes(model, text, id);
    }
    if let Some(text) = model.text_at(paths.gtk4_settings) {
        settings_hold_the_changes(model, text, id);
    }
    if is_of_cursor(id) {
        if let Some(text) = model.text_at(paths.hyprland_conf) {
            hyprland_holds_the_changes(model, text, id);
        }
        if let Some(text) = model.text_at(paths.uwsm_env) {
            environment_holds_the_changes(model, text, id);
        }
    }
}

/// What became of a change in either of two records.
proof fn lemma_or(a: ThemeRenderRecord, b: ThemeRenderRecord, id: ThemeValue)
    ensures
        a.or(b).written.of(id) == (a.written.of(id) || b.written.of(id)),
        a.or(b).diverged.of(id) == (a.diverged.of(id) || b.diverged.of(id)),
{
}

/// What became of a change in a `settings.ini`: whether the file took it, and whether it refused it.
spec fn in_settings(model: Themes, path: Seq<char>, id: ThemeValue) -> (bool, bool) {
    match model.text_at(path) {
        Some(_) => (
            fits_on_a_line(pending(model, id)),
            pending(model, id).staged is Some && !fits_on_a_line(pending(model, id)),
        ),
        None => (false, false),
    }
}

proof fn lemma_and_ini(model: Themes, sofar: Rendered, path: Seq<char>, id: ThemeValue)
    ensures
        model.and_ini(sofar, path).record.written.of(id) == (sofar.record.written.of(id)
            || in_settings(model, path, id).0),
        model.and_ini(sofar, path).record.diverged.of(id) == (sofar.record.diverged.of(id)
            || in_settings(model, path, id).1),
{
    if let Some(text) = model.text_at(path) {
        settings_hold_the_changes(model, text, id);
        lemma_or(sofar.record, model.rendered_ini(text).record, id);
    }
}

/// What became of a change in `hyprland.conf`.
spec fn in_hyprland(model: Themes, id: ThemeValue) -> (bool, bool) {
    match model.text_at(model.paths.hyprland_conf) {
        Some(text) => (
            is_of_cursor(id) && hyprland_takes(text, id, pending(model, id)),
            is_of_cursor(id) && hyprland_refuses(text, id, pending(model, id)),
        ),
        None => (false, false),
    }
}

proof fn lemma_and_hyprland(model: Themes, sofar: Rendered, id: ThemeValue)
    ensures
        ({
            let done = model.and_hyprland(sofar, model.paths.hyprland_conf);
            &&& done.record.written.of(id) == (sofar.record.written.of(id) || in_hyprland(
                model,
                id,
            ).0)
            &&& done.record.diverged.of(id) == (sofar.record.diverged.of(id) || in_hyprland(
                model,
                id,
            ).1)
        }),
{
    if let Some(text) = model.text_at(model.paths.hyprland_conf) {
        if is_of_cursor(id) {
            hyprland_holds_the_changes(model, text, id);
        }
        lemma_or(sofar.record, model.rendered_hyprland(text).record, id);
    }
}

/// What became of a change in `uwsm/env`.
spec fn in_uwsm(model: Themes, id: ThemeValue) -> (bool, bool) {
    match model.text_at(model.paths.uwsm_env) {
        Some(_) => (
            is_of_cursor(id) && fits_on_a_line(pending(model, id)),
            is_of_cursor(id) && pending(model, id).staged is Some && !fits_on_a_line(
                pending(model, id),
            ),
        ),
        None => (false, false),
    }
}

proof fn lemma_and_uwsm(model: Themes, sofar: Rendered, id: ThemeValue)
    ensures
        ({
            let done = model.and_uwsm(sofar, model.paths.uwsm_env);
            &&& done.record.written.of(id) == (sofar.record.written.of(id) || in_uwsm(model, id).0)
            &&& done.record.diverged.of(id) == (sofar.record.diverged.of(id) || in_uwsm(
                model,
                id,
            ).1)
        }),
{
    if let Some(text) = model.text_at(model.paths.uwsm_env) {
        if is_of_cursor(id) {
            environment_holds_the_changes(model, text, id);
        }
        lemma_or(sofar.record, model.rendered_uwsm(text).record, id);
    }
}

/// What becomes of a change is what becomes of it in the files.
proof fn lemma_record(model: Themes, id: ThemeValue)
    ensures
        ({
            let record = model.rendered().record;
            let paths = model.paths;
            let settings = model.is_dirty();
            let others = model.cursor_changed();
            &&& record.written.of(id) == (settings && in_settings(model, paths.gtk3_settings, id).0
                || settings && in_settings(model, paths.gtk4_settings, id).0 || others
                && in_hyprland(model, id).0 || others && in_uwsm(model, id).0)
            &&& record.diverged.of(id) == (settings && in_settings(
                model,
                paths.gtk3_settings,
                id,
            ).1 || settings && in_settings(model, paths.gtk4_settings, id).1 || others
                && in_hyprland(model, id).1 || others && in_uwsm(model, id).1)
        }),
{
    let paths = model.paths;
    let a = model.and_ini(no_write(), paths.gtk3_settings);
    let b = model.and_ini(a, paths.gtk4_settings);
    let settings = if model.is_dirty() {
        b
    } else {
        no_write()
    };
    let c = model.and_hyprland(settings, paths.hyprland_conf);
    lemma_and_ini(model, no_write(), paths.gtk3_settings, id);
    lemma_and_ini(model, a, paths.gtk4_settings, id);
    lemma_and_hyprland(model, settings, id);
    lemma_and_uwsm(model, c, id);
}

/// A change without a line break or a `#` is taken for written where one of the `settings.ini`
/// files can be read, unless it is one of the cursor and `hyprland.conf` has an `env` line for it
/// without a value.
pub proof fn plain_change_is_promoted(model: Themes, id: ThemeValue)
    requires
        pending(model, id).staged is Some,
        hyprlang_laws::is_plain(pending(model, id).staged->0),
        model.text_at(model.paths.gtk3_settings) is Some || model.text_at(
            model.paths.gtk4_settings,
        ) is Some,
        is_of_cursor(id) ==> (model.text_at(model.paths.hyprland_conf) matches Some(text) ==> {
            let file = hyprlang::parsed(text);
            hyprlang::repeated_at(file, "env"@, variable_of(id)) is Some ==> hyprlang::field_of(
                file,
                "env"@,
                variable_of(id),
            ) is Some
        }),
    ensures
        model.rendered().record.promotes(id),
        pending(model.commit(), id).original == pending(model, id).staged,
        !pending(model.commit(), id).is_changed(),
{
    hyprlang_laws::lemma_plain(pending(model, id).staged->0);
    lemma_record(model, id);
}

/// A file that does not carry a copy blocks nothing: a change of the cursor that breaks no line is
/// taken for written where one of the `settings.ini` files can be read and `hyprland.conf` has no
/// `env` line for it, even if the change holds a `#`.
pub proof fn absent_copy_does_not_block_promotion(model: Themes, id: ThemeValue)
    requires
        is_of_cursor(id),
        pending(model, id).staged matches Some(v) && !text::breaks_line(v),
        model.text_at(model.paths.gtk3_settings) is Some || model.text_at(
            model.paths.gtk4_settings,
        ) is Some,
        model.text_at(model.paths.hyprland_conf) matches Some(text) ==> !hyprland_has(text, id),
    ensures
        model.rendered().record.promotes(id),
        pending(model.commit(), id).original == pending(model, id).staged,
        !pending(model.commit(), id).is_changed(),
{
    lemma_record(model, id);
}

/// A change of the cursor that `hyprland.conf` refuses stays pending, whatever the other files take.
pub proof fn refused_copy_blocks_promotion(model: Themes, id: ThemeValue)
    requires
        is_of_cursor(id),
        model.text_at(model.paths.hyprland_conf) matches Some(text) && hyprland_refuses(
            text,
            id,
            pending(model, id),
        ),
    ensures
        !model.rendered().record.promotes(id),
        pending(model.commit(), id) == pending(model, id),
{
    lemma_record(model, id);
}

/// A change that would break a line is taken by no file, and stays pending.
pub proof fn broken_change_stays_pending(model: Themes, id: ThemeValue)
    requires
        pending(model, id).staged matches Some(v) && text::breaks_line(v),
    ensures
        !model.rendered().record.promotes(id),
        pending(model.commit(), id) == pending(model, id),
{
    lemma_record(model, id);
}

/// Forgetting the pending changes leaves none, and gives what the configuration holds.
pub proof fn reset_leaves_no_change(model: Themes, id: ThemeValue)
    ensures
        !model.reset().is_dirty(),
        pending(model.reset(), id).effective() == pending(model, id).original,
        model.reset().reset() == model.reset(),
        model.reset().backing == model.backing,
{
}

/// Where no change is pending, nothing is written or reloaded, and taking it for written changes
/// nothing.
pub proof fn no_change_no_write(model: Themes)
    requires
        !model.is_dirty(),
    ensures
        model.rendered().writes.len() == 0,
        model.reload().gtk_theme is None,
        model.reload().icon_theme is None,
        model.reload().cursor is None,
        model.commit() == model,
{
}

/// Taking the changes for written leaves every value as it was to be.
pub proof fn commit_keeps_the_values(model: Themes, id: ThemeValue)
    ensures
        pending(model.commit(), id).effective() == pending(model, id).effective(),
        choice_of(model.commit(), id).options == choice_of(model, id).options,
{
}

proof fn lemma_known_and<K>(
    model: Themes,
    sofar: Rendered,
    state: Rendering<K>,
    to: Seq<char>,
    file: BackingFile,
)
    requires
        all_known(model, sofar.writes),
        model.text_at(to) is Some,
    ensures
        all_known(model, sofar.and(state, to, file).writes),
{
    let after = sofar.and(state, to, file).writes;
    vstd::utf8::encode_utf8_valid_utf8(lines::emitted(state.lines));
    assert forall|i: int| 0 <= i < after.len() implies vstd::utf8::valid_utf8(
        (#[trigger] after[i]).contents,
    ) && model.text_at(after[i].path) is Some by {
        if i < sofar.writes.len() {
            assert(after[i] == sofar.writes[i]);
        }
    }
}

proof fn lemma_known_ini(model: Themes, sofar: Rendered, path: Seq<char>)
    requires
        all_known(model, sofar.writes),
    ensures
        all_known(model, model.and_ini(sofar, path).writes),
{
    if let Some(text) = model.text_at(path) {
        lemma_known_and(model, sofar, model.rendered_ini(text), path, BackingFile::GtkSettings);
    }
}

proof fn lemma_known_hyprland(model: Themes, sofar: Rendered, path: Seq<char>)
    requires
        all_known(model, sofar.writes),
    ensures
        all_known(model, model.and_hyprland(sofar, path).writes),
{
    if let Some(text) = model.text_at(path) {
        lemma_known_and(
            model,
            sofar,
            model.rendered_hyprland(text),
            path,
            BackingFile::HyprlandConf,
        );
    }
}

proof fn lemma_known_uwsm(model: Themes, sofar: Rendered, path: Seq<char>)
    requires
        all_known(model, sofar.writes),
    ensures
        all_known(model, model.and_uwsm(sofar, path).writes),
{
    if let Some(text) = model.text_at(path) {
        lemma_known_and(model, sofar, model.rendered_uwsm(text), path, BackingFile::UwsmEnv);
    }
}

proof fn lemma_every_write_is_known(model: Themes)
    ensures
        all_known(model, model.rendered().writes),
{
    let paths = model.paths;
    let a = model.and_ini(no_write(), paths.gtk3_settings);
    let settings = if model.is_dirty() {
        model.and_ini(a, paths.gtk4_settings)
    } else {
        no_write()
    };
    let c = model.and_hyprland(settings, paths.hyprland_conf);
    lemma_known_ini(model, no_write(), paths.gtk3_settings);
    lemma_known_ini(model, a, paths.gtk4_settings);
    lemma_known_hyprland(model, settings, paths.hyprland_conf);
    lemma_known_uwsm(model, c, paths.uwsm_env);
}

spec fn all_known(model: Themes, writes: Seq<Write>) -> bool {
    forall|i: int|
        0 <= i < writes.len() ==> vstd::utf8::valid_utf8((#[trigger] writes[i]).contents)
            && model.text_at(writes[i].path) is Some
}

/// An Apply leaves the files known as they are on disk, so that it is no conflict for the next
/// Apply, which builds on what was written.
pub proof fn commit_keeps_agreement(model: Themes, disk: Seq<(Seq<char>, Seq<u8>)>)
    requires
        backing_laws::agrees(model.backing, disk),
    ensures
        backing_laws::agrees(
            model.commit().backing,
            backing_laws::performed(disk, model.rendered().writes),
        ),
{
    lemma_every_write_is_known(model);
    backing_laws::own_writes_keep_agreement(model.backing, disk, model.rendered().writes);
}

/// A value that was taken for written is what loading the files again gives, trimmed, once the
/// writes are performed. For a value of the cursor this needs a file that it is loaded from:
/// `hyprland.conf` is written to only.
pub proof fn promoted_value_is_loaded_again(
    model: Themes,
    id: ThemeValue,
    disk: Seq<(Seq<char>, Seq<u8>)>,
    again: Themes,
    gtk: Seq<Entry>,
    icons: Seq<Entry>,
)
    requires
        are_distinct(model.paths),
        backing_laws::holds(model.backing, themes::path_list(model.paths), disk),
        model.rendered().record.promotes(id),
        again.paths == model.paths,
        themes::is_loaded(
            again,
            gtk,
            icons,
            backing_laws::performed(disk, model.rendered().writes),
        ),
        model.text_at(model.paths.gtk3_settings) is Some || model.text_at(
            model.paths.gtk4_settings,
        ) is Some || model.text_at(model.paths.uwsm_env) is Some,
    ensures
        pending(again, id) == (Pending {
            original: Some(text::trim(pending(model, id).staged->0)),
            staged: None,
        }),
{
    let paths = model.paths;
    promoted_value_is_in_every_copy(model, id);
    lemma_settings_needed(model, id);
    lemma_loaded_texts(model, disk, again, paths.gtk3_settings, 0);
    lemma_loaded_texts(model, disk, again, paths.gtk4_settings, 1);
    lemma_loaded_texts(model, disk, again, paths.uwsm_env, 3);
}

/// A value that is not one of the cursor is taken for written only where a `settings.ini` can be
/// read.
proof fn lemma_settings_needed(model: Themes, id: ThemeValue)
    requires
        model.rendered().record.promotes(id),
    ensures
        is_of_cursor(id) || model.text_at(model.paths.gtk3_settings) is Some || model.text_at(
            model.paths.gtk4_settings,
        ) is Some,
{
    lemma_record(model, id);
}

/// Loading gives a file as it is known after the changes are written.
proof fn lemma_loaded_texts(
    model: Themes,
    disk: Seq<(Seq<char>, Seq<u8>)>,
    again: Themes,
    path: Seq<char>,
    i: int,
)
    requires
        backing_laws::holds(model.backing, themes::path_list(model.paths), disk),
        again.backing == backing::loaded(
            themes::path_list(model.paths),
            backing_laws::performed(disk, model.rendered().writes),
        ),
        0 <= i < themes::path_list(model.paths).len(),
        path == themes::path_list(model.paths)[i],
    ensures
        again.text_at(path) == model.commit().text_at(path),
        again.text_at(path) is Some <==> model.text_at(path) is Some,
{
    let writes = model.rendered().writes;
    let list = themes::path_list(model.paths);
    lemma_every_write_is_known(model);
    backing_laws::own_writes_keep_what_is_held(model.backing, list, disk, writes);
    backing_laws::loaded_holds(list, backing_laws::performed(disk, writes));
    backing_laws::lemma_known_stays_known(model.backing, writes, writes.len() as int, path);
}

} // verus!
