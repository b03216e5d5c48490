//! The laws of the values that the themes are read from and written to.

use crate::apply::{BackingFile, WriteValidation};
use crate::laws::discovery as discovery_laws;
use crate::laws::env_lines as env_laws;
use crate::laws::hyprlang as hyprlang_laws;
use crate::laws::hyprlang_fields as field_laws;
use crate::laws::ini_lines as ini_laws;
use crate::laws::staging as staging_laws;
use crate::laws::text as text_laws;
use crate::laws::themes as theme_laws;
use crate::parsers::env;
use crate::parsers::hyprlang;
use crate::parsers::ini;
use crate::text;
use crate::theme::discovery::Entry;
use crate::theme::staging;
use crate::theme::staging::Pending;
use crate::theme::themes;
use crate::theme::themes::{
    Override, Rendered, Rendering, ThemeRenderRecord, ThemeValue, Themes,
};
use vstd::prelude::*;

verus! {

/// Whether a text is a number written in decimal digits.
pub open spec fn is_digits(s: Seq<char>) -> bool {
    s.len() > 0 && forall|i: int| 0 <= i < s.len() ==> "0123456789"@.contains(#[trigger] s[i])
}

proof fn lemma_number(digits: Seq<char>)
    ensures
        themes::is_number(digits) <==> is_digits(digits),
        themes::number(digits) == text_laws::value_of_digits(digits),
    decreases digits.len(),
{
    assert forall|i: int| 0 <= i < digits.len() implies text::is_digit(#[trigger] digits[i])
        == "0123456789"@.contains(digits[i]) by {
        text_laws::digits_are_listed(digits[i]);
    }
    if digits.len() > 0 {
        lemma_number(digits.drop_last());
    }
}

/// A cursor size is read from decimal digits, with a plus sign before them or none and any white
/// space around: it is the number that they stand for, if that is positive and fits in 32 bits.
pub proof fn size_is_what_its_digits_stand_for(
    before: Seq<char>,
    plus: bool,
    digits: Seq<char>,
    after: Seq<char>,
)
    requires
        text_laws::is_blank(before),
        is_digits(digits),
        text_laws::is_blank(after),
    ensures
        ({
            let sign = if plus {
                seq!['+']
            } else {
                Seq::empty()
            };
            let n = text_laws::value_of_digits(digits);
            themes::size_of(before + sign + digits + after) == if 0 < n <= 0xffff_ffff {
                Some(n)
            } else {
                None
            }
        }),
{
    let sign = if plus {
        seq!['+']
    } else {
        Seq::empty()
    };
    let body = sign + digits;
    lemma_number(digits);
    text_laws::white_space_is_listed('+');
    text_laws::digits_are_listed(digits[0]);
    text_laws::digits_are_listed(digits.last());
    text_laws::white_space_is_listed(digits[0]);
    text_laws::white_space_is_listed(digits.last());
    assert(body.last() == digits.last());
    if plus {
        assert(body[0] == '+');
        assert(body.skip(1) =~= digits);
    } else {
        assert(body =~= digits);
    }
    text_laws::trimming_takes_white_space_away(before, body, after);
    assert(before + body + after =~= before + sign + digits + after);
}

/// A text that is no number in decimal digits, a plus sign before it aside, is no cursor size.
pub proof fn other_texts_are_no_size(before: Seq<char>, s: Seq<char>, after: Seq<char>)
    requires
        text_laws::is_blank(before),
        text_laws::is_tight(s),
        !is_digits(s),
        s.len() > 0 && s[0] == '+' ==> !is_digits(s.skip(1)),
        text_laws::is_blank(after),
    ensures
        themes::size_of(before + s + after) is None,
{
    text_laws::trimming_takes_white_space_away(before, s, after);
    lemma_number(s);
    lemma_number(s.skip(1));
}

/// A size that is written in decimal is read as that size.
pub proof fn written_size_is_read_back(n: int)
    requires
        0 < n <= 0xffff_ffff,
    ensures
        themes::size_of(text::decimal(n)) == Some(n),
{
    let digits = text::decimal(n);
    text_laws::decimal_stands_for_its_number(n);
    assert forall|i: int| 0 <= i < digits.len() implies "0123456789"@.contains(
        #[trigger] digits[i],
    ) by {
        text_laws::digits_are_listed(digits[i]);
    }
    let none = Seq::<char>::empty();
    size_is_what_its_digits_stand_for(none, false, digits, none);
    assert(none + none + digits + none =~= digits);
}

/// The sizes that are always offered are 16, 24, 32, 48 and 64, the smallest first.
pub proof fn common_sizes_are_read(i: int)
    requires
        0 <= i < themes::common_sizes().len(),
    ensures
        themes::common_sizes().len() == 5,
        themes::size_of(themes::common_sizes()[i]) == Some(seq![16int, 24, 32, 48, 64][i]),
{
    let sizes = seq![16int, 24, 32, 48, 64];
    let n = sizes[i];
    reveal_strlit("16");
    reveal_strlit("24");
    reveal_strlit("32");
    reveal_strlit("48");
    reveal_strlit("64");
    assert(text::decimal(n).len() == 2 && text::decimal(n)[0] == text::digit(n / 10)
        && text::decimal(n)[1] == text::digit(n % 10)) by {
        assert(text::decimal(n / 10) =~= seq![text::digit(n / 10)]);
        assert(text::decimal(n) =~= text::decimal(n / 10).push(text::digit(n % 10)));
    }
    assert(themes::common_sizes()[i] =~= text::decimal(n));
    written_size_is_read_back(n);
}

/// The live reloads are told of the GTK theme and of the icon theme exactly where a change of them
/// is pending, and of the cursor only where a change of its theme or its size is, and then of both
/// as they will be, the size as a number.
pub proof fn reload_tells_what_changes(model: Themes)
    ensures
        model.reload().gtk_theme == theme_laws::pending(model, ThemeValue::GtkTheme).staged,
        model.reload().icon_theme == theme_laws::pending(model, ThemeValue::IconTheme).staged,
        model.reload().wallpaper is None,
        model.reload().fit is None,
        ({
            let theme = theme_laws::pending(model, ThemeValue::CursorTheme);
            let size = theme_laws::pending(model, ThemeValue::CursorSize);
            let changes = theme.staged is Some || size.staged is Some;
            &&& !changes ==> model.reload().cursor is None
            &&& changes ==> (model.reload().cursor matches Some(cursor) ==> {
                &&& theme.effective() == Some(cursor.0)
                &&& size.effective() is Some
                &&& themes::size_of(size.effective()->0) == Some(cursor.1)
            })
            &&& changes && theme.effective() is Some && size.effective() is Some && themes::size_of(
                size.effective()->0,
            ) is Some ==> model.reload().cursor is Some
        }),
{
}

/// A change is pending exactly where one of the four values has one.
pub proof fn change_of_any_value_is_one(model: Themes)
    ensures
        model.is_dirty() <==> exists|id: ThemeValue|
            (#[trigger] theme_laws::pending(model, id)).staged is Some,
        model.cursor_changed() <==> theme_laws::pending(
            model,
            ThemeValue::CursorTheme,
        ).staged is Some || theme_laws::pending(model, ThemeValue::CursorSize).staged is Some,
{
    if model.is_dirty() {
        assert(theme_laws::pending(model, ThemeValue::GtkTheme).staged is Some
            || theme_laws::pending(model, ThemeValue::IconTheme).staged is Some
            || theme_laws::pending(model, ThemeValue::CursorTheme).staged is Some
            || theme_laws::pending(model, ThemeValue::CursorSize).staged is Some);
    }
}

/// A key of the section `Settings` of a text.
pub open spec fn key_of(text: Seq<char>, key: Seq<char>) -> Option<Seq<char>> {
    ini::value_of(ini::parsed(text), "Settings"@, key)
}

/// What loading reads: the values of the `settings.ini` of GTK 3, or of that of GTK 4 where the
/// first cannot be read, and for the cursor the variables of `uwsm/env` where that file has no
/// value. No change is pending.
pub proof fn loaded_values_are_those_of_the_files(
    model: Themes,
    gtk: Seq<Entry>,
    icons: Seq<Entry>,
    disk: Seq<(Seq<char>, Seq<u8>)>,
    id: ThemeValue,
    settings: Seq<char>,
    variables: Seq<char>,
)
    requires
        themes::is_loaded(model, gtk, icons, disk),
    ensures
        theme_laws::pending(model, id).staged is None,
        model.text_at(model.paths.gtk3_settings) == Some(settings) && key_of(
            settings,
            theme_laws::ini_key(id),
        ) is Some ==> theme_laws::pending(model, id).original == key_of(
            settings,
            theme_laws::ini_key(id),
        ),
        model.text_at(model.paths.gtk3_settings) is None && model.text_at(
            model.paths.gtk4_settings,
        ) == Some(settings) && key_of(settings, theme_laws::ini_key(id)) is Some
            ==> theme_laws::pending(model, id).original == key_of(
            settings,
            theme_laws::ini_key(id),
        ),
        model.text_at(model.paths.gtk3_settings) == Some(settings) && key_of(
            settings,
            theme_laws::ini_key(id),
        ) is None && !theme_laws::is_of_cursor(id) ==> theme_laws::pending(
            model,
            id,
        ).original is None,
        model.text_at(model.paths.gtk3_settings) == Some(settings) && key_of(
            settings,
            theme_laws::ini_key(id),
        ) is None && theme_laws::is_of_cursor(id) && model.text_at(model.paths.uwsm_env) == Some(
            variables,
        ) ==> theme_laws::pending(model, id).original == env::value_of(
            env::parsed(variables),
            theme_laws::variable_of(id),
        ),
        model.text_at(model.paths.gtk3_settings) is None && model.text_at(
            model.paths.gtk4_settings,
        ) is None && theme_laws::is_of_cursor(id) && model.text_at(model.paths.uwsm_env) == Some(
            variables,
        ) ==> theme_laws::pending(model, id).original == env::value_of(
            env::parsed(variables),
            theme_laws::variable_of(id),
        ),
{
}

/// What forces the GTK theme: `GTK_THEME` in the program's own environment where that is not empty,
/// else `GTK_THEME` in `uwsm/env` where that file can be read and assigns it, else nothing.
pub proof fn environment_forces_the_gtk_theme(
    model: Themes,
    gtk: Seq<Entry>,
    icons: Seq<Entry>,
    disk: Seq<(Seq<char>, Seq<u8>)>,
    value: Seq<char>,
    variables: Seq<char>,
)
    requires
        themes::is_loaded(model, gtk, icons, disk),
    ensures
        model.app_env_gtk_theme == Some(value) && value.len() > 0 ==> model.gtk_override == Some(
            Override::AppEnvironment(value),
        ),
        model.app_env_gtk_theme is None || model.app_env_gtk_theme->0.len() == 0 ==> {
            &&& model.text_at(model.paths.uwsm_env) is None ==> model.gtk_override is None
            &&& model.text_at(model.paths.uwsm_env) == Some(variables) && env::value_of(
                env::parsed(variables),
                "GTK_THEME"@,
            ) == Some(value) ==> model.gtk_override == Some(Override::UwsmEnv(value))
            &&& model.text_at(model.paths.uwsm_env) == Some(variables) && env::value_of(
                env::parsed(variables),
                "GTK_THEME"@,
            ) is None ==> model.gtk_override is None
        },
{
}

proof fn lemma_offers(
    options: Seq<Seq<char>>,
    current: Option<Seq<char>>,
    holds: spec_fn(Seq<char>) -> bool,
    name: Seq<char>,
)
    requires
        themes::offers(options, current, holds),
    ensures
        options.contains(name) <==> holds(name) || current == Some(name),
{
    let names = choose|names: Seq<Seq<char>>|
        #![trigger themes::lists(names, holds)]
        themes::lists(names, holds) && options == staging::offering(names, current);
    staging_laws::offering_adds_the_current_value(names, current, name);
    assert(names.contains(name) <==> holds(name));
}

/// What there is to choose from after loading: every theme that is installed, and the current one;
/// nothing else.
pub proof fn installed_themes_are_offered(
    model: Themes,
    gtk: Seq<Entry>,
    icons: Seq<Entry>,
    disk: Seq<(Seq<char>, Seq<u8>)>,
    name: Seq<char>,
)
    requires
        themes::is_loaded(model, gtk, icons, disk),
    ensures
        model.gtk_theme.options.contains(name) <==> discovery_laws::offers_gtk_theme(gtk, name)
            || model.gtk_theme.value.original == Some(name),
        model.icon_theme.options.contains(name) <==> discovery_laws::offers_icon_theme(icons, name)
            || model.icon_theme.value.original == Some(name),
        model.cursor_theme.options.contains(name) <==> discovery_laws::offers_cursor_theme(
            icons,
            name,
        ) || model.cursor_theme.value.original == Some(name),
        model.cursor_size.options.contains(name) <==> themes::common_sizes().contains(name)
            || model.cursor_size.value.original == Some(name),
{
    lemma_offers(
        model.gtk_theme.options,
        model.gtk_theme.value.original,
        themes::installed_gtk(gtk),
        name,
    );
    lemma_offers(
        model.icon_theme.options,
        model.icon_theme.value.original,
        themes::installed_icons(icons),
        name,
    );
    lemma_offers(
        model.cursor_theme.options,
        model.cursor_theme.value.original,
        themes::installed_cursors(icons),
        name,
    );
    staging_laws::offering_adds_the_current_value(
        themes::common_sizes(),
        model.cursor_size.value.original,
        name,
    );
}

/// The words for a value in what changed, where its change fits on a line.
pub open spec fn words_if_it_fits(value: Pending, words: Seq<char>) -> Seq<Seq<char>> {
    if value.staged matches Some(v) && text_laws::is_one_line(v) {
        seq![words]
    } else {
        Seq::empty()
    }
}

proof fn lemma_ini_words(
    state: Rendering<ini::Kind>,
    id: ThemeValue,
    value: Pending,
    words: Seq<char>,
)
    ensures
        themes::ini_step(state, id, theme_laws::ini_key(id), value, words).changed_keys
            == state.changed_keys + words_if_it_fits(value, words),
{
    let key = theme_laws::ini_key(id);
    reveal_strlit("Settings");
    reveal_strlit("gtk-theme-name");
    reveal_strlit("gtk-icon-theme-name");
    reveal_strlit("gtk-cursor-theme-name");
    reveal_strlit("gtk-cursor-theme-size");
    if let Some(v) = value.staged {
        ini_laws::plain_value_is_set(state.lines, "Settings"@, key, v);
    }
    let after = themes::ini_step(state, id, key, value, words).changed_keys;
    assert(after =~= state.changed_keys + words_if_it_fits(value, words));
}

/// The write of a `settings.ini` names the changes that are in it, in their order: those that fit on
/// a line.
pub proof fn settings_name_their_changes(model: Themes, text: Seq<char>)
    ensures
        model.rendered_ini(text).changed_keys == words_if_it_fits(
            model.gtk_theme.value,
            "GTK theme"@,
        ) + words_if_it_fits(model.icon_theme.value, "icon theme"@) + words_if_it_fits(
            model.cursor_theme.value,
            "cursor theme"@,
        ) + words_if_it_fits(model.cursor_size.value, "cursor size"@),
{
    let start = themes::unrendered(ini::parsed(text));
    let a = themes::ini_step(
        start,
        ThemeValue::GtkTheme,
        "gtk-theme-name"@,
        model.gtk_theme.value,
        "GTK theme"@,
    );
    let b = themes::ini_step(
        a,
        ThemeValue::IconTheme,
        "gtk-icon-theme-name"@,
        model.icon_theme.value,
        "icon theme"@,
    );
    let c = themes::ini_step(
        b,
        ThemeValue::CursorTheme,
        "gtk-cursor-theme-name"@,
        model.cursor_theme.value,
        "cursor theme"@,
    );
    lemma_ini_words(start, ThemeValue::GtkTheme, model.gtk_theme.value, "GTK theme"@);
    lemma_ini_words(a, ThemeValue::IconTheme, model.icon_theme.value, "icon theme"@);
    lemma_ini_words(b, ThemeValue::CursorTheme, model.cursor_theme.value, "cursor theme"@);
    lemma_ini_words(c, ThemeValue::CursorSize, model.cursor_size.value, "cursor size"@);
    let first = words_if_it_fits(model.gtk_theme.value, "GTK theme"@);
    assert(start.changed_keys + first =~= first);
}

proof fn lemma_uwsm_words(
    state: Rendering<env::Kind>,
    id: ThemeValue,
    value: Pending,
    words: Seq<char>,
)
    requires
        theme_laws::is_of_cursor(id),
    ensures
        themes::uwsm_step(state, id, theme_laws::variable_of(id), value, words).changed_keys
            == state.changed_keys + words_if_it_fits(value, words),
{
    let key = theme_laws::variable_of(id);
    if let Some(v) = value.staged {
        env_laws::names_are_words(key);
        text_laws::line_is_broken_by_feed_or_return(v);
        assert(env::is_identifier(key)) by {
            reveal_strlit("XCURSOR_THEME");
            reveal_strlit("XCURSOR_SIZE");
        }
    }
    let after = themes::uwsm_step(state, id, key, value, words).changed_keys;
    assert(after =~= state.changed_keys + words_if_it_fits(value, words));
}

/// The write of `uwsm/env` names the changes of the cursor that are in it, in their order: those
/// that fit on a line.
pub proof fn environment_names_its_changes(model: Themes, text: Seq<char>)
    ensures
        model.rendered_uwsm(text).changed_keys == words_if_it_fits(
            model.cursor_theme.value,
            "cursor theme (uwsm/env)"@,
        ) + words_if_it_fits(model.cursor_size.value, "cursor size (uwsm/env)"@),
{
    let start = themes::unrendered(env::parsed(text));
    let a = themes::uwsm_step(
        start,
        ThemeValue::CursorTheme,
        "XCURSOR_THEME"@,
        model.cursor_theme.value,
        "cursor theme (uwsm/env)"@,
    );
    lemma_uwsm_words(
        start,
        ThemeValue::CursorTheme,
        model.cursor_theme.value,
        "cursor theme (uwsm/env)"@,
    );
    lemma_uwsm_words(a, ThemeValue::CursorSize, model.cursor_size.value, "cursor size (uwsm/env)"@);
    let first = words_if_it_fits(model.cursor_theme.value, "cursor theme (uwsm/env)"@);
    assert(start.changed_keys + first =~= first);
}

/// The words for a value of the cursor in what changed of `hyprland.conf`, where that file takes the
/// change: it has an `env` line of the variable with a comma, and the change holds neither a line
/// break nor `#`.
pub open spec fn words_if_hyprland_takes_it(
    text: Seq<char>,
    value: Pending,
    variable: Seq<char>,
    words: Seq<char>,
) -> Seq<Seq<char>> {
    if (value.staged matches Some(v) && hyprlang_laws::is_plain(v)) && hyprlang::field_of(
        hyprlang::parsed(text),
        "env"@,
        variable,
    ) is Some {
        seq![words]
    } else {
        Seq::empty()
    }
}

proof fn lemma_hyprland_words(
    state: Rendering<hyprlang::Kind>,
    id: ThemeValue,
    field: Seq<char>,
    value: Pending,
    words: Seq<char>,
)
    requires
        hyprlang_laws::all_fit(state.lines),
    ensures
        themes::hyprland_step(state, id, field, value, words).changed_keys == state.changed_keys + (
        if (value.staged matches Some(v) && hyprlang_laws::is_plain(v)) && hyprlang::field_of(
            state.lines,
            "env"@,
            field,
        ) is Some {
            seq![words]
        } else {
            Seq::<Seq<char>>::empty()
        }),
{
    if let Some(v) = value.staged {
        field_laws::plain_portion_is_set(state.lines, "env"@, field, v);
    }
    let after = themes::hyprland_step(state, id, field, value, words).changed_keys;
    assert(after =~= state.changed_keys + (if (value.staged matches Some(v)
        && hyprlang_laws::is_plain(v)) && hyprlang::field_of(state.lines, "env"@, field) is Some {
        seq![words]
    } else {
        Seq::<Seq<char>>::empty()
    }));
}

/// The write of `hyprland.conf` names the changes of the cursor that are in it, in their order.
pub proof fn hyprland_names_its_changes(model: Themes, text: Seq<char>)
    ensures
        model.rendered_hyprland(text).changed_keys == words_if_hyprland_takes_it(
            text,
            model.cursor_theme.value,
            "XCURSOR_THEME"@,
            "cursor theme (hyprland.conf env)"@,
        ) + words_if_hyprland_takes_it(
            text,
            model.cursor_size.value,
            "XCURSOR_SIZE"@,
            "cursor size (hyprland.conf env)"@,
        ),
{
    let file = hyprlang::parsed(text);
    let start = themes::unrendered(file);
    let theme = model.cursor_theme.value;
    let words = "cursor theme (hyprland.conf env)"@;
    let a = themes::hyprland_step(start, ThemeValue::CursorTheme, "XCURSOR_THEME"@, theme, words);
    hyprlang_laws::parsed_is_sound(text);
    hyprlang_laws::sound_fits(file);
    lemma_hyprland_words(start, ThemeValue::CursorTheme, "XCURSOR_THEME"@, theme, words);
    reveal_strlit("XCURSOR_THEME");
    reveal_strlit("XCURSOR_SIZE");
    assert("XCURSOR_THEME"@.len() != "XCURSOR_SIZE"@.len());
    if theme.staged is Some {
        field_laws::set_field_keeps_sound(file, "env"@, "XCURSOR_THEME"@, theme.staged->0);
        if hyprlang::accepts_field(file, "env"@, "XCURSOR_THEME"@, theme.staged->0) {
            field_laws::read_after_set_field(
                file,
                "env"@,
                "XCURSOR_THEME"@,
                theme.staged->0,
                "env"@,
                "XCURSOR_SIZE"@,
            );
        }
    }
    hyprlang_laws::sound_fits(a.lines);
    lemma_hyprland_words(
        a,
        ThemeValue::CursorSize,
        "XCURSOR_SIZE"@,
        model.cursor_size.value,
        "cursor size (hyprland.conf env)"@,
    );
    let first = words_if_hyprland_takes_it(text, theme, "XCURSOR_THEME"@, words);
    assert(start.changed_keys + first =~= first);
}

/// Whether a write is one of the configuration files, called what it is, with something changed in
/// it and nothing to validate.
pub open spec fn is_write_of_a_file(model: Themes, write: crate::apply::Write) -> bool {
    &&& write.backing == BackingFile::GtkSettings && (write.path == model.paths.gtk3_settings
        || write.path == model.paths.gtk4_settings) || write.backing == BackingFile::HyprlandConf
        && write.path == model.paths.hyprland_conf || write.backing == BackingFile::UwsmEnv
        && write.path == model.paths.uwsm_env
    &&& write.changed_keys.len() > 0
    &&& write.validation == WriteValidation::NotNeeded
    &&& model.text_at(write.path) is Some
    &&& write.backing != BackingFile::GtkSettings ==> theme_laws::pending(
        model,
        ThemeValue::CursorTheme,
    ).staged is Some || theme_laws::pending(model, ThemeValue::CursorSize).staged is Some
}

spec fn writes_files(model: Themes, done: Rendered) -> bool {
    forall|i: int|
        0 <= i < done.writes.len() ==> is_write_of_a_file(model, #[trigger] done.writes[i])
}

proof fn lemma_and<K>(
    model: Themes,
    sofar: Rendered,
    state: Rendering<K>,
    path: Seq<char>,
    file: BackingFile,
)
    requires
        writes_files(model, sofar),
        state.changed_keys.len() > 0 ==> is_write_of_a_file(
            model,
            themes::write_of(state, path, file)[0],
        ),
    ensures
        writes_files(model, sofar.and(state, path, file)),
{
    let done = sofar.and(state, path, file);
    assert forall|i: int| 0 <= i < done.writes.len() implies is_write_of_a_file(
        model,
        #[trigger] done.writes[i],
    ) by {
        if i < sofar.writes.len() {
            assert(done.writes[i] == sofar.writes[i]);
        } else {
            assert(done.writes[i] == themes::write_of(state, path, file)[i - sofar.writes.len()]);
        }
    }
}

proof fn lemma_and_ini(model: Themes, sofar: Rendered, path: Seq<char>)
    requires
        writes_files(model, sofar),
        path == model.paths.gtk3_settings || path == model.paths.gtk4_settings,
    ensures
        writes_files(model, model.and_ini(sofar, path)),
{
    if let Some(text) = model.text_at(path) {
        lemma_and(model, sofar, model.rendered_ini(text), path, BackingFile::GtkSettings);
    }
}

/// What is written are configuration files that could be read, each called what it is:
/// `hyprland.conf` and `uwsm/env` only where a change of the cursor is pending.
pub proof fn writes_are_of_the_files(model: Themes, i: int)
    requires
        0 <= i < model.rendered().writes.len(),
    ensures
        is_write_of_a_file(model, model.rendered().writes[i]),
{
    let none = Rendered { writes: Seq::empty(), record: ThemeRenderRecord::nothing() };
    let paths = model.paths;
    assert(writes_files(model, none));
    let first = model.and_ini(none, paths.gtk3_settings);
    lemma_and_ini(model, none, paths.gtk3_settings);
    lemma_and_ini(model, first, paths.gtk4_settings);
    let settings = if model.is_dirty() {
        model.and_ini(first, paths.gtk4_settings)
    } else {
        none
    };
    if model.cursor_changed() {
        let path = paths.hyprland_conf;
        if let Some(text) = model.text_at(path) {
            let state = model.rendered_hyprland(text);
            lemma_and(model, settings, state, path, BackingFile::HyprlandConf);
        }
        let both = model.and_hyprland(settings, path);
        if let Some(text) = model.text_at(paths.uwsm_env) {
            let state = model.rendered_uwsm(text);
            lemma_and(model, both, state, paths.uwsm_env, BackingFile::UwsmEnv);
        }
    }
    assert(writes_files(model, model.rendered()));
}

} // verus!
