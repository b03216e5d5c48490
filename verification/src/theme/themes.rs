//! The GTK, icon and cursor themes.
//!
//! A value is written identically to every file that holds a copy of it: the GTK and icon
//! themes to both `settings.ini` files, the cursor theme and size to these, to the `env` lines
//! of `hyprland.conf` and to `uwsm/env`. A set `GTK_THEME` overrides the GTK theme, which then
//! cannot be changed here.

use crate::apply;
use crate::apply::{BackingFile, CursorValue, FileWrite, ReloadParams, WriteValidation};
use crate::disk;
use crate::disk::{encode, Files};
use crate::freshness;
use crate::lines;
use crate::lines::LineModel;
use crate::parsers::env;
use crate::parsers::env::{EnvFile, GtkThemeOverride};
use crate::parsers::hyprlang;
use crate::parsers::hyprlang::HyprlangFile;
use crate::parsers::ini;
use crate::parsers::ini::IniFile;
use crate::table;
use crate::text;
use crate::text::{chars, decimal_digit, trimmed};
use crate::theme::backing;
use crate::theme::backing::{Backing, BackingSet, BackingText};
use crate::theme::discovery;
use crate::theme::discovery::{
    discover_gtk_themes, discover_icon_and_cursor_themes, DirEntry, Entry,
};
use crate::theme::staging;
use crate::theme::staging::{Choice, Pending, Selection};
use vstd::prelude::*;
use vstd::slice::slice_subrange;

verus! {

/// The directories that hold themes.
#[derive(Debug)]
pub struct ThemeRoots {
    /// The directories that hold GTK themes.
    pub gtk_theme_dirs: Vec<String>,
    /// The directories that hold icon and cursor themes.
    pub icon_dirs: Vec<String>,
}

/// The mathematical counterpart of [`ThemeRoots`].
pub struct Roots {
    /// The directories that hold GTK themes.
    pub gtk_theme_dirs: Seq<Seq<char>>,
    /// The directories that hold icon and cursor themes.
    pub icon_dirs: Seq<Seq<char>>,
}

impl View for ThemeRoots {
    type V = Roots;

    open spec fn view(&self) -> Roots {
        Roots {
            gtk_theme_dirs: text::views(self.gtk_theme_dirs@),
            icon_dirs: text::views(self.icon_dirs@),
        }
    }
}

/// What is in the directories that hold themes.
#[derive(Debug)]
pub struct ThemeListing {
    /// The entries of the directories that hold GTK themes.
    pub gtk: Vec<DirEntry>,
    /// The entries of the directories that hold icon and cursor themes.
    pub icons: Vec<DirEntry>,
}

/// Where the configuration files are.
#[derive(Debug)]
pub struct ThemesPaths {
    /// The `settings.ini` of GTK 3.
    pub gtk3_settings: String,
    /// The `settings.ini` of GTK 4.
    pub gtk4_settings: String,
    /// `hyprland.conf`.
    pub hyprland_conf: String,
    /// `uwsm/env`.
    pub uwsm_env: String,
}

/// The mathematical counterpart of [`ThemesPaths`].
pub struct Paths {
    /// The `settings.ini` of GTK 3.
    pub gtk3_settings: Seq<char>,
    /// The `settings.ini` of GTK 4.
    pub gtk4_settings: Seq<char>,
    /// `hyprland.conf`.
    pub hyprland_conf: Seq<char>,
    /// `uwsm/env`.
    pub uwsm_env: Seq<char>,
}

impl View for ThemesPaths {
    type V = Paths;

    open spec fn view(&self) -> Paths {
        Paths {
            gtk3_settings: self.gtk3_settings@,
            gtk4_settings: self.gtk4_settings@,
            hyprland_conf: self.hyprland_conf@,
            uwsm_env: self.uwsm_env@,
        }
    }
}

impl Clone for ThemesPaths {
    fn clone(&self) -> (r: Self)
        ensures
            r@ == self@,
    {
        ThemesPaths {
            gtk3_settings: self.gtk3_settings.clone(),
            gtk4_settings: self.gtk4_settings.clone(),
            hyprland_conf: self.hyprland_conf.clone(),
            uwsm_env: self.uwsm_env.clone(),
        }
    }
}

impl Clone for ThemeRoots {
    fn clone(&self) -> (r: Self)
        ensures
            r@ == self@,
    {
        ThemeRoots {
            gtk_theme_dirs: text::copy_strings(&self.gtk_theme_dirs),
            icon_dirs: text::copy_strings(&self.icon_dirs),
        }
    }
}

/// What forces the GTK theme.
#[derive(Clone, Debug, PartialEq, Eq)]
pub enum GtkThemeOverrideSource {
    /// `GTK_THEME` in the program's own environment.
    AppEnvironment(String),
    /// `GTK_THEME` in `uwsm/env`.
    UwsmEnv(String),
}

/// The mathematical counterpart of [`GtkThemeOverrideSource`].
pub enum Override {
    /// `GTK_THEME` in the program's own environment.
    AppEnvironment(Seq<char>),
    /// `GTK_THEME` in `uwsm/env`.
    UwsmEnv(Seq<char>),
}

impl View for GtkThemeOverrideSource {
    type V = Override;

    open spec fn view(&self) -> Override {
        match *self {
            GtkThemeOverrideSource::AppEnvironment(value) => Override::AppEnvironment(value@),
            GtkThemeOverrideSource::UwsmEnv(value) => Override::UwsmEnv(value@),
        }
    }
}

/// The model of an override that may be missing.
pub open spec fn override_view(source: Option<GtkThemeOverrideSource>) -> Option<Override> {
    match source {
        Some(source) => Some(source@),
        None => None,
    }
}

impl GtkThemeOverrideSource {
    fn value(&self) -> (r: &str)
        ensures
            r@ == match self@ {
                Override::AppEnvironment(value) => value,
                Override::UwsmEnv(value) => value,
            },
    {
        match self {
            GtkThemeOverrideSource::AppEnvironment(value) => value.as_str(),
            GtkThemeOverrideSource::UwsmEnv(value) => value.as_str(),
        }
    }

    /// Says in words that the theme is forced, to what and by what.
    pub fn banner_message(&self) -> (r: String)
        ensures
            r@ == "The GTK theme is forced to \u{201c}"@ + match self@ {
                Override::AppEnvironment(value) => value,
                Override::UwsmEnv(value) => value,
            } + "\u{201d} by "@ + match self@ {
                Override::AppEnvironment(_) => "the GTK_THEME environment variable"@,
                Override::UwsmEnv(_) => "GTK_THEME in uwsm/env"@,
            } + ", so it cannot be changed here. Unset it to choose a theme."@,
    {
        let mut r = "The GTK theme is forced to \u{201c}".to_owned();
        r.append(self.value());
        r.append("\u{201d} by ");
        match self {
            GtkThemeOverrideSource::AppEnvironment(_) => {
                r.append("the GTK_THEME environment variable");
            },
            GtkThemeOverrideSource::UwsmEnv(_) => {
                r.append("GTK_THEME in uwsm/env");
            },
        }
        r.append(", so it cannot be changed here. Unset it to choose a theme.");
        r
    }
}

/// What forces the GTK theme, if anything does: a value in the environment that is not empty,
/// else an assignment in `uwsm/env`.
pub fn resolve_gtk_override(app_env: Option<String>, uwsm: Option<&GtkThemeOverride>) -> (r: Option<
    GtkThemeOverrideSource,
>)
    ensures
        override_view(r) == match app_env {
            Some(value) => if value@.len() > 0 {
                Some(Override::AppEnvironment(value@))
            } else {
                uwsm_override(uwsm)
            },
            None => uwsm_override(uwsm),
        },
{
    if let Some(value) = app_env {
        if !value.as_str().is_empty() {
            return Some(GtkThemeOverrideSource::AppEnvironment(value));
        }
    }
    if let Some(found) = uwsm {
        if let GtkThemeOverride::Active { value } = found {
            return Some(GtkThemeOverrideSource::UwsmEnv(value.clone()));
        }
    }
    None
}

/// The override that `uwsm/env` makes, if it makes one.
pub open spec fn uwsm_override(uwsm: Option<&GtkThemeOverride>) -> Option<Override> {
    match uwsm {
        Some(GtkThemeOverride::Active { value }) => Some(Override::UwsmEnv(value@)),
        _ => None,
    }
}

/// One of the values.
#[derive(Clone, Copy, Debug, PartialEq, Eq, Structural)]
pub enum ThemeValue {
    /// The GTK theme.
    GtkTheme,
    /// The icon theme.
    IconTheme,
    /// The cursor theme.
    CursorTheme,
    /// The cursor size.
    CursorSize,
}

/// A flag for each of the values.
#[derive(Clone, Copy, Debug, PartialEq, Eq, Structural)]
pub struct ThemeValueFlags {
    /// The flag of the GTK theme.
    pub gtk_theme: bool,
    /// The flag of the icon theme.
    pub icon_theme: bool,
    /// The flag of the cursor theme.
    pub cursor_theme: bool,
    /// The flag of the cursor size.
    pub cursor_size: bool,
}

impl ThemeValueFlags {
    /// No flag set.
    pub open spec fn none_set() -> ThemeValueFlags {
        ThemeValueFlags {
            gtk_theme: false,
            icon_theme: false,
            cursor_theme: false,
            cursor_size: false,
        }
    }

    /// The flag of a value.
    pub open spec fn of(self, value: ThemeValue) -> bool {
        match value {
            ThemeValue::GtkTheme => self.gtk_theme,
            ThemeValue::IconTheme => self.icon_theme,
            ThemeValue::CursorTheme => self.cursor_theme,
            ThemeValue::CursorSize => self.cursor_size,
        }
    }

    /// With the flag of a value set.
    pub open spec fn with(self, value: ThemeValue) -> ThemeValueFlags {
        match value {
            ThemeValue::GtkTheme => ThemeValueFlags { gtk_theme: true, ..self },
            ThemeValue::IconTheme => ThemeValueFlags { icon_theme: true, ..self },
            ThemeValue::CursorTheme => ThemeValueFlags { cursor_theme: true, ..self },
            ThemeValue::CursorSize => ThemeValueFlags { cursor_size: true, ..self },
        }
    }

    /// With the flags set that are set in either.
    pub open spec fn or(self, other: ThemeValueFlags) -> ThemeValueFlags {
        ThemeValueFlags {
            gtk_theme: self.gtk_theme || other.gtk_theme,
            icon_theme: self.icon_theme || other.icon_theme,
            cursor_theme: self.cursor_theme || other.cursor_theme,
            cursor_size: self.cursor_size || other.cursor_size,
        }
    }

    fn new() -> (r: Self)
        ensures
            r == ThemeValueFlags::none_set(),
    {
        ThemeValueFlags {
            gtk_theme: false,
            icon_theme: false,
            cursor_theme: false,
            cursor_size: false,
        }
    }

    fn flag(&mut self, value: ThemeValue)
        ensures
            *final(self) == old(self).with(value),
    {
        match value {
            ThemeValue::GtkTheme => {
                self.gtk_theme = true;
            },
            ThemeValue::IconTheme => {
                self.icon_theme = true;
            },
            ThemeValue::CursorTheme => {
                self.cursor_theme = true;
            },
            ThemeValue::CursorSize => {
                self.cursor_size = true;
            },
        }
    }

    fn merge(&mut self, other: ThemeValueFlags)
        ensures
            *final(self) == old(self).or(other),
    {
        self.gtk_theme = self.gtk_theme || other.gtk_theme;
        self.icon_theme = self.icon_theme || other.icon_theme;
        self.cursor_theme = self.cursor_theme || other.cursor_theme;
        self.cursor_size = self.cursor_size || other.cursor_size;
    }

    /// With the flags set that are set here but not there.
    pub fn without(self, other: ThemeValueFlags) -> (r: ThemeValueFlags)
        ensures
            forall|value: ThemeValue| #[trigger]
                r.of(value) == (self.of(value) && !other.of(value)),
    {
        ThemeValueFlags {
            gtk_theme: self.gtk_theme && !other.gtk_theme,
            icon_theme: self.icon_theme && !other.icon_theme,
            cursor_theme: self.cursor_theme && !other.cursor_theme,
            cursor_size: self.cursor_size && !other.cursor_size,
        }
    }
}

/// What became of the pending changes when they were rendered into the files.
#[derive(Clone, Copy, Debug, PartialEq, Eq, Structural)]
pub struct ThemeRenderRecord {
    /// The values that at least one file took.
    pub written: ThemeValueFlags,
    /// The values that a file which has a copy of them refused, so that the copies differ.
    pub diverged: ThemeValueFlags,
}

impl ThemeRenderRecord {
    /// Nothing written, nothing refused.
    pub open spec fn nothing() -> ThemeRenderRecord {
        ThemeRenderRecord {
            written: ThemeValueFlags::none_set(),
            diverged: ThemeValueFlags::none_set(),
        }
    }

    /// With a value written.
    pub open spec fn with_written(self, value: ThemeValue) -> ThemeRenderRecord {
        ThemeRenderRecord { written: self.written.with(value), ..self }
    }

    /// With a value refused.
    pub open spec fn with_diverged(self, value: ThemeValue) -> ThemeRenderRecord {
        ThemeRenderRecord { diverged: self.diverged.with(value), ..self }
    }

    /// With what became of the changes in another file.
    pub open spec fn or(self, other: ThemeRenderRecord) -> ThemeRenderRecord {
        ThemeRenderRecord {
            written: self.written.or(other.written),
            diverged: self.diverged.or(other.diverged),
        }
    }

    /// Whether a value may be taken for written: some file took it and none refused it.
    pub open spec fn promotes(self, value: ThemeValue) -> bool {
        self.written.of(value) && !self.diverged.of(value)
    }

    fn new() -> (r: Self)
        ensures
            r == ThemeRenderRecord::nothing(),
    {
        ThemeRenderRecord { written: ThemeValueFlags::new(), diverged: ThemeValueFlags::new() }
    }

    fn merge(&mut self, other: ThemeRenderRecord)
        ensures
            *final(self) == old(self).or(other),
    {
        self.written.merge(other.written);
        self.diverged.merge(other.diverged);
    }

    fn promotable(self) -> (r: ThemeValueFlags)
        ensures
            forall|value: ThemeValue| #[trigger] r.of(value) == self.promotes(value),
    {
        self.written.without(self.diverged)
    }
}

/// The mathematical counterpart of [`ThemesModel`].
pub struct Themes {
    /// The GTK theme.
    pub gtk_theme: Choice,
    /// The icon theme.
    pub icon_theme: Choice,
    /// The cursor theme.
    pub cursor_theme: Choice,
    /// The cursor size.
    pub cursor_size: Choice,
    /// The configuration files.
    pub backing: Backing,
    /// What forces the GTK theme, if anything does.
    pub gtk_override: Option<Override>,
    /// Whether a running program takes a new GTK theme at once.
    pub live_restyle: bool,
    /// The directories that hold themes.
    pub roots: Roots,
    /// Where the configuration files are.
    pub paths: Paths,
    /// `GTK_THEME` in the program's own environment.
    pub app_env_gtk_theme: Option<Seq<char>>,
}

/// A file being rendered: its lines, what changed, and what became of each change.
pub struct Rendering<K> {
    /// The lines.
    pub lines: Seq<LineModel<K>>,
    /// What changed, in words.
    pub changed_keys: Seq<Seq<char>>,
    /// What became of each change.
    pub record: ThemeRenderRecord,
}

/// Renders one value into a `settings.ini`.
pub open spec fn ini_step(
    state: Rendering<ini::Kind>,
    value_id: ThemeValue,
    key: Seq<char>,
    value: Pending,
    label: Seq<char>,
) -> Rendering<ini::Kind> {
    match value.staged {
        Some(v) => if ini::accepts(state.lines, "Settings"@, key, v) {
            Rendering {
                lines: ini::after_set(state.lines, "Settings"@, key, v),
                changed_keys: state.changed_keys.push(label),
                record: state.record.with_written(value_id),
            }
        } else {
            Rendering { record: state.record.with_diverged(value_id), ..state }
        },
        None => state,
    }
}

/// Renders one value into the `env` lines of `hyprland.conf`. A line that is not there is no
/// copy, so leaving it out is no refusal, whatever the value is.
pub open spec fn hyprland_step(
    state: Rendering<hyprlang::Kind>,
    value_id: ThemeValue,
    field: Seq<char>,
    value: Pending,
    label: Seq<char>,
) -> Rendering<hyprlang::Kind> {
    match value.staged {
        Some(v) => if hyprlang::repeated_at(state.lines, "env"@, field) is None {
            state
        } else if hyprlang::accepts_field(state.lines, "env"@, field, v) {
            Rendering {
                lines: hyprlang::after_set_field(state.lines, "env"@, field, v),
                changed_keys: state.changed_keys.push(label),
                record: state.record.with_written(value_id),
            }
        } else {
            Rendering { record: state.record.with_diverged(value_id), ..state }
        },
        None => state,
    }
}

/// Renders one value into `uwsm/env`.
pub open spec fn uwsm_step(
    state: Rendering<env::Kind>,
    value_id: ThemeValue,
    key: Seq<char>,
    value: Pending,
    label: Seq<char>,
) -> Rendering<env::Kind> {
    match value.staged {
        Some(v) => if env::accepts(state.lines, key, v) {
            Rendering {
                lines: env::after_set(state.lines, key, v),
                changed_keys: state.changed_keys.push(label),
                record: state.record.with_written(value_id),
            }
        } else {
            Rendering { record: state.record.with_diverged(value_id), ..state }
        },
        None => state,
    }
}

/// A file before anything is rendered into it.
pub open spec fn unrendered<K>(lines: Seq<LineModel<K>>) -> Rendering<K> {
    Rendering { lines, changed_keys: Seq::empty(), record: ThemeRenderRecord::nothing() }
}

/// The write of a rendered file, if anything changed in it.
pub open spec fn write_of<K>(
    state: Rendering<K>,
    path: Seq<char>,
    backing: BackingFile,
) -> Seq<apply::Write> {
    if state.changed_keys.len() == 0 {
        Seq::empty()
    } else {
        seq![
            apply::Write {
                path,
                contents: vstd::utf8::encode_utf8(lines::emitted(state.lines)),
                changed_keys: state.changed_keys,
                backing,
                validation: WriteValidation::NotNeeded,
            },
        ]
    }
}

/// The writes of an Apply, and what became of each change.
pub struct Rendered {
    /// The writes.
    pub writes: Seq<apply::Write>,
    /// What became of each change.
    pub record: ThemeRenderRecord,
}

impl Rendered {
    /// With another file rendered.
    pub open spec fn and<K>(
        self,
        state: Rendering<K>,
        path: Seq<char>,
        backing: BackingFile,
    ) -> Rendered {
        Rendered {
            writes: self.writes + write_of(state, path, backing),
            record: self.record.or(state.record),
        }
    }
}

impl Themes {
    /// Whether a change is pending.
    pub open spec fn is_dirty(self) -> bool {
        self.gtk_theme.value.is_changed() || self.icon_theme.value.is_changed()
            || self.cursor_changed()
    }

    /// Whether a change of the cursor is pending.
    pub open spec fn cursor_changed(self) -> bool {
        self.cursor_theme.value.is_changed() || self.cursor_size.value.is_changed()
    }

    /// Without its pending changes.
    pub open spec fn reset(self) -> Themes {
        Themes {
            gtk_theme: self.gtk_theme.with(self.gtk_theme.value.reset()),
            icon_theme: self.icon_theme.with(self.icon_theme.value.reset()),
            cursor_theme: self.cursor_theme.with(self.cursor_theme.value.reset()),
            cursor_size: self.cursor_size.with(self.cursor_size.value.reset()),
            ..self
        }
    }

    /// A `settings.ini` with the pending changes rendered into it.
    pub open spec fn rendered_ini(self, text: Seq<char>) -> Rendering<ini::Kind> {
        let a = ini_step(
            unrendered(ini::parsed(text)),
            ThemeValue::GtkTheme,
            "gtk-theme-name"@,
            self.gtk_theme.value,
            "GTK theme"@,
        );
        let b = ini_step(
            a,
            ThemeValue::IconTheme,
            "gtk-icon-theme-name"@,
            self.icon_theme.value,
            "icon theme"@,
        );
        let c = ini_step(
            b,
            ThemeValue::CursorTheme,
            "gtk-cursor-theme-name"@,
            self.cursor_theme.value,
            "cursor theme"@,
        );
        ini_step(
            c,
            ThemeValue::CursorSize,
            "gtk-cursor-theme-size"@,
            self.cursor_size.value,
            "cursor size"@,
        )
    }

    /// `hyprland.conf` with the pending changes rendered into it.
    pub open spec fn rendered_hyprland(self, text: Seq<char>) -> Rendering<hyprlang::Kind> {
        let a = hyprland_step(
            unrendered(hyprlang::parsed(text)),
            ThemeValue::CursorTheme,
            "XCURSOR_THEME"@,
            self.cursor_theme.value,
            "cursor theme (hyprland.conf env)"@,
        );
        hyprland_step(
            a,
            ThemeValue::CursorSize,
            "XCURSOR_SIZE"@,
            self.cursor_size.value,
            "cursor size (hyprland.conf env)"@,
        )
    }

    /// `uwsm/env` with the pending changes rendered into it.
    pub open spec fn rendered_uwsm(self, text: Seq<char>) -> Rendering<env::Kind> {
        let a = uwsm_step(
            unrendered(env::parsed(text)),
            ThemeValue::CursorTheme,
            "XCURSOR_THEME"@,
            self.cursor_theme.value,
            "cursor theme (uwsm/env)"@,
        );
        uwsm_step(
            a,
            ThemeValue::CursorSize,
            "XCURSOR_SIZE"@,
            self.cursor_size.value,
            "cursor size (uwsm/env)"@,
        )
    }

    /// The text of the file at a path, if it could be read.
    pub open spec fn text_at(self, path: Seq<char>) -> Option<Seq<char>> {
        table::lookup(self.backing.files, path)
    }

    /// The writes so far, and a `settings.ini`.
    pub open spec fn and_ini(self, sofar: Rendered, path: Seq<char>) -> Rendered {
        match self.text_at(path) {
            Some(text) => sofar.and(self.rendered_ini(text), path, BackingFile::GtkSettings),
            None => sofar,
        }
    }

    /// The writes so far, and `hyprland.conf`.
    pub open spec fn and_hyprland(self, sofar: Rendered, path: Seq<char>) -> Rendered {
        match self.text_at(path) {
            Some(text) => sofar.and(self.rendered_hyprland(text), path, BackingFile::HyprlandConf),
            None => sofar,
        }
    }

    /// The writes so far, and `uwsm/env`.
    pub open spec fn and_uwsm(self, sofar: Rendered, path: Seq<char>) -> Rendered {
        match self.text_at(path) {
            Some(text) => sofar.and(self.rendered_uwsm(text), path, BackingFile::UwsmEnv),
            None => sofar,
        }
    }

    /// The writes of the pending changes: both `settings.ini` files for any of them, and
    /// `hyprland.conf` and `uwsm/env` for a change of the cursor.
    pub open spec fn rendered(self) -> Rendered {
        let none = Rendered { writes: Seq::empty(), record: ThemeRenderRecord::nothing() };
        let settings = if self.is_dirty() {
            self.and_ini(self.and_ini(none, self.paths.gtk3_settings), self.paths.gtk4_settings)
        } else {
            none
        };
        if self.cursor_changed() {
            self.and_uwsm(
                self.and_hyprland(settings, self.paths.hyprland_conf),
                self.paths.uwsm_env,
            )
        } else {
            settings
        }
    }

    /// What the live reloads need: the values that change, and the cursor only as a whole.
    pub open spec fn reload(self) -> apply::Reload {
        apply::Reload {
            wallpaper: None,
            fit: None,
            cursor: if self.cursor_changed() {
                match (self.cursor_theme.value.effective(), self.cursor_size.value.effective()) {
                    (Some(theme), Some(size)) => match size_of(size) {
                        Some(n) => Some((theme, n)),
                        None => None,
                    },
                    _ => None,
                }
            } else {
                None
            },
            gtk_theme: self.gtk_theme.value.staged,
            icon_theme: self.icon_theme.value.staged,
        }
    }

    /// After its pending changes were written: the files hold what was rendered, and each value
    /// that may be is taken for written.
    pub open spec fn commit(self) -> Themes {
        let done = self.rendered();
        Themes {
            gtk_theme: promoted(self.gtk_theme, done.record, ThemeValue::GtkTheme),
            icon_theme: promoted(self.icon_theme, done.record, ThemeValue::IconTheme),
            cursor_theme: promoted(self.cursor_theme, done.record, ThemeValue::CursorTheme),
            cursor_size: promoted(self.cursor_size, done.record, ThemeValue::CursorSize),
            backing: backing::absorbed_all(self.backing, done.writes),
            ..self
        }
    }
}

/// A choice after its pending change was rendered: taken for written if it may be.
pub open spec fn promoted(choice: Choice, record: ThemeRenderRecord, value: ThemeValue) -> Choice {
    if record.promotes(value) {
        choice.with(choice.value.commit())
    } else {
        choice
    }
}

/// The number that a sequence of digits writes in decimal.
pub open spec fn number(digits: Seq<char>) -> int
    decreases digits.len(),
{
    if digits.len() == 0 {
        0
    } else {
        number(digits.drop_last()) * 10 + (digits.last() as int - '0' as int)
    }
}

/// The digits of a number that may have a plus sign.
pub open spec fn unsigned(s: Seq<char>) -> Seq<char> {
    if s.len() > 0 && s[0] == '+' {
        s.skip(1)
    } else {
        s
    }
}

/// Whether `s` is a decimal number.
pub open spec fn is_number(s: Seq<char>) -> bool {
    &&& s.len() > 0
    &&& forall|i: int| 0 <= i < s.len() ==> text::is_digit(#[trigger] s[i])
}

/// The cursor size that a text gives, if it gives one: a positive number of 32 bits.
pub open spec fn size_of(size: Seq<char>) -> Option<int> {
    let digits = unsigned(text::trim(size));
    if is_number(digits) && 0 < number(digits) <= u32::MAX {
        Some(number(digits))
    } else {
        None
    }
}

proof fn lemma_number_grows(digits: Seq<char>, n: int)
    requires
        0 <= n <= digits.len(),
        forall|i: int| 0 <= i < digits.len() ==> text::is_digit(#[trigger] digits[i]),
    ensures
        0 <= number(digits.take(n)) <= number(digits),
    decreases digits.len() - n,
{
    if n == digits.len() {
        assert(digits.take(n) =~= digits);
        lemma_number_nonnegative(digits);
    } else {
        lemma_number_grows(digits, n + 1);
        let next = digits.take(n + 1);
        assert(next.drop_last() =~= digits.take(n));
        assert(next.last() == digits[n]);
        assert(text::is_digit(digits[n]));
        assert forall|i: int| 0 <= i < n implies text::is_digit(#[trigger] digits.take(n)[i]) by {
            assert(digits.take(n)[i] == digits[i]);
        }
        lemma_number_nonnegative(digits.take(n));
        lemma_digit_value(digits[n]);
    }
}

proof fn lemma_number_nonnegative(digits: Seq<char>)
    requires
        forall|i: int| 0 <= i < digits.len() ==> text::is_digit(#[trigger] digits[i]),
    ensures
        0 <= number(digits),
    decreases digits.len(),
{
    if digits.len() > 0 {
        assert forall|i: int| 0 <= i < digits.drop_last().len() implies text::is_digit(
            #[trigger] digits.drop_last()[i],
        ) by {
            assert(digits.drop_last()[i] == digits[i]);
        }
        lemma_number_nonnegative(digits.drop_last());
        assert(text::is_digit(digits[digits.len() - 1]));
        lemma_digit_value(digits.last());
    }
}

proof fn lemma_digit_value(c: char)
    requires
        text::is_digit(c),
    ensures
        0 <= c as int - '0' as int <= 9,
{
}

fn digit_value(c: char) -> (r: u64)
    requires
        text::is_digit(c),
    ensures
        r == c as int - '0' as int,
        r <= 9,
{
    (c as u32 - 0x30) as u64
}

/// Computes [`size_of`].
fn parse_cursor_size(size: &str) -> (r: Option<u32>)
    ensures
        match r {
            Some(n) => size_of(size@) == Some(n as int),
            None => size_of(size@) is None,
        },
{
    let cs = chars(size);
    let body = trimmed(cs.as_slice());
    let len: usize = body.len();
    let digits = if len > 0 && body[0] == '+' {
        slice_subrange(body, 1, len)
    } else {
        body
    };
    assert(digits@ =~= unsigned(text::trim(size@)));
    let ghost all = digits@;
    let n: usize = digits.len();
    let mut i: usize = 0;
    while i < n
        invariant
            i <= n,
            n == digits@.len(),
            all == digits@,
            forall|j: int| 0 <= j < i ==> text::is_digit(#[trigger] all[j]),
            all == unsigned(text::trim(size@)),
        decreases n - i,
    {
        if !decimal_digit(digits[i]) {
            assert(!text::is_digit(all[i as int]));
            return None;
        }
        i += 1;
    }
    if n == 0 {
        return None;
    }
    let mut value: u64 = 0;
    let mut k: usize = 0;
    while k < n
        invariant
            k <= n,
            n == digits@.len(),
            all == digits@,
            is_number(all),
            all == unsigned(text::trim(size@)),
            value == number(all.take(k as int)),
            value <= u32::MAX,
        decreases n - k,
    {
        assert(all.take(k + 1).drop_last() =~= all.take(k as int));
        assert(all.take(k + 1).last() == all[k as int]);
        value = value * 10 + digit_value(digits[k]);
        k += 1;
        if value > 0xffff_ffff {
            proof {
                lemma_number_grows(all, k as int);
            }
            return None;
        }
    }
    assert(all.take(n as int) =~= all);
    if value == 0 {
        None
    } else {
        Some(value as u32)
    }
}

/// Whether `names` are the themes, in order and each once, that `holds` holds of.
pub open spec fn lists(names: Seq<Seq<char>>, holds: spec_fn(Seq<char>) -> bool) -> bool {
    &&& discovery::is_sorted(names)
    &&& forall|name: Seq<char>| #[trigger] names.contains(name) <==> holds(name)
}

/// Whether `options` offers the themes that `holds` holds of, and the current one.
pub open spec fn offers(
    options: Seq<Seq<char>>,
    current: Option<Seq<char>>,
    holds: spec_fn(Seq<char>) -> bool,
) -> bool {
    exists|names: Seq<Seq<char>>|
        #![trigger lists(names, holds)]
        lists(names, holds) && options == staging::offering(names, current)
}

/// The GTK themes that are installed or built in.
pub open spec fn installed_gtk(entries: Seq<Entry>) -> spec_fn(Seq<char>) -> bool {
    |name: Seq<char>|
        discovery::found(entries, discovery::gtk_themes(), name) || discovery::is_builtin(name)
}

/// The icon themes that are installed.
pub open spec fn installed_icons(entries: Seq<Entry>) -> spec_fn(Seq<char>) -> bool {
    |name: Seq<char>| discovery::found(entries, discovery::icon_themes(), name)
}

/// The cursor themes that are installed.
pub open spec fn installed_cursors(entries: Seq<Entry>) -> spec_fn(Seq<char>) -> bool {
    |name: Seq<char>| discovery::found(entries, discovery::cursor_themes(), name)
}

/// The cursor sizes that are always offered.
pub open spec fn common_sizes() -> Seq<Seq<char>> {
    seq!["16"@, "24"@, "32"@, "48"@, "64"@]
}

/// A key of a `settings.ini`, if the file could be read and has it.
pub open spec fn setting(settings: Option<Seq<char>>, key: Seq<char>) -> Option<Seq<char>> {
    match settings {
        Some(text) => ini::value_of(ini::parsed(text), "Settings"@, key),
        None => None,
    }
}

/// A variable of `uwsm/env`, if the file could be read and assigns it.
pub open spec fn variable(uwsm: Option<Seq<char>>, key: Seq<char>) -> Option<Seq<char>> {
    match uwsm {
        Some(text) => env::value_of(env::parsed(text), key),
        None => None,
    }
}

/// The first of two values that is there.
pub open spec fn either(a: Option<Seq<char>>, b: Option<Seq<char>>) -> Option<Seq<char>> {
    if a is Some {
        a
    } else {
        b
    }
}

/// The paths of the configuration files.
pub open spec fn path_list(paths: Paths) -> Seq<Seq<char>> {
    seq![paths.gtk3_settings, paths.gtk4_settings, paths.hyprland_conf, paths.uwsm_env]
}

/// Whether a model is what loading gives: the values as the files hold them, no change pending.
pub open spec fn is_loaded(
    model: Themes,
    gtk: Seq<Entry>,
    icons: Seq<Entry>,
    disk: Seq<(Seq<char>, Seq<u8>)>,
) -> bool {
    let files = model.backing.files;
    let settings = either(
        table::lookup(files, model.paths.gtk3_settings),
        table::lookup(files, model.paths.gtk4_settings),
    );
    let uwsm = table::lookup(files, model.paths.uwsm_env);
    let gtk_theme = setting(settings, "gtk-theme-name"@);
    let icon_theme = setting(settings, "gtk-icon-theme-name"@);
    let cursor_theme = either(
        setting(settings, "gtk-cursor-theme-name"@),
        variable(uwsm, "XCURSOR_THEME"@),
    );
    let cursor_size = either(
        setting(settings, "gtk-cursor-theme-size"@),
        variable(uwsm, "XCURSOR_SIZE"@),
    );
    &&& model.backing == backing::loaded(path_list(model.paths), disk)
    &&& model.gtk_theme.value == (Pending { original: gtk_theme, staged: None })
    &&& model.icon_theme.value == (Pending { original: icon_theme, staged: None })
    &&& model.cursor_theme.value == (Pending { original: cursor_theme, staged: None })
    &&& model.cursor_size.value == (Pending { original: cursor_size, staged: None })
    &&& offers(model.gtk_theme.options, gtk_theme, installed_gtk(gtk))
    &&& offers(model.icon_theme.options, icon_theme, installed_icons(icons))
    &&& offers(model.cursor_theme.options, cursor_theme, installed_cursors(icons))
    &&& model.cursor_size.options == staging::offering(common_sizes(), cursor_size)
    &&& model.gtk_override == match model.app_env_gtk_theme {
        Some(value) => if value.len() > 0 {
            Some(Override::AppEnvironment(value))
        } else {
            active_override(uwsm)
        },
        None => active_override(uwsm),
    }
}

/// The override that `uwsm/env` makes, if it could be read and makes one.
pub open spec fn active_override(uwsm: Option<Seq<char>>) -> Option<Override> {
    match variable(uwsm, "GTK_THEME"@) {
        Some(value) => Some(Override::UwsmEnv(value)),
        None => None,
    }
}

/// What the themes contribute to an Apply.
#[derive(Debug)]
pub struct ThemesApply {
    /// The files to write.
    pub writes: Vec<FileWrite>,
    /// What the live reloads need.
    pub reload_params: ReloadParams,
}

/// The GTK, icon and cursor themes, with their pending changes.
#[derive(Debug)]
pub struct ThemesModel {
    gtk_theme: Selection,
    icon_theme: Selection,
    cursor_theme: Selection,
    cursor_size: Selection,
    backing: BackingSet,
    gtk_override: Option<GtkThemeOverrideSource>,
    live_restyle: bool,
    roots: ThemeRoots,
    paths: ThemesPaths,
    app_env_gtk_theme: Option<String>,
}

impl View for ThemesModel {
    type V = Themes;

    closed spec fn view(&self) -> Themes {
        Themes {
            gtk_theme: self.gtk_theme@,
            icon_theme: self.icon_theme@,
            cursor_theme: self.cursor_theme@,
            cursor_size: self.cursor_size@,
            backing: self.backing@,
            gtk_override: override_view(self.gtk_override),
            live_restyle: self.live_restyle,
            roots: self.roots@,
            paths: self.paths@,
            app_env_gtk_theme: text::optional_view(self.app_env_gtk_theme),
        }
    }
}

fn settings_value(file: &Option<IniFile>, key: &str) -> (r: Option<String>)
    ensures
        text::optional_view(r) == match *file {
            Some(ini_file) => ini::value_of(ini_file@, "Settings"@, key@),
            None => None,
        },
{
    match file {
        Some(ini_file) => text::owned(ini_file.value("Settings", key)),
        None => None,
    }
}

fn env_value(file: &Option<EnvFile>, key: &str) -> (r: Option<String>)
    ensures
        text::optional_view(r) == match *file {
            Some(env_file) => env::value_of(env_file@, key@),
            None => None,
        },
{
    match file {
        Some(env_file) => text::owned(env_file.value(key)),
        None => None,
    }
}

fn or_else(a: Option<String>, b: Option<String>) -> (r: Option<String>)
    ensures
        text::optional_view(r) == either(text::optional_view(a), text::optional_view(b)),
{
    match a {
        Some(s) => Some(s),
        None => b,
    }
}

fn curated_sizes() -> (r: Vec<String>)
    ensures
        text::views(r@) == common_sizes(),
{
    let mut r: Vec<String> = Vec::new();
    r.push("16".to_owned());
    r.push("24".to_owned());
    r.push("32".to_owned());
    r.push("48".to_owned());
    r.push("64".to_owned());
    assert(text::views(r@) =~= common_sizes());
    r
}

/// A file being rendered into a write.
struct Draft {
    changed_keys: Vec<String>,
    record: ThemeRenderRecord,
}

impl Draft {
    spec fn keys(self) -> Seq<Seq<char>> {
        text::views(self.changed_keys@)
    }

    fn new() -> (r: Self)
        ensures
            r.keys() == Seq::<Seq<char>>::empty(),
            r.record == ThemeRenderRecord::nothing(),
    {
        let r = Draft { changed_keys: Vec::new(), record: ThemeRenderRecord::new() };
        assert(r.keys() =~= Seq::<Seq<char>>::empty());
        r
    }

    fn wrote(&mut self, value_id: ThemeValue, label: &str)
        ensures
            final(self).keys() == old(self).keys().push(label@),
            final(self).record == old(self).record.with_written(value_id),
    {
        let ghost before = self.keys();
        self.changed_keys.push(label.to_owned());
        assert(self.keys() =~= before.push(label@));
        self.record.written.flag(value_id);
    }

    fn refused(&mut self, value_id: ThemeValue)
        ensures
            final(self).keys() == old(self).keys(),
            final(self).record == old(self).record.with_diverged(value_id),
    {
        self.record.diverged.flag(value_id);
    }

    /// Adds the file to the writes, if anything changed in it, and its record to the record.
    fn finish(
        self,
        path: &str,
        contents: String,
        backing: BackingFile,
        writes: &mut Vec<FileWrite>,
        record: &mut ThemeRenderRecord,
    )
        ensures
            apply::write_models(final(writes)@) == apply::write_models(old(writes)@) + (
            if self.keys().len() == 0 {
                Seq::<apply::Write>::empty()
            } else {
                seq![
                    apply::Write {
                        path: path@,
                        contents: vstd::utf8::encode_utf8(contents@),
                        changed_keys: self.keys(),
                        backing,
                        validation: WriteValidation::NotNeeded,
                    },
                ]
            }),
            *final(record) == old(record).or(self.record),
    {
        let ghost before = apply::write_models(writes@);
        record.merge(self.record);
        assert(self.keys().len() == self.changed_keys@.len());
        if self.changed_keys.len() > 0 {
            let write = FileWrite {
                path: path.to_owned(),
                contents: encode(contents.as_str()),
                changed_keys: self.changed_keys,
                backing,
                validation: WriteValidation::NotNeeded,
            };
            writes.push(write);
            assert(apply::write_models(writes@) =~= before + seq![write@]);
        } else {
            assert(apply::write_models(writes@) =~= before + Seq::<apply::Write>::empty());
        }
    }
}

impl ThemesModel {
    /// Reads the themes from the files on disk and the listings of the directories that hold
    /// themes.
    pub fn load(
        roots: &ThemeRoots,
        paths: ThemesPaths,
        settings_portal_available: bool,
        app_env_gtk_theme: Option<String>,
        listing: &ThemeListing,
        disk: &Files,
    ) -> (r: ThemesModel)
        ensures
            is_loaded(
                r@,
                discovery::entry_models(listing.gtk@),
                discovery::entry_models(listing.icons@),
                disk@,
            ),
            r@.live_restyle == settings_portal_available,
            r@.roots == roots@,
            r@.paths == paths@,
            r@.app_env_gtk_theme == text::optional_view(app_env_gtk_theme),
    {
        let all_paths = [
            paths.gtk3_settings.as_str(),
            paths.gtk4_settings.as_str(),
            paths.hyprland_conf.as_str(),
            paths.uwsm_env.as_str(),
        ];
        let backing_set = BackingSet::load(&all_paths, disk);
        assert(backing::str_views(all_paths@) =~= path_list(paths@));
        let settings_text = match backing_set.get(paths.gtk3_settings.as_str()) {
            Some(file) => Some(file),
            None => backing_set.get(paths.gtk4_settings.as_str()),
        };
        let settings_ini = match settings_text {
            Some(file) => Some(IniFile::parse(file.text()).0),
            None => None,
        };
        let uwsm_file = match backing_set.get(paths.uwsm_env.as_str()) {
            Some(file) => Some(EnvFile::parse(file.text()).0),
            None => None,
        };
        let current_gtk = settings_value(&settings_ini, "gtk-theme-name");
        let current_icon = settings_value(&settings_ini, "gtk-icon-theme-name");
        let current_cursor = or_else(
            settings_value(&settings_ini, "gtk-cursor-theme-name"),
            env_value(&uwsm_file, "XCURSOR_THEME"),
        );
        let current_size = or_else(
            settings_value(&settings_ini, "gtk-cursor-theme-size"),
            env_value(&uwsm_file, "XCURSOR_SIZE"),
        );
        let gtk_names = discover_gtk_themes(&listing.gtk);
        let (icon_names, cursor_names) = discover_icon_and_cursor_themes(&listing.icons);
        let uwsm_found = match &uwsm_file {
            Some(file) => Some(file.gtk_theme_override()),
            None => None,
        };
        let gtk_override = resolve_gtk_override(
            text::copy_option(&app_env_gtk_theme),
            uwsm_found.as_ref(),
        );
        let ghost gtk_entries = discovery::entry_models(listing.gtk@);
        let ghost icon_entries = discovery::entry_models(listing.icons@);
        assert(lists(text::views(gtk_names@), installed_gtk(gtk_entries)));
        assert(lists(text::views(icon_names@), installed_icons(icon_entries)));
        assert(lists(text::views(cursor_names@), installed_cursors(icon_entries)));
        ThemesModel {
            gtk_theme: Selection::new(gtk_names, current_gtk),
            icon_theme: Selection::new(icon_names, current_icon),
            cursor_theme: Selection::new(cursor_names, current_cursor),
            cursor_size: Selection::new(curated_sizes(), current_size),
            backing: backing_set,
            gtk_override,
            live_restyle: settings_portal_available,
            roots: roots.clone(),
            paths,
            app_env_gtk_theme,
        }
    }

    /// The directories that hold themes.
    pub fn roots(&self) -> (r: &ThemeRoots)
        ensures
            r@ == self@.roots,
    {
        &self.roots
    }

    /// Where the configuration files are.
    pub fn paths(&self) -> (r: &ThemesPaths)
        ensures
            r@ == self@.paths,
    {
        &self.paths
    }

    /// Whether the themes can be changed: at least one `settings.ini` could be read.
    pub fn themes_editable(&self) -> (r: bool)
        ensures
            r == (self@.text_at(self@.paths.gtk3_settings) is Some || self@.text_at(
                self@.paths.gtk4_settings,
            ) is Some),
    {
        self.backing.get(self.paths.gtk3_settings.as_str()).is_some() || self.backing.get(
            self.paths.gtk4_settings.as_str(),
        ).is_some()
    }

    /// The GTK theme.
    pub fn gtk_theme(&self) -> (r: &Selection)
        ensures
            r@ == self@.gtk_theme,
    {
        &self.gtk_theme
    }

    /// The icon theme.
    pub fn icon_theme(&self) -> (r: &Selection)
        ensures
            r@ == self@.icon_theme,
    {
        &self.icon_theme
    }

    /// The cursor theme.
    pub fn cursor_theme(&self) -> (r: &Selection)
        ensures
            r@ == self@.cursor_theme,
    {
        &self.cursor_theme
    }

    /// The cursor size.
    pub fn cursor_size(&self) -> (r: &Selection)
        ensures
            r@ == self@.cursor_size,
    {
        &self.cursor_size
    }

    /// The GTK themes to choose from.
    pub fn gtk_themes(&self) -> (r: &[String])
        ensures
            text::views(r@) == self@.gtk_theme.options,
    {
        self.gtk_theme.options()
    }

    /// The icon themes to choose from.
    pub fn icon_themes(&self) -> (r: &[String])
        ensures
            text::views(r@) == self@.icon_theme.options,
    {
        self.icon_theme.options()
    }

    /// The cursor themes to choose from.
    pub fn cursor_themes(&self) -> (r: &[String])
        ensures
            text::views(r@) == self@.cursor_theme.options,
    {
        self.cursor_theme.options()
    }

    /// The cursor sizes to choose from.
    pub fn cursor_sizes(&self) -> (r: &[String])
        ensures
            text::views(r@) == self@.cursor_size.options,
    {
        self.cursor_size.options()
    }

    /// Where the GTK theme first stands among those to choose from, if it does.
    pub fn selected_gtk_index(&self) -> (r: Option<usize>)
        ensures
            match r {
                Some(i) => self@.gtk_theme.is_selected(i as int),
                None => !self@.gtk_theme.is_offered(),
            },
    {
        self.gtk_theme.selected_index()
    }

    /// Where the icon theme first stands among those to choose from, if it does.
    pub fn selected_icon_index(&self) -> (r: Option<usize>)
        ensures
            match r {
                Some(i) => self@.icon_theme.is_selected(i as int),
                None => !self@.icon_theme.is_offered(),
            },
    {
        self.icon_theme.selected_index()
    }

    /// Where the cursor theme first stands among those to choose from, if it does.
    pub fn selected_cursor_index(&self) -> (r: Option<usize>)
        ensures
            match r {
                Some(i) => self@.cursor_theme.is_selected(i as int),
                None => !self@.cursor_theme.is_offered(),
            },
    {
        self.cursor_theme.selected_index()
    }

    /// Where the cursor size first stands among those to choose from, if it does.
    pub fn selected_cursor_size_index(&self) -> (r: Option<usize>)
        ensures
            match r {
                Some(i) => self@.cursor_size.is_selected(i as int),
                None => !self@.cursor_size.is_offered(),
            },
    {
        self.cursor_size.selected_index()
    }

    /// What forces the GTK theme, if anything does.
    pub fn gtk_override(&self) -> (r: Option<&GtkThemeOverrideSource>)
        ensures
            match r {
                Some(source) => self@.gtk_override == Some(source@),
                None => self@.gtk_override is None,
            },
    {
        self.gtk_override.as_ref()
    }

    /// Whether the GTK theme cannot be changed because something forces it.
    pub fn gtk_dropdown_disabled(&self) -> (r: bool)
        ensures
            r == (self@.gtk_override is Some),
    {
        self.gtk_override.is_some()
    }

    /// Whether a running program takes a new GTK theme at once.
    pub fn live_restyle(&self) -> (r: bool)
        ensures
            r == self@.live_restyle,
    {
        self.live_restyle
    }

    /// Makes a change of the GTK theme pending, unless something forces the theme.
    pub fn stage_gtk_theme(&mut self, name: &str)
        ensures
            final(self)@ == (Themes {
                gtk_theme: if old(self)@.gtk_override is Some {
                    old(self)@.gtk_theme
                } else {
                    old(self)@.gtk_theme.with(old(self)@.gtk_theme.value.stage(name@))
                },
                ..old(self)@
            }),
    {
        if self.gtk_dropdown_disabled() {
            return ;
        }
        self.gtk_theme.stage(name);
    }

    /// Makes a change of the icon theme pending.
    pub fn stage_icon_theme(&mut self, name: &str)
        ensures
            final(self)@ == (Themes {
                icon_theme: old(self)@.icon_theme.with(old(self)@.icon_theme.value.stage(name@)),
                ..old(self)@
            }),
    {
        self.icon_theme.stage(name);
    }

    /// Makes a change of the cursor theme pending.
    pub fn stage_cursor_theme(&mut self, name: &str)
        ensures
            final(self)@ == (Themes {
                cursor_theme: old(self)@.cursor_theme.with(
                    old(self)@.cursor_theme.value.stage(name@),
                ),
                ..old(self)@
            }),
    {
        self.cursor_theme.stage(name);
    }

    /// Makes a change of the cursor size pending.
    pub fn stage_cursor_size(&mut self, size: &str)
        ensures
            final(self)@ == (Themes {
                cursor_size: old(self)@.cursor_size.with(old(self)@.cursor_size.value.stage(size@)),
                ..old(self)@
            }),
    {
        self.cursor_size.stage(size);
    }

    /// Whether a change is pending.
    pub fn is_dirty(&self) -> (r: bool)
        ensures
            r == self@.is_dirty(),
    {
        self.gtk_theme.is_changed() || self.icon_theme.is_changed()
            || self.cursor_theme.is_changed() || self.cursor_size.is_changed()
    }

    /// Forgets the pending changes.
    pub fn reset(&mut self)
        ensures
            final(self)@ == old(self)@.reset(),
    {
        self.gtk_theme.reset();
        self.icon_theme.reset();
        self.cursor_theme.reset();
        self.cursor_size.reset();
    }

    /// Whether any of the configuration files changed on disk.
    pub fn check_conflict(&self, disk: &Files) -> (r: bool)
        ensures
            r == !freshness::unchanged(self@.backing.baselines, disk@),
    {
        self.backing.check_conflict(disk)
    }

    /// Reads the themes again.
    pub fn reload(&self, listing: &ThemeListing, disk: &Files) -> (r: ThemesModel)
        ensures
            is_loaded(
                r@,
                discovery::entry_models(listing.gtk@),
                discovery::entry_models(listing.icons@),
                disk@,
            ),
            r@.live_restyle == self@.live_restyle,
            r@.roots == self@.roots,
            r@.paths == self@.paths,
            r@.app_env_gtk_theme == self@.app_env_gtk_theme,
    {
        ThemesModel::load(
            &self.roots,
            self.paths.clone(),
            self.live_restyle,
            text::copy_option(&self.app_env_gtk_theme),
            listing,
            disk,
        )
    }

    /// What the pending changes contribute to an Apply: nothing where there are none, or where
    /// no file can take one.
    pub fn apply_contribution(&self) -> (r: Option<ThemesApply>)
        ensures
            match r {
                Some(contribution) => {
                    &&& self@.is_dirty()
                    &&& self@.rendered().writes.len() > 0
                    &&& apply::write_models(contribution.writes@) == self@.rendered().writes
                    &&& contribution.reload_params@ == self@.reload()
                },
                None => !self@.is_dirty() || self@.rendered().writes.len() == 0,
            },
    {
        if !self.is_dirty() {
            return None;
        }
        let (writes, _) = self.render_writes();
        assert(apply::write_models(writes@).len() == writes@.len());
        if writes.len() == 0 {
            return None;
        }
        Some(ThemesApply { writes, reload_params: self.reload_params() })
    }

    /// Takes the pending changes for written, each that a file took and none refused.
    pub fn commit(&mut self)
        ensures
            final(self)@ == old(self)@.commit(),
    {
        let (writes, record) = self.render_writes();
        self.backing.absorb_writes(&writes);
        let promotable = record.promotable();
        assert(promotable.of(ThemeValue::GtkTheme) == record.promotes(ThemeValue::GtkTheme));
        assert(promotable.of(ThemeValue::IconTheme) == record.promotes(ThemeValue::IconTheme));
        assert(promotable.of(ThemeValue::CursorTheme) == record.promotes(ThemeValue::CursorTheme));
        assert(promotable.of(ThemeValue::CursorSize) == record.promotes(ThemeValue::CursorSize));
        if promotable.gtk_theme {
            self.gtk_theme.commit();
        }
        if promotable.icon_theme {
            self.icon_theme.commit();
        }
        if promotable.cursor_theme {
            self.cursor_theme.commit();
        }
        if promotable.cursor_size {
            self.cursor_size.commit();
        }
    }

    fn render_writes(&self) -> (r: (Vec<FileWrite>, ThemeRenderRecord))
        ensures
            apply::write_models(r.0@) == self@.rendered().writes,
            r.1 == self@.rendered().record,
    {
        let cursor_changed = self.cursor_theme.is_changed() || self.cursor_size.is_changed();
        let any_changed = self.gtk_theme.is_changed() || self.icon_theme.is_changed()
            || cursor_changed;
        let mut writes: Vec<FileWrite> = Vec::new();
        let mut record = ThemeRenderRecord::new();
        assert(apply::write_models(writes@) =~= Seq::<apply::Write>::empty());
        if any_changed {
            if let Some(file) = self.backing.get(self.paths.gtk3_settings.as_str()) {
                self.render_settings_ini(file, &mut writes, &mut record);
            }
            if let Some(file) = self.backing.get(self.paths.gtk4_settings.as_str()) {
                self.render_settings_ini(file, &mut writes, &mut record);
            }
        }
        if cursor_changed {
            if let Some(file) = self.backing.get(self.paths.hyprland_conf.as_str()) {
                self.render_hyprland_env(file, &mut writes, &mut record);
            }
            if let Some(file) = self.backing.get(self.paths.uwsm_env.as_str()) {
                self.render_uwsm_env(file, &mut writes, &mut record);
            }
        }
        (writes, record)
    }

    fn render_settings_ini(
        &self,
        file: &BackingText,
        writes: &mut Vec<FileWrite>,
        record: &mut ThemeRenderRecord,
    )
        ensures
            ({
                let state = self@.rendered_ini(file@.1);
                &&& apply::write_models(final(writes)@) == apply::write_models(old(writes)@)
                    + write_of(state, file@.0, BackingFile::GtkSettings)
                &&& *final(record) == old(record).or(state.record)
            }),
    {
        let (mut parsed, _) = IniFile::parse(file.text());
        let mut draft = Draft::new();
        set_ini(
            &mut parsed,
            &mut draft,
            ThemeValue::GtkTheme,
            "gtk-theme-name",
            &self.gtk_theme,
            "GTK theme",
        );
        set_ini(
            &mut parsed,
            &mut draft,
            ThemeValue::IconTheme,
            "gtk-icon-theme-name",
            &self.icon_theme,
            "icon theme",
        );
        set_ini(
            &mut parsed,
            &mut draft,
            ThemeValue::CursorTheme,
            "gtk-cursor-theme-name",
            &self.cursor_theme,
            "cursor theme",
        );
        set_ini(
            &mut parsed,
            &mut draft,
            ThemeValue::CursorSize,
            "gtk-cursor-theme-size",
            &self.cursor_size,
            "cursor size",
        );
        draft.finish(file.path(), parsed.emit(), BackingFile::GtkSettings, writes, record);
    }

    fn render_hyprland_env(
        &self,
        file: &BackingText,
        writes: &mut Vec<FileWrite>,
        record: &mut ThemeRenderRecord,
    )
        ensures
            ({
                let state = self@.rendered_hyprland(file@.1);
                &&& apply::write_models(final(writes)@) == apply::write_models(old(writes)@)
                    + write_of(state, file@.0, BackingFile::HyprlandConf)
                &&& *final(record) == old(record).or(state.record)
            }),
    {
        let (mut parsed, _) = HyprlangFile::parse(file.text());
        let mut draft = Draft::new();
        set_hyprland(
            &mut parsed,
            &mut draft,
            ThemeValue::CursorTheme,
            "XCURSOR_THEME",
            &self.cursor_theme,
            "cursor theme (hyprland.conf env)",
        );
        set_hyprland(
            &mut parsed,
            &mut draft,
            ThemeValue::CursorSize,
            "XCURSOR_SIZE",
            &self.cursor_size,
            "cursor size (hyprland.conf env)",
        );
        draft.finish(file.path(), parsed.emit(), BackingFile::HyprlandConf, writes, record);
    }

    fn render_uwsm_env(
        &self,
        file: &BackingText,
        writes: &mut Vec<FileWrite>,
        record: &mut ThemeRenderRecord,
    )
        ensures
            ({
                let state = self@.rendered_uwsm(file@.1);
                &&& apply::write_models(final(writes)@) == apply::write_models(old(writes)@)
                    + write_of(state, file@.0, BackingFile::UwsmEnv)
                &&& *final(record) == old(record).or(state.record)
            }),
    {
        let (mut parsed, _) = EnvFile::parse(file.text());
        let mut draft = Draft::new();
        set_uwsm(
            &mut parsed,
            &mut draft,
            ThemeValue::CursorTheme,
            "XCURSOR_THEME",
            &self.cursor_theme,
            "cursor theme (uwsm/env)",
        );
        set_uwsm(
            &mut parsed,
            &mut draft,
            ThemeValue::CursorSize,
            "XCURSOR_SIZE",
            &self.cursor_size,
            "cursor size (uwsm/env)",
        );
        draft.finish(file.path(), parsed.emit(), BackingFile::UwsmEnv, writes, record);
    }

    fn reload_params(&self) -> (r: ReloadParams)
        ensures
            r@ == self@.reload(),
    {
        let cursor = if self.cursor_theme.is_changed() || self.cursor_size.is_changed() {
            match (self.cursor_theme.effective(), self.cursor_size.effective()) {
                (Some(theme), Some(size)) => match parse_cursor_size(size) {
                    Some(n) => Some(CursorValue { theme: theme.to_owned(), size: n }),
                    None => None,
                },
                _ => None,
            }
        } else {
            None
        };
        let gtk_theme = if self.gtk_theme.is_changed() {
            text::owned(self.gtk_theme.effective())
        } else {
            None
        };
        let icon_theme = if self.icon_theme.is_changed() {
            text::owned(self.icon_theme.effective())
        } else {
            None
        };
        ReloadParams { wallpaper: None, fit: None, cursor, gtk_theme, icon_theme }
    }
}

fn set_ini(
    file: &mut IniFile,
    draft: &mut Draft,
    value_id: ThemeValue,
    key: &str,
    choice: &Selection,
    label: &str,
)
    ensures
        ({
            let before = Rendering {
                lines: old(file)@,
                changed_keys: old(draft).keys(),
                record: old(draft).record,
            };
            let after = Rendering {
                lines: final(file)@,
                changed_keys: final(draft).keys(),
                record: final(draft).record,
            };
            after == ini_step(before, value_id, key@, choice@.value, label@)
        }),
{
    if !choice.is_changed() {
        return ;
    }
    if let Some(value) = choice.effective() {
        match file.set_value("Settings", key, value) {
            Ok(_) => {
                draft.wrote(value_id, label);
            },
            Err(_) => {
                draft.refused(value_id);
            },
        }
    }
}

fn set_hyprland(
    file: &mut HyprlangFile,
    draft: &mut Draft,
    value_id: ThemeValue,
    field: &str,
    choice: &Selection,
    label: &str,
)
    ensures
        ({
            let before = Rendering {
                lines: old(file)@,
                changed_keys: old(draft).keys(),
                record: old(draft).record,
            };
            let after = Rendering {
                lines: final(file)@,
                changed_keys: final(draft).keys(),
                record: final(draft).record,
            };
            after == hyprland_step(before, value_id, field@, choice@.value, label@)
        }),
{
    if !choice.is_changed() {
        return ;
    }
    if !file.has_repeatable("env", field) {
        return ;
    }
    if let Some(value) = choice.effective() {
        match file.set_repeatable_field_value("env", field, value) {
            Ok(_) => {
                draft.wrote(value_id, label);
            },
            Err(_) => {
                draft.refused(value_id);
            },
        }
    }
}

fn set_uwsm(
    file: &mut EnvFile,
    draft: &mut Draft,
    value_id: ThemeValue,
    key: &str,
    choice: &Selection,
    label: &str,
)
    ensures
        ({
            let before = Rendering {
                lines: old(file)@,
                changed_keys: old(draft).keys(),
                record: old(draft).record,
            };
            let after = Rendering {
                lines: final(file)@,
                changed_keys: final(draft).keys(),
                record: final(draft).record,
            };
            after == uwsm_step(before, value_id, key@, choice@.value, label@)
        }),
{
    if !choice.is_changed() {
        return ;
    }
    if let Some(value) = choice.effective() {
        match file.set_value(key, value) {
            Ok(_) => {
                draft.wrote(value_id, label);
            },
            Err(_) => {
                draft.refused(value_id);
            },
        }
    }
}

} // verus!
