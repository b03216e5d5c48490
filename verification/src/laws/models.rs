//! The laws of how values, lists and files are seen by the contracts: as what they are, item by
//! item.

use crate::apply::{FileWrite, ReloadParams};
use crate::lines;
use crate::lines::LineModel;
use crate::model;
use crate::model::{Content, SettingId, SettingValue};
use crate::parsers::hyprlang;
use crate::parsers::monitors;
use crate::parsers::palette;
use crate::store;
use crate::store::{FileValues, Reread};
use crate::text;
use crate::theme::backing;
use crate::theme::discovery;
use crate::theme::discovery::DirEntry;
use crate::theme::palettes;
use crate::theme::palettes::ColorsEntry;
use crate::theme::themes::{GtkThemeOverrideSource, Override, ThemesPaths};
use crate::theme::wallpaper::WallpaperPaths;
use vstd::prelude::*;

verus! {

/// A value is seen as what it is: an integer as its number, a text as its characters, a
/// floating-point number as its bits. So different values are seen as different.
pub proof fn values_are_seen_as_they_are(p: bool, n: i64, bits: u64, s: String)
    ensures
        SettingValue::Bool(p)@ == Content::Bool(p),
        SettingValue::Integer(n)@ == Content::Integer(n as int),
        (SettingValue::Float { bits })@ == Content::Float(bits),
        SettingValue::Text(s)@ == Content::Text(s@),
{
}

/// A list of texts is seen as the list of what its texts hold.
pub proof fn texts_are_seen_one_by_one(
    strings: Seq<String>,
    slices: Seq<&str>,
    names: Seq<&'static str>,
    i: int,
)
    ensures
        text::views(strings).len() == strings.len(),
        0 <= i < strings.len() ==> text::views(strings)[i] == strings[i]@,
        monitors::str_views(slices).len() == slices.len(),
        0 <= i < slices.len() ==> monitors::str_views(slices)[i] == slices[i]@,
        backing::str_views(slices).len() == slices.len(),
        0 <= i < slices.len() ==> backing::str_views(slices)[i] == slices[i]@,
        palette::static_views(names).len() == names.len(),
        0 <= i < names.len() ==> palette::static_views(names)[i] == names[i]@,
{
}

/// A text that may be missing is seen as what it holds, or as missing.
pub proof fn optional_text_is_seen(s: String)
    ensures
        text::optional_view(Some(s)) == Some(s@),
        text::optional_view(None) is None,
{
}

/// Values by their settings are seen one by one, each under its setting.
pub proof fn values_are_seen_one_by_one(values: Seq<(SettingId, SettingValue)>, i: int)
    requires
        0 <= i < values.len(),
    ensures
        model::value_models(values).len() == values.len(),
        model::value_models(values)[i] == (values[i].0, values[i].1@),
{
}

/// What was read of a file is seen as its bytes and its values, and each file that was read again
/// under its path.
pub proof fn readings_are_seen_as_they_are(reading: FileValues, again: Seq<Reread>, i: int)
    ensures
        reading@.bytes == reading.bytes@,
        reading@.values == model::value_models(reading.values@),
        store::rereads(again).len() == again.len(),
        0 <= i < again.len() ==> store::rereads(again)[i] == (again[i].path@, again[i].values@),
{
}

/// A write and the values of the live reloads are seen as what they are.
pub proof fn writes_are_seen_as_they_are(write: FileWrite, reload: ReloadParams)
    ensures
        write@.path == write.path@,
        write@.contents == write.contents@,
        write@.changed_keys == text::views(write.changed_keys@),
        write@.backing == write.backing,
        write@.validation == write.validation,
        reload@.wallpaper == text::optional_view(reload.wallpaper),
        reload@.fit == text::optional_view(reload.fit),
        reload@.gtk_theme == text::optional_view(reload.gtk_theme),
        reload@.icon_theme == text::optional_view(reload.icon_theme),
        reload.cursor is None <==> reload@.cursor is None,
        reload.cursor matches Some(cursor) ==> reload@.cursor == Some(
            (cursor.theme@, cursor.size as int),
        ),
{
}

/// The entries of directories are seen one by one, as what they are.
pub proof fn entries_are_seen_as_they_are(
    entries: Seq<DirEntry>,
    schemes: Seq<ColorsEntry>,
    i: int,
)
    ensures
        discovery::entry_models(entries).len() == entries.len(),
        0 <= i < entries.len() ==> {
            let entry = discovery::entry_models(entries)[i];
            &&& entry.name == entries[i].name@
            &&& entry.is_dir == entries[i].is_dir
            &&& entry.has_index == entries[i].has_index
            &&& entry.subdirs == text::views(entries[i].subdirs@)
        },
        palettes::candidates(schemes).len() == schemes.len(),
        0 <= i < schemes.len() ==> {
            let entry = palettes::candidates(schemes)[i];
            &&& entry.name == schemes[i].name@
            &&& entry.path == schemes[i].path@
            &&& entry.is_file == schemes[i].is_file
        },
{
}

/// Colors of bytes are seen as the same numbers.
pub proof fn colors_are_seen_as_numbers(colors: Seq<(u8, u8, u8)>, i: int)
    requires
        0 <= i < colors.len(),
    ensures
        palettes::rgb_models(colors).len() == colors.len(),
        palettes::rgb_models(colors)[i] == (
            colors[i].0 as int,
            colors[i].1 as int,
            colors[i].2 as int,
        ),
{
}

/// Paths are seen as what they are.
pub proof fn paths_are_seen_as_they_are(themes: ThemesPaths, images: WallpaperPaths)
    ensures
        themes@.gtk3_settings == themes.gtk3_settings@,
        themes@.gtk4_settings == themes.gtk4_settings@,
        themes@.hyprland_conf == themes.hyprland_conf@,
        themes@.uwsm_env == themes.uwsm_env@,
        images@.hyprpaper_conf == images.hyprpaper_conf@,
        images@.hyprlock_conf == images.hyprlock_conf@,
{
}

/// What forces the theme is seen with its value, and told apart by where it comes from.
pub proof fn overrides_are_seen_as_they_are(value: String)
    ensures
        GtkThemeOverrideSource::AppEnvironment(value)@ == Override::AppEnvironment(value@),
        GtkThemeOverrideSource::UwsmEnv(value)@ == Override::UwsmEnv(value@),
{
}

/// The steps to the first sections of given names are those names, in order, each the first of its
/// name.
pub proof fn first_steps_are_those_of_the_names(names: Seq<&str>, i: int)
    requires
        0 <= i < names.len(),
    ensures
        hyprlang::first_steps(names).len() == names.len(),
        hyprlang::first_steps(names)[i].name == names[i]@,
        hyprlang::first_steps(names)[i].occurrence == 0,
{
}

/// The text of a file is that of its lines, one behind the other.
pub proof fn file_is_the_text_of_its_lines<M>(file: Seq<LineModel<M>>, line: LineModel<M>)
    ensures
        lines::emitted(Seq::<LineModel<M>>::empty()) == Seq::<char>::empty(),
        lines::emitted(file.push(line)) == lines::emitted(file) + line.raw,
{
    lines::lemma_emitted_push(file, line);
    assert(lines::raws(Seq::<LineModel<M>>::empty()) =~= Seq::<Seq<char>>::empty());
}

} // verus!
