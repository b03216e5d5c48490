//! The laws of which image is shown where, and of what an Apply writes of them.

use crate::apply::{BackingFile, Write, WriteValidation};
use crate::disk;
use crate::laws::hyprlang as hyprlang_laws;
use crate::laws::staging as staging_laws;
use crate::model::{Content, SettingId};
use crate::parsers::hyprlang;
use crate::parsers::hyprlang::{Address, Step};
use crate::theme::wallpaper;
use crate::theme::wallpaper::{Paths, Wallpaper};
use vstd::prelude::*;

verus! {

/// The lock screen has an image of its own exactly where its file names one that is not the
/// wallpaper.
pub proof fn own_image_is_another_than_the_wallpaper(
    wallpaper: Option<Seq<char>>,
    image: Seq<char>,
)
    ensures
        !wallpaper::has_override(wallpaper, None),
        !wallpaper::has_override(Some(image), Some(image)),
        wallpaper != Some(image) ==> wallpaper::has_override(wallpaper, Some(image)),
{
}

/// The lock screen follows the wallpaper, pending changes included, unless it has an image of its
/// own; then it follows that one, whatever the wallpaper is.
pub proof fn lock_screen_follows_the_wallpaper(model: Wallpaper, image: Seq<char>)
    ensures
        ({
            let other = Wallpaper { wallpaper: model.wallpaper.stage(image), ..model };
            &&& !model.override_on ==> other.effective_lock() == Some(image)
            &&& model.override_on ==> other.effective_lock() == model.effective_lock()
        }),
        ({
            let other = Wallpaper { lock: model.lock.stage(image), ..model };
            &&& model.override_on ==> other.effective_lock() == Some(image)
            &&& !model.override_on ==> other.effective_lock() == model.effective_lock()
        }),
{
}

/// What can be changed: the wallpaper where `hyprpaper.conf` could be read, the image behind the
/// lock screen where `hyprlock.conf` could be read and there is a lock screen. A change is pending
/// where the wallpaper or the fit is to change, or where the lock screen is to have another image
/// than its file names.
pub proof fn changes_are_those_that_can_be_made(model: Wallpaper)
    ensures
        model.wallpaper_editable() <==> model.hyprpaper is Some,
        model.lock_editable() <==> model.hyprlock is Some && model.lock_available,
        model.is_dirty() <==> (model.hyprpaper is Some && (model.wallpaper.staged is Some
            || model.fit.value.staged is Some)) || (model.hyprlock is Some && model.lock_available
            && model.effective_lock() is Some && model.effective_lock() != model.lock.original),
{
}

/// The wallpaper is written exactly where a change of it is pending, `hyprpaper.conf` could be read
/// and has the section of the wallpaper, and the path holds neither a line break nor `#`; the fit
/// likewise, in the file with the wallpaper in it.
pub proof fn plain_wallpaper_is_written(model: Wallpaper)
    ensures
        model.rendered().written.wallpaper <==> (model.hyprpaper matches Some(file)
            && hyprlang_laws::has_sections(
            hyprlang::parsed(file.1),
            wallpaper::wallpaper_key().sections,
        )) && (model.wallpaper.staged matches Some(v) && hyprlang_laws::is_plain(v)),
        model.rendered().written.fit <==> (model.hyprpaper matches Some(file)
            && hyprlang_laws::has_sections(
            model.with_wallpaper(file.1),
            wallpaper::fit_key().sections,
        )) && (model.fit.value.staged matches Some(v) && hyprlang_laws::is_plain(v)),
        model.wallpaper.staged is None ==> (model.hyprpaper matches Some(file)
            ==> model.with_wallpaper(file.1) == hyprlang::parsed(file.1)),
{
    if let Some(file) = model.hyprpaper {
        let lines = hyprlang::parsed(file.1);
        hyprlang_laws::section_is_missing_where_a_step_is(lines, wallpaper::wallpaper_key());
        hyprlang_laws::section_is_missing_where_a_step_is(
            model.with_wallpaper(file.1),
            wallpaper::fit_key(),
        );
        if let Some(v) = model.wallpaper.staged {
            hyprlang_laws::lemma_plain(v);
        }
        if let Some(v) = model.fit.value.staged {
            hyprlang_laws::lemma_plain(v);
        }
    }
}

/// The image behind the lock screen is written exactly where it is to be another than
/// `hyprlock.conf` names, that file could be read and has the section of the background, there is a
/// lock screen, and the path holds neither a line break nor `#`.
pub proof fn plain_lock_image_is_written(model: Wallpaper)
    ensures
        model.rendered().written.lock <==> model.lock_available && (model.hyprlock matches Some(file)
            && hyprlang_laws::has_sections(
            hyprlang::parsed(file.1),
            wallpaper::lock_key().sections,
        )) && (model.effective_lock() matches Some(image) && hyprlang_laws::is_plain(image)
            && model.lock.original != Some(image)),
{
    if let Some(file) = model.hyprlock {
        hyprlang_laws::section_is_missing_where_a_step_is(
            hyprlang::parsed(file.1),
            wallpaper::lock_key(),
        );
        if let Some(image) = model.effective_lock() {
            hyprlang_laws::lemma_plain(image);
        }
    }
}

/// Whether a write is the one of `hyprpaper.conf`: it names the values that are written, in their
/// order, and its path is validated where it is new.
pub open spec fn is_hyprpaper_write(model: Wallpaper, write: Write) -> bool {
    &&& write.backing == BackingFile::HyprpaperConf
    &&& model.hyprpaper matches Some(file) && write.path == file.0
    &&& write.changed_keys == if model.rendered().written.wallpaper {
        if model.rendered().written.fit {
            seq!["wallpaper path"@, "fit mode"@]
        } else {
            seq!["wallpaper path"@]
        }
    } else {
        seq!["fit mode"@]
    }
    &&& write.validation == WriteValidation::InPlan <==> model.rendered().written.wallpaper
    &&& write.validation == WriteValidation::NotNeeded <==> !model.rendered().written.wallpaper
}

/// Whether a write is the one of `hyprlock.conf`.
pub open spec fn is_hyprlock_write(model: Wallpaper, write: Write) -> bool {
    &&& write.backing == BackingFile::HyprlockConf
    &&& model.hyprlock matches Some(file) && write.path == file.0
    &&& write.changed_keys == seq!["lock background path"@]
    &&& write.validation == WriteValidation::InPlan
}

/// What is written is `hyprpaper.conf` where the wallpaper or the fit is, and behind it
/// `hyprlock.conf` where the image behind the lock screen is.
pub proof fn writes_name_what_they_hold(model: Wallpaper)
    ensures
        ({
            let written = model.rendered().written;
            let writes = model.rendered().writes;
            let first = written.wallpaper || written.fit;
            &&& writes.len() == (if first {
                1int
            } else {
                0
            }) + (if written.lock {
                1int
            } else {
                0
            })
            &&& first ==> is_hyprpaper_write(model, writes[0])
            &&& written.lock ==> is_hyprlock_write(model, writes.last())
        }),
{
    let first = match model.hyprpaper {
        Some(file) => if model.hyprpaper_needed() {
            model.rendered_hyprpaper(file)
        } else {
            wallpaper::nothing_rendered()
        },
        None => wallpaper::nothing_rendered(),
    };
    let none = Seq::<Seq<char>>::empty();
    let a = seq!["wallpaper path"@];
    let b = seq!["fit mode"@];
    assert(a + b =~= seq!["wallpaper path"@, "fit mode"@]);
    assert(a + none =~= a);
    assert(none + b =~= b);
    if first.writes.len() > 0 {
        assert(is_hyprpaper_write(model, first.writes[0]));
    }
}

/// The images that are validated are those that are written: the wallpaper that is to be, and the
/// image that the lock screen is to have.
pub proof fn validated_images_are_those_written(model: Wallpaper)
    ensures
        model.rendered().written.wallpaper ==> model.validations().len() > 0
            && model.validations()[0] == (
            SettingId::WallpaperPath,
            Content::Text(model.wallpaper.effective()->0),
        ),
        model.rendered().written.lock ==> model.validations().len() > 0
            && model.validations().last() == (
            SettingId::LockBackgroundPath,
            Content::Text(model.effective_lock()->0),
        ),
        model.validations().len() == (if model.rendered().written.wallpaper {
            1int
        } else {
            0
        }) + (if model.rendered().written.lock {
            1int
        } else {
            0
        }),
{
}

/// The live reloads are told nothing of themes and cursors here.
pub proof fn reload_is_of_the_wallpaper_alone(model: Wallpaper)
    ensures
        model.reload().cursor is None,
        model.reload().gtk_theme is None,
        model.reload().icon_theme is None,
{
}

/// The value of a key inside the first section of a name, in the file at a path, if that can be
/// read.
pub open spec fn value_on_disk(
    disk: Seq<(Seq<char>, Seq<u8>)>,
    path: Seq<char>,
    section: Seq<char>,
    key: Seq<char>,
) -> Option<Seq<char>> {
    match disk::text_of(disk, path) {
        Some(text) => hyprlang::value_of(
            hyprlang::parsed(text),
            Address { sections: seq![Step { name: section, occurrence: 0 }], key },
        ),
        None => None,
    }
}

/// What loading reads: the wallpaper and the fit from the section `wallpaper` of `hyprpaper.conf`,
/// and the image behind the lock screen from the section `background` of `hyprlock.conf`. No change
/// is pending, and the lock screen has an image of its own where it has another than the wallpaper.
pub proof fn loaded_images_are_those_of_the_files(
    paths: Paths,
    lock_available: bool,
    disk: Seq<(Seq<char>, Seq<u8>)>,
)
    ensures
        ({
            let model = wallpaper::loaded(paths, lock_available, disk);
            let image = value_on_disk(disk, paths.hyprpaper_conf, "wallpaper"@, "path"@);
            let lock = value_on_disk(disk, paths.hyprlock_conf, "background"@, "path"@);
            &&& model.wallpaper.original == image
            &&& model.fit.value.original == value_on_disk(
                disk,
                paths.hyprpaper_conf,
                "wallpaper"@,
                "fit_mode"@,
            )
            &&& model.lock.original == lock
            &&& model.wallpaper.staged is None
            &&& model.fit.value.staged is None
            &&& model.lock.staged is None
            &&& model.override_on <==> lock is Some && lock != image
            &&& model.override_initial == model.override_on
            &&& model.lock_available == lock_available
            &&& model.paths == paths
            &&& model.hyprpaper is Some <==> disk::text_of(disk, paths.hyprpaper_conf) is Some
            &&& model.hyprlock is Some <==> disk::text_of(disk, paths.hyprlock_conf) is Some
        }),
{
}

/// What fits are offered after loading: to cover, to contain, to fill and to tile, and the one that
/// the file names.
pub proof fn known_fits_are_offered(
    paths: Paths,
    lock_available: bool,
    disk: Seq<(Seq<char>, Seq<u8>)>,
    fit: Seq<char>,
)
    ensures
        ({
            let model = wallpaper::loaded(paths, lock_available, disk);
            model.fit.options.contains(fit) <==> fit == "cover"@ || fit == "contain"@ || fit
                == "fill"@ || fit == "tile"@ || model.fit.value.original == Some(fit)
        }),
{
    let model = wallpaper::loaded(paths, lock_available, disk);
    let modes = wallpaper::fit_modes();
    staging_laws::offering_adds_the_current_value(modes, model.fit.value.original, fit);
    assert(modes[0] == "cover"@ && modes[1] == "contain"@ && modes[2] == "fill"@ && modes[3]
        == "tile"@);
    if modes.contains(fit) {
        let i = choose|i: int| 0 <= i < modes.len() && modes[i] == fit;
        assert(0 <= i < 4);
    }
}

/// A file that was written holds what was written, and the other one what it held.
pub proof fn written_text_is_held(
    model: Wallpaper,
    path: Seq<char>,
    text: Seq<char>,
)
    ensures
        ({
            let after = model.with_text(path, text);
            &&& model.hyprpaper matches Some(file) ==> after.hyprpaper == Some(
                (
                    file.0,
                    if file.0 == path {
                        text
                    } else {
                        file.1
                    },
                ),
            )
            &&& model.hyprpaper is None ==> after.hyprpaper is None
            &&& model.hyprlock is None ==> after.hyprlock is None
            &&& (model.hyprlock matches Some(file) && file.0 != path) ==> after.hyprlock
                == model.hyprlock
            &&& (model.hyprlock matches Some(file) && file.0 == path) && !(
            model.hyprpaper matches Some(other) && other.0 == path) ==> after.hyprlock == Some(
                (path, text),
            )
            &&& after.wallpaper == model.wallpaper
            &&& after.fit == model.fit
            &&& after.lock == model.lock
        }),
{
}

} // verus!
