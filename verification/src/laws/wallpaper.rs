//! The laws of the wallpaper and the image behind the lock screen.

use crate::apply::{BackingFile, Write, WriteValidation};
use crate::freshness;
use crate::laws::backing as backing_laws;
use crate::laws::hyprlang as file_laws;
use crate::lines;
use crate::model::SettingId;
use crate::parsers::hyprlang;
use crate::table;
use crate::text;
use crate::theme::staging::Pending;
use crate::theme::wallpaper;
use crate::theme::wallpaper::{Paths, Wallpaper};
use vstd::prelude::*;

verus! {

/// Whether the files that the model knows are as they are on disk.
pub open spec fn files_agree(model: Wallpaper, disk: Seq<(Seq<char>, Seq<u8>)>) -> bool {
    &&& model.hyprpaper == wallpaper::file_at(model.paths.hyprpaper_conf, disk)
    &&& model.hyprlock == wallpaper::file_at(model.paths.hyprlock_conf, disk)
    &&& backing_laws::distinct(model.baselines)
    &&& freshness::unchanged(model.baselines, disk)
}

/// Whether the model agrees with the disk: it knows the files as they are there, and the values as
/// the files hold them.
pub open spec fn agrees(model: Wallpaper, disk: Seq<(Seq<char>, Seq<u8>)>) -> bool {
    &&& files_agree(model, disk)
    &&& model.wallpaper.original == wallpaper::value_in(
        model.hyprpaper,
        wallpaper::wallpaper_key(),
    )
    &&& model.fit.value.original == wallpaper::value_in(model.hyprpaper, wallpaper::fit_key())
    &&& model.lock.original == wallpaper::value_in(model.hyprlock, wallpaper::lock_key())
    &&& model.override_initial == wallpaper::has_override(
        model.wallpaper.original,
        model.lock.original,
    )
}

/// A model that was just loaded agrees with the disk.
pub proof fn loaded_agrees(
    paths: Paths,
    lock_available: bool,
    disk: Seq<(Seq<char>, Seq<u8>)>,
)
    ensures
        agrees(wallpaper::loaded(paths, lock_available, disk), disk),
{
    backing_laws::loaded_agrees(seq![paths.hyprpaper_conf, paths.hyprlock_conf], disk);
}

/// A model that agrees with the disk holds the values that loading the files again gives.
pub proof fn agreeing_model_holds_what_loading_gives(
    model: Wallpaper,
    disk: Seq<(Seq<char>, Seq<u8>)>,
)
    requires
        agrees(model, disk),
    ensures
        ({
            let fresh = wallpaper::loaded(model.paths, model.lock_available, disk);
            &&& fresh.hyprpaper == model.hyprpaper
            &&& fresh.hyprlock == model.hyprlock
            &&& fresh.wallpaper.original == model.wallpaper.original
            &&& fresh.fit.value.original == model.fit.value.original
            &&& fresh.lock.original == model.lock.original
            &&& fresh.override_initial == model.override_initial
        }),
{
}

/// Making changes pending and forgetting them leaves a model in agreement with the disk.
pub proof fn pending_changes_keep_agreement(
    model: Wallpaper,
    disk: Seq<(Seq<char>, Seq<u8>)>,
    value: Seq<char>,
    on: bool,
)
    requires
        agrees(model, disk),
    ensures
        agrees(Wallpaper { wallpaper: model.wallpaper.stage(value), ..model }, disk),
        agrees(Wallpaper { fit: model.fit.with(model.fit.value.stage(value)), ..model }, disk),
        agrees(Wallpaper { lock: model.lock.stage(value), ..model }, disk),
        agrees(Wallpaper { override_on: on, ..model }, disk),
        agrees(model.reset(), disk),
{
}

/// Forgetting the pending changes leaves none. The one exception is a lock screen that can be
/// changed and has no image: it is to get the wallpaper, which is a change of its own.
pub proof fn reset_leaves_no_change(model: Wallpaper, disk: Seq<(Seq<char>, Seq<u8>)>)
    requires
        agrees(model, disk),
        model.lock_editable() && model.wallpaper.original is Some ==> model.lock.original is Some,
    ensures
        !model.reset().is_dirty(),
        model.reset().reset() == model.reset(),
        model.reset().wallpaper.effective() == model.wallpaper.original,
        model.reset().fit.value.effective() == model.fit.value.original,
        model.reset().lock.effective() == model.lock.original,
        model.reset().override_on == wallpaper::has_override(
            model.wallpaper.original,
            model.lock.original,
        ),
{
}

/// Where no change is pending, nothing is written or reloaded, and taking it for written changes
/// nothing.
pub proof fn no_change_no_write(model: Wallpaper, disk: Seq<(Seq<char>, Seq<u8>)>)
    requires
        agrees(model, disk),
        !model.is_dirty(),
    ensures
        model.rendered().writes.len() == 0,
        model.reload().wallpaper is None,
        model.reload().fit is None,
        model.commit() == model,
{
}

/// Whether a file of a kind is among the writes of the pending changes.
pub open spec fn writes_to(model: Wallpaper, file: BackingFile) -> bool {
    exists|i: int|
        0 <= i < model.rendered().writes.len() && (#[trigger] model.rendered().writes[i]).backing
            == file
}

/// Whether an image is validated before the pending changes are written.
pub open spec fn is_validated(model: Wallpaper, id: SettingId) -> bool {
    exists|i: int|
        0 <= i < model.validations().len() && (#[trigger] model.validations()[i]).0 == id
}

/// Which files are written follows from which values are.
proof fn lemma_writes(model: Wallpaper)
    ensures
        model.writes_hyprpaper() <==> writes_to(model, BackingFile::HyprpaperConf),
        model.rendered().written.lock <==> writes_to(model, BackingFile::HyprlockConf),
        forall|i: int|
            0 <= i < model.rendered().writes.len() ==> (
            #[trigger] model.rendered().writes[i]).validation == if model.rendered().writes[i].backing
                == BackingFile::HyprpaperConf && !model.rendered().written.wallpaper {
                WriteValidation::NotNeeded
            } else {
                WriteValidation::InPlan
            },
{
    let writes = model.rendered().writes;
    if model.writes_hyprpaper() {
        assert(writes[0].backing == BackingFile::HyprpaperConf);
    }
    if model.rendered().written.lock {
        assert(writes[writes.len() - 1].backing == BackingFile::HyprlockConf);
    }
}

/// The live reloads are told of a wallpaper or a fit only where `hyprpaper.conf` is written, and then
/// of both as they will be. A value that is no pending change, or one that the file took, is the one
/// that the file then holds.
pub proof fn reload_comes_with_hyprpaper_conf(model: Wallpaper)
    ensures
        model.reload().wallpaper == if writes_to(model, BackingFile::HyprpaperConf) {
            model.wallpaper.effective()
        } else {
            None
        },
        model.reload().fit == if writes_to(model, BackingFile::HyprpaperConf) {
            model.fit.value.effective()
        } else {
            None
        },
        writes_to(model, BackingFile::HyprpaperConf) && (model.wallpaper.is_changed()
            ==> model.rendered().written.wallpaper) ==> model.reload().wallpaper
            == model.commit().wallpaper.original,
        writes_to(model, BackingFile::HyprpaperConf) && (model.fit.value.is_changed()
            ==> model.rendered().written.fit) ==> model.reload().fit
            == model.commit().fit.value.original,
{
    lemma_writes(model);
}

/// An image is validated exactly where it is written: the wallpaper where the write of
/// `hyprpaper.conf` asks for it, and the image behind the lock screen where `hyprlock.conf` is
/// written.
pub proof fn written_images_are_validated(model: Wallpaper)
    ensures
        is_validated(model, SettingId::WallpaperPath) <==> model.rendered().written.wallpaper,
        is_validated(model, SettingId::LockBackgroundPath) <==> writes_to(
            model,
            BackingFile::HyprlockConf,
        ),
        forall|i: int|
            0 <= i < model.rendered().writes.len() && (
            #[trigger] model.rendered().writes[i]).backing == BackingFile::HyprpaperConf ==> (
            model.rendered().writes[i].validation == WriteValidation::InPlan <==> is_validated(
                model,
                SettingId::WallpaperPath,
            )),
{
    lemma_writes(model);
    let all = model.validations();
    if model.rendered().written.wallpaper {
        assert(all[0].0 == SettingId::WallpaperPath);
    }
    if model.rendered().written.lock {
        assert(all[all.len() - 1].0 == SettingId::LockBackgroundPath);
    }
}

/// Taking the changes for written leaves the wallpaper, the fit and the image behind the lock
/// screen as they were to be, and where the files took every change, none pending.
pub proof fn commit_keeps_the_values(model: Wallpaper)
    ensures
        model.commit().wallpaper.effective() == model.wallpaper.effective(),
        model.commit().fit.value.effective() == model.fit.value.effective(),
        model.commit().effective_lock() == model.effective_lock(),
        model.commit().override_on == model.override_on,
        ({
            let written = model.rendered().written;
            &&& model.wallpaper.is_changed() ==> written.wallpaper
            &&& model.fit.value.is_changed() ==> written.fit
            &&& model.hyprlock_needed() ==> written.lock
        }) ==> !model.commit().is_dirty(),
{
    lemma_with_writes_keeps(model, model.rendered().writes, model.rendered().writes.len() as int);
}

proof fn lemma_with_writes_keeps(model: Wallpaper, writes: Seq<Write>, n: int)
    ensures
        ({
            let after = model.with_writes_upto(writes, n);
            &&& after.wallpaper == model.wallpaper
            &&& after.fit == model.fit
            &&& after.lock == model.lock
            &&& after.override_on == model.override_on
            &&& after.override_initial == model.override_initial
            &&& after.lock_available == model.lock_available
            &&& after.paths == model.paths
            &&& after.hyprpaper is Some <==> model.hyprpaper is Some
            &&& after.hyprlock is Some <==> model.hyprlock is Some
        }),
    decreases n,
{
    if n > 0 {
        lemma_with_writes_keeps(model, writes, n - 1);
    }
}

/// A text that is written to one of the files is what the model and the disk then have.
proof fn lemma_one_write(
    model: Wallpaper,
    disk: Seq<(Seq<char>, Seq<u8>)>,
    write: Write,
    text: Seq<char>,
)
    requires
        files_agree(model, disk),
        write.contents == vstd::utf8::encode_utf8(text),
        model.paths.hyprpaper_conf != model.paths.hyprlock_conf,
        write.path == model.paths.hyprpaper_conf && model.hyprpaper is Some || write.path
            == model.paths.hyprlock_conf && model.hyprlock is Some,
    ensures
        ({
            let after = model.with_write(write);
            &&& files_agree(after, table::put(disk, write.path, write.contents))
            &&& after.hyprpaper == if write.path == model.paths.hyprpaper_conf {
                Some((write.path, text))
            } else {
                model.hyprpaper
            }
            &&& after.hyprlock == if write.path == model.paths.hyprlock_conf {
                Some((write.path, text))
            } else {
                model.hyprlock
            }
        }),
{
    vstd::utf8::encode_utf8_valid_utf8(text);
    vstd::utf8::encode_utf8_decode_utf8(text);
    backing_laws::baselines_stay_distinct(model.baselines, write.path, write.contents);
    backing_laws::own_write_is_no_conflict(model.baselines, disk, write.path, write.contents);
    table::lemma_lookup_put(disk, write.path, write.contents, model.paths.hyprpaper_conf);
    table::lemma_lookup_put(disk, write.path, write.contents, model.paths.hyprlock_conf);
}

/// Whether a pending change has no white space around it.
pub open spec fn is_trimmed(value: Pending) -> bool {
    value.staged matches Some(v) ==> text::trim(v) == v
}

/// Whether every section of a file that could be read is closed.
pub open spec fn is_closed(file: Option<(Seq<char>, Seq<char>)>) -> bool {
    file matches Some((_, text)) ==> hyprlang::sections(hyprlang::parsed(text)).len() == 0
}

proof fn lemma_keys()
    ensures
        file_laws::is_writable_key("path"@),
        file_laws::is_writable_key("fit_mode"@),
        wallpaper::wallpaper_key() != wallpaper::fit_key(),
{
    reveal_strlit("path");
    reveal_strlit("fit_mode");
    assert("path"@.len() != "fit_mode"@.len());
}

/// What the two values of `hyprpaper.conf` are in the text that is written.
proof fn lemma_hyprpaper_values(model: Wallpaper, text: Seq<char>)
    requires
        is_trimmed(model.wallpaper),
        is_trimmed(model.fit.value),
        hyprlang::sections(hyprlang::parsed(text)).len() == 0,
    ensures
        ({
            let first = hyprlang::parsed(text);
            let second = model.with_wallpaper(text);
            let last = wallpaper::with_change(second, wallpaper::fit_key(), model.fit.value);
            let again = hyprlang::parsed(lines::emitted(last));
            &&& hyprlang::value_of(again, wallpaper::wallpaper_key()) == if wallpaper::takes(
                first,
                wallpaper::wallpaper_key(),
                model.wallpaper,
            ) {
                model.wallpaper.staged
            } else {
                hyprlang::value_of(first, wallpaper::wallpaper_key())
            }
            &&& hyprlang::value_of(again, wallpaper::fit_key()) == if wallpaper::takes(
                second,
                wallpaper::fit_key(),
                model.fit.value,
            ) {
                model.fit.value.staged
            } else {
                hyprlang::value_of(first, wallpaper::fit_key())
            }
        }),
{
    let path = wallpaper::wallpaper_key();
    let fit = wallpaper::fit_key();
    let first = hyprlang::parsed(text);
    let second = model.with_wallpaper(text);
    let last = wallpaper::with_change(second, fit, model.fit.value);
    lemma_keys();
    file_laws::parsed_is_sound(text);
    file_laws::parsed_values_are_trimmed(text, path);
    file_laws::parsed_values_are_trimmed(text, fit);
    lemma_change(first, path, model.wallpaper, fit);
    lemma_change(second, fit, model.fit.value, path);
    file_laws::reread(last, path);
    file_laws::reread(last, fit);
}

proof fn lemma_change(
    file: Seq<lines::LineModel<hyprlang::Kind>>,
    path: hyprlang::Address,
    value: Pending,
    other: hyprlang::Address,
)
    requires
        file_laws::sound_file(file),
        hyprlang::sections(file).len() == 0,
        file_laws::is_writable_key(path.key),
        other != path,
    ensures
        ({
            let after = wallpaper::with_change(file, path, value);
            &&& file_laws::sound_file(after)
            &&& hyprlang::sections(after).len() == 0
            &&& hyprlang::value_of(after, path) == if wallpaper::takes(file, path, value) {
                value.staged
            } else {
                hyprlang::value_of(file, path)
            }
            &&& hyprlang::value_of(after, other) == hyprlang::value_of(file, other)
        }),
{
    if let Some(v) = value.staged {
        file_laws::closed_file_takes_assignments_inside(file, path);
        file_laws::set_keeps_sound(file, path, v);
        file_laws::set_keeps_sections(file, path, v);
        file_laws::sound_fits(file);
        file_laws::set_keeps_other_values(file, path, v, other);
        if hyprlang::accepts(file, path, v) {
            file_laws::read_after_set(file, path, v);
        }
    }
}

/// What the image of `hyprlock.conf` is in the text that is written.
proof fn lemma_hyprlock_value(text: Seq<char>, image: Seq<char>)
    requires
        text::trim(image) == image,
        hyprlang::sections(hyprlang::parsed(text)).len() == 0,
        hyprlang::accepts(hyprlang::parsed(text), wallpaper::lock_key(), image),
    ensures
        hyprlang::value_of(
            hyprlang::parsed(
                lines::emitted(
                    hyprlang::after_set(hyprlang::parsed(text), wallpaper::lock_key(), image),
                ),
            ),
            wallpaper::lock_key(),
        ) == Some(image),
{
    let file = hyprlang::parsed(text);
    lemma_keys();
    file_laws::parsed_is_sound(text);
    file_laws::closed_file_takes_assignments_inside(file, wallpaper::lock_key());
    file_laws::written_value_is_read_back(file, wallpaper::lock_key(), image);
}

/// The image that the lock screen is to have is without white space around it.
proof fn lemma_lock_is_trimmed(model: Wallpaper, disk: Seq<(Seq<char>, Seq<u8>)>)
    requires
        agrees(model, disk),
        is_trimmed(model.wallpaper),
        is_trimmed(model.lock),
    ensures
        model.effective_lock() matches Some(image) ==> text::trim(image) == image,
{
    if let Some((_, text)) = model.hyprpaper {
        file_laws::parsed_values_are_trimmed(text, wallpaper::wallpaper_key());
    }
    if let Some((_, text)) = model.hyprlock {
        file_laws::parsed_values_are_trimmed(text, wallpaper::lock_key());
    }
}

/// An Apply leaves a model in agreement with the disk: once its writes are performed, the model
/// holds what loading the files again would give, so that it is no conflict for the next Apply, and
/// forgetting changes gives what the files hold. This needs the two files to be two, values without
/// white space around them, and files that close their sections.
pub proof fn commit_keeps_agreement(model: Wallpaper, disk: Seq<(Seq<char>, Seq<u8>)>)
    requires
        agrees(model, disk),
        model.paths.hyprpaper_conf != model.paths.hyprlock_conf,
        is_trimmed(model.wallpaper),
        is_trimmed(model.fit.value),
        is_trimmed(model.lock),
        is_closed(model.hyprpaper),
        is_closed(model.hyprlock),
    ensures
        agrees(model.commit(), backing_laws::performed(disk, model.rendered().writes)),
{
    let done = model.rendered();
    let first = match model.hyprpaper {
        Some(file) => if model.hyprpaper_needed() {
            model.rendered_hyprpaper(file)
        } else {
            wallpaper::nothing_rendered()
        },
        None => wallpaper::nothing_rendered(),
    };
    let second = match model.hyprlock {
        Some(file) => if model.hyprlock_needed() {
            model.rendered_hyprlock(file)
        } else {
            Seq::empty()
        },
        None => Seq::empty(),
    };
    assert(done.writes =~= first.writes + second);
    assert(first.writes.len() <= 1 && second.len() <= 1);
    reveal_with_fuel(Wallpaper::with_writes_upto, 3);
    reveal_with_fuel(backing_laws::performed_upto, 3);
    lemma_lock_is_trimmed(model, disk);
    let between = if first.writes.len() == 1 {
        model.with_write(first.writes[0])
    } else {
        model
    };
    let held = if first.writes.len() == 1 {
        table::put(disk, first.writes[0].path, first.writes[0].contents)
    } else {
        disk
    };
    if first.writes.len() == 1 {
        let (path, text) = model.hyprpaper->0;
        let lines = wallpaper::with_change(
            model.with_wallpaper(text),
            wallpaper::fit_key(),
            model.fit.value,
        );
        lemma_one_write(model, disk, first.writes[0], lines::emitted(lines));
        lemma_hyprpaper_values(model, text);
        assert(done.writes[0] == first.writes[0]);
    }
    assert(files_agree(between, held));
    let after = if second.len() == 1 {
        between.with_write(second[0])
    } else {
        between
    };
    let later = if second.len() == 1 {
        table::put(held, second[0].path, second[0].contents)
    } else {
        held
    };
    if second.len() == 1 {
        let (path, text) = model.hyprlock->0;
        let image = model.effective_lock()->0;
        let lines = hyprlang::after_set(hyprlang::parsed(text), wallpaper::lock_key(), image);
        assert(between.hyprlock == model.hyprlock);
        lemma_one_write(between, held, second[0], lines::emitted(lines));
        lemma_hyprlock_value(text, image);
        assert(done.writes[first.writes.len() as int] == second[0]);
    }
    assert(model.with_writes(done.writes) == after);
    assert(backing_laws::performed(disk, done.writes) == later);
    assert(files_agree(after, later));
}

} // verus!
