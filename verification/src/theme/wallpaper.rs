//! The wallpaper and the image behind the lock screen.
//!
//! The wallpaper and its fit are in `hyprpaper.conf`, the image behind the lock screen in
//! `hyprlock.conf`. The lock screen shows the wallpaper too, unless the override is on: then it
//! has an image of its own.

use crate::apply;
use crate::apply::{BackingFile, FileWrite, ReloadParams, WriteValidation};
use crate::disk;
use crate::disk::{decode, encode, Files};
use crate::freshness;
use crate::freshness::FreshnessTracker;
use crate::lines;
use crate::lines::LineModel;
use crate::model;
use crate::model::{Content, SettingId, ValidationError, SettingValue};
use crate::parsers::hyprlang;
use crate::parsers::hyprlang::{HyprlangFile, KeyPath};
use crate::table;
use crate::text;
use crate::theme::backing;
use crate::theme::backing::{read_backing, BackingText};
use crate::theme::staging;
use crate::theme::staging::{Choice, Pending, Selection, Staged};
use vstd::prelude::*;

verus! {

/// Where the configuration files are.
#[derive(Debug)]
pub struct WallpaperPaths {
    /// `hyprpaper.conf`.
    pub hyprpaper_conf: String,
    /// `hyprlock.conf`.
    pub hyprlock_conf: String,
}

/// The mathematical counterpart of [`WallpaperPaths`].
pub struct Paths {
    /// `hyprpaper.conf`.
    pub hyprpaper_conf: Seq<char>,
    /// `hyprlock.conf`.
    pub hyprlock_conf: Seq<char>,
}

impl View for WallpaperPaths {
    type V = Paths;

    open spec fn view(&self) -> Paths {
        Paths { hyprpaper_conf: self.hyprpaper_conf@, hyprlock_conf: self.hyprlock_conf@ }
    }
}

impl Clone for WallpaperPaths {
    fn clone(&self) -> (r: Self)
        ensures
            r@ == self@,
    {
        WallpaperPaths {
            hyprpaper_conf: self.hyprpaper_conf.clone(),
            hyprlock_conf: self.hyprlock_conf.clone(),
        }
    }
}

/// Which values were rendered into a file.
#[derive(Clone, Copy, Debug, PartialEq, Eq, Structural)]
pub struct WrittenWallpaperValues {
    /// The wallpaper.
    pub wallpaper: bool,
    /// Its fit.
    pub fit: bool,
    /// The image behind the lock screen.
    pub lock: bool,
}

/// The mathematical counterpart of [`WallpaperModel`].
pub struct Wallpaper {
    /// `hyprpaper.conf`, path and text, if it could be read.
    pub hyprpaper: Option<(Seq<char>, Seq<char>)>,
    /// `hyprlock.conf`, path and text, if it could be read.
    pub hyprlock: Option<(Seq<char>, Seq<char>)>,
    /// The wallpaper.
    pub wallpaper: Pending,
    /// Its fit.
    pub fit: Choice,
    /// The image behind the lock screen, as far as it is another than the wallpaper.
    pub lock: Pending,
    /// Whether the lock screen has an image of its own.
    pub override_on: bool,
    /// Whether it has one by what the files hold.
    pub override_initial: bool,
    /// Whether there is a lock screen.
    pub lock_available: bool,
    /// What each file held when it was last read or written.
    pub baselines: Seq<(Seq<char>, Seq<u8>)>,
    /// Where the files are.
    pub paths: Paths,
}

/// The address of a key inside the first section of a name.
pub open spec fn key_in(section: Seq<char>, key: Seq<char>) -> hyprlang::Address {
    hyprlang::Address { sections: seq![hyprlang::Step { name: section, occurrence: 0 }], key }
}

/// Where `hyprpaper.conf` has the wallpaper.
pub open spec fn wallpaper_key() -> hyprlang::Address {
    key_in("wallpaper"@, "path"@)
}

/// Where `hyprpaper.conf` has the fit.
pub open spec fn fit_key() -> hyprlang::Address {
    key_in("wallpaper"@, "fit_mode"@)
}

/// Where `hyprlock.conf` has the image.
pub open spec fn lock_key() -> hyprlang::Address {
    key_in("background"@, "path"@)
}

/// The fits that are always offered.
pub open spec fn fit_modes() -> Seq<Seq<char>> {
    seq!["cover"@, "contain"@, "fill"@, "tile"@]
}

/// The value at an address of a file that could be read.
pub open spec fn value_in(
    file: Option<(Seq<char>, Seq<char>)>,
    path: hyprlang::Address,
) -> Option<Seq<char>> {
    match file {
        Some((_, text)) => hyprlang::value_of(hyprlang::parsed(text), path),
        None => None,
    }
}

/// Whether the lock screen has an image of its own: one that is not the wallpaper.
pub open spec fn has_override(wallpaper: Option<Seq<char>>, lock: Option<Seq<char>>) -> bool {
    lock is Some && lock != wallpaper
}

/// The file at a path, if it can be read and is UTF-8.
pub open spec fn file_at(path: Seq<char>, disk: Seq<(Seq<char>, Seq<u8>)>) -> Option<
    (Seq<char>, Seq<char>),
> {
    match disk::text_of(disk, path) {
        Some(text) => Some((path, text)),
        None => None,
    }
}

/// What loading gives: the values as the files hold them, no change pending.
pub open spec fn loaded(
    paths: Paths,
    lock_available: bool,
    disk: Seq<(Seq<char>, Seq<u8>)>,
) -> Wallpaper {
    let hyprpaper = file_at(paths.hyprpaper_conf, disk);
    let hyprlock = file_at(paths.hyprlock_conf, disk);
    let wallpaper = value_in(hyprpaper, wallpaper_key());
    let fit = value_in(hyprpaper, fit_key());
    let lock = value_in(hyprlock, lock_key());
    Wallpaper {
        hyprpaper,
        hyprlock,
        wallpaper: Pending { original: wallpaper, staged: None },
        fit: Choice {
            options: staging::offering(fit_modes(), fit),
            value: Pending { original: fit, staged: None },
        },
        lock: Pending { original: lock, staged: None },
        override_on: has_override(wallpaper, lock),
        override_initial: has_override(wallpaper, lock),
        lock_available,
        baselines: backing::loaded(seq![paths.hyprpaper_conf, paths.hyprlock_conf], disk).baselines,
        paths,
    }
}

/// The lines of a file with a pending change rendered into it, as far as the file takes it.
pub open spec fn with_change(
    file: Seq<LineModel<hyprlang::Kind>>,
    path: hyprlang::Address,
    value: Pending,
) -> Seq<LineModel<hyprlang::Kind>> {
    match value.staged {
        Some(v) => hyprlang::after_set(file, path, v),
        None => file,
    }
}

/// Whether a file takes a pending change.
pub open spec fn takes(
    file: Seq<LineModel<hyprlang::Kind>>,
    path: hyprlang::Address,
    value: Pending,
) -> bool {
    value.staged matches Some(v) && hyprlang::accepts(file, path, v)
}

/// The writes of an Apply, and which values they hold.
pub struct Rendered {
    /// The writes.
    pub writes: Seq<apply::Write>,
    /// Which values they hold.
    pub written: WrittenWallpaperValues,
}

impl Wallpaper {
    /// Whether the wallpaper can be changed.
    pub open spec fn wallpaper_editable(self) -> bool {
        self.hyprpaper is Some
    }

    /// Whether the image behind the lock screen can be changed.
    pub open spec fn lock_editable(self) -> bool {
        self.lock_available && self.hyprlock is Some
    }

    /// Whether a change of `hyprpaper.conf` is pending.
    pub open spec fn hyprpaper_needed(self) -> bool {
        self.wallpaper_editable() && (self.wallpaper.is_changed() || self.fit.value.is_changed())
    }

    /// The image that the lock screen is to have.
    pub open spec fn effective_lock(self) -> Option<Seq<char>> {
        if self.override_on {
            self.lock.effective()
        } else {
            self.wallpaper.effective()
        }
    }

    /// Whether a change of `hyprlock.conf` is pending.
    pub open spec fn hyprlock_needed(self) -> bool {
        &&& self.lock_editable()
        &&& self.effective_lock() is Some
        &&& self.effective_lock() != self.lock.original
    }

    /// Whether a change is pending.
    pub open spec fn is_dirty(self) -> bool {
        self.hyprpaper_needed() || self.hyprlock_needed()
    }

    /// Without its pending changes.
    pub open spec fn reset(self) -> Wallpaper {
        Wallpaper {
            wallpaper: self.wallpaper.reset(),
            fit: self.fit.with(self.fit.value.reset()),
            lock: self.lock.reset(),
            override_on: self.override_initial,
            ..self
        }
    }

    /// The lines of `hyprpaper.conf` with the wallpaper rendered into it.
    pub open spec fn with_wallpaper(self, text: Seq<char>) -> Seq<LineModel<hyprlang::Kind>> {
        with_change(hyprlang::parsed(text), wallpaper_key(), self.wallpaper)
    }

    /// The write of `hyprpaper.conf`, if it takes anything. Its path is validated with the
    /// Apply exactly where it is among what changed.
    pub open spec fn rendered_hyprpaper(self, file: (Seq<char>, Seq<char>)) -> Rendered {
        let wallpaper = takes(hyprlang::parsed(file.1), wallpaper_key(), self.wallpaper);
        let fit = takes(self.with_wallpaper(file.1), fit_key(), self.fit.value);
        let changed_keys = (if wallpaper {
            seq!["wallpaper path"@]
        } else {
            Seq::empty()
        }) + (if fit {
            seq!["fit mode"@]
        } else {
            Seq::empty()
        });
        Rendered {
            writes: if changed_keys.len() == 0 {
                Seq::empty()
            } else {
                seq![
                    apply::Write {
                        path: file.0,
                        contents: vstd::utf8::encode_utf8(
                            lines::emitted(
                                with_change(
                                    self.with_wallpaper(file.1),
                                    fit_key(),
                                    self.fit.value,
                                ),
                            ),
                        ),
                        changed_keys,
                        backing: BackingFile::HyprpaperConf,
                        validation: if wallpaper {
                            WriteValidation::InPlan
                        } else {
                            WriteValidation::NotNeeded
                        },
                    },
                ]
            },
            written: WrittenWallpaperValues { wallpaper, fit, lock: false },
        }
    }

    /// The write of `hyprlock.conf`, if it takes the image.
    pub open spec fn rendered_hyprlock(self, file: (Seq<char>, Seq<char>)) -> Seq<apply::Write> {
        match self.effective_lock() {
            Some(image) => if hyprlang::accepts(hyprlang::parsed(file.1), lock_key(), image) {
                seq![
                    apply::Write {
                        path: file.0,
                        contents: vstd::utf8::encode_utf8(
                            lines::emitted(
                                hyprlang::after_set(hyprlang::parsed(file.1), lock_key(), image),
                            ),
                        ),
                        changed_keys: seq!["lock background path"@],
                        backing: BackingFile::HyprlockConf,
                        validation: WriteValidation::InPlan,
                    },
                ]
            } else {
                Seq::empty()
            },
            None => Seq::empty(),
        }
    }

    /// The writes of the pending changes.
    pub open spec fn rendered(self) -> Rendered {
        let first = match self.hyprpaper {
            Some(file) => if self.hyprpaper_needed() {
                self.rendered_hyprpaper(file)
            } else {
                nothing_rendered()
            },
            None => nothing_rendered(),
        };
        match self.hyprlock {
            Some(file) => if self.hyprlock_needed() {
                Rendered {
                    writes: first.writes + self.rendered_hyprlock(file),
                    written: WrittenWallpaperValues {
                        lock: self.rendered_hyprlock(file).len() > 0,
                        ..first.written
                    },
                }
            } else {
                first
            },
            None => first,
        }
    }

    /// Whether `hyprpaper.conf` is among the files to write.
    pub open spec fn writes_hyprpaper(self) -> bool {
        self.rendered().written.wallpaper || self.rendered().written.fit
    }

    /// What the live reloads need: where `hyprpaper.conf` is written, the wallpaper and the fit
    /// as they will be; a change of the lock screen takes effect at the next lock.
    pub open spec fn reload(self) -> apply::Reload {
        apply::Reload {
            wallpaper: if self.writes_hyprpaper() {
                self.wallpaper.effective()
            } else {
                None
            },
            fit: if self.writes_hyprpaper() {
                self.fit.value.effective()
            } else {
                None
            },
            cursor: None,
            gtk_theme: None,
            icon_theme: None,
        }
    }

    /// The images to validate before anything is written: those that are written.
    pub open spec fn validations(self) -> Seq<(SettingId, Content)> {
        (if self.rendered().written.wallpaper {
            seq![(SettingId::WallpaperPath, Content::Text(self.wallpaper.staged->0))]
        } else {
            Seq::empty()
        }) + (if self.rendered().written.lock {
            seq![(SettingId::LockBackgroundPath, Content::Text(self.effective_lock()->0))]
        } else {
            Seq::empty()
        })
    }

    /// With another text for the file at a path.
    pub open spec fn with_text(self, path: Seq<char>, text: Seq<char>) -> Wallpaper {
        if self.hyprpaper matches Some(file) && file.0 == path {
            Wallpaper { hyprpaper: Some((path, text)), ..self }
        } else if self.hyprlock matches Some(file) && file.0 == path {
            Wallpaper { hyprlock: Some((path, text)), ..self }
        } else {
            self
        }
    }

    /// After a file was written.
    pub open spec fn with_write(self, write: apply::Write) -> Wallpaper {
        let noted = Wallpaper {
            baselines: table::put(self.baselines, write.path, write.contents),
            ..self
        };
        if vstd::utf8::valid_utf8(write.contents) {
            noted.with_text(write.path, vstd::utf8::decode_utf8(write.contents))
        } else {
            noted
        }
    }

    /// After the first `n` of the given files were written.
    pub open spec fn with_writes_upto(self, writes: Seq<apply::Write>, n: int) -> Wallpaper
        decreases n,
    {
        if n <= 0 {
            self
        } else {
            self.with_writes_upto(writes, n - 1).with_write(writes[n - 1])
        }
    }

    /// After the given files were written.
    pub open spec fn with_writes(self, writes: Seq<apply::Write>) -> Wallpaper {
        self.with_writes_upto(writes, writes.len() as int)
    }

    /// After its pending changes were written: each value that a file took is what the file
    /// holds, any other is still pending. Whether the lock screen has an image of its own
    /// follows from what the files hold then.
    pub open spec fn commit(self) -> Wallpaper {
        let done = self.rendered();
        let wallpaper = if done.written.wallpaper {
            self.wallpaper.commit()
        } else {
            self.wallpaper
        };
        let lock = if done.written.lock {
            Pending { original: self.effective_lock(), staged: None }
        } else {
            self.lock
        };
        Wallpaper {
            wallpaper,
            fit: if done.written.fit {
                self.fit.with(self.fit.value.commit())
            } else {
                self.fit
            },
            lock,
            override_initial: has_override(wallpaper.original, lock.original),
            ..self.with_writes(done.writes)
        }
    }
}

/// No write.
pub open spec fn nothing_rendered() -> Rendered {
    Rendered {
        writes: Seq::empty(),
        written: WrittenWallpaperValues { wallpaper: false, fit: false, lock: false },
    }
}

/// What the images contribute to an Apply.
#[derive(Debug)]
pub struct WallpaperApply {
    /// The files to write.
    pub writes: Vec<FileWrite>,
    /// What the live reloads need.
    pub reload_params: ReloadParams,
    /// The images to validate before anything is written.
    pub validations: Vec<(SettingId, SettingValue)>,
}

/// The wallpaper and the image behind the lock screen, with their pending changes.
#[derive(Debug)]
pub struct WallpaperModel {
    hyprpaper: Option<BackingText>,
    hyprlock: Option<BackingText>,
    wallpaper: Staged,
    fit: Selection,
    lock: Staged,
    override_on: bool,
    override_initial: bool,
    lock_available: bool,
    freshness: FreshnessTracker,
    paths: WallpaperPaths,
}

spec fn backing_view(file: Option<BackingText>) -> Option<(Seq<char>, Seq<char>)> {
    match file {
        Some(file) => Some(file@),
        None => None,
    }
}

impl View for WallpaperModel {
    type V = Wallpaper;

    closed spec fn view(&self) -> Wallpaper {
        Wallpaper {
            hyprpaper: backing_view(self.hyprpaper),
            hyprlock: backing_view(self.hyprlock),
            wallpaper: self.wallpaper@,
            fit: self.fit@,
            lock: self.lock@,
            override_on: self.override_on,
            override_initial: self.override_initial,
            lock_available: self.lock_available,
            baselines: self.freshness@,
            paths: self.paths@,
        }
    }
}

fn key_path(section: &str, key: &str) -> (r: KeyPath)
    ensures
        r@ == key_in(section@, key@),
{
    let names = [section];
    let r = KeyPath::at(&names, key);
    assert(r@.sections =~= key_in(section@, key@).sections);
    r
}

fn read_value(file: &Option<BackingText>, section: &str, key: &str) -> (r: Option<String>)
    ensures
        text::optional_view(r) == value_in(backing_view(*file), key_in(section@, key@)),
{
    match file {
        Some(file) => {
            let (parsed, _) = HyprlangFile::parse(file.text());
            text::owned(parsed.value(&key_path(section, key)))
        },
        None => None,
    }
}

fn curated_fit_modes() -> (r: Vec<String>)
    ensures
        text::views(r@) == fit_modes(),
{
    let mut r: Vec<String> = Vec::new();
    r.push("cover".to_owned());
    r.push("contain".to_owned());
    r.push("fill".to_owned());
    r.push("tile".to_owned());
    assert(text::views(r@) =~= fit_modes());
    r
}

fn same_optional(a: Option<&str>, b: Option<&str>) -> (r: bool)
    ensures
        r == match (a, b) {
            (Some(x), Some(y)) => x@ == y@,
            (None, None) => true,
            _ => false,
        },
{
    match (a, b) {
        (Some(x), Some(y)) => text::same_text(x, y),
        (None, None) => true,
        _ => false,
    }
}

/// Decides [`has_override`].
fn override_from_paths(wallpaper: Option<&str>, lock: Option<&str>) -> (r: bool)
    ensures
        r == match (wallpaper, lock) {
            (Some(w), Some(l)) => w@ != l@,
            (None, Some(_)) => true,
            _ => false,
        },
{
    lock.is_some() && !same_optional(lock, wallpaper)
}

fn record(tracker: &mut FreshnessTracker, file: &Option<BackingText>)
    ensures
        final(tracker)@ == match *file {
            Some(file) => table::put(
                old(tracker)@,
                file@.0,
                vstd::utf8::encode_utf8(file@.1),
            ),
            None => old(tracker)@,
        },
{
    if let Some(file) = file {
        tracker.record_bytes(file.path(), &encode(file.text()));
    }
}

impl WallpaperModel {
    /// Reads the images from the files on disk.
    pub fn load(paths: WallpaperPaths, lock_available: bool, disk: &Files) -> (r: WallpaperModel)
        ensures
            r@ == loaded(paths@, lock_available, disk@),
    {
        let hyprpaper = read_backing(paths.hyprpaper_conf.as_str(), disk);
        let hyprlock = read_backing(paths.hyprlock_conf.as_str(), disk);
        assert(backing_view(hyprpaper) == file_at(paths@.hyprpaper_conf, disk@));
        assert(backing_view(hyprlock) == file_at(paths@.hyprlock_conf, disk@));
        let wallpaper = Staged::new(read_value(&hyprpaper, "wallpaper", "path"));
        let fit = Selection::new(
            curated_fit_modes(),
            read_value(&hyprpaper, "wallpaper", "fit_mode"),
        );
        let lock = Staged::new(read_value(&hyprlock, "background", "path"));
        let override_initial = override_from_paths(wallpaper.original(), lock.original());
        let mut tracker = FreshnessTracker::new();
        record(&mut tracker, &hyprpaper);
        record(&mut tracker, &hyprlock);
        let ghost all = seq![paths@.hyprpaper_conf, paths@.hyprlock_conf];
        assert(backing::loaded_upto(all, disk@, 0).baselines == Seq::<(Seq<char>, Seq<u8>)>::empty());
        assert(backing::loaded_upto(all, disk@, 2) == backing::loaded(all, disk@));
        assert(tracker@ == backing::loaded_upto(all, disk@, 2).baselines) by {
            reveal_with_fuel(backing::loaded_upto, 3);
        }
        WallpaperModel {
            hyprpaper,
            hyprlock,
            wallpaper,
            fit,
            lock,
            override_on: override_initial,
            override_initial,
            lock_available,
            freshness: tracker,
            paths,
        }
    }

    /// Whether the wallpaper can be changed: `hyprpaper.conf` could be read.
    pub fn wallpaper_editable(&self) -> (r: bool)
        ensures
            r == self@.wallpaper_editable(),
    {
        self.hyprpaper.is_some()
    }

    /// Whether the image behind the lock screen can be changed: there is a lock screen, and
    /// `hyprlock.conf` could be read.
    pub fn lock_editable(&self) -> (r: bool)
        ensures
            r == self@.lock_editable(),
    {
        self.lock_available && self.hyprlock.is_some()
    }

    /// The wallpaper as it will be.
    pub fn wallpaper_path(&self) -> (r: Option<&str>)
        ensures
            match r {
                Some(s) => self@.wallpaper.effective() == Some(s@),
                None => self@.wallpaper.effective() is None,
            },
    {
        self.wallpaper.effective()
    }

    /// The wallpaper as the files have it.
    pub fn wallpaper_original(&self) -> (r: Option<&str>)
        ensures
            match r {
                Some(s) => self@.wallpaper.original == Some(s@),
                None => self@.wallpaper.original is None,
            },
    {
        self.wallpaper.original()
    }

    /// The fits to choose from.
    pub fn fit_options(&self) -> (r: &[String])
        ensures
            text::views(r@) == self@.fit.options,
    {
        self.fit.options()
    }

    /// Where the fit first stands among those to choose from, if it does.
    pub fn selected_fit_index(&self) -> (r: Option<usize>)
        ensures
            match r {
                Some(i) => self@.fit.is_selected(i as int),
                None => !self@.fit.is_offered(),
            },
    {
        self.fit.selected_index()
    }

    /// Whether the lock screen has an image of its own.
    pub fn override_on(&self) -> (r: bool)
        ensures
            r == self@.override_on,
    {
        self.override_on
    }

    /// The image of its own that the lock screen has or would have.
    pub fn lock_path(&self) -> (r: Option<&str>)
        ensures
            match r {
                Some(s) => self@.lock.effective() == Some(s@),
                None => self@.lock.effective() is None,
            },
    {
        self.lock.effective()
    }

    /// The image behind the lock screen as the files have it.
    pub fn lock_original(&self) -> (r: Option<&str>)
        ensures
            match r {
                Some(s) => self@.lock.original == Some(s@),
                None => self@.lock.original is None,
            },
    {
        self.lock.original()
    }

    /// Makes a change of the wallpaper pending, if the image was found valid.
    pub fn stage_wallpaper(&mut self, path: &str, validity: Result<(), ValidationError>) -> (r:
        Result<(), ValidationError>)
        ensures
            r == validity,
            final(self)@ == match validity {
                Ok(_) => Wallpaper { wallpaper: old(self)@.wallpaper.stage(path@), ..old(self)@ },
                Err(_) => old(self)@,
            },
    {
        if validity.is_ok() {
            self.wallpaper.stage(path);
        }
        validity
    }

    /// Makes a change of the image behind the lock screen pending, if the image was found
    /// valid.
    pub fn stage_lock(&mut self, path: &str, validity: Result<(), ValidationError>) -> (r: Result<
        (),
        ValidationError,
    >)
        ensures
            r == validity,
            final(self)@ == match validity {
                Ok(_) => Wallpaper { lock: old(self)@.lock.stage(path@), ..old(self)@ },
                Err(_) => old(self)@,
            },
    {
        if validity.is_ok() {
            self.lock.stage(path);
        }
        validity
    }

    /// Makes a change of the fit pending.
    pub fn stage_fit(&mut self, fit: &str)
        ensures
            final(self)@ == (Wallpaper {
                fit: old(self)@.fit.with(old(self)@.fit.value.stage(fit@)),
                ..old(self)@
            }),
    {
        self.fit.stage(fit);
    }

    /// Says whether the lock screen is to have an image of its own.
    pub fn set_override(&mut self, on: bool)
        ensures
            final(self)@ == (Wallpaper { override_on: on, ..old(self)@ }),
    {
        self.override_on = on;
    }

    fn hyprpaper_write_needed(&self) -> (r: bool)
        ensures
            r == self@.hyprpaper_needed(),
    {
        self.wallpaper_editable() && (self.wallpaper.is_changed() || self.fit.is_changed())
    }

    fn effective_lock(&self) -> (r: Option<&str>)
        ensures
            match r {
                Some(s) => self@.effective_lock() == Some(s@),
                None => self@.effective_lock() is None,
            },
    {
        if self.override_on {
            self.lock.effective()
        } else {
            self.wallpaper.effective()
        }
    }

    fn hyprlock_write_needed(&self) -> (r: bool)
        ensures
            r == self@.hyprlock_needed(),
    {
        if !self.lock_editable() {
            return false;
        }
        match self.effective_lock() {
            Some(path) => !same_optional(Some(path), self.lock.original()),
            None => false,
        }
    }

    /// Whether a change is pending.
    pub fn is_dirty(&self) -> (r: bool)
        ensures
            r == self@.is_dirty(),
    {
        self.hyprpaper_write_needed() || self.hyprlock_write_needed()
    }

    /// Whether a change of the wallpaper itself is pending.
    pub fn wallpaper_changed(&self) -> (r: bool)
        ensures
            r == self@.wallpaper.is_changed(),
    {
        self.wallpaper.is_changed()
    }

    /// Forgets the pending changes.
    pub fn reset(&mut self)
        ensures
            final(self)@ == old(self)@.reset(),
    {
        self.wallpaper.reset();
        self.fit.reset();
        self.lock.reset();
        self.override_on = self.override_initial;
    }

    /// Whether either file changed on disk.
    pub fn check_conflict(&self, disk: &Files) -> (r: bool)
        ensures
            r == !freshness::unchanged(self@.baselines, disk@),
    {
        let found = self.freshness.check_conflicts(disk);
        proof {
            freshness::lemma_no_conflicts(self@.baselines, disk@);
            assert(freshness::conflict_models(found@).len() == found@.len());
        }
        found.len() > 0
    }

    /// Reads the images again.
    pub fn reload(&self, disk: &Files) -> (r: WallpaperModel)
        ensures
            r@ == loaded(self@.paths, self@.lock_available, disk@),
    {
        WallpaperModel::load(self.paths.clone(), self.lock_available, disk)
    }

    /// What the pending changes contribute to an Apply: nothing where there are none, or where
    /// no file can take one.
    pub fn apply_contribution(&self) -> (r: Option<WallpaperApply>)
        ensures
            match r {
                Some(contribution) => {
                    &&& self@.is_dirty()
                    &&& self@.rendered().writes.len() > 0
                    &&& apply::write_models(contribution.writes@) == self@.rendered().writes
                    &&& contribution.reload_params@ == self@.reload()
                    &&& model::value_models(contribution.validations@) == self@.validations()
                },
                None => !self@.is_dirty() || self@.rendered().writes.len() == 0,
            },
    {
        if !self.is_dirty() {
            return None;
        }
        let (writes, _) = self.render_writes();
        assert(apply::write_models(writes@).len() == writes@.len());
        if writes.len() == 0 {
            return None;
        }
        Some(
            WallpaperApply {
                writes,
                reload_params: self.reload_params(),
                validations: self.validations(),
            },
        )
    }

    /// Takes the pending changes for written, each that a file took.
    pub fn commit(&mut self)
        ensures
            final(self)@ == old(self)@.commit(),
    {
        let ghost before = self@;
        let (writes, written) = self.render_writes();
        let ghost all = apply::write_models(writes@);
        let mut i: usize = 0;
        while i < writes.len()
            invariant
                i <= writes.len(),
                all == apply::write_models(writes@),
                self@ == before.with_writes_upto(all, i as int),
            decreases writes.len() - i,
        {
            assert(all[i as int] == writes@[i as int]@);
            self.absorb(&writes[i]);
            i += 1;
        }
        proof {
            lemma_writes_keep_values(before, all, all.len() as int);
        }
        let new_lock = text::owned(self.effective_lock());
        if written.wallpaper {
            self.wallpaper.commit();
        }
        if written.fit {
            self.fit.commit();
        }
        if written.lock {
            self.lock.rebase(new_lock);
        }
        self.override_initial = override_from_paths(
            self.wallpaper.original(),
            self.lock.original(),
        );
    }

    fn absorb(&mut self, write: &FileWrite)
        ensures
            final(self)@ == old(self)@.with_write(write@),
    {
        self.freshness.record_bytes(write.path.as_str(), &write.contents);
        if let Some(text) = decode(&write.contents) {
            self.set_backing_text(write.path.as_str(), text);
        }
    }

    fn set_backing_text(&mut self, path: &str, text: String)
        ensures
            final(self)@ == old(self)@.with_text(path@, text@),
    {
        let first = match &self.hyprpaper {
            Some(file) => text::same_text(file.path(), path),
            None => false,
        };
        let second = match &self.hyprlock {
            Some(file) => text::same_text(file.path(), path),
            None => false,
        };
        if first {
            if let Some(mut file) = self.hyprpaper.take() {
                file.set_text(text);
                self.hyprpaper = Some(file);
            }
        } else if second {
            if let Some(mut file) = self.hyprlock.take() {
                file.set_text(text);
                self.hyprlock = Some(file);
            }
        }
    }

    fn render_writes(&self) -> (r: (Vec<FileWrite>, WrittenWallpaperValues))
        ensures
            apply::write_models(r.0@) == self@.rendered().writes,
            r.1 == self@.rendered().written,
    {
        let mut writes: Vec<FileWrite> = Vec::new();
        let mut written = WrittenWallpaperValues { wallpaper: false, fit: false, lock: false };
        assert(apply::write_models(writes@) =~= Seq::<apply::Write>::empty());
        if self.hyprpaper_write_needed() {
            if let Some(file) = &self.hyprpaper {
                let (write, values) = self.render_hyprpaper(file);
                written = values;
                if let Some(write) = write {
                    writes.push(write);
                    assert(apply::write_models(writes@) =~= seq![write@]);
                }
            }
        }
        if self.hyprlock_write_needed() {
            if let Some(file) = &self.hyprlock {
                let ghost before = apply::write_models(writes@);
                match self.render_hyprlock(file) {
                    Some(write) => {
                        written.lock = true;
                        writes.push(write);
                        assert(apply::write_models(writes@) =~= before + seq![write@]);
                    },
                    None => {
                        assert(before + Seq::<apply::Write>::empty() =~= before);
                    },
                }
            }
        }
        (writes, written)
    }

    fn render_hyprpaper(&self, file: &BackingText) -> (r: (
        Option<FileWrite>,
        WrittenWallpaperValues,
    ))
        ensures
            ({
                let expected = self@.rendered_hyprpaper(file@);
                &&& r.1 == expected.written
                &&& match r.0 {
                    Some(write) => expected.writes == seq![write@],
                    None => expected.writes.len() == 0,
                }
            }),
    {
        let (mut parsed, _) = HyprlangFile::parse(file.text());
        let mut changed_keys: Vec<String> = Vec::new();
        let mut written = WrittenWallpaperValues { wallpaper: false, fit: false, lock: false };
        if self.wallpaper.is_changed() {
            if let Some(path) = self.wallpaper.effective() {
                match parsed.set_value(&key_path("wallpaper", "path"), path) {
                    Ok(()) => {
                        changed_keys.push("wallpaper path".to_owned());
                        written.wallpaper = true;
                    },
                    Err(_) => {},
                }
            }
        }
        assert(parsed@ == self@.with_wallpaper(file@.1));
        if self.fit.is_changed() {
            if let Some(fit) = self.fit.effective() {
                match parsed.set_value(&key_path("wallpaper", "fit_mode"), fit) {
                    Ok(()) => {
                        changed_keys.push("fit mode".to_owned());
                        written.fit = true;
                    },
                    Err(_) => {},
                }
            }
        }
        let ghost expected = self@.rendered_hyprpaper(file@);
        assert(written == expected.written);
        assert(text::views(changed_keys@) =~= (if written.wallpaper {
            seq!["wallpaper path"@]
        } else {
            Seq::empty()
        }) + (if written.fit {
            seq!["fit mode"@]
        } else {
            Seq::empty()
        }));
        assert(text::views(changed_keys@).len() == changed_keys@.len());
        if changed_keys.len() == 0 {
            return (None, written);
        }
        let write = FileWrite {
            path: file.path().to_owned(),
            contents: encode(parsed.emit().as_str()),
            changed_keys,
            backing: BackingFile::HyprpaperConf,
            validation: if written.wallpaper {
                WriteValidation::InPlan
            } else {
                WriteValidation::NotNeeded
            },
        };
        assert(expected.writes =~= seq![write@]);
        (Some(write), written)
    }

    fn render_hyprlock(&self, file: &BackingText) -> (r: Option<FileWrite>)
        ensures
            match r {
                Some(write) => self@.rendered_hyprlock(file@) == seq![write@],
                None => self@.rendered_hyprlock(file@).len() == 0,
            },
    {
        let path = match self.effective_lock() {
            Some(path) => path,
            None => {
                return None;
            },
        };
        let (mut parsed, _) = HyprlangFile::parse(file.text());
        match parsed.set_value(&key_path("background", "path"), path) {
            Ok(()) => {
                let mut changed_keys: Vec<String> = Vec::new();
                changed_keys.push("lock background path".to_owned());
                assert(text::views(changed_keys@) =~= seq!["lock background path"@]);
                let write = FileWrite {
                    path: file.path().to_owned(),
                    contents: encode(parsed.emit().as_str()),
                    changed_keys,
                    backing: BackingFile::HyprlockConf,
                    validation: WriteValidation::InPlan,
                };
                assert(self@.rendered_hyprlock(file@) =~= seq![write@]);
                Some(write)
            },
            Err(_) => None,
        }
    }

    fn reload_params(&self) -> (r: ReloadParams)
        ensures
            r@ == self@.reload(),
    {
        let (_, written) = self.render_writes();
        let live = written.wallpaper || written.fit;
        ReloadParams {
            wallpaper: if live {
                text::owned(self.wallpaper.effective())
            } else {
                None
            },
            fit: if live {
                text::owned(self.fit.effective())
            } else {
                None
            },
            cursor: None,
            gtk_theme: None,
            icon_theme: None,
        }
    }

    fn validations(&self) -> (r: Vec<(SettingId, SettingValue)>)
        ensures
            model::value_models(r@) == self@.validations(),
    {
        let (_, written) = self.render_writes();
        let mut r: Vec<(SettingId, SettingValue)> = Vec::new();
        if written.wallpaper {
            if let Some(path) = self.wallpaper.effective() {
                r.push((SettingId::WallpaperPath, SettingValue::Text(path.to_owned())));
            }
        }
        if written.lock {
            if let Some(path) = self.effective_lock() {
                r.push((SettingId::LockBackgroundPath, SettingValue::Text(path.to_owned())));
            }
        }
        assert(model::value_models(r@) =~= self@.validations());
        r
    }
}

/// Noting writes changes none of the values.
pub proof fn lemma_writes_keep_values(before: Wallpaper, writes: Seq<apply::Write>, n: int)
    ensures
        ({
            let after = before.with_writes_upto(writes, n);
            &&& after.wallpaper == before.wallpaper
            &&& after.fit == before.fit
            &&& after.lock == before.lock
            &&& after.override_on == before.override_on
            &&& after.override_initial == before.override_initial
            &&& after.lock_available == before.lock_available
            &&& after.paths == before.paths
        }),
    decreases n,
{
    if n > 0 {
        lemma_writes_keep_values(before, writes, n - 1);
    }
}

} // verus!
