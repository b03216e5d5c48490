//! What an Apply is made of: file writes, and the live reloads that follow them.

use crate::text;
use vstd::prelude::*;

verus! {

/// Which configuration file a write concerns; this decides what is reloaded afterwards.
#[derive(Clone, Copy, Debug, PartialEq, Eq, Structural)]
pub enum BackingFile {
    /// A GTK `settings.ini`.
    GtkSettings,
    /// `hyprland.conf`.
    HyprlandConf,
    /// `uwsm/env`.
    UwsmEnv,
    /// `hyprpaper.conf`.
    HyprpaperConf,
    /// `hyprlock.conf`.
    HyprlockConf,
    /// `input.conf`.
    InputConf,
}

/// Where the values of a write are validated.
#[derive(Clone, Copy, Debug, PartialEq, Eq, Structural)]
pub enum WriteValidation {
    /// Among the validations of the same Apply.
    InPlan,
    /// Nowhere: they come from a fixed or discovered list.
    NotNeeded,
}

/// One file to write, whole.
#[derive(Debug, PartialEq, Eq)]
pub struct FileWrite {
    /// Where the file is.
    pub path: String,
    /// What it is to hold.
    pub contents: Vec<u8>,
    /// What changed in it, in words.
    pub changed_keys: Vec<String>,
    /// Which configuration file it is.
    pub backing: BackingFile,
    /// Where its values are validated.
    pub validation: WriteValidation,
}

/// The mathematical counterpart of [`FileWrite`].
pub struct Write {
    /// Where the file is.
    pub path: Seq<char>,
    /// What it is to hold.
    pub contents: Seq<u8>,
    /// What changed in it, in words.
    pub changed_keys: Seq<Seq<char>>,
    /// Which configuration file it is.
    pub backing: BackingFile,
    /// Where its values are validated.
    pub validation: WriteValidation,
}

impl View for FileWrite {
    type V = Write;

    open spec fn view(&self) -> Write {
        Write {
            path: self.path@,
            contents: self.contents@,
            changed_keys: text::views(self.changed_keys@),
            backing: self.backing,
            validation: self.validation,
        }
    }
}

/// The models of the given writes.
pub open spec fn write_models(writes: Seq<FileWrite>) -> Seq<Write> {
    writes.map_values(|write: FileWrite| write@)
}

/// A palette to switch to, by running the generator.
#[derive(Clone, Debug, PartialEq, Eq)]
pub struct PaletteSwitch {
    /// The scheme.
    pub scheme: String,
    /// Where the generator is.
    pub generate_colors: String,
}

/// A cursor to set: both parts are needed for it.
#[derive(Clone, Debug, PartialEq, Eq)]
pub struct CursorValue {
    /// The cursor theme.
    pub theme: String,
    /// The size in pixels.
    pub size: u32,
}

/// The values that the live reloads need; one that is absent is not reloaded.
#[derive(Clone, Debug, PartialEq, Eq)]
pub struct ReloadParams {
    /// The wallpaper to show.
    pub wallpaper: Option<String>,
    /// How the wallpaper fills the screen.
    pub fit: Option<String>,
    /// The cursor to set.
    pub cursor: Option<CursorValue>,
    /// The GTK theme to set.
    pub gtk_theme: Option<String>,
    /// The icon theme to set.
    pub icon_theme: Option<String>,
}

/// The mathematical counterpart of [`ReloadParams`].
pub struct Reload {
    /// The wallpaper to show.
    pub wallpaper: Option<Seq<char>>,
    /// How the wallpaper fills the screen.
    pub fit: Option<Seq<char>>,
    /// The cursor to set: theme and size.
    pub cursor: Option<(Seq<char>, int)>,
    /// The GTK theme to set.
    pub gtk_theme: Option<Seq<char>>,
    /// The icon theme to set.
    pub icon_theme: Option<Seq<char>>,
}

impl View for ReloadParams {
    type V = Reload;

    open spec fn view(&self) -> Reload {
        Reload {
            wallpaper: text::optional_view(self.wallpaper),
            fit: text::optional_view(self.fit),
            cursor: match self.cursor {
                Some(cursor) => Some((cursor.theme@, cursor.size as int)),
                None => None,
            },
            gtk_theme: text::optional_view(self.gtk_theme),
            icon_theme: text::optional_view(self.icon_theme),
        }
    }
}

} // verus!
