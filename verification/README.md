# settings4000

The headless half of a settings program for a Hyprland desktop: it reads the desktop's configuration
files, holds pending changes, and renders them into the files without touching anything else in
them. The library under `src/` is verified with Verus; `app/` is the program around it.

- `src/parsers/`: one parser per file format. Each keeps the exact text of every line, so that a
  file that was only read is written back as it was.
- `src/theme/`: the models of the theme page, that is the color palette, the GTK, icon and cursor
  themes, and the wallpaper with the image behind the lock screen.
- `src/store.rs`, `src/store_write.rs`: the settings store of the other pages.
- `src/freshness.rs`, `src/disk.rs`, `src/apply.rs`: what is known of the files on disk, and what an
  Apply writes.
- `src/laws/`: what holds of these together, as proof functions: what a read gives back of a write,
  what an edit leaves alone, what an Apply leaves on disk.

The library reads no file itself. It takes what the files hold as a `Files` value and gives back the
files to write. JSON is read and written by `serde_json`, whose behaviour is stated, not proved, in
`src/parsers/swaync.rs`; the same holds of `String::from_utf8` in `src/disk.rs` and of
`String::push` in `src/text.rs`.
