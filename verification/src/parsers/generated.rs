//! Reading the files that the palette generator writes, and the sources it writes them from.
//!
//! A generated file begins with the comment `# Generated from colors/<scheme> …`, which names
//! the scheme in use. None of these files is ever edited here.

use crate::disk;
use crate::disk::Files;
use crate::parsers::palette;
use crate::parsers::palette::{PaletteFile, SchemaValidation, PALETTE_KEYS};
use crate::search;
use crate::text;
use crate::text::{chars, is_whitespace, lines_of, trimmed_start};
use vstd::prelude::*;
use vstd::slice::slice_subrange;

verus! {

/// The scheme in use.
#[derive(Clone, Debug, PartialEq, Eq)]
pub enum ActiveScheme {
    /// The scheme with this name.
    Named(String),
    /// No header says which.
    Unknown,
}

impl ActiveScheme {
    /// The scheme's name, where it is known.
    pub fn name(&self) -> (r: Option<&str>)
        ensures
            match *self {
                ActiveScheme::Named(name) => r matches Some(s) && s@ == name@,
                ActiveScheme::Unknown => r is None,
            },
    {
        match self {
            ActiveScheme::Named(name) => Some(name.as_str()),
            ActiveScheme::Unknown => None,
        }
    }
}

/// How many characters of `s` stand before its first white space.
pub open spec fn word_len(s: Seq<char>) -> int
    decreases s.len(),
{
    if s.len() == 0 || text::is_space(s[0]) {
        0
    } else {
        1 + word_len(s.drop_first())
    }
}

/// The first word of `s`; nothing where `s` has none.
pub open spec fn first_word(s: Seq<char>) -> Seq<char> {
    text::trim_start(s).take(word_len(text::trim_start(s)))
}

/// What follows the first word of `s`.
pub open spec fn after_word(s: Seq<char>) -> Seq<char> {
    text::trim_start(s).skip(word_len(text::trim_start(s)))
}

/// The small form of an ASCII letter; any other character as it is.
pub open spec fn lower(c: char) -> char {
    if 0x41 <= c as u32 <= 0x5a {
        (c as u32 + 0x20) as char
    } else {
        c
    }
}

/// `s` with every ASCII letter in its small form.
pub open spec fn lowercase(s: Seq<char>) -> Seq<char> {
    s.map_values(|c: char| lower(c))
}

/// The path that a header line names, if the line is a comment whose first two words are
/// `Generated from`, in any case.
pub open spec fn header_path(line: Seq<char>) -> Option<Seq<char>> {
    let body = text::trim_start(line);
    let rest = body.skip(1);
    if body.len() > 0 && body[0] == '#' && lowercase(first_word(rest)) == "generated"@
        && lowercase(first_word(after_word(rest))) == "from"@ {
        Some(first_word(after_word(after_word(rest))))
    } else {
        None
    }
}

/// The scheme that a header line names, if it names one: what follows `colors/` in its path.
pub open spec fn scheme_of(line: Seq<char>) -> Option<Seq<char>> {
    match header_path(line) {
        Some(path) => if path.len() > 7 && lowercase(path.take(7)) == "colors/"@ {
            Some(path.skip(7))
        } else {
            None
        },
        None => None,
    }
}

/// The lines that name a scheme.
pub open spec fn naming(lines: Seq<Seq<char>>) -> spec_fn(int) -> bool {
    |i: int| scheme_of(lines[i]) is Some
}

/// The scheme that the first header of a text names, if there is one.
pub open spec fn detected(contents: Seq<char>) -> Option<Seq<char>> {
    let lines = text::split_lines(contents);
    match search::first_where(lines.len() as int, naming(lines)) {
        Some(i) => scheme_of(lines[i]),
        None => None,
    }
}

pub proof fn lemma_word_len(s: Seq<char>)
    ensures
        0 <= word_len(s) <= s.len(),
        forall|i: int| 0 <= i < word_len(s) ==> !text::is_space(#[trigger] s[i]),
        word_len(s) < s.len() ==> text::is_space(s[word_len(s)]),
    decreases s.len(),
{
    if s.len() > 0 && !text::is_space(s[0]) {
        let rest = s.drop_first();
        lemma_word_len(rest);
        assert forall|i: int| 0 <= i < word_len(s) implies !text::is_space(#[trigger] s[i]) by {
            if i > 0 {
                assert(s[i] == rest[i - 1]);
            }
        }
    }
}

/// Splits off the first word.
fn split_word<'a>(s: &'a [char]) -> (r: (&'a [char], &'a [char]))
    ensures
        r.0@ == first_word(s@),
        r.1@ == after_word(s@),
{
    let body = trimmed_start(s);
    let n: usize = body.len();
    let mut i: usize = 0;
    while i < n && !is_whitespace(body[i])
        invariant
            i <= n,
            n == body@.len(),
            forall|j: int| 0 <= j < i ==> !text::is_space(#[trigger] body@[j]),
        decreases n - i,
    {
        i += 1;
    }
    proof {
        lemma_word_len(body@);
    }
    let word = slice_subrange(body, 0, i);
    let rest = slice_subrange(body, i, n);
    assert(word@ =~= first_word(s@));
    assert(rest@ =~= after_word(s@));
    (word, rest)
}

/// Decides whether `s` is `word`, which is in small letters, in any case.
fn is_word(s: &[char], word: &str) -> (r: bool)
    ensures
        r == (lowercase(s@) == word@),
{
    let mut small = String::new();
    let mut i: usize = 0;
    while i < s.len()
        invariant
            i <= s.len(),
            small@ == lowercase(s@).take(i as int),
        decreases s.len() - i,
    {
        let n: u32 = s[i] as u32;
        let c = if 0x41 <= n && n <= 0x5a {
            (n as u8 + 0x20) as char
        } else {
            s[i]
        };
        assert(c == lower(s@[i as int]));
        assert(lowercase(s@).take(i + 1) =~= lowercase(s@).take(i as int).push(c));
        small.push(c);
        i += 1;
    }
    assert(lowercase(s@).take(s@.len() as int) =~= lowercase(s@));
    text::same_text(small.as_str(), word)
}

/// Computes [`scheme_of`].
fn scheme_from_header_line(line: &str) -> (r: Option<String>)
    ensures
        match r {
            Some(scheme) => scheme_of(line@) == Some(scheme@),
            None => scheme_of(line@) is None,
        },
{
    let cs = chars(line);
    let body = trimmed_start(cs.as_slice());
    let n: usize = body.len();
    if n == 0 || body[0] != '#' {
        return None;
    }
    let rest = slice_subrange(body, 1, n);
    assert(rest@ =~= body@.skip(1));
    let (first, rest) = split_word(rest);
    if !is_word(first, "generated") {
        return None;
    }
    let (second, rest) = split_word(rest);
    if !is_word(second, "from") {
        return None;
    }
    let (path, _) = split_word(rest);
    let len: usize = path.len();
    if len <= 7 {
        return None;
    }
    let prefix = slice_subrange(path, 0, 7);
    assert(prefix@ =~= path@.take(7));
    if !is_word(prefix, "colors/") {
        return None;
    }
    let scheme = slice_subrange(path, 7, len);
    assert(scheme@ =~= path@.skip(7));
    Some(text::text(scheme))
}

/// Finds the scheme in use from the contents of a generated file: the one that the first
/// header names.
pub fn detect_active_scheme(generated_file_contents: &str) -> (r: ActiveScheme)
    ensures
        match detected(generated_file_contents@) {
            Some(scheme) => r matches ActiveScheme::Named(name) && name@ == scheme,
            None => r is Unknown,
        },
{
    let lines = lines_of(generated_file_contents);
    let ghost all = text::split_lines(generated_file_contents@);
    let ghost wanted = naming(all);
    let mut i: usize = 0;
    while i < lines.len()
        invariant
            i <= lines.len(),
            all == text::split_lines(generated_file_contents@),
            all == text::views(lines@),
            wanted == naming(all),
            forall|j: int| 0 <= j < i ==> !#[trigger] wanted(j),
        decreases lines.len() - i,
    {
        assert(all[i as int] == lines@[i as int]@);
        if let Some(scheme) = scheme_from_header_line(lines[i].as_str()) {
            proof {
                search::lemma_first_where_is(all.len() as int, wanted, i as int);
            }
            return ActiveScheme::Named(scheme);
        }
        i += 1;
    }
    proof {
        search::lemma_first_where(all.len() as int, wanted);
    }
    ActiveScheme::Unknown
}

/// The scheme that the generated file at a path names, if it can be read and names one.
pub open spec fn detected_at(disk: Seq<(Seq<char>, Seq<u8>)>, path: Seq<char>) -> Option<
    Seq<char>,
> {
    match disk::text_of(disk, path) {
        Some(contents) => detected(contents),
        None => None,
    }
}

/// Finds the scheme in use from the generated file at a path. It is unknown where the file
/// cannot be read.
pub fn read_active_scheme(generated_file_path: &str, disk: &Files) -> (r: ActiveScheme)
    ensures
        match detected_at(disk@, generated_file_path@) {
            Some(scheme) => r matches ActiveScheme::Named(name) && name@ == scheme,
            None => r is Unknown,
        },
{
    match disk.text(generated_file_path) {
        Some(contents) => detect_active_scheme(contents.as_str()),
        None => ActiveScheme::Unknown,
    }
}

/// One color of a scheme.
#[derive(Clone, Debug, PartialEq, Eq)]
pub struct SwatchColor {
    key: &'static str,
    value: String,
}

/// The mathematical counterpart of [`SwatchColor`].
pub struct Color {
    /// The palette key.
    pub key: Seq<char>,
    /// The value that the file gives it.
    pub value: Seq<char>,
}

impl View for SwatchColor {
    type V = Color;

    closed spec fn view(&self) -> Color {
        Color { key: self.key@, value: self.value@ }
    }
}

/// The models of the given colors.
pub open spec fn color_models(colors: Seq<SwatchColor>) -> Seq<Color> {
    colors.map_values(|color: SwatchColor| color@)
}

impl SwatchColor {
    /// The palette key.
    pub fn key(&self) -> (r: &'static str)
        ensures
            r@ == self@.key,
    {
        self.key
    }

    /// The value that the file gives it.
    pub fn value(&self) -> (r: &str)
        ensures
            r@ == self@.value,
    {
        self.value.as_str()
    }
}

/// The colors of a scheme, for display.
#[derive(Debug, PartialEq, Eq)]
pub struct SchemeSwatch {
    colors: Vec<SwatchColor>,
    validation: SchemaValidation,
}

/// The mathematical counterpart of [`SchemeSwatch`].
pub struct Swatch {
    /// The palette keys that the file defines, in canonical order, with their values.
    pub colors: Seq<Color>,
    /// How the file's keys differ from those of a scheme.
    pub validation: palette::Validation,
}

impl View for SchemeSwatch {
    type V = Swatch;

    closed spec fn view(&self) -> Swatch {
        Swatch { colors: color_models(self.colors@), validation: self.validation@ }
    }
}

/// The colors that a file gives the first `n` palette keys.
pub open spec fn colors_upto(
    lines: Seq<crate::lines::LineModel<palette::Kind>>,
    n: int,
) -> Seq<Color>
    decreases n,
{
    if n <= 0 {
        Seq::empty()
    } else {
        match palette::value_of(lines, palette::schema()[n - 1]) {
            Some(value) => colors_upto(lines, n - 1).push(
                Color { key: palette::schema()[n - 1], value },
            ),
            None => colors_upto(lines, n - 1),
        }
    }
}

/// The swatch of a palette source.
pub open spec fn swatch_of(contents: Seq<char>) -> Swatch {
    let lines = palette::parsed(contents);
    Swatch {
        colors: colors_upto(lines, palette::schema().len() as int),
        validation: palette::validation_of(palette::keys(lines)),
    }
}

/// The colors with this key.
pub open spec fn keyed(colors: Seq<Color>, key: Seq<char>) -> spec_fn(int) -> bool {
    |i: int| colors[i].key == key
}

impl SchemeSwatch {
    /// The palette keys that the file defines, in canonical order, with their values.
    pub fn colors(&self) -> (r: &[SwatchColor])
        ensures
            color_models(r@) == self@.colors,
    {
        self.colors.as_slice()
    }

    /// The value of `key`, if the file defines it.
    pub fn color(&self, key: &str) -> (r: Option<&str>)
        ensures
            match search::first_where(self@.colors.len() as int, keyed(self@.colors, key@)) {
                Some(i) => r matches Some(value) && value@ == self@.colors[i].value,
                None => r is None,
            },
    {
        let ghost all = self@.colors;
        let ghost wanted = keyed(all, key@);
        let mut i: usize = 0;
        while i < self.colors.len()
            invariant
                i <= self.colors.len(),
                all == color_models(self.colors@),
                wanted == keyed(all, key@),
                forall|j: int| 0 <= j < i ==> !#[trigger] wanted(j),
            decreases self.colors.len() - i,
        {
            assert(all[i as int] == self.colors@[i as int]@);
            if text::same_text(self.colors[i].key, key) {
                proof {
                    search::lemma_first_where_is(all.len() as int, wanted, i as int);
                }
                return Some(self.colors[i].value.as_str());
            }
            i += 1;
        }
        proof {
            search::lemma_first_where(all.len() as int, wanted);
        }
        None
    }

    /// How the file's keys differ from those of a scheme.
    pub fn validation(&self) -> (r: &SchemaValidation)
        ensures
            r@ == self@.validation,
    {
        &self.validation
    }
}

/// Reads the colors of a scheme from the contents of its source.
pub fn parse_scheme_swatch(scheme_contents: &str) -> (r: SchemeSwatch)
    ensures
        r@ == swatch_of(scheme_contents@),
{
    let (file, _) = PaletteFile::parse(scheme_contents);
    let ghost lines = palette::parsed(scheme_contents@);
    let names = PALETTE_KEYS;
    assert(palette::static_views(names@) =~= palette::schema());
    let mut colors: Vec<SwatchColor> = Vec::new();
    let mut i: usize = 0;
    while i < 17
        invariant
            i <= 17,
            file@ == lines,
            palette::static_views(names@) == palette::schema(),
            color_models(colors@) == colors_upto(lines, i as int),
        decreases 17 - i,
    {
        let key = names[i];
        assert(palette::static_views(names@)[i as int] == key@);
        if let Some(value) = file.value(key) {
            let ghost before = color_models(colors@);
            let color = SwatchColor { key, value: value.to_owned() };
            colors.push(color);
            assert(color_models(colors@) =~= before.push(color@));
        }
        i += 1;
    }
    SchemeSwatch { colors, validation: file.validate() }
}

/// Reads the colors of a scheme from its source at a path, if that can be read.
pub fn read_scheme_swatch(scheme_path: &str, disk: &Files) -> (r: Option<SchemeSwatch>)
    ensures
        match disk::text_of(disk@, scheme_path@) {
            Some(contents) => r matches Some(swatch) && swatch@ == swatch_of(contents),
            None => r is None,
        },
{
    match disk.text(scheme_path) {
        Some(contents) => Some(parse_scheme_swatch(contents.as_str())),
        None => None,
    }
}

} // verus!
