//! A palette source file: one `key=value` entry per line, each value a color of six
//! hexadecimal digits, and `#` comments.
//!
//! A scheme defines every key of [`PALETTE_KEYS`] once and no other.

use crate::lines;
use crate::lines::{Line, LineModel};
use crate::parsers::assignment;
use crate::search;
use crate::text;
use crate::text::{
    chars, decimal_digit, hex_digit, index_of, letter, lines_of, trimmed, trimmed_start,
    without_terminator,
};
use vstd::prelude::*;
use vstd::slice::slice_subrange;

verus! {

/// The keys that every scheme defines, in their canonical order.
pub const PALETTE_KEYS: [&'static str; 17] = [
    "bg0",
    "bg1",
    "bg2",
    "bg3",
    "fg0",
    "fg1",
    "fg2",
    "accent0",
    "accent1",
    "accent2",
    "accent3",
    "red",
    "orange",
    "yellow",
    "green",
    "blue",
    "purple",
];

/// The keys that every scheme defines, in their canonical order.
pub open spec fn schema() -> Seq<Seq<char>> {
    seq![
        "bg0"@,
        "bg1"@,
        "bg2"@,
        "bg3"@,
        "fg0"@,
        "fg1"@,
        "fg2"@,
        "accent0"@,
        "accent1"@,
        "accent2"@,
        "accent3"@,
        "red"@,
        "orange"@,
        "yellow"@,
        "green"@,
        "blue"@,
        "purple"@,
    ]
}

fn schema_keys() -> (r: [&'static str; 17])
    ensures
        static_views(r@) == schema(),
{
    let r = PALETTE_KEYS;
    assert(static_views(r@) =~= schema());
    r
}

/// What a line was taken for.
#[derive(Debug)]
pub enum LineKind {
    /// Nothing but white space.
    Blank,
    /// The first character that is not white space is `#`.
    Comment,
    /// An entry `key=value`.
    Entry {
        /// The key.
        key: String,
        /// Where in the line the value begins.
        value_start: usize,
        /// Where in the line the value ends.
        value_end: usize,
    },
    /// Anything else.
    Malformed,
}

/// The mathematical counterpart of [`LineKind`].
pub enum Kind {
    /// Nothing but white space.
    Blank,
    /// The first character that is not white space is `#`.
    Comment,
    /// An entry.
    Entry {
        /// The key.
        key: Seq<char>,
        /// Where in the line the value begins.
        value_start: int,
        /// Where in the line the value ends.
        value_end: int,
    },
    /// Anything else.
    Malformed,
}

impl View for LineKind {
    type V = Kind;

    open spec fn view(&self) -> Kind {
        match *self {
            LineKind::Blank => Kind::Blank,
            LineKind::Comment => Kind::Comment,
            LineKind::Entry { key, value_start, value_end } => Kind::Entry {
                key: key@,
                value_start: value_start as int,
                value_end: value_end as int,
            },
            LineKind::Malformed => Kind::Malformed,
        }
    }
}

impl Clone for LineKind {
    fn clone(&self) -> (r: Self)
        ensures
            r@ == self@,
    {
        match self {
            LineKind::Blank => LineKind::Blank,
            LineKind::Comment => LineKind::Comment,
            LineKind::Entry { key, value_start, value_end } => LineKind::Entry {
                key: key.clone(),
                value_start: *value_start,
                value_end: *value_end,
            },
            LineKind::Malformed => LineKind::Malformed,
        }
    }
}

/// Whether a value is a color: six hexadecimal digits.
pub open spec fn is_color(value: Seq<char>) -> bool {
    &&& value.len() == 6
    &&& forall|i: int| 0 <= i < value.len() ==> text::is_hex_digit(#[trigger] value[i])
}

/// Whether `key` can be a palette key: letters, digits and underscores.
pub open spec fn is_key(key: Seq<char>) -> bool {
    &&& key.len() > 0
    &&& forall|i: int|
        0 <= i < key.len() ==> text::is_letter(#[trigger] key[i]) || text::is_digit(key[i])
            || key[i] == '_'
}

/// What a line, terminator included, is taken for.
pub open spec fn classify(raw: Seq<char>) -> Kind {
    let content = text::strip_terminator(raw);
    let body = text::trim_start(content);
    let eq = text::find_char(content, '=');
    let key = text::trim(content.take(eq));
    if body.len() == 0 {
        Kind::Blank
    } else if body[0] == '#' {
        Kind::Comment
    } else if eq < content.len() && is_key(key) {
        Kind::Entry {
            key,
            value_start: assignment::value_start(content, eq),
            value_end: assignment::value_end(content, eq),
        }
    } else {
        Kind::Malformed
    }
}

/// A line and what it is taken for.
pub open spec fn classified(raw: Seq<char>) -> LineModel<Kind> {
    LineModel { raw, kind: classify(raw) }
}

/// The file that a text is: its lines, each classified.
pub open spec fn parsed(input: Seq<char>) -> Seq<LineModel<Kind>> {
    text::split_lines(input).map_values(|raw: Seq<char>| classified(raw))
}

/// Whether the positions recorded for a line lie inside it, in their order.
pub open spec fn spans_fit(line: LineModel<Kind>) -> bool {
    match line.kind {
        Kind::Entry { key, value_start, value_end } => 0 <= value_start <= value_end
            <= line.raw.len(),
        _ => true,
    }
}

pub proof fn lemma_classify_fits(raw: Seq<char>)
    ensures
        spans_fit(classified(raw)),
{
    if classify(raw) is Entry {
        let content = text::strip_terminator(raw);
        text::lemma_find_char(content, '=');
        assignment::lemma_value_span(content, text::find_char(content, '='));
    }
}

/// Decides whether a value is a color: six hexadecimal digits, in either case, without `#`.
pub fn is_bare_hex(value: &str) -> (r: bool)
    ensures
        r == is_color(value@),
{
    let cs = chars(value);
    if cs.len() != 6 {
        return false;
    }
    let mut i: usize = 0;
    while i < cs.len()
        invariant
            i <= cs.len(),
            cs@ == value@,
            forall|j: int| 0 <= j < i ==> text::is_hex_digit(#[trigger] value@[j]),
        decreases cs.len() - i,
    {
        if !hex_digit(cs[i]) {
            return false;
        }
        i += 1;
    }
    true
}

/// Decides [`is_key`].
fn plain_key(key: &[char]) -> (r: bool)
    ensures
        r == is_key(key@),
{
    if key.len() == 0 {
        return false;
    }
    let mut i: usize = 0;
    while i < key.len()
        invariant
            i <= key.len(),
            forall|j: int|
                0 <= j < i ==> text::is_letter(#[trigger] key@[j]) || text::is_digit(key@[j])
                    || key@[j] == '_',
        decreases key.len() - i,
    {
        if !letter(key[i]) && !decimal_digit(key[i]) && key[i] != '_' {
            return false;
        }
        i += 1;
    }
    true
}

/// Classifies one line, terminator included.
fn classify_line(raw: &str) -> (r: LineKind)
    ensures
        r@ == classify(raw@),
{
    let all = chars(raw);
    let content = without_terminator(all.as_slice());
    let body = trimmed_start(content);
    if body.len() == 0 {
        return LineKind::Blank;
    }
    if body[0] == '#' {
        return LineKind::Comment;
    }
    proof {
        text::lemma_find_char(content@, '=');
    }
    if let Some(eq) = index_of(content, '=') {
        let before = slice_subrange(content, 0, eq);
        assert(before@ =~= content@.take(eq as int));
        let key = trimmed(before);
        if plain_key(key) {
            let (value_start, value_end) = assignment::value_span(content, eq);
            return LineKind::Entry { key: text::text(key), value_start, value_end };
        }
    }
    LineKind::Malformed
}

fn classified_line(raw: String) -> (r: Line<LineKind>)
    ensures
        r@ == classified(raw@),
        spans_fit(r@),
{
    proof {
        lemma_classify_fits(raw@);
    }
    let kind = classify_line(raw.as_str());
    Line { raw, kind }
}

/// A problem noticed while parsing. The line it concerns is kept as it is.
#[derive(Clone, Debug, PartialEq, Eq)]
pub struct ParseWarning {
    line: usize,
    kind: ParseWarningKind,
}

/// What is wrong with the line of a [`ParseWarning`].
#[derive(Clone, Debug, PartialEq, Eq)]
pub enum ParseWarningKind {
    /// The line is not blank, a comment or an entry.
    MalformedLine,
    /// The line is an entry, but its value is not a color.
    InvalidHexValue {
        /// The entry's key.
        key: String,
        /// The entry's value.
        value: String,
    },
}

/// The mathematical counterpart of [`ParseWarning`].
pub struct Warning {
    /// The line's number, counted from one.
    pub line: int,
    /// What is wrong with it.
    pub kind: WarningKind,
}

/// The mathematical counterpart of [`ParseWarningKind`].
pub enum WarningKind {
    /// The line is not blank, a comment or an entry.
    MalformedLine,
    /// The line is an entry, but its value is not a color.
    InvalidHexValue {
        /// The entry's key.
        key: Seq<char>,
        /// The entry's value.
        value: Seq<char>,
    },
}

impl View for ParseWarningKind {
    type V = WarningKind;

    open spec fn view(&self) -> WarningKind {
        match *self {
            ParseWarningKind::MalformedLine => WarningKind::MalformedLine,
            ParseWarningKind::InvalidHexValue { key, value } => WarningKind::InvalidHexValue {
                key: key@,
                value: value@,
            },
        }
    }
}

impl View for ParseWarning {
    type V = Warning;

    closed spec fn view(&self) -> Warning {
        Warning { line: self.line as int, kind: self.kind@ }
    }
}

/// The models of the given warnings.
pub open spec fn warning_models(warnings: Seq<ParseWarning>) -> Seq<Warning> {
    warnings.map_values(|warning: ParseWarning| warning@)
}

/// How a warning is put into words.
pub open spec fn warning_text(warning: Warning) -> Seq<char> {
    "line "@ + text::decimal(warning.line) + match warning.kind {
        WarningKind::MalformedLine => ": not a comment, blank line, or key=value entry"@,
        WarningKind::InvalidHexValue { key, value } => ": value of `"@ + key
            + "` is not a bare-hex color (got `"@ + value + "`)"@,
    }
}

impl ParseWarning {
    /// The number of the line, counted from one.
    pub fn line(&self) -> (r: usize)
        ensures
            r == self@.line,
    {
        self.line
    }

    /// What is wrong with the line.
    pub fn kind(&self) -> (r: &ParseWarningKind)
        ensures
            r@ == self@.kind,
    {
        &self.kind
    }

    /// Puts the warning into words.
    pub fn to_string(&self) -> (r: String)
        ensures
            r@ == warning_text(self@),
    {
        let mut r = "line ".to_owned();
        r.append(text::decimal_text(self.line).as_str());
        let ghost head = r@;
        match &self.kind {
            ParseWarningKind::MalformedLine => {
                r.append(": not a comment, blank line, or key=value entry");
            },
            ParseWarningKind::InvalidHexValue { key, value } => {
                r.append(": value of `");
                r.append(key.as_str());
                r.append("` is not a bare-hex color (got `");
                r.append(value.as_str());
                r.append("`)");
                assert(r@ =~= head + (": value of `"@ + key@
                    + "` is not a bare-hex color (got `"@ + value@ + "`)"@));
            },
        }
        r
    }
}

/// The value of an entry.
pub open spec fn value_at(line: LineModel<Kind>) -> Seq<char> {
    line.raw.subrange(line.kind->value_start, line.kind->value_end)
}

/// What is wrong with line `i`, if anything.
pub open spec fn warning_at(lines: Seq<LineModel<Kind>>, i: int) -> Option<Warning> {
    match lines[i].kind {
        Kind::Malformed => Some(Warning { line: i + 1, kind: WarningKind::MalformedLine }),
        Kind::Entry { key, value_start, value_end } => if is_color(value_at(lines[i])) {
            None
        } else {
            Some(
                Warning {
                    line: i + 1,
                    kind: WarningKind::InvalidHexValue { key, value: value_at(lines[i]) },
                },
            )
        },
        _ => None,
    }
}

/// What is wrong with the first `n` lines, in the order of the lines.
pub open spec fn warnings_upto(lines: Seq<LineModel<Kind>>, n: int) -> Seq<Warning>
    decreases n,
{
    if n <= 0 {
        Seq::empty()
    } else {
        match warning_at(lines, n - 1) {
            Some(warning) => warnings_upto(lines, n - 1).push(warning),
            None => warnings_upto(lines, n - 1),
        }
    }
}

/// What is wrong with a file.
pub open spec fn warnings(lines: Seq<LineModel<Kind>>) -> Seq<Warning> {
    warnings_upto(lines, lines.len() as int)
}

fn warning_for(line: &Line<LineKind>, number: usize) -> (r: Option<ParseWarning>)
    requires
        spans_fit(line@),
        number > 0,
    ensures
        match r {
            Some(warning) => warning_at(Seq::new(number as nat, |i: int| line@), number - 1)
                == Some(warning@),
            None => warning_at(Seq::new(number as nat, |i: int| line@), number - 1) is None,
        },
{
    match &line.kind {
        LineKind::Malformed => Some(
            ParseWarning { line: number, kind: ParseWarningKind::MalformedLine },
        ),
        LineKind::Entry { key, value_start, value_end } => {
            let value = line.raw.as_str().substring_char(*value_start, *value_end);
            if is_bare_hex(value) {
                None
            } else {
                Some(
                    ParseWarning {
                        line: number,
                        kind: ParseWarningKind::InvalidHexValue {
                            key: key.clone(),
                            value: value.to_owned(),
                        },
                    },
                )
            }
        },
        _ => None,
    }
}

/// The keys of the entries among the first `n` lines, in order.
pub open spec fn keys_upto(lines: Seq<LineModel<Kind>>, n: int) -> Seq<Seq<char>>
    decreases n,
{
    if n <= 0 {
        Seq::empty()
    } else if lines[n - 1].kind is Entry {
        keys_upto(lines, n - 1).push(lines[n - 1].kind->key)
    } else {
        keys_upto(lines, n - 1)
    }
}

/// The keys of a file's entries, in order.
pub open spec fn keys(lines: Seq<LineModel<Kind>>) -> Seq<Seq<char>> {
    keys_upto(lines, lines.len() as int)
}

/// The given texts, each where it first stands.
pub open spec fn distinct(texts: Seq<Seq<char>>) -> Seq<Seq<char>>
    decreases texts.len(),
{
    if texts.len() == 0 {
        Seq::empty()
    } else if distinct(texts.drop_last()).contains(texts.last()) {
        distinct(texts.drop_last())
    } else {
        distinct(texts.drop_last()).push(texts.last())
    }
}

/// Those of the given texts for which `p` holds, in order.
pub open spec fn keep(texts: Seq<Seq<char>>, p: spec_fn(Seq<char>) -> bool) -> Seq<Seq<char>>
    decreases texts.len(),
{
    if texts.len() == 0 {
        Seq::empty()
    } else if p(texts.last()) {
        keep(texts.drop_last(), p).push(texts.last())
    } else {
        keep(texts.drop_last(), p)
    }
}

/// A key that no scheme defines.
pub open spec fn foreign() -> spec_fn(Seq<char>) -> bool {
    |key: Seq<char>| !schema().contains(key)
}

/// A key that stands more than once.
pub open spec fn repeated(keys: Seq<Seq<char>>) -> spec_fn(Seq<char>) -> bool {
    |key: Seq<char>| text::times(keys, key) > 1
}

/// A key that does not stand anywhere.
pub open spec fn absent(keys: Seq<Seq<char>>) -> spec_fn(Seq<char>) -> bool {
    |key: Seq<char>| !keys.contains(key)
}

/// How a file's keys differ from those of a scheme.
#[derive(Debug, Default, PartialEq, Eq)]
pub struct SchemaValidation {
    unknown_keys: Vec<String>,
    missing_keys: Vec<&'static str>,
    duplicate_keys: Vec<String>,
}

/// The mathematical counterpart of [`SchemaValidation`].
pub struct Validation {
    /// The keys that no scheme defines, each where it first stands.
    pub unknown: Seq<Seq<char>>,
    /// The keys of a scheme that are missing, in canonical order.
    pub missing: Seq<Seq<char>>,
    /// The keys that stand more than once, each where it first stands.
    pub duplicate: Seq<Seq<char>>,
}

impl Validation {
    /// Whether the keys are those of a scheme: each once, and no other.
    pub open spec fn is_valid(self) -> bool {
        self.unknown.len() == 0 && self.missing.len() == 0 && self.duplicate.len() == 0
    }
}

impl View for SchemaValidation {
    type V = Validation;

    closed spec fn view(&self) -> Validation {
        Validation {
            unknown: text::views(self.unknown_keys@),
            missing: static_views(self.missing_keys@),
            duplicate: text::views(self.duplicate_keys@),
        }
    }
}

/// The characters of each of the given texts.
pub open spec fn static_views(texts: Seq<&'static str>) -> Seq<Seq<char>> {
    texts.map_values(|s: &'static str| s@)
}

/// How a file's keys differ from those of a scheme.
pub open spec fn validation_of(keys: Seq<Seq<char>>) -> Validation {
    Validation {
        unknown: keep(distinct(keys), foreign()),
        missing: keep(schema(), absent(keys)),
        duplicate: keep(distinct(keys), repeated(keys)),
    }
}

impl SchemaValidation {
    /// Whether the keys are those of a scheme: each once, and no other.
    pub fn is_valid(&self) -> (r: bool)
        ensures
            r == self@.is_valid(),
    {
        self.unknown_keys.len() == 0 && self.missing_keys.len() == 0 && self.duplicate_keys.len()
            == 0
    }

    /// The keys that no scheme defines.
    pub fn unknown_keys(&self) -> (r: &[String])
        ensures
            text::views(r@) == self@.unknown,
    {
        self.unknown_keys.as_slice()
    }

    /// The keys of a scheme that are missing.
    pub fn missing_keys(&self) -> (r: &[&'static str])
        ensures
            static_views(r@) == self@.missing,
    {
        self.missing_keys.as_slice()
    }

    /// The keys that stand more than once.
    pub fn duplicate_keys(&self) -> (r: &[String])
        ensures
            text::views(r@) == self@.duplicate,
    {
        self.duplicate_keys.as_slice()
    }
}

/// A failed edit. The file is as it was.
#[derive(Clone, Debug, PartialEq, Eq)]
pub enum SetValueError {
    /// The file has no entry for this key.
    UnknownKey(String),
    /// The value is not a color.
    InvalidValue(String),
}

impl SetValueError {
    /// Puts the failure into words.
    pub fn to_string(&self) -> (r: String)
        ensures
            r@ == match *self {
                SetValueError::UnknownKey(key) => "no palette entry named `"@ + key@
                    + "` to edit"@,
                SetValueError::InvalidValue(value) => "`"@ + value@
                    + "` is not a bare-hex color (expected six hex digits)"@,
            },
    {
        match self {
            SetValueError::UnknownKey(key) => {
                let mut r = "no palette entry named `".to_owned();
                r.append(key.as_str());
                r.append("` to edit");
                r
            },
            SetValueError::InvalidValue(value) => {
                let mut r = "`".to_owned();
                r.append(value.as_str());
                r.append("` is not a bare-hex color (expected six hex digits)");
                r
            },
        }
    }
}

/// The entries for `key`.
pub open spec fn entries(lines: Seq<LineModel<Kind>>, key: Seq<char>) -> spec_fn(int) -> bool {
    |i: int| lines[i].kind is Entry && lines[i].kind->key == key
}

/// The first entry for `key`, if there is one.
pub open spec fn entry_of(lines: Seq<LineModel<Kind>>, key: Seq<char>) -> Option<int> {
    search::first_where(lines.len() as int, entries(lines, key))
}

/// The value that a file gives `key`, if it does.
pub open spec fn value_of(lines: Seq<LineModel<Kind>>, key: Seq<char>) -> Option<Seq<char>> {
    match entry_of(lines, key) {
        Some(i) => Some(value_at(lines[i])),
        None => None,
    }
}

/// An entry with another value.
pub open spec fn with_value(line: LineModel<Kind>, value: Seq<char>) -> LineModel<Kind> {
    match line.kind {
        Kind::Entry { key, value_start, value_end } => LineModel {
            raw: text::splice(line.raw, value_start, value_end, value),
            kind: Kind::Entry { key, value_start, value_end: value_start + value.len() },
        },
        _ => line,
    }
}

/// Whether a value can be set: it is a color, and the file has an entry for the key.
pub open spec fn accepts(lines: Seq<LineModel<Kind>>, key: Seq<char>, value: Seq<char>) -> bool {
    is_color(value) && entry_of(lines, key) is Some
}

/// A file after setting a value, as it was where the value cannot be set.
pub open spec fn after_set(
    lines: Seq<LineModel<Kind>>,
    key: Seq<char>,
    value: Seq<char>,
) -> Seq<LineModel<Kind>> {
    match entry_of(lines, key) {
        Some(i) => if is_color(value) {
            lines.update(i, with_value(lines[i], value))
        } else {
            lines
        },
        None => lines,
    }
}

spec fn optional(i: Option<usize>) -> Option<int> {
    match i {
        Some(i) => Some(i as int),
        None => None,
    }
}

/// A palette source file.
#[derive(Debug)]
pub struct PaletteFile {
    lines: Vec<Line<LineKind>>,
}

impl View for PaletteFile {
    type V = Seq<LineModel<Kind>>;

    closed spec fn view(&self) -> Seq<LineModel<Kind>> {
        lines::models(self.lines@)
    }
}

impl Clone for PaletteFile {
    fn clone(&self) -> (r: Self)
        ensures
            r@ == self@,
    {
        proof {
            use_type_invariant(self);
        }
        let lines = lines::copy_lines(&self.lines);
        assert forall|i: int| 0 <= i < lines@.len() implies spans_fit(#[trigger] lines@[i]@) by {
            assert(spans_fit(self.lines@[i]@));
        }
        PaletteFile { lines }
    }
}

impl PaletteFile {
    #[verifier::type_invariant]
    spec fn well_formed(&self) -> bool {
        forall|i: int| 0 <= i < self.lines@.len() ==> spans_fit(#[trigger] self.lines@[i]@)
    }

    /// Reads a file. Every text is one; what is wrong with it comes as warnings.
    pub fn parse(input: &str) -> (r: (Self, Vec<ParseWarning>))
        ensures
            r.0@ == parsed(input@),
            warning_models(r.1@) == warnings(parsed(input@)),
    {
        let raws = lines_of(input);
        let ghost all = parsed(input@);
        let mut file: Vec<Line<LineKind>> = Vec::new();
        let mut found: Vec<ParseWarning> = Vec::new();
        let mut i: usize = 0;
        while i < raws.len()
            invariant
                i <= raws.len(),
                all == parsed(input@),
                text::split_lines(input@) == text::views(raws@),
                lines::models(file@) == all.take(i as int),
                warning_models(found@) == warnings_upto(all, i as int),
                forall|j: int| 0 <= j < file@.len() ==> spans_fit(#[trigger] file@[j]@),
            decreases raws.len() - i,
        {
            let line = classified_line(raws[i].clone());
            assert(text::split_lines(input@)[i as int] == raws@[i as int]@);
            assert(all[i as int] == line@);
            if let Some(warning) = warning_for(&line, i + 1) {
                let ghost before = warning_models(found@);
                found.push(warning);
                assert(warning_models(found@) =~= before.push(warning@));
            }
            let ghost before = lines::models(file@);
            file.push(line);
            assert(lines::models(file@) =~= before.push(line@));
            assert(all.take(i + 1) =~= all.take(i as int).push(line@));
            i += 1;
        }
        assert(all.take(all.len() as int) =~= all);
        (PaletteFile { lines: file }, found)
    }

    /// Writes the file back.
    pub fn emit(&self) -> (r: String)
        ensures
            r@ == lines::emitted(self@),
    {
        lines::emit_lines(&self.lines)
    }

    /// The value that the file gives `key`, if it does.
    pub fn value(&self, key: &str) -> (r: Option<&str>)
        ensures
            match r {
                Some(value) => value_of(self@, key@) == Some(value@),
                None => value_of(self@, key@) is None,
            },
    {
        match self.find_entry(key) {
            Some(i) => {
                proof {
                    use_type_invariant(&*self);
                    assert(spans_fit(self.lines@[i as int]@));
                }
                let line = &self.lines[i];
                if let LineKind::Entry { key: _, value_start, value_end } = &line.kind {
                    Some(line.raw.as_str().substring_char(*value_start, *value_end))
                } else {
                    None
                }
            },
            None => None,
        }
    }

    /// Sets the value of the first entry for `key` to a color.
    pub fn set_value(&mut self, key: &str, value: &str) -> (r: Result<(), SetValueError>)
        ensures
            r is Ok <==> accepts(old(self)@, key@, value@),
            final(self)@ == after_set(old(self)@, key@, value@),
            !is_color(value@) ==> (r matches Err(SetValueError::InvalidValue(s)) && s@ == value@),
            is_color(value@) && entry_of(old(self)@, key@) is None ==> (r matches Err(
                SetValueError::UnknownKey(s),
            ) && s@ == key@),
    {
        if !is_bare_hex(value) {
            return Err(SetValueError::InvalidValue(value.to_owned()));
        }
        match self.find_entry(key) {
            Some(i) => {
                self.replace_value(i, value);
                Ok(())
            },
            None => Err(SetValueError::UnknownKey(key.to_owned())),
        }
    }

    /// Compares the file's keys with those of a scheme.
    pub fn validate(&self) -> (r: SchemaValidation)
        ensures
            r@ == validation_of(keys(self@)),
    {
        let all = self.entry_keys();
        let ghost model = keys(self@);
        let seen = distinct_keys(&all);
        let ghost firsts = distinct(model);
        let schema_names = schema_keys();
        let mut unknown_keys: Vec<String> = Vec::new();
        let mut duplicate_keys: Vec<String> = Vec::new();
        let mut i: usize = 0;
        while i < seen.len()
            invariant
                i <= seen.len(),
                model == text::views(all@),
                firsts == text::views(seen@),
                static_views(schema_names@) == schema(),
                text::views(unknown_keys@) == keep(firsts.take(i as int), foreign()),
                text::views(duplicate_keys@) == keep(firsts.take(i as int), repeated(model)),
            decreases seen.len() - i,
        {
            let key = &seen[i];
            assert(firsts.take(i + 1).drop_last() =~= firsts.take(i as int));
            assert(firsts.take(i + 1).last() == key@);
            if !names_contain(&schema_names, key.as_str()) {
                let ghost before = text::views(unknown_keys@);
                unknown_keys.push(key.clone());
                assert(text::views(unknown_keys@) =~= before.push(key@));
            }
            if text::count_text(&all, key.as_str()) > 1 {
                let ghost before = text::views(duplicate_keys@);
                duplicate_keys.push(key.clone());
                assert(text::views(duplicate_keys@) =~= before.push(key@));
            }
            i += 1;
        }
        assert(firsts.take(firsts.len() as int) =~= firsts);
        let mut missing_keys: Vec<&'static str> = Vec::new();
        let mut j: usize = 0;
        while j < 17
            invariant
                j <= 17,
                model == text::views(all@),
                static_views(schema_names@) == schema(),
                static_views(missing_keys@) == keep(schema().take(j as int), absent(model)),
            decreases 17 - j,
        {
            let name = schema_names[j];
            assert(static_views(schema_names@)[j as int] == name@);
            assert(schema().take(j + 1).drop_last() =~= schema().take(j as int));
            if !text::contains_text(&all, name) {
                let ghost before = static_views(missing_keys@);
                missing_keys.push(name);
                assert(static_views(missing_keys@) =~= before.push(name@));
            }
            j += 1;
        }
        assert(schema().take(17) =~= schema());
        SchemaValidation { unknown_keys, missing_keys, duplicate_keys }
    }

    fn entry_keys(&self) -> (r: Vec<String>)
        ensures
            text::views(r@) == keys(self@),
    {
        let ghost all = self@;
        let mut r: Vec<String> = Vec::new();
        let mut i: usize = 0;
        while i < self.lines.len()
            invariant
                i <= self.lines.len(),
                all == lines::models(self.lines@),
                text::views(r@) == keys_upto(all, i as int),
            decreases self.lines.len() - i,
        {
            assert(all[i as int] == self.lines@[i as int]@);
            if let LineKind::Entry { key, value_start: _, value_end: _ } = &self.lines[i].kind {
                let ghost before = text::views(r@);
                r.push(key.clone());
                assert(text::views(r@) =~= before.push(key@));
            }
            i += 1;
        }
        r
    }

    fn find_entry(&self, key: &str) -> (r: Option<usize>)
        ensures
            optional(r) == entry_of(self@, key@),
            r matches Some(i) ==> i < self@.len() && self@[i as int].kind is Entry,
    {
        let ghost all = self@;
        let ghost wanted = entries(all, key@);
        let mut i: usize = 0;
        while i < self.lines.len()
            invariant
                i <= self.lines.len(),
                all == lines::models(self.lines@),
                wanted == entries(all, key@),
                forall|j: int| 0 <= j < i ==> !#[trigger] wanted(j),
            decreases self.lines.len() - i,
        {
            assert(all[i as int] == self.lines@[i as int]@);
            if let LineKind::Entry { key: entry_key, value_start: _, value_end: _ } =
                &self.lines[i].kind {
                if text::same_text(entry_key.as_str(), key) {
                    proof {
                        search::lemma_first_where_is(all.len() as int, wanted, i as int);
                    }
                    return Some(i);
                }
            }
            i += 1;
        }
        proof {
            search::lemma_first_where(all.len() as int, wanted);
        }
        None
    }

    fn replace_value(&mut self, index: usize, value: &str)
        requires
            index < old(self)@.len(),
            old(self)@[index as int].kind is Entry,
        ensures
            final(self)@ == old(self)@.update(
                index as int,
                with_value(old(self)@[index as int], value@),
            ),
    {
        proof {
            use_type_invariant(&*self);
            assert(spans_fit(self.lines@[index as int]@));
        }
        let ghost before = self@;
        let line = &self.lines[index];
        if let LineKind::Entry { key, value_start, value_end } = &line.kind {
            let raw = text::spliced(line.raw.as_str(), *value_start, *value_end, value);
            let rest: usize = line.raw.as_str().unicode_len() - *value_end;
            let end: usize = raw.as_str().unicode_len() - rest;
            let edited = Line {
                raw,
                kind: LineKind::Entry {
                    key: key.clone(),
                    value_start: *value_start,
                    value_end: end,
                },
            };
            assert(edited@ == with_value(before[index as int], value@));
            let mut file = self.take_lines();
            file.set(index, edited);
            assert(lines::models(file@) =~= before.update(index as int, edited@));
            self.lines = file;
        }
    }

    fn take_lines(&mut self) -> (r: Vec<Line<LineKind>>)
        ensures
            r == old(self).lines,
    {
        let mut r: Vec<Line<LineKind>> = Vec::new();
        core::mem::swap(&mut self.lines, &mut r);
        r
    }
}

/// Computes [`distinct`].
fn distinct_keys(texts: &Vec<String>) -> (r: Vec<String>)
    ensures
        text::views(r@) == distinct(text::views(texts@)),
{
    let ghost all = text::views(texts@);
    let mut r: Vec<String> = Vec::new();
    let mut i: usize = 0;
    while i < texts.len()
        invariant
            i <= texts.len(),
            all == text::views(texts@),
            text::views(r@) == distinct(all.take(i as int)),
        decreases texts.len() - i,
    {
        assert(all.take(i + 1).drop_last() =~= all.take(i as int));
        assert(all.take(i + 1).last() == texts@[i as int]@);
        if !text::contains_text(&r, texts[i].as_str()) {
            let ghost before = text::views(r@);
            r.push(texts[i].clone());
            assert(text::views(r@) =~= before.push(texts@[i as int]@));
        }
        i += 1;
    }
    assert(all.take(all.len() as int) =~= all);
    r
}

fn names_contain(names: &[&'static str; 17], name: &str) -> (r: bool)
    ensures
        r == static_views(names@).contains(name@),
{
    let mut i: usize = 0;
    while i < 17
        invariant
            i <= 17,
            forall|j: int| 0 <= j < i ==> #[trigger] static_views(names@)[j] != name@,
        decreases 17 - i,
    {
        assert(static_views(names@)[i as int] == names@[i as int]@);
        if text::same_text(names[i], name) {
            return true;
        }
        i += 1;
    }
    false
}

} // verus!
