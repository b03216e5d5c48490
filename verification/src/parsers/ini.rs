//! The `settings.ini` of GTK: `[section]` headers, `key=value` entries and `#` comments.
//!
//! A key that stands more than once in a section has the value of its last entry, and that
//! entry is the one an edit changes. Setting a key that its section lacks adds an entry after
//! the last line of the section that is not blank, laid out like the section's first entry.
//! Setting a key of a section that the file lacks adds the section at the end of the file.

use crate::lines;
use crate::lines::{Line, LineModel};
use crate::parsers::assignment;
use crate::search;
use crate::text;
use crate::text::{
    chars, count_leading_space, has_char, index_of, lines_of, splits_line, trimmed,
    without_terminator,
};
use vstd::prelude::*;
use vstd::slice::slice_subrange;

verus! {

/// What a line was taken for.
#[derive(Debug)]
pub enum LineKind {
    /// Nothing but white space.
    Blank,
    /// The first character that is not white space is `#`.
    Comment,
    /// A section header `[name]`.
    Section {
        /// The section's name.
        name: String,
    },
    /// An entry `key=value`.
    Entry {
        /// The key.
        key: String,
        /// Where in the line the value begins.
        value_start: usize,
        /// Where in the line the value ends.
        value_end: usize,
    },
    /// Anything else.
    Malformed,
}

/// The mathematical counterpart of [`LineKind`].
pub enum Kind {
    /// Nothing but white space.
    Blank,
    /// The first character that is not white space is `#`.
    Comment,
    /// A section header with this name.
    Section {
        /// The section's name.
        name: Seq<char>,
    },
    /// An entry.
    Entry {
        /// The key.
        key: Seq<char>,
        /// Where in the line the value begins.
        value_start: int,
        /// Where in the line the value ends.
        value_end: int,
    },
    /// Anything else.
    Malformed,
}

impl View for LineKind {
    type V = Kind;

    open spec fn view(&self) -> Kind {
        match *self {
            LineKind::Blank => Kind::Blank,
            LineKind::Comment => Kind::Comment,
            LineKind::Section { name } => Kind::Section { name: name@ },
            LineKind::Entry { key, value_start, value_end } => Kind::Entry {
                key: key@,
                value_start: value_start as int,
                value_end: value_end as int,
            },
            LineKind::Malformed => Kind::Malformed,
        }
    }
}

impl Clone for LineKind {
    fn clone(&self) -> (r: Self)
        ensures
            r@ == self@,
    {
        match self {
            LineKind::Blank => LineKind::Blank,
            LineKind::Comment => LineKind::Comment,
            LineKind::Section { name } => LineKind::Section { name: name.clone() },
            LineKind::Entry { key, value_start, value_end } => LineKind::Entry {
                key: key.clone(),
                value_start: *value_start,
                value_end: *value_end,
            },
            LineKind::Malformed => LineKind::Malformed,
        }
    }
}

/// What a line, terminator included, is taken for.
pub open spec fn classify(raw: Seq<char>) -> Kind {
    let content = text::strip_terminator(raw);
    let body = text::trim(content);
    let eq = text::find_char(content, '=');
    let key = text::trim(content.take(eq));
    if body.len() == 0 {
        Kind::Blank
    } else if body[0] == '#' {
        Kind::Comment
    } else if body[0] == '[' {
        if body.len() > 1 && body.last() == ']' {
            Kind::Section { name: text::trim(body.subrange(1, body.len() - 1)) }
        } else {
            Kind::Malformed
        }
    } else if eq < content.len() && key.len() > 0 {
        Kind::Entry {
            key,
            value_start: assignment::value_start(content, eq),
            value_end: assignment::value_end(content, eq),
        }
    } else {
        Kind::Malformed
    }
}

/// A line and what it is taken for.
pub open spec fn classified(raw: Seq<char>) -> LineModel<Kind> {
    LineModel { raw, kind: classify(raw) }
}

/// The file that a text is: its lines, each classified.
pub open spec fn parsed(input: Seq<char>) -> Seq<LineModel<Kind>> {
    text::split_lines(input).map_values(|raw: Seq<char>| classified(raw))
}

/// Whether the positions recorded for a line lie inside it, in their order.
pub open spec fn spans_fit(line: LineModel<Kind>) -> bool {
    match line.kind {
        Kind::Entry { key, value_start, value_end } => 0 <= value_start <= value_end
            <= line.raw.len(),
        _ => true,
    }
}

pub proof fn lemma_classify_fits(raw: Seq<char>)
    ensures
        spans_fit(classified(raw)),
{
    if classify(raw) is Entry {
        let content = text::strip_terminator(raw);
        text::lemma_find_char(content, '=');
        assignment::lemma_value_span(content, text::find_char(content, '='));
    }
}

/// Classifies one line, terminator included.
fn classify_line(raw: &str) -> (r: LineKind)
    ensures
        r@ == classify(raw@),
{
    let all = chars(raw);
    let content = without_terminator(all.as_slice());
    let body = trimmed(content);
    if body.len() == 0 {
        return LineKind::Blank;
    }
    if body[0] == '#' {
        return LineKind::Comment;
    }
    if body[0] == '[' {
        if body.len() > 1 && body[body.len() - 1] == ']' {
            let inner = slice_subrange(body, 1, body.len() - 1);
            return LineKind::Section { name: text::text(trimmed(inner)) };
        }
        return LineKind::Malformed;
    }
    proof {
        text::lemma_find_char(content@, '=');
    }
    if let Some(eq) = index_of(content, '=') {
        let before = slice_subrange(content, 0, eq);
        assert(before@ =~= content@.take(eq as int));
        let key = trimmed(before);
        if key.len() > 0 {
            let (value_start, value_end) = assignment::value_span(content, eq);
            return LineKind::Entry { key: text::text(key), value_start, value_end };
        }
    }
    LineKind::Malformed
}

fn classified_line(raw: String) -> (r: Line<LineKind>)
    ensures
        r@ == classified(raw@),
        spans_fit(r@),
{
    proof {
        lemma_classify_fits(raw@);
    }
    let kind = classify_line(raw.as_str());
    Line { raw, kind }
}

/// A problem noticed while parsing. The line it concerns is kept as it is.
#[derive(Clone, Debug, PartialEq, Eq)]
pub struct ParseWarning {
    line: usize,
    kind: ParseWarningKind,
}

/// What is wrong with the line of a [`ParseWarning`].
#[derive(Clone, Debug, PartialEq, Eq, Structural)]
pub enum ParseWarningKind {
    /// The line is not blank, a comment, a section header or an entry.
    MalformedLine,
}

impl ParseWarning {
    /// The number of the line, counted from one, as a mathematical integer.
    pub closed spec fn at(self) -> int {
        self.line as int
    }

    /// What is wrong with the line.
    pub closed spec fn what(self) -> ParseWarningKind {
        self.kind
    }

    /// The number of the line, counted from one.
    pub fn line(&self) -> (r: usize)
        ensures
            r == self.at(),
    {
        self.line
    }

    /// What is wrong with the line.
    pub fn kind(&self) -> (r: &ParseWarningKind)
        ensures
            *r == self.what(),
    {
        &self.kind
    }

    /// Puts the warning into words.
    pub fn to_string(&self) -> (r: String)
        ensures
            r@ == "line "@ + text::decimal(self.at())
                + ": not a comment, blank line, `[section]` header, or key=value entry"@,
    {
        let mut r = "line ".to_owned();
        r.append(text::decimal_text(self.line).as_str());
        r.append(": not a comment, blank line, `[section]` header, or key=value entry");
        r
    }
}

/// The numbers of the lines that the given warnings concern.
pub open spec fn warned(warnings: Seq<ParseWarning>) -> Seq<int> {
    warnings.map_values(|warning: ParseWarning| warning.at())
}

/// The numbers of the malformed lines among the first `n`, in order.
pub open spec fn malformed_upto(lines: Seq<LineModel<Kind>>, n: int) -> Seq<int>
    decreases n,
{
    if n <= 0 {
        Seq::empty()
    } else if lines[n - 1].kind is Malformed {
        malformed_upto(lines, n - 1).push(n)
    } else {
        malformed_upto(lines, n - 1)
    }
}

/// The numbers of the malformed lines, in order.
pub open spec fn malformed(lines: Seq<LineModel<Kind>>) -> Seq<int> {
    malformed_upto(lines, lines.len() as int)
}

/// What a successful edit did.
#[derive(Clone, Copy, Debug, PartialEq, Eq, Structural)]
pub enum SetOutcome {
    /// The value of an entry was replaced.
    Edited,
    /// An entry was added to a section.
    AppendedKey,
    /// A section was added, with an entry.
    CreatedSection,
}

/// A failed edit. The file is as it was.
#[derive(Clone, Debug, PartialEq, Eq)]
pub enum EditError {
    /// The value would break its line.
    InvalidValue(String),
    /// A new entry cannot have this key.
    InvalidKey(String),
    /// A new section cannot have this name.
    InvalidSection(String),
}

impl EditError {
    /// Puts the failure into words.
    pub fn to_string(&self) -> (r: String)
        ensures
            r@ == match *self {
                EditError::InvalidValue(value) => "`"@ + value@
                    + "` contains a newline or carriage return, which would split the line"@,
                EditError::InvalidKey(key) => "`"@ + key@
                    + "` is not a usable settings key (empty, or contains `=`, a newline, or a carriage return)"@,
                EditError::InvalidSection(section) => "`"@ + section@
                    + "` is not a usable section name (empty, or contains `[`, `]`, a newline, or a carriage return)"@,
            },
    {
        let mut r = "`".to_owned();
        match self {
            EditError::InvalidValue(value) => {
                r.append(value.as_str());
                r.append("` contains a newline or carriage return, which would split the line");
            },
            EditError::InvalidKey(key) => {
                r.append(key.as_str());
                r.append(
                    "` is not a usable settings key (empty, or contains `=`, a newline, or a carriage return)",
                );
            },
            EditError::InvalidSection(section) => {
                r.append(section.as_str());
                r.append(
                    "` is not a usable section name (empty, or contains `[`, `]`, a newline, or a carriage return)",
                );
            },
        }
        r
    }
}

/// Whether a new entry cannot have this key.
pub open spec fn is_unusable_key(key: Seq<char>) -> bool {
    key.len() == 0 || text::breaks_line(key) || key.contains('=')
}

/// Whether a new section cannot have this name.
pub open spec fn is_unusable_section(section: Seq<char>) -> bool {
    section.len() == 0 || text::breaks_line(section) || section.contains('[') || section.contains(']')
}

fn unusable_key(key: &str) -> (r: bool)
    ensures
        r == is_unusable_key(key@),
{
    let cs = chars(key);
    cs.len() == 0 || splits_line(key) || has_char(cs.as_slice(), '=')
}

fn unusable_section(section: &str) -> (r: bool)
    ensures
        r == is_unusable_section(section@),
{
    let cs = chars(section);
    cs.len() == 0 || splits_line(section) || has_char(cs.as_slice(), '[') || has_char(
        cs.as_slice(),
        ']',
    )
}

/// The headers of the sections named `section`.
pub open spec fn headers(lines: Seq<LineModel<Kind>>, section: Seq<char>) -> spec_fn(int) -> bool {
    |i: int| lines[i].kind == (Kind::Section { name: section })
}

/// The headers after line `header`.
pub open spec fn later_headers(lines: Seq<LineModel<Kind>>, header: int) -> spec_fn(int) -> bool {
    |i: int| header < i && lines[i].kind is Section
}

/// The header of the first section named `section`, if there is one.
pub open spec fn header_of(lines: Seq<LineModel<Kind>>, section: Seq<char>) -> Option<int> {
    search::first_where(lines.len() as int, headers(lines, section))
}

/// Where the section with the given header ends: at the next header, or with the file.
pub open spec fn end_of(lines: Seq<LineModel<Kind>>, header: int) -> int {
    match search::first_where(lines.len() as int, later_headers(lines, header)) {
        Some(i) => i,
        None => lines.len() as int,
    }
}

/// The entries for `key` after line `header`.
pub open spec fn entries(
    lines: Seq<LineModel<Kind>>,
    header: int,
    key: Seq<char>,
) -> spec_fn(int) -> bool {
    |i: int| header < i && lines[i].kind is Entry && lines[i].kind->key == key
}

/// The last entry for `key` in the section with the given header, if there is one.
pub open spec fn entry_of(lines: Seq<LineModel<Kind>>, header: int, key: Seq<char>) -> Option<int> {
    search::last_where(end_of(lines, header), entries(lines, header, key))
}

/// The value of an entry.
pub open spec fn value_at(line: LineModel<Kind>) -> Seq<char> {
    line.raw.subrange(line.kind->value_start, line.kind->value_end)
}

/// The value of `key` in the first section named `section`, if there is one.
pub open spec fn value_of(
    lines: Seq<LineModel<Kind>>,
    section: Seq<char>,
    key: Seq<char>,
) -> Option<Seq<char>> {
    match header_of(lines, section) {
        Some(header) => match entry_of(lines, header, key) {
            Some(i) => Some(value_at(lines[i])),
            None => None,
        },
        None => None,
    }
}

/// An entry with another value.
pub open spec fn with_value(line: LineModel<Kind>, value: Seq<char>) -> LineModel<Kind> {
    match line.kind {
        Kind::Entry { key, value_start, value_end } => LineModel {
            raw: text::splice(line.raw, value_start, value_end, value),
            kind: Kind::Entry { key, value_start, value_end: value_start + value.len() },
        },
        _ => line,
    }
}

/// Where the key of an entry ends.
pub open spec fn key_end(line: LineModel<Kind>) -> int {
    text::leading_space(text::strip_terminator(line.raw)) + line.kind->key.len()
}

/// The entries after line `header` whose layout a new entry can take.
pub open spec fn patterns(lines: Seq<LineModel<Kind>>, header: int) -> spec_fn(int) -> bool {
    |i: int|
        header < i && lines[i].kind is Entry && key_end(lines[i]) <= lines[i].kind->value_start
            && lines[i].kind->value_start <= text::content_len(lines[i].raw)
}

/// A new entry for the section with the given header, without a terminator: indented and
/// spaced like the first entry there, else plain.
pub open spec fn entry_text(
    lines: Seq<LineModel<Kind>>,
    header: int,
    key: Seq<char>,
    value: Seq<char>,
) -> Seq<char> {
    match search::first_where(end_of(lines, header), patterns(lines, header)) {
        Some(i) => {
            let raw = lines[i].raw;
            let indent = raw.take(text::leading_space(text::strip_terminator(raw)));
            let gap = raw.subrange(key_end(lines[i]), lines[i].kind->value_start);
            indent + key + gap + value
        },
        None => key + "="@ + value,
    }
}

/// The lines after line `header` that are not blank.
pub open spec fn written(lines: Seq<LineModel<Kind>>, header: int) -> spec_fn(int) -> bool {
    |i: int| header < i && !(lines[i].kind is Blank)
}

/// Where a new entry of the section with the given header goes.
pub open spec fn place_for(lines: Seq<LineModel<Kind>>, header: int) -> int {
    match search::last_where(end_of(lines, header), written(lines, header)) {
        Some(i) => i + 1,
        None => header + 1,
    }
}

/// The file with `end` added to line `i` where that line has no line feed.
pub open spec fn ended_at(
    lines: Seq<LineModel<Kind>>,
    i: int,
    end: Seq<char>,
) -> Seq<LineModel<Kind>> {
    if text::ends_line(lines[i].raw) {
        lines
    } else {
        lines.update(i, LineModel { raw: lines[i].raw + end, ..lines[i] })
    }
}

/// A file with a new entry in the section with the given header.
pub open spec fn with_entry(
    lines: Seq<LineModel<Kind>>,
    header: int,
    key: Seq<char>,
    value: Seq<char>,
) -> Seq<LineModel<Kind>> {
    let end = lines::terminator(lines);
    let place = place_for(lines, header);
    ended_at(lines, place - 1, end).insert(
        place,
        classified(entry_text(lines, header, key, value) + end),
    )
}

/// Whether a file has a line that is not blank.
pub open spec fn has_content(lines: Seq<LineModel<Kind>>) -> bool {
    exists|i: int| 0 <= i < lines.len() && !((#[trigger] lines[i]).kind is Blank)
}

/// A file with a new section that has one entry, after a blank line unless nothing or a blank
/// line stands before it.
pub open spec fn with_section(
    lines: Seq<LineModel<Kind>>,
    section: Seq<char>,
    key: Seq<char>,
    value: Seq<char>,
) -> Seq<LineModel<Kind>> {
    let end = lines::terminator(lines);
    let ended = lines::terminated(lines, end);
    let spaced = if has_content(lines) && !(lines.last().kind is Blank) {
        ended.push(classified(end))
    } else {
        ended
    };
    spaced.push(classified("["@ + section + "]"@ + end)).push(
        classified(key + "="@ + value + end),
    )
}

/// Whether a value can be set.
pub open spec fn accepts(
    lines: Seq<LineModel<Kind>>,
    section: Seq<char>,
    key: Seq<char>,
    value: Seq<char>,
) -> bool {
    !text::breaks_line(value) && match header_of(lines, section) {
        Some(header) => entry_of(lines, header, key) is Some || !is_unusable_key(key),
        None => !is_unusable_key(key) && !is_unusable_section(section),
    }
}

/// A file after setting a value, as it was where the value cannot be set.
pub open spec fn after_set(
    lines: Seq<LineModel<Kind>>,
    section: Seq<char>,
    key: Seq<char>,
    value: Seq<char>,
) -> Seq<LineModel<Kind>> {
    if !accepts(lines, section, key, value) {
        lines
    } else {
        match header_of(lines, section) {
            Some(header) => match entry_of(lines, header, key) {
                Some(i) => lines.update(i, with_value(lines[i], value)),
                None => with_entry(lines, header, key, value),
            },
            None => with_section(lines, section, key, value),
        }
    }
}

/// A `settings.ini` file.
#[derive(Debug)]
pub struct IniFile {
    lines: Vec<Line<LineKind>>,
}

impl View for IniFile {
    type V = Seq<LineModel<Kind>>;

    closed spec fn view(&self) -> Seq<LineModel<Kind>> {
        lines::models(self.lines@)
    }
}

impl Clone for IniFile {
    fn clone(&self) -> (r: Self)
        ensures
            r@ == self@,
    {
        proof {
            use_type_invariant(self);
        }
        let lines = lines::copy_lines(&self.lines);
        assert forall|i: int| 0 <= i < lines@.len() implies spans_fit(#[trigger] lines@[i]@) by {
            assert(spans_fit(self.lines@[i]@));
        }
        IniFile { lines }
    }
}

spec fn optional(i: Option<usize>) -> Option<int> {
    match i {
        Some(i) => Some(i as int),
        None => None,
    }
}

impl IniFile {
    #[verifier::type_invariant]
    spec fn well_formed(&self) -> bool {
        forall|i: int| 0 <= i < self.lines@.len() ==> spans_fit(#[trigger] self.lines@[i]@)
    }

    /// Reads a file. Every text is one; its malformed lines come as warnings.
    pub fn parse(input: &str) -> (r: (Self, Vec<ParseWarning>))
        ensures
            r.0@ == parsed(input@),
            warned(r.1@) == malformed(parsed(input@)),
    {
        let raws = lines_of(input);
        let ghost all = parsed(input@);
        let mut file: Vec<Line<LineKind>> = Vec::new();
        let mut warnings: Vec<ParseWarning> = Vec::new();
        let mut i: usize = 0;
        while i < raws.len()
            invariant
                i <= raws.len(),
                all == parsed(input@),
                text::split_lines(input@) == text::views(raws@),
                lines::models(file@) == all.take(i as int),
                warned(warnings@) == malformed_upto(all, i as int),
                forall|j: int| 0 <= j < file@.len() ==> spans_fit(#[trigger] file@[j]@),
            decreases raws.len() - i,
        {
            let line = classified_line(raws[i].clone());
            assert(text::split_lines(input@)[i as int] == raws@[i as int]@);
            assert(all[i as int] == line@);
            if let LineKind::Malformed = &line.kind {
                let ghost before = warned(warnings@);
                warnings.push(
                    ParseWarning { line: i + 1, kind: ParseWarningKind::MalformedLine },
                );
                assert(warned(warnings@) =~= before.push(i + 1));
            }
            let ghost before = lines::models(file@);
            file.push(line);
            assert(lines::models(file@) =~= before.push(line@));
            assert(all.take(i + 1) =~= all.take(i as int).push(line@));
            i += 1;
        }
        assert(all.take(all.len() as int) =~= all);
        (IniFile { lines: file }, warnings)
    }

    /// A file without a line.
    pub fn empty() -> (r: Self)
        ensures
            r@ == Seq::<LineModel<Kind>>::empty(),
    {
        let r = IniFile { lines: Vec::new() };
        assert(r@ =~= Seq::<LineModel<Kind>>::empty());
        r
    }

    /// Writes the file back.
    pub fn emit(&self) -> (r: String)
        ensures
            r@ == lines::emitted(self@),
    {
        lines::emit_lines(&self.lines)
    }

    /// The value of `key` in the first section named `section`, if there is one.
    pub fn value(&self, section: &str, key: &str) -> (r: Option<&str>)
        ensures
            match r {
                Some(value) => value_of(self@, section@, key@) == Some(value@),
                None => value_of(self@, section@, key@) is None,
            },
    {
        let (header, end) = match self.section_range(section) {
            Some(range) => range,
            None => {
                return None;
            },
        };
        match self.find_entry(header, end, key) {
            Some(i) => {
                proof {
                    use_type_invariant(&*self);
                    assert(spans_fit(self.lines@[i as int]@));
                }
                let line = &self.lines[i];
                if let LineKind::Entry { key: _, value_start, value_end } = &line.kind {
                    Some(line.raw.as_str().substring_char(*value_start, *value_end))
                } else {
                    None
                }
            },
            None => None,
        }
    }

    /// Sets the value of `key` in the first section named `section`, adding the entry, or the
    /// section with the entry, where it is missing.
    pub fn set_value(&mut self, section: &str, key: &str, value: &str) -> (r: Result<
        SetOutcome,
        EditError,
    >)
        ensures
            r is Ok <==> accepts(old(self)@, section@, key@, value@),
            final(self)@ == after_set(old(self)@, section@, key@, value@),
            text::breaks_line(value@) ==> {
                &&& r matches Err(EditError::InvalidValue(s)) && s@ == value@
                &&& final(self)@ == old(self)@
            },
            !text::breaks_line(value@) ==> match header_of(old(self)@, section@) {
                Some(header) => match entry_of(old(self)@, header, key@) {
                    Some(i) => {
                        &&& r == Ok::<SetOutcome, EditError>(SetOutcome::Edited)
                        &&& final(self)@ == old(self)@.update(
                            i,
                            with_value(old(self)@[i], value@),
                        )
                    },
                    None => if is_unusable_key(key@) {
                        &&& r matches Err(EditError::InvalidKey(s)) && s@ == key@
                        &&& final(self)@ == old(self)@
                    } else {
                        &&& r == Ok::<SetOutcome, EditError>(SetOutcome::AppendedKey)
                        &&& final(self)@ == with_entry(old(self)@, header, key@, value@)
                    },
                },
                None => if is_unusable_key(key@) {
                    &&& r matches Err(EditError::InvalidKey(s)) && s@ == key@
                    &&& final(self)@ == old(self)@
                } else if is_unusable_section(section@) {
                    &&& r matches Err(EditError::InvalidSection(s)) && s@ == section@
                    &&& final(self)@ == old(self)@
                } else {
                    &&& r == Ok::<SetOutcome, EditError>(SetOutcome::CreatedSection)
                    &&& final(self)@ == with_section(old(self)@, section@, key@, value@)
                },
            },
    {
        if splits_line(value) {
            return Err(EditError::InvalidValue(value.to_owned()));
        }
        match self.section_range(section) {
            Some((header, end)) => {
                if let Some(i) = self.find_entry(header, end, key) {
                    self.replace_value(i, value);
                    return Ok(SetOutcome::Edited);
                }
                if unusable_key(key) {
                    return Err(EditError::InvalidKey(key.to_owned()));
                }
                self.append_entry(header, end, key, value);
                Ok(SetOutcome::AppendedKey)
            },
            None => {
                if unusable_key(key) {
                    return Err(EditError::InvalidKey(key.to_owned()));
                }
                if unusable_section(section) {
                    return Err(EditError::InvalidSection(section.to_owned()));
                }
                self.create_section(section, key, value);
                Ok(SetOutcome::CreatedSection)
            },
        }
    }

    fn section_range(&self, section: &str) -> (r: Option<(usize, usize)>)
        ensures
            match r {
                Some((header, end)) => {
                    &&& header_of(self@, section@) == Some(header as int)
                    &&& end == end_of(self@, header as int)
                    &&& header < end <= self@.len()
                },
                None => header_of(self@, section@) is None,
            },
    {
        let ghost all = self@;
        let ghost wanted = headers(all, section@);
        let mut i: usize = 0;
        while i < self.lines.len()
            invariant
                i <= self.lines.len(),
                all == lines::models(self.lines@),
                wanted == headers(all, section@),
                forall|j: int| 0 <= j < i ==> !#[trigger] wanted(j),
            decreases self.lines.len() - i,
        {
            assert(all[i as int] == self.lines@[i as int]@);
            if let LineKind::Section { name } = &self.lines[i].kind {
                if text::same_text(name.as_str(), section) {
                    proof {
                        search::lemma_first_where_is(all.len() as int, wanted, i as int);
                    }
                    let end: usize = self.next_header(i);
                    return Some((i, end));
                }
            }
            i += 1;
        }
        proof {
            search::lemma_first_where(all.len() as int, wanted);
        }
        None
    }

    fn next_header(&self, header: usize) -> (r: usize)
        requires
            header < self@.len(),
        ensures
            r == end_of(self@, header as int),
            header < r <= self@.len(),
    {
        let ghost all = self@;
        let ghost wanted = later_headers(all, header as int);
        let n: usize = self.lines.len();
        let mut i: usize = header + 1;
        while i < n
            invariant
                header < i <= n,
                n == self.lines.len(),
                all == lines::models(self.lines@),
                wanted == later_headers(all, header as int),
                forall|j: int| 0 <= j < i ==> !#[trigger] wanted(j),
            decreases n - i,
        {
            assert(all[i as int] == self.lines@[i as int]@);
            if let LineKind::Section { name: _ } = &self.lines[i].kind {
                proof {
                    search::lemma_first_where_is(all.len() as int, wanted, i as int);
                }
                return i;
            }
            i += 1;
        }
        proof {
            search::lemma_first_where(all.len() as int, wanted);
        }
        i
    }

    fn find_entry(&self, header: usize, end: usize, key: &str) -> (r: Option<usize>)
        requires
            header < end <= self@.len(),
            end == end_of(self@, header as int),
        ensures
            optional(r) == entry_of(self@, header as int, key@),
            r matches Some(i) ==> i < self@.len() && self@[i as int].kind is Entry,
    {
        let ghost all = self@;
        let ghost wanted = entries(all, header as int, key@);
        let mut i: usize = end;
        while i > header + 1
            invariant
                header < i <= end <= self.lines.len(),
                end == end_of(all, header as int),
                all == lines::models(self.lines@),
                wanted == entries(all, header as int, key@),
                forall|j: int| i <= j < end ==> !#[trigger] wanted(j),
            decreases i,
        {
            i -= 1;
            assert(all[i as int] == self.lines@[i as int]@);
            if let LineKind::Entry { key: entry_key, value_start: _, value_end: _ } =
                &self.lines[i].kind {
                if text::same_text(entry_key.as_str(), key) {
                    proof {
                        search::lemma_last_where_is(end as int, wanted, i as int);
                    }
                    return Some(i);
                }
            }
        }
        proof {
            search::lemma_last_where(end as int, wanted);
        }
        None
    }

    fn replace_value(&mut self, index: usize, value: &str)
        requires
            index < old(self)@.len(),
            old(self)@[index as int].kind is Entry,
        ensures
            final(self)@ == old(self)@.update(
                index as int,
                with_value(old(self)@[index as int], value@),
            ),
    {
        proof {
            use_type_invariant(&*self);
            assert(spans_fit(self.lines@[index as int]@));
        }
        let ghost before = self@;
        let line = &self.lines[index];
        if let LineKind::Entry { key, value_start, value_end } = &line.kind {
            let raw = text::spliced(line.raw.as_str(), *value_start, *value_end, value);
            let rest: usize = line.raw.as_str().unicode_len() - *value_end;
            let end: usize = raw.as_str().unicode_len() - rest;
            let edited = Line {
                raw,
                kind: LineKind::Entry {
                    key: key.clone(),
                    value_start: *value_start,
                    value_end: end,
                },
            };
            assert(edited@ == with_value(before[index as int], value@));
            let mut file = self.take_lines();
            file.set(index, edited);
            assert(lines::models(file@) =~= before.update(index as int, edited@));
            self.lines = file;
        }
    }

    fn append_entry(&mut self, header: usize, end: usize, key: &str, value: &str)
        requires
            header < end <= old(self)@.len(),
            end == end_of(old(self)@, header as int),
        ensures
            final(self)@ == with_entry(old(self)@, header as int, key@, value@),
    {
        let ghost before = self@;
        let terminator = lines::line_terminator(&self.lines);
        let mut raw = self.entry_line(header, end, key, value);
        raw.append(terminator);
        let place: usize = self.last_written(header, end) + 1;
        let line = classified_line(raw);
        proof {
            use_type_invariant(&*self);
        }
        let ghost fitting = self.lines@;
        let mut file = self.take_lines();
        let mut last = file.remove(place - 1);
        if !text::is_terminated(last.raw.as_str()) {
            last.raw.append(terminator);
        }
        assert(spans_fit(fitting[place - 1]@));
        assert(spans_fit(last@));
        file.insert(place - 1, last);
        let ghost ended = lines::models(file@);
        assert(ended =~= ended_at(before, place - 1, terminator@));
        file.insert(place, line);
        assert(lines::models(file@) =~= ended.insert(place as int, line@));
        assert forall|i: int| 0 <= i < file@.len() implies spans_fit(#[trigger] file@[i]@) by {
            if i < place - 1 {
                assert(file@[i] == fitting[i]);
            } else if i > place {
                assert(file@[i] == fitting[i - 1]);
            }
        }
        self.lines = file;
    }

    fn last_written(&self, header: usize, end: usize) -> (r: usize)
        requires
            header < end <= self@.len(),
            end == end_of(self@, header as int),
        ensures
            r + 1 == place_for(self@, header as int),
            header <= r < end,
    {
        let ghost all = self@;
        let ghost wanted = written(all, header as int);
        let mut i: usize = end;
        while i > header + 1
            invariant
                header < i <= end <= self.lines.len(),
                end == end_of(all, header as int),
                all == lines::models(self.lines@),
                wanted == written(all, header as int),
                forall|j: int| i <= j < end ==> !#[trigger] wanted(j),
            decreases i,
        {
            i -= 1;
            assert(all[i as int] == self.lines@[i as int]@);
            match &self.lines[i].kind {
                LineKind::Blank => {},
                _ => {
                    proof {
                        search::lemma_last_where_is(end as int, wanted, i as int);
                    }
                    return i;
                },
            }
        }
        proof {
            search::lemma_last_where(end as int, wanted);
        }
        header
    }

    fn entry_line(&self, header: usize, end: usize, key: &str, value: &str) -> (r: String)
        requires
            header < end <= self@.len(),
            end == end_of(self@, header as int),
        ensures
            r@ == entry_text(self@, header as int, key@, value@),
    {
        let ghost all = self@;
        let ghost wanted = patterns(all, header as int);
        proof {
            use_type_invariant(&*self);
        }
        let mut i: usize = header + 1;
        while i < end
            invariant
                header < i <= end <= self.lines.len(),
                end == end_of(all, header as int),
                all == lines::models(self.lines@),
                wanted == patterns(all, header as int),
                forall|j: int| 0 <= j < self.lines@.len() ==> spans_fit(#[trigger] self.lines@[j]@),
                forall|j: int| 0 <= j < i ==> !#[trigger] wanted(j),
            decreases end - i,
        {
            let line = &self.lines[i];
            assert(all[i as int] == line@);
            assert(spans_fit(self.lines@[i as int]@));
            if let LineKind::Entry { key: sibling_key, value_start, value_end: _ } = &line.kind {
                let raw = line.raw.as_str();
                let cs = chars(raw);
                let content = without_terminator(cs.as_slice());
                let indent: usize = count_leading_space(content);
                let width: usize = sibling_key.as_str().unicode_len();
                if indent <= *value_start && width <= *value_start - indent && *value_start
                    <= content.len() {
                    proof {
                        search::lemma_first_where_is(end as int, wanted, i as int);
                    }
                    let mut r = raw.substring_char(0, indent).to_owned();
                    assert(r@ =~= raw@.take(indent as int));
                    r.append(key);
                    r.append(raw.substring_char(indent + width, *value_start));
                    r.append(value);
                    return r;
                }
            }
            i += 1;
        }
        proof {
            search::lemma_first_where(end as int, wanted);
        }
        let mut r = key.to_owned();
        r.append("=");
        r.append(value);
        r
    }

    fn create_section(&mut self, section: &str, key: &str, value: &str)
        ensures
            final(self)@ == with_section(old(self)@, section@, key@, value@),
    {
        let ghost before = self@;
        let end = lines::line_terminator(&self.lines);
        let separate = self.ends_with_content();
        proof {
            use_type_invariant(&*self);
        }
        let ghost fitting = self.lines@;
        let mut file = self.take_lines();
        lines::terminate(&mut file, end);
        let ghost ended = lines::models(file@);
        assert(ended.len() == fitting.len());
        assert forall|i: int| 0 <= i < file@.len() implies spans_fit(#[trigger] file@[i]@) by {
            assert(ended[i] == file@[i]@);
            assert(spans_fit(fitting[i]@));
        }
        if separate {
            let blank = classified_line(end.to_owned());
            file.push(blank);
            assert(lines::models(file@) =~= ended.push(blank@));
        }
        let ghost spaced = lines::models(file@);
        let mut head = "[".to_owned();
        head.append(section);
        head.append("]");
        head.append(end);
        let head_line = classified_line(head);
        file.push(head_line);
        assert(lines::models(file@) =~= spaced.push(head_line@));
        let mut entry = key.to_owned();
        entry.append("=");
        entry.append(value);
        entry.append(end);
        let entry_line = classified_line(entry);
        file.push(entry_line);
        assert(lines::models(file@) =~= spaced.push(head_line@).push(entry_line@));
        self.lines = file;
    }

    /// Whether the file ends with a line that is not blank. Such a file has content.
    fn ends_with_content(&self) -> (r: bool)
        ensures
            r == (has_content(self@) && !(self@.last().kind is Blank)),
    {
        let n: usize = self.lines.len();
        if n == 0 {
            return false;
        }
        assert(self@[n - 1] == self.lines@[n - 1]@);
        match &self.lines[n - 1].kind {
            LineKind::Blank => false,
            _ => {
                assert(!(self@[n - 1].kind is Blank));
                true
            },
        }
    }

    fn take_lines(&mut self) -> (r: Vec<Line<LineKind>>)
        ensures
            r == old(self).lines,
    {
        let mut r: Vec<Line<LineKind>> = Vec::new();
        core::mem::swap(&mut self.lines, &mut r);
        r
    }
}

} // verus!
