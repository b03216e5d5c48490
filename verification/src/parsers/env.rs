//! The `uwsm/env` file: shell assignments, with or without `export`, and `#` comments.
//!
//! A variable that is assigned more than once has the value of its last assignment, and that
//! assignment is the one an edit changes. Setting a variable that the file does not assign
//! adds an `export` at its end.

use crate::lines;
use crate::lines::{Line, LineModel};
use crate::parsers::assignment;
use crate::search;
use crate::text;
use crate::text::{
    chars, decimal_digit, index_of, letter, lines_of, splits_line, trimmed, trimmed_start,
    without_terminator,
};
use vstd::prelude::*;
use vstd::slice::slice_subrange;

verus! {

/// What a line was taken for.
#[derive(Debug)]
pub enum LineKind {
    /// Nothing but white space.
    Blank,
    /// The first character that is not white space is `#`.
    Comment,
    /// An assignment `KEY=value`, with or without `export`.
    Assignment {
        /// The variable.
        key: String,
        /// Whether `export` stands before it.
        exported: bool,
        /// Where in the line the value begins.
        value_start: usize,
        /// Where in the line the value ends.
        value_end: usize,
    },
    /// Anything else.
    Malformed,
}

/// The mathematical counterpart of [`LineKind`].
pub enum Kind {
    /// Nothing but white space.
    Blank,
    /// The first character that is not white space is `#`.
    Comment,
    /// An assignment.
    Assignment(Scan),
    /// Anything else.
    Malformed,
}

/// An assignment found in a text.
pub struct Scan {
    /// The variable.
    pub key: Seq<char>,
    /// Whether `export` stands before it.
    pub exported: bool,
    /// Where the value begins.
    pub value_start: int,
    /// Where the value ends.
    pub value_end: int,
}

impl View for LineKind {
    type V = Kind;

    open spec fn view(&self) -> Kind {
        match *self {
            LineKind::Blank => Kind::Blank,
            LineKind::Comment => Kind::Comment,
            LineKind::Assignment { key, exported, value_start, value_end } => Kind::Assignment(
                Scan {
                    key: key@,
                    exported,
                    value_start: value_start as int,
                    value_end: value_end as int,
                },
            ),
            LineKind::Malformed => Kind::Malformed,
        }
    }
}

impl Clone for LineKind {
    fn clone(&self) -> (r: Self)
        ensures
            r@ == self@,
    {
        match self {
            LineKind::Blank => LineKind::Blank,
            LineKind::Comment => LineKind::Comment,
            LineKind::Assignment { key, exported, value_start, value_end } => LineKind::Assignment {
                key: key.clone(),
                exported: *exported,
                value_start: *value_start,
                value_end: *value_end,
            },
            LineKind::Malformed => LineKind::Malformed,
        }
    }
}

/// Whether `c` separates words: a space or a tab.
pub open spec fn is_separator(c: char) -> bool {
    c == ' ' || c == '\t'
}

/// How many spaces and tabs `s` begins with.
pub open spec fn leading_separators(s: Seq<char>) -> int
    decreases s.len(),
{
    if s.len() == 0 || !is_separator(s[0]) {
        0
    } else {
        1 + leading_separators(s.drop_first())
    }
}

/// How many `#` the text `s` begins with.
pub open spec fn leading_hashes(s: Seq<char>) -> int
    decreases s.len(),
{
    if s.len() == 0 || s[0] != '#' {
        0
    } else {
        1 + leading_hashes(s.drop_first())
    }
}

/// Whether `key` is a shell variable's name.
pub open spec fn is_identifier(key: Seq<char>) -> bool {
    &&& key.len() > 0
    &&& !text::is_digit(key[0])
    &&& forall|i: int|
        0 <= i < key.len() ==> text::is_letter(#[trigger] key[i]) || text::is_digit(key[i])
            || key[i] == '_'
}

/// The keyword.
pub open spec fn export_word() -> Seq<char> {
    seq!['e', 'x', 'p', 'o', 'r', 't']
}

/// Whether the keyword `export`, followed by a space or tab, stands at `at`.
pub open spec fn is_export_at(content: Seq<char>, at: int) -> bool {
    &&& at + 6 < content.len()
    &&& content.subrange(at, at + 6) == export_word()
    &&& is_separator(content[at + 6])
}

/// Where the variable's name would begin, and whether `export` stands before it.
pub open spec fn name_start(content: Seq<char>) -> (int, bool) {
    let start = leading_separators(content);
    if is_export_at(content, start) {
        (start + 6 + leading_separators(content.skip(start + 6)), true)
    } else {
        (start, false)
    }
}

/// The assignment that a text is, if it is one.
pub open spec fn scan(content: Seq<char>) -> Option<Scan> {
    let (from, exported) = name_start(content);
    let eq = from + text::find_char(content.skip(from), '=');
    let key = content.subrange(from, eq);
    if eq < content.len() && is_identifier(key) {
        Some(
            Scan {
                key,
                exported,
                value_start: assignment::value_start(content, eq),
                value_end: assignment::value_end(content, eq),
            },
        )
    } else {
        None
    }
}

/// What a line, terminator included, is taken for.
pub open spec fn classify(raw: Seq<char>) -> Kind {
    let content = text::strip_terminator(raw);
    let body = text::trim(content);
    if body.len() == 0 {
        Kind::Blank
    } else if body[0] == '#' {
        Kind::Comment
    } else {
        match scan(content) {
            Some(found) => Kind::Assignment(found),
            None => Kind::Malformed,
        }
    }
}

/// A line and what it is taken for.
pub open spec fn classified(raw: Seq<char>) -> LineModel<Kind> {
    LineModel { raw, kind: classify(raw) }
}

/// The file that a text is: its lines, each classified.
pub open spec fn parsed(input: Seq<char>) -> Seq<LineModel<Kind>> {
    text::split_lines(input).map_values(|raw: Seq<char>| classified(raw))
}

/// Whether the positions recorded for a line lie inside it, in their order.
pub open spec fn spans_fit(line: LineModel<Kind>) -> bool {
    match line.kind {
        Kind::Assignment(found) => 0 <= found.value_start <= found.value_end <= line.raw.len(),
        _ => true,
    }
}

pub proof fn lemma_leading_separators(s: Seq<char>)
    ensures
        0 <= leading_separators(s) <= s.len(),
        forall|i: int| 0 <= i < leading_separators(s) ==> is_separator(#[trigger] s[i]),
        leading_separators(s) < s.len() ==> !is_separator(s[leading_separators(s)]),
    decreases s.len(),
{
    if s.len() > 0 && is_separator(s[0]) {
        let rest = s.drop_first();
        lemma_leading_separators(rest);
        assert forall|i: int| 0 <= i < leading_separators(s) implies is_separator(
            #[trigger] s[i],
        ) by {
            if i > 0 {
                assert(s[i] == rest[i - 1]);
            }
        }
    }
}

pub proof fn lemma_leading_hashes(s: Seq<char>)
    ensures
        0 <= leading_hashes(s) <= s.len(),
        forall|i: int| 0 <= i < leading_hashes(s) ==> #[trigger] s[i] == '#',
        leading_hashes(s) < s.len() ==> s[leading_hashes(s)] != '#',
    decreases s.len(),
{
    if s.len() > 0 && s[0] == '#' {
        let rest = s.drop_first();
        lemma_leading_hashes(rest);
        assert forall|i: int| 0 <= i < leading_hashes(s) implies #[trigger] s[i] == '#' by {
            if i > 0 {
                assert(s[i] == rest[i - 1]);
            }
        }
    }
}

pub proof fn lemma_scan_fits(content: Seq<char>)
    ensures
        0 <= name_start(content).0 <= content.len(),
        scan(content) matches Some(found) ==> 0 <= found.value_start <= found.value_end
            <= content.len(),
{
    let (from, exported) = name_start(content);
    lemma_leading_separators(content);
    lemma_leading_separators(content.skip(leading_separators(content) + 6));
    text::lemma_find_char(content.skip(from), '=');
    let eq = from + text::find_char(content.skip(from), '=');
    if scan(content) is Some {
        assignment::lemma_value_span(content, eq);
    }
}

pub proof fn lemma_classify_fits(raw: Seq<char>)
    ensures
        spans_fit(classified(raw)),
{
    lemma_scan_fits(text::strip_terminator(raw));
}

fn count_separators(s: &[char]) -> (r: usize)
    ensures
        r == leading_separators(s@),
        r <= s@.len(),
{
    let mut i: usize = 0;
    while i < s.len() && (s[i] == ' ' || s[i] == '\t')
        invariant
            i <= s.len(),
            forall|j: int| 0 <= j < i ==> is_separator(#[trigger] s@[j]),
        decreases s.len() - i,
    {
        i += 1;
    }
    proof {
        lemma_leading_separators(s@);
    }
    i
}

fn count_hashes(s: &[char]) -> (r: usize)
    ensures
        r == leading_hashes(s@),
        r <= s@.len(),
{
    let mut i: usize = 0;
    while i < s.len() && s[i] == '#'
        invariant
            i <= s.len(),
            forall|j: int| 0 <= j < i ==> #[trigger] s@[j] == '#',
        decreases s.len() - i,
    {
        i += 1;
    }
    proof {
        lemma_leading_hashes(s@);
    }
    i
}

/// Decides [`is_identifier`].
fn is_shell_identifier(key: &[char]) -> (r: bool)
    ensures
        r == is_identifier(key@),
{
    if key.len() == 0 || decimal_digit(key[0]) {
        return false;
    }
    let mut i: usize = 0;
    while i < key.len()
        invariant
            i <= key.len(),
            forall|j: int|
                0 <= j < i ==> text::is_letter(#[trigger] key@[j]) || text::is_digit(key@[j])
                    || key@[j] == '_',
        decreases key.len() - i,
    {
        if !letter(key[i]) && !decimal_digit(key[i]) && key[i] != '_' {
            return false;
        }
        i += 1;
    }
    true
}

fn keyword_at(content: &[char], at: usize) -> (r: bool)
    requires
        at <= content@.len(),
    ensures
        r == is_export_at(content@, at as int),
{
    let n: usize = content.len();
    if n - at <= 6 {
        return false;
    }
    let found = content[at] == 'e' && content[at + 1] == 'x' && content[at + 2] == 'p'
        && content[at + 3] == 'o' && content[at + 4] == 'r' && content[at + 5] == 't';
    let ghost word = content@.subrange(at as int, at + 6);
    proof {
        if found {
            assert(word =~= export_word());
        } else {
            assert(word[0] == content@[at as int] && word[1] == content@[at + 1] && word[2]
                == content@[at + 2] && word[3] == content@[at + 3] && word[4] == content@[at + 4]
                && word[5] == content@[at + 5]);
            let e = export_word();
            assert(e[0] == 'e' && e[1] == 'x' && e[2] == 'p' && e[3] == 'o' && e[4] == 'r'
                && e[5] == 't');
        }
    }
    found && (content[at + 6] == ' ' || content[at + 6] == '\t')
}

struct AssignmentMatch {
    key: String,
    exported: bool,
    value_start: usize,
    value_end: usize,
}

impl AssignmentMatch {
    spec fn model(self) -> Scan {
        Scan {
            key: self.key@,
            exported: self.exported,
            value_start: self.value_start as int,
            value_end: self.value_end as int,
        }
    }
}

/// Computes [`scan`].
fn scan_assignment(content: &[char]) -> (r: Option<AssignmentMatch>)
    ensures
        match r {
            Some(found) => scan(content@) == Some(found.model()),
            None => scan(content@) is None,
        },
{
    proof {
        lemma_scan_fits(content@);
    }
    let n: usize = content.len();
    let start: usize = count_separators(content);
    let exported = keyword_at(content, start);
    let from: usize = if exported {
        let after = slice_subrange(content, start + 6, n);
        assert(after@ =~= content@.skip(start + 6));
        start + 6 + count_separators(after)
    } else {
        start
    };
    let rest = slice_subrange(content, from, n);
    assert(rest@ =~= content@.skip(from as int));
    match index_of(rest, '=') {
        Some(offset) => {
            let eq: usize = from + offset;
            let key = slice_subrange(content, from, eq);
            if is_shell_identifier(key) {
                let (value_start, value_end) = assignment::value_span(content, eq);
                Some(AssignmentMatch { key: text::text(key), exported, value_start, value_end })
            } else {
                None
            }
        },
        None => None,
    }
}

/// Classifies one line, terminator included.
fn classify_line(raw: &str) -> (r: LineKind)
    ensures
        r@ == classify(raw@),
{
    let all = chars(raw);
    let content = without_terminator(all.as_slice());
    let body = trimmed(content);
    if body.len() == 0 {
        return LineKind::Blank;
    }
    if body[0] == '#' {
        return LineKind::Comment;
    }
    match scan_assignment(content) {
        Some(found) => LineKind::Assignment {
            key: found.key,
            exported: found.exported,
            value_start: found.value_start,
            value_end: found.value_end,
        },
        None => LineKind::Malformed,
    }
}

fn classified_line(raw: String) -> (r: Line<LineKind>)
    ensures
        r@ == classified(raw@),
        spans_fit(r@),
{
    proof {
        lemma_classify_fits(raw@);
    }
    let kind = classify_line(raw.as_str());
    Line { raw, kind }
}

/// A problem noticed while parsing. The line it concerns is kept as it is.
#[derive(Clone, Debug, PartialEq, Eq)]
pub struct ParseWarning {
    line: usize,
    kind: ParseWarningKind,
}

/// What is wrong with the line of a [`ParseWarning`].
#[derive(Clone, Debug, PartialEq, Eq, Structural)]
pub enum ParseWarningKind {
    /// The line is not blank, a comment or an assignment.
    MalformedLine,
}

impl ParseWarning {
    /// The number of the line, counted from one, as a mathematical integer.
    pub closed spec fn at(self) -> int {
        self.line as int
    }

    /// What is wrong with the line.
    pub closed spec fn what(self) -> ParseWarningKind {
        self.kind
    }

    /// The number of the line, counted from one.
    pub fn line(&self) -> (r: usize)
        ensures
            r == self.at(),
    {
        self.line
    }

    /// What is wrong with the line.
    pub fn kind(&self) -> (r: &ParseWarningKind)
        ensures
            *r == self.what(),
    {
        &self.kind
    }

    /// Puts the warning into words.
    pub fn to_string(&self) -> (r: String)
        ensures
            r@ == "line "@ + text::decimal(self.at())
                + ": not a comment, blank line, or `KEY=value` assignment"@,
    {
        let mut r = "line ".to_owned();
        r.append(text::decimal_text(self.line).as_str());
        r.append(": not a comment, blank line, or `KEY=value` assignment");
        r
    }
}

/// The numbers of the lines that the given warnings concern.
pub open spec fn warned(warnings: Seq<ParseWarning>) -> Seq<int> {
    warnings.map_values(|warning: ParseWarning| warning.at())
}

/// The numbers of the malformed lines among the first `n`, in order.
pub open spec fn malformed_upto(lines: Seq<LineModel<Kind>>, n: int) -> Seq<int>
    decreases n,
{
    if n <= 0 {
        Seq::empty()
    } else if lines[n - 1].kind is Malformed {
        malformed_upto(lines, n - 1).push(n)
    } else {
        malformed_upto(lines, n - 1)
    }
}

/// The numbers of the malformed lines, in order.
pub open spec fn malformed(lines: Seq<LineModel<Kind>>) -> Seq<int> {
    malformed_upto(lines, lines.len() as int)
}

/// What a successful edit did.
#[derive(Clone, Copy, Debug, PartialEq, Eq, Structural)]
pub enum SetOutcome {
    /// The value of an assignment was replaced.
    Edited,
    /// An `export` was added.
    Appended,
}

/// Whether a file forces the GTK theme through `GTK_THEME`.
#[derive(Clone, Debug, PartialEq, Eq)]
pub enum GtkThemeOverride {
    /// The variable does not occur.
    Absent,
    /// The variable is assigned.
    Active {
        /// The value that it has.
        value: String,
    },
    /// The variable is assigned in a comment only.
    Commented {
        /// The value that it would have.
        value: String,
    },
}

impl GtkThemeOverride {
    /// Whether the theme is forced.
    pub fn is_active(&self) -> (r: bool)
        ensures
            r == (*self is Active),
    {
        match self {
            GtkThemeOverride::Active { value: _ } => true,
            _ => false,
        }
    }
}

/// A failed edit. The file is as it was.
#[derive(Clone, Debug, PartialEq, Eq)]
pub enum EditError {
    /// The value would break its line.
    InvalidValue(String),
    /// A new variable cannot have this name.
    InvalidKey(String),
}

impl EditError {
    /// Puts the failure into words.
    pub fn to_string(&self) -> (r: String)
        ensures
            r@ == match *self {
                EditError::InvalidValue(value) => "`"@ + value@
                    + "` contains a newline or carriage return, which would split the line"@,
                EditError::InvalidKey(key) => "`"@ + key@
                    + "` is not a valid shell identifier (empty, starts with a digit, or contains a character outside [A-Za-z0-9_])"@,
            },
    {
        let mut r = "`".to_owned();
        match self {
            EditError::InvalidValue(value) => {
                r.append(value.as_str());
                r.append("` contains a newline or carriage return, which would split the line");
            },
            EditError::InvalidKey(key) => {
                r.append(key.as_str());
                r.append(
                    "` is not a valid shell identifier (empty, starts with a digit, or contains a character outside [A-Za-z0-9_])",
                );
            },
        }
        r
    }
}

/// The assignments to `key`.
pub open spec fn assigns(lines: Seq<LineModel<Kind>>, key: Seq<char>) -> spec_fn(int) -> bool {
    |i: int| lines[i].kind is Assignment && lines[i].kind->0.key == key
}

/// The last assignment to `key`, if there is one.
pub open spec fn assignment_of(lines: Seq<LineModel<Kind>>, key: Seq<char>) -> Option<int> {
    search::last_where(lines.len() as int, assigns(lines, key))
}

/// The value of an assignment.
pub open spec fn value_at(line: LineModel<Kind>) -> Seq<char> {
    line.raw.subrange(line.kind->0.value_start, line.kind->0.value_end)
}

/// The value that a file gives `key`, if it does.
pub open spec fn value_of(lines: Seq<LineModel<Kind>>, key: Seq<char>) -> Option<Seq<char>> {
    match assignment_of(lines, key) {
        Some(i) => Some(value_at(lines[i])),
        None => None,
    }
}

/// An assignment with another value.
pub open spec fn with_value(line: LineModel<Kind>, value: Seq<char>) -> LineModel<Kind> {
    match line.kind {
        Kind::Assignment(found) => LineModel {
            raw: text::splice(line.raw, found.value_start, found.value_end, value),
            kind: Kind::Assignment(
                Scan { value_end: found.value_start + value.len(), ..found },
            ),
        },
        _ => line,
    }
}

/// A file with a new assignment.
pub open spec fn with_export(
    lines: Seq<LineModel<Kind>>,
    key: Seq<char>,
    value: Seq<char>,
) -> Seq<LineModel<Kind>> {
    let end = lines::terminator(lines);
    lines::terminated(lines, end).push(classified("export "@ + key + "="@ + value + end))
}

/// Whether a value can be set.
pub open spec fn accepts(lines: Seq<LineModel<Kind>>, key: Seq<char>, value: Seq<char>) -> bool {
    !text::breaks_line(value) && (assignment_of(lines, key) is Some || is_identifier(key))
}

/// A file after setting a value, as it was where the value cannot be set.
pub open spec fn after_set(
    lines: Seq<LineModel<Kind>>,
    key: Seq<char>,
    value: Seq<char>,
) -> Seq<LineModel<Kind>> {
    if !accepts(lines, key, value) {
        lines
    } else {
        match assignment_of(lines, key) {
            Some(i) => lines.update(i, with_value(lines[i], value)),
            None => with_export(lines, key, value),
        }
    }
}

/// What a comment says once its `#` are taken away.
pub open spec fn uncommented(raw: Seq<char>) -> Seq<char> {
    let body = text::trim_start(text::strip_terminator(raw));
    body.skip(leading_hashes(body))
}

/// The value that a comment would give `key`, if it would.
pub open spec fn commented_value(raw: Seq<char>, key: Seq<char>) -> Option<Seq<char>> {
    match scan(uncommented(raw)) {
        Some(found) => if found.key == key {
            Some(uncommented(raw).subrange(found.value_start, found.value_end))
        } else {
            None
        },
        None => None,
    }
}

/// The comments that would give `key` a value.
pub open spec fn comments_on(lines: Seq<LineModel<Kind>>, key: Seq<char>) -> spec_fn(int) -> bool {
    |i: int| lines[i].kind is Comment && commented_value(lines[i].raw, key) is Some
}

/// The value that the last such comment would give `key`, if there is one.
pub open spec fn commented_value_of(lines: Seq<LineModel<Kind>>, key: Seq<char>) -> Option<
    Seq<char>,
> {
    match search::last_where(lines.len() as int, comments_on(lines, key)) {
        Some(i) => commented_value(lines[i].raw, key),
        None => None,
    }
}

/// Computes [`commented_value`].
fn commented_assignment_value(raw: &str, key: &str) -> (r: Option<String>)
    ensures
        match r {
            Some(value) => commented_value(raw@, key@) == Some(value@),
            None => commented_value(raw@, key@) is None,
        },
{
    let all = chars(raw);
    let body = trimmed_start(without_terminator(all.as_slice()));
    let n: usize = body.len();
    let after = slice_subrange(body, count_hashes(body), n);
    assert(after@ =~= uncommented(raw@));
    proof {
        lemma_scan_fits(after@);
    }
    match scan_assignment(after) {
        Some(found) => if text::same_text(found.key.as_str(), key) {
            Some(text::text(slice_subrange(after, found.value_start, found.value_end)))
        } else {
            None
        },
        None => None,
    }
}

spec fn optional(i: Option<usize>) -> Option<int> {
    match i {
        Some(i) => Some(i as int),
        None => None,
    }
}

/// A `uwsm/env` file.
#[derive(Debug)]
pub struct EnvFile {
    lines: Vec<Line<LineKind>>,
}

impl View for EnvFile {
    type V = Seq<LineModel<Kind>>;

    closed spec fn view(&self) -> Seq<LineModel<Kind>> {
        lines::models(self.lines@)
    }
}

impl Clone for EnvFile {
    fn clone(&self) -> (r: Self)
        ensures
            r@ == self@,
    {
        proof {
            use_type_invariant(self);
        }
        let lines = lines::copy_lines(&self.lines);
        assert forall|i: int| 0 <= i < lines@.len() implies spans_fit(#[trigger] lines@[i]@) by {
            assert(spans_fit(self.lines@[i]@));
        }
        EnvFile { lines }
    }
}

impl EnvFile {
    #[verifier::type_invariant]
    spec fn well_formed(&self) -> bool {
        forall|i: int| 0 <= i < self.lines@.len() ==> spans_fit(#[trigger] self.lines@[i]@)
    }

    /// Reads a file. Every text is one; its malformed lines come as warnings.
    pub fn parse(input: &str) -> (r: (Self, Vec<ParseWarning>))
        ensures
            r.0@ == parsed(input@),
            warned(r.1@) == malformed(parsed(input@)),
    {
        let raws = lines_of(input);
        let ghost all = parsed(input@);
        let mut file: Vec<Line<LineKind>> = Vec::new();
        let mut warnings: Vec<ParseWarning> = Vec::new();
        let mut i: usize = 0;
        while i < raws.len()
            invariant
                i <= raws.len(),
                all == parsed(input@),
                text::split_lines(input@) == text::views(raws@),
                lines::models(file@) == all.take(i as int),
                warned(warnings@) == malformed_upto(all, i as int),
                forall|j: int| 0 <= j < file@.len() ==> spans_fit(#[trigger] file@[j]@),
            decreases raws.len() - i,
        {
            let line = classified_line(raws[i].clone());
            assert(text::split_lines(input@)[i as int] == raws@[i as int]@);
            assert(all[i as int] == line@);
            if let LineKind::Malformed = &line.kind {
                let ghost before = warned(warnings@);
                warnings.push(
                    ParseWarning { line: i + 1, kind: ParseWarningKind::MalformedLine },
                );
                assert(warned(warnings@) =~= before.push(i + 1));
            }
            let ghost before = lines::models(file@);
            file.push(line);
            assert(lines::models(file@) =~= before.push(line@));
            assert(all.take(i + 1) =~= all.take(i as int).push(line@));
            i += 1;
        }
        assert(all.take(all.len() as int) =~= all);
        (EnvFile { lines: file }, warnings)
    }

    /// Writes the file back.
    pub fn emit(&self) -> (r: String)
        ensures
            r@ == lines::emitted(self@),
    {
        lines::emit_lines(&self.lines)
    }

    /// The value that the file gives `key`, if it does.
    pub fn value(&self, key: &str) -> (r: Option<&str>)
        ensures
            match r {
                Some(value) => value_of(self@, key@) == Some(value@),
                None => value_of(self@, key@) is None,
            },
    {
        match self.find_assignment(key) {
            Some(i) => {
                proof {
                    use_type_invariant(&*self);
                    assert(spans_fit(self.lines@[i as int]@));
                }
                let line = &self.lines[i];
                if let LineKind::Assignment { key: _, exported: _, value_start, value_end } =
                    &line.kind {
                    Some(line.raw.as_str().substring_char(*value_start, *value_end))
                } else {
                    None
                }
            },
            None => None,
        }
    }

    /// Sets the value of `key`, adding an `export` where the file does not assign it.
    pub fn set_value(&mut self, key: &str, value: &str) -> (r: Result<SetOutcome, EditError>)
        ensures
            r is Ok <==> accepts(old(self)@, key@, value@),
            final(self)@ == after_set(old(self)@, key@, value@),
            text::breaks_line(value@) ==> {
                &&& r matches Err(EditError::InvalidValue(s)) && s@ == value@
                &&& final(self)@ == old(self)@
            },
            !text::breaks_line(value@) ==> match assignment_of(old(self)@, key@) {
                Some(i) => {
                    &&& r == Ok::<SetOutcome, EditError>(SetOutcome::Edited)
                    &&& final(self)@ == old(self)@.update(i, with_value(old(self)@[i], value@))
                },
                None => if is_identifier(key@) {
                    &&& r == Ok::<SetOutcome, EditError>(SetOutcome::Appended)
                    &&& final(self)@ == with_export(old(self)@, key@, value@)
                } else {
                    &&& r matches Err(EditError::InvalidKey(s)) && s@ == key@
                    &&& final(self)@ == old(self)@
                },
            },
    {
        if splits_line(value) {
            return Err(EditError::InvalidValue(value.to_owned()));
        }
        if let Some(i) = self.find_assignment(key) {
            self.replace_value(i, value);
            return Ok(SetOutcome::Edited);
        }
        if !is_shell_identifier(chars(key).as_slice()) {
            return Err(EditError::InvalidKey(key.to_owned()));
        }
        self.append_export(key, value);
        Ok(SetOutcome::Appended)
    }

    /// Whether the file forces the GTK theme: an assignment counts before any comment.
    pub fn gtk_theme_override(&self) -> (r: GtkThemeOverride)
        ensures
            match value_of(self@, "GTK_THEME"@) {
                Some(theme) => r matches GtkThemeOverride::Active { value } && value@ == theme,
                None => match commented_value_of(self@, "GTK_THEME"@) {
                    Some(theme) => r matches GtkThemeOverride::Commented { value } && value@
                        == theme,
                    None => r is Absent,
                },
            },
    {
        if let Some(value) = self.value("GTK_THEME") {
            return GtkThemeOverride::Active { value: value.to_owned() };
        }
        let ghost all = self@;
        let ghost wanted = comments_on(all, "GTK_THEME"@);
        let mut i: usize = self.lines.len();
        while i > 0
            invariant
                i <= self.lines.len(),
                all == lines::models(self.lines@),
                all == self@,
                value_of(self@, "GTK_THEME"@) is None,
                wanted == comments_on(all, "GTK_THEME"@),
                forall|j: int| i <= j < all.len() ==> !#[trigger] wanted(j),
            decreases i,
        {
            i -= 1;
            let line = &self.lines[i];
            assert(all[i as int] == line@);
            if let LineKind::Comment = &line.kind {
                if let Some(value) = commented_assignment_value(line.raw.as_str(), "GTK_THEME") {
                    proof {
                        search::lemma_last_where_is(all.len() as int, wanted, i as int);
                    }
                    return GtkThemeOverride::Commented { value };
                }
            }
        }
        proof {
            search::lemma_last_where(all.len() as int, wanted);
        }
        GtkThemeOverride::Absent
    }

    fn find_assignment(&self, key: &str) -> (r: Option<usize>)
        ensures
            optional(r) == assignment_of(self@, key@),
            r matches Some(i) ==> i < self@.len() && self@[i as int].kind is Assignment,
    {
        let ghost all = self@;
        let ghost wanted = assigns(all, key@);
        let mut i: usize = self.lines.len();
        while i > 0
            invariant
                i <= self.lines.len(),
                all == lines::models(self.lines@),
                wanted == assigns(all, key@),
                forall|j: int| i <= j < all.len() ==> !#[trigger] wanted(j),
            decreases i,
        {
            i -= 1;
            assert(all[i as int] == self.lines@[i as int]@);
            if let LineKind::Assignment {
                key: entry_key,
                exported: _,
                value_start: _,
                value_end: _,
            } = &self.lines[i].kind {
                if text::same_text(entry_key.as_str(), key) {
                    proof {
                        search::lemma_last_where_is(all.len() as int, wanted, i as int);
                    }
                    return Some(i);
                }
            }
        }
        proof {
            search::lemma_last_where(all.len() as int, wanted);
        }
        None
    }

    fn replace_value(&mut self, index: usize, value: &str)
        requires
            index < old(self)@.len(),
            old(self)@[index as int].kind is Assignment,
        ensures
            final(self)@ == old(self)@.update(
                index as int,
                with_value(old(self)@[index as int], value@),
            ),
    {
        proof {
            use_type_invariant(&*self);
            assert(spans_fit(self.lines@[index as int]@));
        }
        let ghost before = self@;
        let line = &self.lines[index];
        if let LineKind::Assignment { key, exported, value_start, value_end } = &line.kind {
            let raw = text::spliced(line.raw.as_str(), *value_start, *value_end, value);
            let rest: usize = line.raw.as_str().unicode_len() - *value_end;
            let end: usize = raw.as_str().unicode_len() - rest;
            let edited = Line {
                raw,
                kind: LineKind::Assignment {
                    key: key.clone(),
                    exported: *exported,
                    value_start: *value_start,
                    value_end: end,
                },
            };
            assert(edited@ == with_value(before[index as int], value@));
            let mut file = self.take_lines();
            file.set(index, edited);
            assert(lines::models(file@) =~= before.update(index as int, edited@));
            self.lines = file;
        }
    }

    fn append_export(&mut self, key: &str, value: &str)
        ensures
            final(self)@ == with_export(old(self)@, key@, value@),
    {
        let end = lines::line_terminator(&self.lines);
        let mut raw = "export ".to_owned();
        raw.append(key);
        raw.append("=");
        raw.append(value);
        raw.append(end);
        let line = classified_line(raw);
        proof {
            use_type_invariant(&*self);
        }
        let ghost fitting = self.lines@;
        let mut file = self.take_lines();
        lines::terminate(&mut file, end);
        let ghost ended = lines::models(file@);
        assert(ended.len() == fitting.len());
        assert forall|i: int| 0 <= i < file@.len() implies spans_fit(#[trigger] file@[i]@) by {
            assert(ended[i] == file@[i]@);
            assert(spans_fit(fitting[i]@));
        }
        file.push(line);
        assert(lines::models(file@) =~= ended.push(line@));
        self.lines = file;
    }

    fn take_lines(&mut self) -> (r: Vec<Line<LineKind>>)
        ensures
            r == old(self).lines,
    {
        let mut r: Vec<Line<LineKind>> = Vec::new();
        core::mem::swap(&mut self.lines, &mut r);
        r
    }
}

} // verus!
