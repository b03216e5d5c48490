//! The `monitors.conf` file: `monitor=name,mode,position,scale[,extras]` records,
//! `monitor=name,disable` records, other directives and `#` comments.
//!
//! Records are read by position, so no edit may add or remove a comma. Where several records
//! have the same name the last one counts, and it is the one an edit changes.

use crate::lines;
use crate::lines::{Line, LineModel};
use crate::search;
use crate::text;
use crate::text::{
    chars, count_leading_space, has_char, index_of, lines_of, trimmed, trimmed_start,
    without_terminator,
};
use vstd::prelude::*;
use vstd::slice::slice_subrange;

verus! {

/// What a line was taken for.
#[derive(Debug)]
pub enum LineKind {
    /// Nothing but white space.
    Blank,
    /// The first character that is not white space is `#`.
    Comment,
    /// A `monitor=` record.
    Record {
        /// The monitor's name: the first field.
        name: String,
        /// Where in the line each comma-separated field begins and ends.
        fields: Vec<(usize, usize)>,
        /// Whether the record is of the form `name,disable`.
        disabled: bool,
    },
    /// Anything else.
    Other,
}

/// The mathematical counterpart of [`LineKind`].
pub enum Kind {
    /// Nothing but white space.
    Blank,
    /// The first character that is not white space is `#`.
    Comment,
    /// A record.
    Record {
        /// The monitor's name: the first field.
        name: Seq<char>,
        /// Where in the line each comma-separated field begins and ends.
        fields: Seq<(int, int)>,
        /// Whether the record is of the form `name,disable`.
        disabled: bool,
    },
    /// Anything else.
    Other,
}

/// The given spans as mathematical integers.
pub open spec fn spans(fields: Seq<(usize, usize)>) -> Seq<(int, int)> {
    fields.map_values(|span: (usize, usize)| (span.0 as int, span.1 as int))
}

impl View for LineKind {
    type V = Kind;

    open spec fn view(&self) -> Kind {
        match *self {
            LineKind::Blank => Kind::Blank,
            LineKind::Comment => Kind::Comment,
            LineKind::Record { name, fields, disabled } => Kind::Record {
                name: name@,
                fields: spans(fields@),
                disabled,
            },
            LineKind::Other => Kind::Other,
        }
    }
}

fn copy_spans(fields: &Vec<(usize, usize)>) -> (r: Vec<(usize, usize)>)
    ensures
        r@ == fields@,
{
    let mut r: Vec<(usize, usize)> = Vec::new();
    let mut i: usize = 0;
    while i < fields.len()
        invariant
            i <= fields.len(),
            r@ == fields@.take(i as int),
        decreases fields.len() - i,
    {
        r.push(fields[i]);
        assert(fields@.take(i + 1) =~= fields@.take(i as int).push(fields@[i as int]));
        i += 1;
    }
    assert(fields@.take(fields@.len() as int) =~= fields@);
    r
}

impl Clone for LineKind {
    fn clone(&self) -> (r: Self)
        ensures
            r@ == self@,
    {
        match self {
            LineKind::Blank => LineKind::Blank,
            LineKind::Comment => LineKind::Comment,
            LineKind::Record { name, fields, disabled } => LineKind::Record {
                name: name.clone(),
                fields: copy_spans(fields),
                disabled: *disabled,
            },
            LineKind::Other => LineKind::Other,
        }
    }
}

/// The part of a line before its inline comment.
pub open spec fn code_of(content: Seq<char>) -> Seq<char> {
    content.take(text::find_char(content, '#'))
}

/// Where the text between `from` and `to` stands without the white space around it.
pub open spec fn trimmed_span(code: Seq<char>, from: int, to: int) -> (int, int) {
    let segment = code.subrange(from, to);
    let start = from + text::leading_space(segment);
    (start, start + text::trim(segment).len())
}

/// Where the comma-separated fields from `from` on stand.
pub open spec fn fields_from(code: Seq<char>, from: int) -> Seq<(int, int)>
    decreases code.len() - from,
{
    if !(0 <= from <= code.len()) {
        Seq::empty()
    } else {
        let comma = from + text::find_char(code.skip(from), ',');
        proof {
            text::lemma_find_char(code.skip(from), ',');
        }
        if comma >= code.len() {
            seq![trimmed_span(code, from, code.len() as int)]
        } else {
            seq![trimmed_span(code, from, comma)] + fields_from(code, comma + 1)
        }
    }
}

/// The record that `code`, with its first `=` at `eq`, is.
pub open spec fn record(code: Seq<char>, eq: int) -> Kind {
    let fields = fields_from(code, eq + 1);
    Kind::Record {
        name: code.subrange(fields[0].0, fields[0].1),
        fields,
        disabled: fields.len() == 2 && code.subrange(fields[1].0, fields[1].1) == "disable"@,
    }
}

/// What a line, terminator included, is taken for.
pub open spec fn classify(raw: Seq<char>) -> Kind {
    let content = text::strip_terminator(raw);
    let body = text::trim_start(content);
    let code = code_of(content);
    let eq = text::find_char(code, '=');
    if body.len() == 0 {
        Kind::Blank
    } else if body[0] == '#' {
        Kind::Comment
    } else if eq < code.len() && text::trim(code.take(eq)) == "monitor"@ {
        record(code, eq)
    } else {
        Kind::Other
    }
}

/// A line and what it is taken for.
pub open spec fn classified(raw: Seq<char>) -> LineModel<Kind> {
    LineModel { raw, kind: classify(raw) }
}

/// The file that a text is: its lines, each classified.
pub open spec fn parsed(input: Seq<char>) -> Seq<LineModel<Kind>> {
    text::split_lines(input).map_values(|raw: Seq<char>| classified(raw))
}

/// Whether the given spans lie in a text of the given length, one after the other.
pub open spec fn in_order(fields: Seq<(int, int)>, from: int, len: int) -> bool {
    &&& fields.len() > 0
    &&& forall|k: int|
        0 <= k < fields.len() ==> from <= (#[trigger] fields[k]).0 && fields[k].0 <= fields[k].1
            && fields[k].1 <= len
    &&& forall|j: int, k: int|
        0 <= j < k < fields.len() ==> (#[trigger] fields[j]).1 <= (#[trigger] fields[k]).0
}

/// Whether the positions recorded for a line lie inside it, in their order.
pub open spec fn spans_fit(line: LineModel<Kind>) -> bool {
    match line.kind {
        Kind::Record { name, fields, disabled } => in_order(fields, 0, line.raw.len() as int),
        _ => true,
    }
}

pub proof fn lemma_fields_in_order(code: Seq<char>, from: int)
    requires
        0 <= from <= code.len(),
    ensures
        in_order(fields_from(code, from), from, code.len() as int),
    decreases code.len() - from,
{
    let comma = from + text::find_char(code.skip(from), ',');
    text::lemma_find_char(code.skip(from), ',');
    if comma >= code.len() {
        text::lemma_trim(code.subrange(from, code.len() as int));
    } else {
        text::lemma_trim(code.subrange(from, comma));
        lemma_fields_in_order(code, comma + 1);
        let rest = fields_from(code, comma + 1);
        let all = fields_from(code, from);
        assert forall|k: int| 0 <= k < all.len() implies from <= (#[trigger] all[k]).0 && all[k].0
            <= all[k].1 && all[k].1 <= code.len() by {
            if k > 0 {
                assert(all[k] == rest[k - 1]);
            }
        }
        assert forall|j: int, k: int| 0 <= j < k < all.len() implies (#[trigger] all[j]).1
            <= (#[trigger] all[k]).0 by {
            assert(all[k] == rest[k - 1]);
            if j > 0 {
                assert(all[j] == rest[j - 1]);
            }
        }
    }
}

pub proof fn lemma_classify_fits(raw: Seq<char>)
    ensures
        spans_fit(classified(raw)),
{
    let content = text::strip_terminator(raw);
    let code = code_of(content);
    text::lemma_find_char(content, '#');
    text::lemma_find_char(code, '=');
    if classify(raw) is Record {
        lemma_fields_in_order(code, text::find_char(code, '=') + 1);
    }
}

fn trim_span(code: &[char], from: usize, to: usize) -> (r: (usize, usize))
    requires
        from <= to <= code@.len(),
    ensures
        (r.0 as int, r.1 as int) == trimmed_span(code@, from as int, to as int),
        from <= r.0 <= r.1 <= to,
{
    let segment = slice_subrange(code, from, to);
    proof {
        text::lemma_trim(segment@);
    }
    let start: usize = from + count_leading_space(segment);
    (start, start + trimmed(segment).len())
}

/// Computes [`record`].
fn scan_record(code: &[char], eq: usize) -> (r: LineKind)
    requires
        eq < code@.len(),
    ensures
        r@ == record(code@, eq as int),
{
    let n: usize = code.len();
    let ghost all = fields_from(code@, eq + 1);
    let mut fields: Vec<(usize, usize)> = Vec::new();
    let mut start: usize = eq + 1;
    let mut more = true;
    assert(spans(fields@) + fields_from(code@, start as int) =~= all);
    while more
        invariant
            eq < start <= n,
            n == code@.len(),
            all == fields_from(code@, eq + 1),
            more ==> spans(fields@) + fields_from(code@, start as int) == all,
            !more ==> spans(fields@) == all,
        decreases n - start + (if more {
            1int
        } else {
            0
        }),
    {
        let rest = slice_subrange(code, start, n);
        assert(rest@ =~= code@.skip(start as int));
        proof {
            text::lemma_find_char(rest@, ',');
        }
        let ghost done = spans(fields@);
        match index_of(rest, ',') {
            Some(offset) => {
                let end: usize = start + offset;
                let span = trim_span(code, start, end);
                let ghost model = (span.0 as int, span.1 as int);
                fields.push(span);
                assert(spans(fields@) =~= done.push(model));
                assert(done + (seq![model] + fields_from(code@, end + 1)) =~= done.push(model)
                    + fields_from(code@, end + 1));
                start = end + 1;
            },
            None => {
                let span = trim_span(code, start, n);
                let ghost model = (span.0 as int, span.1 as int);
                fields.push(span);
                assert(spans(fields@) =~= done.push(model));
                assert(done + seq![model] =~= done.push(model));
                more = false;
            },
        }
    }
    proof {
        lemma_fields_in_order(code@, eq + 1);
        assert(all[0] == (fields@[0].0 as int, fields@[0].1 as int));
    }
    let name = text::text(slice_subrange(code, fields[0].0, fields[0].1));
    let mut disabled = false;
    if fields.len() == 2 {
        assert(all[1] == (fields@[1].0 as int, fields@[1].1 as int));
        let second = text::text(slice_subrange(code, fields[1].0, fields[1].1));
        disabled = text::same_text(second.as_str(), "disable");
    }
    LineKind::Record { name, fields, disabled }
}

/// Classifies one line, terminator included.
fn classify_line(raw: &str) -> (r: LineKind)
    ensures
        r@ == classify(raw@),
{
    let all = chars(raw);
    let content = without_terminator(all.as_slice());
    let body = trimmed_start(content);
    if body.len() == 0 {
        return LineKind::Blank;
    }
    if body[0] == '#' {
        return LineKind::Comment;
    }
    proof {
        text::lemma_find_char(content@, '#');
    }
    let code = match index_of(content, '#') {
        Some(hash) => slice_subrange(content, 0, hash),
        None => content,
    };
    assert(code@ =~= code_of(content@));
    if let Some(eq) = index_of(code, '=') {
        let before = slice_subrange(code, 0, eq);
        assert(before@ =~= code@.take(eq as int));
        if text::same_text(text::text(trimmed(before)).as_str(), "monitor") {
            return scan_record(code, eq);
        }
    }
    LineKind::Other
}

fn classified_line(raw: String) -> (r: Line<LineKind>)
    ensures
        r@ == classified(raw@),
        spans_fit(r@),
{
    proof {
        lemma_classify_fits(raw@);
    }
    let kind = classify_line(raw.as_str());
    Line { raw, kind }
}

/// A field of a record that can be read and set by its position.
#[derive(Clone, Copy, Debug, PartialEq, Eq, Structural)]
pub enum MonitorField {
    /// The resolution and refresh rate.
    Mode,
    /// The position in the layout.
    Position,
    /// The scale.
    Scale,
}

impl MonitorField {
    /// Which field of a record this is, the name being the field before the first.
    pub open spec fn place(self) -> int {
        match self {
            MonitorField::Mode => 1,
            MonitorField::Position => 2,
            MonitorField::Scale => 3,
        }
    }

    /// How the field is called.
    pub open spec fn word(self) -> Seq<char> {
        match self {
            MonitorField::Mode => "mode"@,
            MonitorField::Position => "position"@,
            MonitorField::Scale => "scale"@,
        }
    }

    fn index(self) -> (r: usize)
        ensures
            r == self.place(),
    {
        match self {
            MonitorField::Mode => 1,
            MonitorField::Position => 2,
            MonitorField::Scale => 3,
        }
    }

    fn label(self) -> (r: &'static str)
        ensures
            r@ == self.word(),
    {
        match self {
            MonitorField::Mode => "mode",
            MonitorField::Position => "position",
            MonitorField::Scale => "scale",
        }
    }
}

/// What a record is to say.
#[derive(Clone, Debug, PartialEq, Eq)]
pub enum MonitorState {
    /// The monitor is used as given.
    Active {
        /// The resolution and refresh rate.
        mode: String,
        /// The position in the layout.
        position: String,
        /// The scale.
        scale: String,
    },
    /// The monitor is not used.
    Disabled,
}

/// What a successful edit did.
#[derive(Clone, Copy, Debug, PartialEq, Eq, Structural)]
pub enum SetOutcome {
    /// A record was changed.
    Edited,
    /// A record was added.
    Appended,
}

/// A problem noticed while parsing. The line it concerns is kept as it is.
#[derive(Clone, Debug, PartialEq, Eq)]
pub struct ParseWarning {
    line: usize,
    kind: ParseWarningKind,
}

/// What is wrong with the line of a [`ParseWarning`].
#[derive(Clone, Debug, PartialEq, Eq, Structural)]
pub enum ParseWarningKind {
    /// A record that is neither `name,disable` nor has a mode, a position and a scale.
    UnexpectedRecordShape {
        /// How many fields it has, the name included.
        field_count: usize,
    },
}

/// The mathematical counterpart of [`ParseWarning`].
pub struct Warning {
    /// The line's number, counted from one.
    pub line: int,
    /// How many fields its record has, the name included.
    pub field_count: int,
}

impl View for ParseWarning {
    type V = Warning;

    closed spec fn view(&self) -> Warning {
        Warning {
            line: self.line as int,
            field_count: match self.kind {
                ParseWarningKind::UnexpectedRecordShape { field_count } => field_count as int,
            },
        }
    }
}

/// The models of the given warnings.
pub open spec fn warning_models(warnings: Seq<ParseWarning>) -> Seq<Warning> {
    warnings.map_values(|warning: ParseWarning| warning@)
}

impl ParseWarning {
    /// The number of the line, counted from one.
    pub fn line(&self) -> (r: usize)
        ensures
            r == self@.line,
    {
        self.line
    }

    /// What is wrong with the line.
    pub fn kind(&self) -> (r: &ParseWarningKind)
        ensures
            match *r {
                ParseWarningKind::UnexpectedRecordShape { field_count } => field_count
                    == self@.field_count,
            },
    {
        &self.kind
    }

    /// Puts the warning into words.
    pub fn to_string(&self) -> (r: String)
        ensures
            r@ == "line "@ + text::decimal(self@.line) + ": `monitor=` record has "@
                + text::decimal(self@.field_count)
                + " comma field(s); expected `<name>,disable` or `<name>,mode,position,scale[,extras]` (at least four fields)"@,
    {
        let mut r = "line ".to_owned();
        r.append(text::decimal_text(self.line).as_str());
        match &self.kind {
            ParseWarningKind::UnexpectedRecordShape { field_count } => {
                r.append(": `monitor=` record has ");
                r.append(text::decimal_text(*field_count).as_str());
                r.append(
                    " comma field(s); expected `<name>,disable` or `<name>,mode,position,scale[,extras]` (at least four fields)",
                );
            },
        }
        r
    }
}

/// What is wrong with line `i`, if anything.
pub open spec fn warning_at(lines: Seq<LineModel<Kind>>, i: int) -> Option<Warning> {
    match lines[i].kind {
        Kind::Record { name, fields, disabled } => if !disabled && fields.len() < 4 {
            Some(Warning { line: i + 1, field_count: fields.len() as int })
        } else {
            None
        },
        _ => None,
    }
}

/// What is wrong with the first `n` lines, in the order of the lines.
pub open spec fn warnings_upto(lines: Seq<LineModel<Kind>>, n: int) -> Seq<Warning>
    decreases n,
{
    if n <= 0 {
        Seq::empty()
    } else {
        match warning_at(lines, n - 1) {
            Some(warning) => warnings_upto(lines, n - 1).push(warning),
            None => warnings_upto(lines, n - 1),
        }
    }
}

/// What is wrong with a file.
pub open spec fn warnings(lines: Seq<LineModel<Kind>>) -> Seq<Warning> {
    warnings_upto(lines, lines.len() as int)
}

/// A failed edit. The file is as it was.
#[derive(Clone, Debug, PartialEq, Eq)]
pub enum EditError {
    /// There is no record with this name.
    NoSuchMonitor(String),
    /// The record with this name is disabled, so it has no such field.
    RecordDisabled(String),
    /// The record is too short to have the field.
    FieldMissing {
        /// The record's name.
        monitor: String,
        /// The field.
        field: MonitorField,
    },
    /// The value would break its line, add a field, or begin a comment.
    InvalidValue(String),
}

impl EditError {
    /// Puts the failure into words.
    pub fn to_string(&self) -> (r: String)
        ensures
            r@ == match *self {
                EditError::NoSuchMonitor(name) => "no `monitor=` record named `"@ + name@
                    + "` to edit"@,
                EditError::RecordDisabled(name) => "the `monitor=` record named `"@ + name@
                    + "` is disabled and has no field to edit"@,
                EditError::FieldMissing { monitor, field } => "the `monitor=` record named `"@
                    + monitor@ + "` has no "@ + field.word() + " field"@,
                EditError::InvalidValue(value) => "`"@ + value@
                    + "` contains a comma, newline, or `#`, which would break the record's positional (awk-parseable) structure"@,
            },
    {
        match self {
            EditError::NoSuchMonitor(name) => {
                let mut r = "no `monitor=` record named `".to_owned();
                r.append(name.as_str());
                r.append("` to edit");
                r
            },
            EditError::RecordDisabled(name) => {
                let mut r = "the `monitor=` record named `".to_owned();
                r.append(name.as_str());
                r.append("` is disabled and has no field to edit");
                r
            },
            EditError::FieldMissing { monitor, field } => {
                let mut r = "the `monitor=` record named `".to_owned();
                r.append(monitor.as_str());
                r.append("` has no ");
                r.append(field.label());
                r.append(" field");
                r
            },
            EditError::InvalidValue(value) => {
                let mut r = "`".to_owned();
                r.append(value.as_str());
                r.append(
                    "` contains a comma, newline, or `#`, which would break the record's positional (awk-parseable) structure",
                );
                r
            },
        }
    }
}

/// Whether a text cannot be a field: it would break its line, add a field, or begin a comment.
pub open spec fn is_unsafe(value: Seq<char>) -> bool {
    text::breaks_line(value) || value.contains(',') || value.contains('#')
}

fn unsafe_value(value: &str) -> (r: bool)
    ensures
        r == is_unsafe(value@),
{
    let cs = chars(value);
    text::splits_line(value) || has_char(cs.as_slice(), ',') || has_char(cs.as_slice(), '#')
}

/// The records named `name`.
pub open spec fn records(lines: Seq<LineModel<Kind>>, name: Seq<char>) -> spec_fn(int) -> bool {
    |i: int| lines[i].kind is Record && lines[i].kind->name == name
}

/// All records.
pub open spec fn any_record(lines: Seq<LineModel<Kind>>) -> spec_fn(int) -> bool {
    |i: int| lines[i].kind is Record
}

/// The last record named `name`, if there is one.
pub open spec fn record_of(lines: Seq<LineModel<Kind>>, name: Seq<char>) -> Option<int> {
    search::last_where(lines.len() as int, records(lines, name))
}

/// The text of field `k` of a record.
pub open spec fn field_text(line: LineModel<Kind>, k: int) -> Seq<char> {
    line.raw.subrange(line.kind->fields[k].0, line.kind->fields[k].1)
}

/// The text of a field of the last record named `name`, unless there is none, it is disabled
/// or too short.
pub open spec fn field_of(lines: Seq<LineModel<Kind>>, name: Seq<char>, field: MonitorField) -> Option<
    Seq<char>,
> {
    match record_of(lines, name) {
        Some(i) => if lines[i].kind->disabled || lines[i].kind->fields.len() <= field.place() {
            None
        } else {
            Some(field_text(lines[i], field.place()))
        },
        None => None,
    }
}

/// A record with another text for field `k`.
pub open spec fn with_field(line: LineModel<Kind>, k: int, value: Seq<char>) -> LineModel<Kind> {
    classified(
        text::splice(line.raw, line.kind->fields[k].0, line.kind->fields[k].1, value),
    )
}

/// A record with another text after its name.
pub open spec fn with_body(line: LineModel<Kind>, body: Seq<char>) -> LineModel<Kind> {
    classified(
        text::splice(line.raw, line.kind->fields[0].1, line.kind->fields.last().1, body),
    )
}

/// What stands after the name in a record that says `state`.
pub open spec fn body_of(state: MonitorState) -> Seq<char> {
    match state {
        MonitorState::Active { mode, position, scale } => ","@ + mode@ + ","@ + position@ + ","@
            + scale@,
        MonitorState::Disabled => ",disable"@,
    }
}

/// The first part of a state that cannot be a field, if there is one.
pub open spec fn unsafe_part(state: MonitorState) -> Option<Seq<char>> {
    match state {
        MonitorState::Active { mode, position, scale } => if is_unsafe(mode@) {
            Some(mode@)
        } else if is_unsafe(position@) {
            Some(position@)
        } else if is_unsafe(scale@) {
            Some(scale@)
        } else {
            None
        },
        MonitorState::Disabled => None,
    }
}

/// A file with a new record: after the last one, which it begins like, or at the end.
pub open spec fn with_record(
    lines: Seq<LineModel<Kind>>,
    name: Seq<char>,
    body: Seq<char>,
) -> Seq<LineModel<Kind>> {
    let end = lines::terminator(lines);
    match search::last_where(lines.len() as int, any_record(lines)) {
        Some(i) => {
            let prefix = lines[i].raw.take(lines[i].kind->fields[0].0);
            let before = lines::terminated(lines.take(i + 1), end);
            before.push(classified(prefix + name + body + end)) + lines.skip(i + 1)
        },
        None => lines::terminated(lines, end).push(classified("monitor="@ + name + body + end)),
    }
}

/// Whether the monitor of the last record named `name` is used, if there is one.
pub open spec fn enabled_of(lines: Seq<LineModel<Kind>>, name: Seq<char>) -> Option<bool> {
    match record_of(lines, name) {
        Some(i) => Some(!lines[i].kind->disabled),
        None => None,
    }
}

/// Whether a field can be set.
pub open spec fn accepts_field(
    lines: Seq<LineModel<Kind>>,
    name: Seq<char>,
    field: MonitorField,
    value: Seq<char>,
) -> bool {
    !is_unsafe(value) && field_of(lines, name, field) is Some
}

/// A file after setting a field, as it was where that cannot be done.
pub open spec fn after_set_field(
    lines: Seq<LineModel<Kind>>,
    name: Seq<char>,
    field: MonitorField,
    value: Seq<char>,
) -> Seq<LineModel<Kind>> {
    match record_of(lines, name) {
        Some(i) => if accepts_field(lines, name, field, value) {
            lines.update(i, with_field(lines[i], field.place(), value))
        } else {
            lines
        },
        None => lines,
    }
}

/// Whether a record can be made to say `state`.
pub open spec fn accepts_state(
    lines: Seq<LineModel<Kind>>,
    name: Seq<char>,
    state: MonitorState,
) -> bool {
    unsafe_part(state) is None && (record_of(lines, name) is Some || !is_unsafe(name))
}

/// A file after making a record say `state`, as it was where that cannot be done.
pub open spec fn after_set_state(
    lines: Seq<LineModel<Kind>>,
    name: Seq<char>,
    state: MonitorState,
) -> Seq<LineModel<Kind>> {
    if !accepts_state(lines, name, state) {
        lines
    } else {
        match record_of(lines, name) {
            Some(i) => lines.update(i, with_body(lines[i], body_of(state))),
            None => with_record(lines, name, body_of(state)),
        }
    }
}

/// The names of the records among the first `n` lines, in order.
pub open spec fn names_upto(lines: Seq<LineModel<Kind>>, n: int) -> Seq<Seq<char>>
    decreases n,
{
    if n <= 0 {
        Seq::empty()
    } else if lines[n - 1].kind is Record {
        names_upto(lines, n - 1).push(lines[n - 1].kind->name)
    } else {
        names_upto(lines, n - 1)
    }
}

/// The characters of each of the given texts.
pub open spec fn str_views(texts: Seq<&str>) -> Seq<Seq<char>> {
    texts.map_values(|s: &str| s@)
}

spec fn optional(i: Option<usize>) -> Option<int> {
    match i {
        Some(i) => Some(i as int),
        None => None,
    }
}

/// A `monitors.conf` file.
#[derive(Debug)]
pub struct MonitorsFile {
    lines: Vec<Line<LineKind>>,
}

impl View for MonitorsFile {
    type V = Seq<LineModel<Kind>>;

    closed spec fn view(&self) -> Seq<LineModel<Kind>> {
        lines::models(self.lines@)
    }
}

impl Clone for MonitorsFile {
    fn clone(&self) -> (r: Self)
        ensures
            r@ == self@,
    {
        proof {
            use_type_invariant(self);
        }
        let lines = lines::copy_lines(&self.lines);
        assert forall|i: int| 0 <= i < lines@.len() implies spans_fit(#[trigger] lines@[i]@) by {
            assert(spans_fit(self.lines@[i]@));
        }
        MonitorsFile { lines }
    }
}

impl MonitorsFile {
    #[verifier::type_invariant]
    spec fn well_formed(&self) -> bool {
        forall|i: int| 0 <= i < self.lines@.len() ==> spans_fit(#[trigger] self.lines@[i]@)
    }

    /// Reads a file. Every text is one; what is wrong with it comes as warnings.
    pub fn parse(input: &str) -> (r: (Self, Vec<ParseWarning>))
        ensures
            r.0@ == parsed(input@),
            warning_models(r.1@) == warnings(parsed(input@)),
    {
        let raws = lines_of(input);
        let ghost all = parsed(input@);
        let mut file: Vec<Line<LineKind>> = Vec::new();
        let mut found: Vec<ParseWarning> = Vec::new();
        let mut i: usize = 0;
        while i < raws.len()
            invariant
                i <= raws.len(),
                all == parsed(input@),
                text::split_lines(input@) == text::views(raws@),
                lines::models(file@) == all.take(i as int),
                warning_models(found@) == warnings_upto(all, i as int),
                forall|j: int| 0 <= j < file@.len() ==> spans_fit(#[trigger] file@[j]@),
            decreases raws.len() - i,
        {
            let line = classified_line(raws[i].clone());
            assert(text::split_lines(input@)[i as int] == raws@[i as int]@);
            assert(all[i as int] == line@);
            if let LineKind::Record { name: _, fields, disabled } = &line.kind {
                if !*disabled && fields.len() < 4 {
                    let ghost before = warning_models(found@);
                    let warning = ParseWarning {
                        line: i + 1,
                        kind: ParseWarningKind::UnexpectedRecordShape {
                            field_count: fields.len(),
                        },
                    };
                    found.push(warning);
                    assert(warning_models(found@) =~= before.push(warning@));
                }
            }
            let ghost before = lines::models(file@);
            file.push(line);
            assert(lines::models(file@) =~= before.push(line@));
            assert(all.take(i + 1) =~= all.take(i as int).push(line@));
            i += 1;
        }
        assert(all.take(all.len() as int) =~= all);
        (MonitorsFile { lines: file }, found)
    }

    /// Writes the file back.
    pub fn emit(&self) -> (r: String)
        ensures
            r@ == lines::emitted(self@),
    {
        lines::emit_lines(&self.lines)
    }

    /// The names of the records, in order.
    pub fn record_names(&self) -> (r: Vec<&str>)
        ensures
            str_views(r@) == names_upto(self@, self@.len() as int),
    {
        let ghost all = self@;
        let mut r: Vec<&str> = Vec::new();
        let mut i: usize = 0;
        while i < self.lines.len()
            invariant
                i <= self.lines.len(),
                all == lines::models(self.lines@),
                str_views(r@) == names_upto(all, i as int),
            decreases self.lines.len() - i,
        {
            assert(all[i as int] == self.lines@[i as int]@);
            if let LineKind::Record { name, fields: _, disabled: _ } = &self.lines[i].kind {
                let ghost before = str_views(r@);
                r.push(name.as_str());
                assert(str_views(r@) =~= before.push(name@));
            }
            i += 1;
        }
        r
    }

    /// Whether the monitor of the last record named `name` is used, if there is one.
    pub fn is_enabled(&self, name: &str) -> (r: Option<bool>)
        ensures
            r == enabled_of(self@, name@),
    {
        match self.find_record(name) {
            Some(i) => match &self.lines[i].kind {
                LineKind::Record { name: _, fields: _, disabled } => Some(!*disabled),
                _ => None,
            },
            None => None,
        }
    }

    /// The text of a field of the last record named `name`, unless there is none, it is
    /// disabled or too short.
    pub fn field(&self, name: &str, field: MonitorField) -> (r: Option<&str>)
        ensures
            match r {
                Some(value) => field_of(self@, name@, field) == Some(value@),
                None => field_of(self@, name@, field) is None,
            },
    {
        match self.find_record(name) {
            Some(i) => {
                proof {
                    use_type_invariant(&*self);
                    assert(spans_fit(self.lines@[i as int]@));
                }
                let line = &self.lines[i];
                match &line.kind {
                    LineKind::Record { name: _, fields, disabled } => {
                        let k: usize = field.index();
                        if *disabled || fields.len() <= k {
                            None
                        } else {
                            let (start, end) = fields[k];
                            assert(spans(fields@)[k as int] == (start as int, end as int));
                            Some(line.raw.as_str().substring_char(start, end))
                        }
                    },
                    _ => None,
                }
            },
            None => None,
        }
    }

    /// Sets a field of the last record named `name`.
    pub fn set_field(&mut self, name: &str, field: MonitorField, value: &str) -> (r: Result<
        (),
        EditError,
    >)
        ensures
            final(self)@ == after_set_field(old(self)@, name@, field, value@),
            is_unsafe(value@) ==> (r matches Err(EditError::InvalidValue(s)) && s@ == value@),
            !is_unsafe(value@) ==> match record_of(old(self)@, name@) {
                Some(i) => if old(self)@[i].kind->disabled {
                    r matches Err(EditError::RecordDisabled(s)) && s@ == name@
                } else if old(self)@[i].kind->fields.len() <= field.place() {
                    r matches Err(EditError::FieldMissing { monitor, field: f }) && monitor@
                        == name@ && f == field
                } else {
                    r is Ok
                },
                None => r matches Err(EditError::NoSuchMonitor(s)) && s@ == name@,
            },
    {
        if unsafe_value(value) {
            return Err(EditError::InvalidValue(value.to_owned()));
        }
        let i: usize = match self.find_record(name) {
            Some(i) => i,
            None => {
                return Err(EditError::NoSuchMonitor(name.to_owned()));
            },
        };
        proof {
            use_type_invariant(&*self);
            assert(spans_fit(self.lines@[i as int]@));
        }
        if let LineKind::Record { name: _, fields, disabled } = &self.lines[i].kind {
            if *disabled {
                return Err(EditError::RecordDisabled(name.to_owned()));
            }
            let k: usize = field.index();
            if fields.len() > k {
                let (start, end) = fields[k];
                assert(spans(fields@)[k as int] == (start as int, end as int));
                self.rewrite(i, start, end, value);
                return Ok(());
            }
        }
        Err(EditError::FieldMissing { monitor: name.to_owned(), field })
    }

    /// Makes the last record named `name` say `state`, adding a record where there is none.
    pub fn set_state(&mut self, name: &str, state: &MonitorState) -> (r: Result<
        SetOutcome,
        EditError,
    >)
        ensures
            final(self)@ == after_set_state(old(self)@, name@, *state),
            match unsafe_part(*state) {
                Some(part) => r matches Err(EditError::InvalidValue(s)) && s@ == part,
                None => match record_of(old(self)@, name@) {
                    Some(i) => r == Ok::<SetOutcome, EditError>(SetOutcome::Edited),
                    None => if is_unsafe(name@) {
                        r matches Err(EditError::InvalidValue(s)) && s@ == name@
                    } else {
                        r == Ok::<SetOutcome, EditError>(SetOutcome::Appended)
                    },
                },
            },
    {
        let body = match state {
            MonitorState::Active { mode, position, scale } => {
                if unsafe_value(mode.as_str()) {
                    return Err(EditError::InvalidValue(mode.clone()));
                }
                if unsafe_value(position.as_str()) {
                    return Err(EditError::InvalidValue(position.clone()));
                }
                if unsafe_value(scale.as_str()) {
                    return Err(EditError::InvalidValue(scale.clone()));
                }
                let mut body = ",".to_owned();
                body.append(mode.as_str());
                body.append(",");
                body.append(position.as_str());
                body.append(",");
                body.append(scale.as_str());
                body
            },
            MonitorState::Disabled => ",disable".to_owned(),
        };
        if let Some(i) = self.find_record(name) {
            proof {
                use_type_invariant(&*self);
                assert(spans_fit(self.lines@[i as int]@));
            }
            if let LineKind::Record { name: _, fields, disabled: _ } = &self.lines[i].kind {
                let n: usize = fields.len();
                let ghost model = spans(fields@);
                assert(model.len() == n);
                let (_, start) = fields[0];
                let (_, end) = fields[n - 1];
                assert(model[0].1 == start);
                assert(model[n - 1].1 == end);
                assert(start <= end) by {
                    if n > 1 {
                        assert(model[0].1 <= model[n - 1].0);
                    }
                }
                self.rewrite(i, start, end, body.as_str());
            }
            return Ok(SetOutcome::Edited);
        }
        if unsafe_value(name) {
            return Err(EditError::InvalidValue(name.to_owned()));
        }
        self.append_record(name, body.as_str());
        Ok(SetOutcome::Appended)
    }

    fn rewrite(&mut self, index: usize, start: usize, end: usize, value: &str)
        requires
            index < old(self)@.len(),
            start <= end <= old(self)@[index as int].raw.len(),
        ensures
            final(self)@ == old(self)@.update(
                index as int,
                classified(
                    text::splice(old(self)@[index as int].raw, start as int, end as int, value@),
                ),
            ),
    {
        proof {
            use_type_invariant(&*self);
        }
        let ghost before = self@;
        let line = classified_line(
            text::spliced(self.lines[index].raw.as_str(), start, end, value),
        );
        let mut file = self.take_lines();
        file.set(index, line);
        assert(lines::models(file@) =~= before.update(index as int, line@));
        self.lines = file;
    }

    fn find_record(&self, name: &str) -> (r: Option<usize>)
        ensures
            optional(r) == record_of(self@, name@),
            r matches Some(i) ==> i < self@.len() && self@[i as int].kind is Record,
    {
        let ghost all = self@;
        let ghost wanted = records(all, name@);
        let mut i: usize = self.lines.len();
        while i > 0
            invariant
                i <= self.lines.len(),
                all == lines::models(self.lines@),
                wanted == records(all, name@),
                forall|j: int| i <= j < all.len() ==> !#[trigger] wanted(j),
            decreases i,
        {
            i -= 1;
            assert(all[i as int] == self.lines@[i as int]@);
            if let LineKind::Record { name: found, fields: _, disabled: _ } =
                &self.lines[i].kind {
                if text::same_text(found.as_str(), name) {
                    proof {
                        search::lemma_last_where_is(all.len() as int, wanted, i as int);
                    }
                    return Some(i);
                }
            }
        }
        proof {
            search::lemma_last_where(all.len() as int, wanted);
        }
        None
    }

    fn last_record_index(&self) -> (r: Option<usize>)
        ensures
            optional(r) == search::last_where(self@.len() as int, any_record(self@)),
            r matches Some(i) ==> i < self@.len() && self@[i as int].kind is Record,
    {
        let ghost all = self@;
        let ghost wanted = any_record(all);
        let mut i: usize = self.lines.len();
        while i > 0
            invariant
                i <= self.lines.len(),
                all == lines::models(self.lines@),
                wanted == any_record(all),
                forall|j: int| i <= j < all.len() ==> !#[trigger] wanted(j),
            decreases i,
        {
            i -= 1;
            assert(all[i as int] == self.lines@[i as int]@);
            if let LineKind::Record { name: _, fields: _, disabled: _ } = &self.lines[i].kind {
                proof {
                    search::lemma_last_where_is(all.len() as int, wanted, i as int);
                }
                return Some(i);
            }
        }
        proof {
            search::lemma_last_where(all.len() as int, wanted);
        }
        None
    }

    fn append_record(&mut self, name: &str, body: &str)
        ensures
            final(self)@ == with_record(old(self)@, name@, body@),
    {
        let ghost before = self@;
        let end = lines::line_terminator(&self.lines);
        let last = self.last_record_index();
        proof {
            use_type_invariant(&*self);
        }
        let mut raw = match last {
            Some(i) => {
                let line = &self.lines[i];
                assert(spans_fit(self.lines@[i as int]@));
                match &line.kind {
                    LineKind::Record { name: _, fields, disabled: _ } => {
                        let (start, _) = fields[0];
                        assert(spans(fields@)[0].0 == start);
                        let prefix = line.raw.as_str().substring_char(0, start).to_owned();
                        assert(prefix@ =~= before[i as int].raw.take(start as int));
                        prefix
                    },
                    _ => "monitor=".to_owned(),
                }
            },
            None => "monitor=".to_owned(),
        };
        raw.append(name);
        raw.append(body);
        raw.append(end);
        let line = classified_line(raw);
        let ghost fitting = self.lines@;
        let mut file = self.take_lines();
        let count: usize = file.len();
        let place: usize = match last {
            Some(i) => i + 1,
            None => count,
        };
        let mut tail = file.split_off(place);
        let ghost head = lines::models(file@);
        assert(head =~= before.take(place as int));
        lines::terminate(&mut file, end);
        let ghost ended = lines::models(file@);
        assert(ended.len() == place);
        assert forall|i: int| 0 <= i < file@.len() implies spans_fit(#[trigger] file@[i]@) by {
            assert(ended[i] == file@[i]@);
            assert(spans_fit(fitting[i]@));
            assert(before[i] == fitting[i]@);
        }
        file.push(line);
        assert(lines::models(file@) =~= ended.push(line@));
        let ghost rest = tail@;
        assert(lines::models(rest) =~= before.skip(place as int));
        assert forall|i: int| 0 <= i < rest.len() implies spans_fit(#[trigger] rest[i]@) by {
            assert(rest[i] == fitting[i + place]);
        }
        file.append(&mut tail);
        assert(lines::models(file@) =~= ended.push(line@) + lines::models(rest));
        assert(before.take(before.len() as int) =~= before);
        assert(ended.push(line@) + Seq::<LineModel<Kind>>::empty() =~= ended.push(line@));
        self.lines = file;
    }

    fn take_lines(&mut self) -> (r: Vec<Line<LineKind>>)
        ensures
            r == old(self).lines,
    {
        let mut r: Vec<Line<LineKind>> = Vec::new();
        core::mem::swap(&mut self.lines, &mut r);
        r
    }
}

} // verus!
