//! The laws of the `settings.ini` format.

use crate::lines;
use crate::lines::LineModel;
use crate::parsers::assignment;
use crate::parsers::ini;
use crate::parsers::ini::Kind;
use crate::search;
use crate::text;
use vstd::prelude::*;

verus! {

/// Whether a line is what its text says: an entry's value lies behind the first `=` with nothing
/// but white space around it, and any other line is what it is taken for.
pub open spec fn sound(line: LineModel<Kind>) -> bool {
    let body = lines::body(line.raw);
    let eq = text::find_char(body, '=');
    &&& lines::is_line(line.raw)
    &&& match line.kind {
        Kind::Entry { key, value_start, value_end } => {
            &&& key == text::trim(body.take(eq))
            &&& key.len() > 0
            &&& text::trim(body)[0] != '#'
            &&& text::trim(body)[0] != '['
            &&& eq < value_start <= value_end <= body.len()
            &&& text::spaces(body, eq + 1, value_start)
            &&& text::spaces(body, value_end, body.len() as int)
        },
        kind => kind == ini::classify(line.raw),
    }
}

/// Whether the lines are those of a file, and each is what its text says.
pub open spec fn sound_file(file: Seq<LineModel<Kind>>) -> bool {
    &&& lines::is_file(lines::raws(file))
    &&& forall|i: int| 0 <= i < file.len() ==> sound(#[trigger] file[i])
}

/// A file that was only read is written back as it was.
pub proof fn round_trip(input: Seq<char>)
    ensures
        lines::emitted(ini::parsed(input)) == input,
{
    assert(lines::raws(ini::parsed(input)) =~= text::split_lines(input));
    text::lemma_join_split_lines(input);
}

/// A line that was read is what its text says.
proof fn lemma_classified_is_sound(raw: Seq<char>)
    requires
        lines::is_line(raw),
    ensures
        sound(ini::classified(raw)),
{
    let content = text::strip_terminator(raw);
    let body = lines::body(raw);
    lines::lemma_content_of_body(raw);
    lemma_same_start(content, body);
    if ini::classify(raw) is Entry {
        let eq = text::find_char(content, '=');
        text::lemma_find_char(content, '=');
        assert(body[eq] == '=' && body.take(eq) =~= content.take(eq));
        text::lemma_find_char_is(body, '=', eq);
        assignment::lemma_value_span(content, eq);
        let after = content.skip(eq + 1);
        text::lemma_trim_bounds(after);
        let start = assignment::value_start(content, eq);
        let end = assignment::value_end(content, eq);
        assert forall|i: int| eq + 1 <= i < start implies text::is_space(#[trigger] body[i]) by {
            assert(body[i] == content[i]);
        }
        assert forall|i: int| end <= i < body.len() implies text::is_space(#[trigger] body[i]) by {
            if i < content.len() {
                assert(body[i] == content[i]);
                assert(after[i - eq - 1] == content[i]);
            }
        }
    }
}

proof fn lemma_same_start(content: Seq<char>, body: Seq<char>)
    requires
        content == body || content.push('\r') == body,
    ensures
        text::trim(content) == text::trim(body),
        forall|i: int| 0 <= i < content.len() ==> content[i] == #[trigger] body[i],
        content.len() <= body.len(),
{
    text::lemma_trim_return(content);
}

/// A file that was read is sound.
pub proof fn parsed_is_sound(input: Seq<char>)
    ensures
        sound_file(ini::parsed(input)),
{
    let file = ini::parsed(input);
    let raws = text::split_lines(input);
    lines::lemma_split_is_file(input);
    assert(lines::raws(file) =~= raws);
    assert forall|i: int| 0 <= i < file.len() implies sound(#[trigger] file[i]) by {
        assert(lines::is_line(raws[i]));
        lemma_classified_is_sound(raws[i]);
    }
}

/// Reading a sound line again gives the same line, with an entry's value trimmed.
proof fn lemma_reread_line(line: LineModel<Kind>)
    requires
        sound(line),
    ensures
        match line.kind {
            Kind::Entry { key, value_start, value_end } => {
                let again = ini::classified(line.raw);
                &&& again.kind is Entry
                &&& again.kind->Entry_key == key
                &&& ini::value_at(again) == text::trim(ini::value_at(line))
            },
            kind => ini::classify(line.raw) == kind,
        },
{
    if let Kind::Entry { key, value_start, value_end } = line.kind {
        let raw = line.raw;
        let content = text::strip_terminator(raw);
        let body = lines::body(raw);
        let eq = text::find_char(body, '=');
        lines::lemma_content_of_body(raw);
        lemma_same_start(content, body);
        text::lemma_find_char(body, '=');
        assert(body[eq] == '=');
        assert(eq < content.len());
        text::lemma_find_char_is(content, '=', eq);
        assert(content.take(eq) =~= body.take(eq));
        text::lemma_trim_bounds(body);
        text::lemma_trim_keeps(body, eq);
        let after = content.skip(eq + 1);
        let behind = body.skip(eq + 1);
        if content.len() < body.len() {
            assert(behind =~= after.push('\r'));
            text::lemma_trim_return(after);
        } else {
            assert(behind =~= after);
        }
        let from = value_start - eq - 1;
        let to = value_end - eq - 1;
        assert forall|i: int| 0 <= i < from implies text::is_space(#[trigger] behind[i]) by {
            assert(behind[i] == body[i + eq + 1]);
        }
        assert forall|i: int| to <= i < behind.len() implies text::is_space(#[trigger] behind[i]) by {
            assert(behind[i] == body[i + eq + 1]);
        }
        text::lemma_trim_pad(behind, from, to);
        assert(behind.subrange(from, to) =~= ini::value_at(line));
        assignment::lemma_value_span(content, eq);
        let again = ini::classified(raw);
        assert(ini::value_at(again) =~= content.subrange(
            assignment::value_start(content, eq),
            assignment::value_end(content, eq),
        ));
    }
}

/// What decides where a value is found.
spec fn shape(kind: Kind) -> Kind {
    match kind {
        Kind::Entry { key, value_start, value_end } => Kind::Entry {
            key,
            value_start: 0,
            value_end: 0,
        },
        _ => kind,
    }
}

/// Files of the same shape have their entries at the same places.
proof fn lemma_same_shape(
    a: Seq<LineModel<Kind>>,
    b: Seq<LineModel<Kind>>,
    section: Seq<char>,
    key: Seq<char>,
)
    requires
        a.len() == b.len(),
        forall|i: int| 0 <= i < a.len() ==> shape((#[trigger] a[i]).kind) == shape(b[i].kind),
    ensures
        ini::header_of(a, section) == ini::header_of(b, section),
        ini::header_of(a, section) matches Some(header) ==> ini::entry_of(a, header, key)
            == ini::entry_of(b, header, key),
{
    let n = a.len() as int;
    let p = ini::headers(a, section);
    let q = ini::headers(b, section);
    assert forall|i: int| 0 <= i < n implies #[trigger] p(i) == q(i) by {
        assert(shape(a[i].kind) == shape(b[i].kind));
    }
    search::lemma_first_where_agrees(n, p, q);
    if let Some(header) = ini::header_of(a, section) {
        let u = ini::later_headers(a, header);
        let v = ini::later_headers(b, header);
        assert forall|i: int| 0 <= i < n implies #[trigger] u(i) == v(i) by {
            assert(shape(a[i].kind) == shape(b[i].kind));
        }
        search::lemma_first_where_agrees(n, u, v);
        search::lemma_first_where(n, u);
        let end = ini::end_of(a, header);
        let x = ini::entries(a, header, key);
        let y = ini::entries(b, header, key);
        assert forall|i: int| 0 <= i < end implies #[trigger] x(i) == y(i) by {
            assert(shape(a[i].kind) == shape(b[i].kind));
        }
        search::lemma_last_where_agrees(end, x, y);
    }
}

proof fn lemma_found(file: Seq<LineModel<Kind>>, section: Seq<char>, key: Seq<char>)
    ensures
        ini::header_of(file, section) matches Some(header) ==> {
            &&& 0 <= header < file.len()
            &&& file[header].kind == (Kind::Section { name: section })
            &&& header < ini::end_of(file, header) <= file.len()
            &&& ini::entry_of(file, header, key) matches Some(i) ==> {
                &&& header < i < ini::end_of(file, header)
                &&& file[i].kind is Entry
                &&& file[i].kind->Entry_key == key
            }
        },
{
    search::lemma_first_where(file.len() as int, ini::headers(file, section));
    if let Some(header) = ini::header_of(file, section) {
        search::lemma_first_where(file.len() as int, ini::later_headers(file, header));
        search::lemma_last_where(ini::end_of(file, header), ini::entries(file, header, key));
    }
}

/// A file that is written and read again gives every value that it gave, trimmed.
pub proof fn reread(file: Seq<LineModel<Kind>>, section: Seq<char>, key: Seq<char>)
    requires
        sound_file(file),
    ensures
        ini::value_of(ini::parsed(lines::emitted(file)), section, key) == match ini::value_of(
            file,
            section,
            key,
        ) {
            Some(value) => Some(text::trim(value)),
            None => None,
        },
{
    let again = ini::parsed(lines::emitted(file));
    lines::lemma_split_join(lines::raws(file));
    assert(again.len() == file.len());
    assert forall|i: int| 0 <= i < file.len() implies shape((#[trigger] file[i]).kind) == shape(
        again[i].kind,
    ) by {
        assert(lines::raws(file)[i] == file[i].raw);
        assert(again[i] == ini::classified(file[i].raw));
        lemma_reread_line(file[i]);
    }
    lemma_same_shape(file, again, section, key);
    lemma_found(file, section, key);
    if let Some(header) = ini::header_of(file, section) {
        if let Some(i) = ini::entry_of(file, header, key) {
            assert(lines::raws(file)[i] == file[i].raw);
            assert(again[i] == ini::classified(file[i].raw));
            lemma_reread_line(file[i]);
        }
    }
}

/// Replacing an entry's value leaves the line what its text says.
proof fn lemma_edit_is_sound(line: LineModel<Kind>, value: Seq<char>)
    requires
        sound(line),
        line.kind is Entry,
        !text::breaks_line(value),
    ensures
        sound(ini::with_value(line, value)),
        text::ends_line(ini::with_value(line, value).raw) == text::ends_line(line.raw),
        ini::value_at(ini::with_value(line, value)) == value,
{
    let start = line.kind->Entry_value_start;
    let end = line.kind->Entry_value_end;
    let body = lines::body(line.raw);
    let eq = text::find_char(body, '=');
    text::lemma_find_char(body, '=');
    lines::lemma_line_splice(line.raw, start, end, value);
    let edited = ini::with_value(line, value);
    let after = lines::body(edited.raw);
    assert(after == text::splice(body, start, end, value));
    assert forall|i: int| 0 <= i < start implies after[i] == #[trigger] body[i] by {}
    text::lemma_find_char_is(after, '=', eq);
    assert(after.take(eq) =~= body.take(eq));
    lemma_first_of_key(body, eq);
    lemma_first_of_key(after, eq);
    assert forall|i: int| eq + 1 <= i < start implies text::is_space(#[trigger] after[i]) by {
        assert(after[i] == body[i]);
    }
    assert forall|i: int| start + value.len() <= i < after.len() implies text::is_space(
        #[trigger] after[i],
    ) by {
        assert(after[i] == body[i - start - value.len() + end]);
    }
    assert(ini::value_at(edited) =~= value);
}

/// The first character of a line is that of its key.
proof fn lemma_first_of_key(body: Seq<char>, eq: int)
    requires
        0 <= eq < body.len(),
        text::trim(body.take(eq)).len() > 0,
    ensures
        text::trim(body).len() > 0,
        text::trim(body)[0] == text::trim(body.take(eq))[0],
{
    let before = body.take(eq);
    text::lemma_trim_bounds(before);
    text::lemma_leading_space_take(body, eq);
    let k = text::leading_space(before);
    assert(before[k] == body[k]);
    text::lemma_trim_keeps(body, k);
    text::lemma_trim_bounds(body);
}

/// Ending a line leaves it what its text says.
proof fn lemma_ended_is_sound(line: LineModel<Kind>, end: Seq<char>)
    requires
        sound(line),
        !text::ends_line(line.raw),
        end == seq!['\n'] || end == seq!['\r', '\n'],
    ensures
        sound(LineModel { raw: line.raw + end, kind: line.kind }),
        text::ends_line(line.raw + end),
        line.kind is Entry ==> ini::value_at(LineModel { raw: line.raw + end, kind: line.kind })
            == ini::value_at(line),
{
    let raw = line.raw + end;
    let ended = LineModel { raw, kind: line.kind };
    lines::lemma_line_ended(line.raw, end);
    let body = line.raw;
    let after = lines::body(raw);
    assert forall|i: int| 0 <= i < body.len() implies after[i] == #[trigger] body[i] by {}
    lemma_same_start(body, after);
    if line.kind is Entry {
        let eq = text::find_char(body, '=');
        text::lemma_find_char(body, '=');
        text::lemma_find_char_is(after, '=', eq);
        assert(after.take(eq) =~= body.take(eq));
        let start = line.kind->Entry_value_start;
        let to = line.kind->Entry_value_end;
        assert forall|i: int| eq + 1 <= i < start implies text::is_space(#[trigger] after[i]) by {
            assert(after[i] == body[i]);
        }
        assert forall|i: int| to <= i < after.len() implies text::is_space(#[trigger] after[i]) by {
            if i < body.len() {
                assert(after[i] == body[i]);
            }
        }
        assert(ini::value_at(ended) =~= ini::value_at(line));
    } else {
        lemma_same_kind(line.raw, raw);
    }
}

/// Lines whose bodies differ by a carriage return at the end are taken for the same, unless they
/// are entries.
proof fn lemma_same_kind(a: Seq<char>, b: Seq<char>)
    requires
        lines::body(b) == lines::body(a) || lines::body(b) == lines::body(a).push('\r'),
        !(ini::classify(a) is Entry),
    ensures
        ini::classify(b) == ini::classify(a),
{
    let x = lines::body(a);
    let y = lines::body(b);
    let p = text::strip_terminator(a);
    let q = text::strip_terminator(b);
    lines::lemma_content_of_body(a);
    lines::lemma_content_of_body(b);
    lemma_same_start(p, x);
    lemma_same_start(q, y);
    lemma_same_start(x, y);
    text::lemma_find_char(p, '=');
    text::lemma_find_char(q, '=');
    let eq = text::find_char(p, '=');
    if eq < p.len() {
        assert(x[eq] == p[eq] && y[eq] == x[eq]);
        assert forall|i: int| 0 <= i < eq implies y[i] != '=' by {
            assert(p[i] == x[i] && x[i] == y[i]);
        }
        assert(eq < q.len());
        assert(q[eq] == y[eq]);
        assert forall|i: int| 0 <= i < eq implies q[i] != '=' by {
            assert(q[i] == y[i]);
        }
        text::lemma_find_char_is(q, '=', eq);
        assert(q.take(eq) =~= p.take(eq));
    } else if text::find_char(q, '=') < q.len() {
        let k = text::find_char(q, '=');
        assert(q[k] == y[k]);
        assert(k < x.len());
        assert(y[k] == x[k]);
        assert(k < p.len());
        assert(p[k] == x[k]);
    }
}

/// Whether the positions recorded for every line lie inside it.
pub open spec fn all_fit(file: Seq<LineModel<Kind>>) -> bool {
    forall|i: int| 0 <= i < file.len() ==> ini::spans_fit(#[trigger] file[i])
}

/// A line that is what its text says has its positions inside it.
pub proof fn sound_fits(file: Seq<LineModel<Kind>>)
    requires
        sound_file(file),
    ensures
        all_fit(file),
{
    assert forall|i: int| 0 <= i < file.len() implies ini::spans_fit(#[trigger] file[i]) by {
        assert(sound(file[i]));
        text::lemma_find_char(lines::body(file[i].raw), '=');
    }
}

/// An edit of a value that exists replaces the characters of that value and leaves every other
/// character of the file.
pub proof fn edit_replaces_one_value(
    file: Seq<LineModel<Kind>>,
    section: Seq<char>,
    key: Seq<char>,
    value: Seq<char>,
)
    requires
        all_fit(file),
        ini::value_of(file, section, key) is Some,
        !text::breaks_line(value),
    ensures
        exists|before: Seq<char>, after: Seq<char>| #![trigger before + value + after]
            {
                &&& lines::emitted(file) == before + ini::value_of(file, section, key)->0 + after
                &&& lines::emitted(ini::after_set(file, section, key, value)) == before + value
                    + after
            },
{
    lemma_found(file, section, key);
    let header = ini::header_of(file, section)->0;
    let i = ini::entry_of(file, header, key)->0;
    let start = file[i].kind->Entry_value_start;
    let end = file[i].kind->Entry_value_end;
    let edited = ini::with_value(file[i], value);
    assert(ini::spans_fit(file[i]));
    lines::lemma_emitted_splice(file, i, start, end, value, edited.kind);
    let before = lines::text_before(file, i, start);
    let after = lines::text_after(file, i, end);
    assert(lines::emitted(ini::after_set(file, section, key, value)) == before + value + after);
}

/// Setting a value to what it is leaves the file as it is.
pub proof fn setting_the_current_value_changes_nothing(
    file: Seq<LineModel<Kind>>,
    section: Seq<char>,
    key: Seq<char>,
)
    requires
        all_fit(file),
        ini::value_of(file, section, key) is Some,
    ensures
        ini::after_set(file, section, key, ini::value_of(file, section, key)->0) == file,
{
    lemma_found(file, section, key);
    let header = ini::header_of(file, section)->0;
    let i = ini::entry_of(file, header, key)->0;
    let line = file[i];
    assert(ini::spans_fit(line));
    let value = ini::value_at(line);
    assert(text::splice(
        line.raw,
        line.kind->Entry_value_start,
        line.kind->Entry_value_end,
        value,
    ) =~= line.raw);
    assert(ini::after_set(file, section, key, value) =~= file);
}

/// Whether a key that is added is read as that key: nothing to trim, and not the beginning of a
/// comment or a header.
pub open spec fn is_readable_key(key: Seq<char>) -> bool {
    &&& !ini::is_unusable_key(key)
    &&& text::trim(key) == key
    &&& key[0] != '#'
    &&& key[0] != '['
}

spec fn is_end(end: Seq<char>) -> bool {
    end == seq!['\n'] || end == seq!['\r', '\n']
}

/// A text without a line feed is one line when it gets one.
proof fn lemma_made_line(s: Seq<char>, end: Seq<char>)
    requires
        !s.contains('\n'),
        is_end(end),
    ensures
        lines::is_line(s + end),
        text::ends_line(s + end),
        lines::body(s + end) == s || lines::body(s + end) == s.push('\r'),
{
    let raw = s + end;
    assert forall|i: int| 0 <= i < raw.len() - 1 implies #[trigger] raw[i] != '\n' by {
        if i < s.len() {
            assert(raw[i] == s[i]);
            assert(s.contains(s[i]));
        }
    }
    if end == seq!['\n'] {
        assert(lines::body(raw) =~= s);
    } else {
        assert(lines::body(raw) =~= s.push('\r'));
    }
}

/// A new entry is read as such.
proof fn lemma_new_entry(
    indent: Seq<char>,
    key: Seq<char>,
    gap: Seq<char>,
    at: int,
    value: Seq<char>,
    end: Seq<char>,
)
    requires
        text::spaces(indent, 0, indent.len() as int),
        is_readable_key(key),
        0 <= at < gap.len(),
        gap[at] == '=',
        text::spaces(gap, 0, at),
        text::spaces(gap, at + 1, gap.len() as int),
        !text::breaks_line(value),
        !(indent + key + gap + value).contains('\n'),
        is_end(end),
    ensures
        ({
            let line = ini::classified(indent + key + gap + value + end);
            &&& line.kind is Entry
            &&& line.kind->Entry_key == key
            &&& ini::value_at(line) == text::trim(value)
        }),
{
    let s = indent + key + gap + value;
    let raw = s + end;
    let body = lines::body(raw);
    lemma_made_line(s, end);
    let a = indent.len() as int;
    let b = a + key.len();
    let eq = b + at;
    let start = b + gap.len();
    let to = start + value.len();
    let line = LineModel {
        raw,
        kind: Kind::Entry { key, value_start: start, value_end: to },
    };
    assert forall|i: int| 0 <= i < s.len() implies body[i] == #[trigger] s[i] by {}
    assert forall|i: int| 0 <= i < eq implies body[i] != '=' by {
        assert(body[i] == s[i]);
        if i < a {
            assert(s[i] == indent[i]);
        } else if i < b {
            assert(s[i] == key[i - a]);
            assert(key.contains(key[i - a]));
        } else {
            assert(s[i] == gap[i - b]);
        }
    }
    assert(body[eq] == s[eq] && s[eq] == gap[at]);
    text::lemma_find_char_is(body, '=', eq);
    let before = body.take(eq);
    assert forall|i: int| 0 <= i < a implies text::is_space(#[trigger] before[i]) by {
        assert(before[i] == body[i] && body[i] == s[i] && s[i] == indent[i]);
    }
    assert forall|i: int| b <= i < eq implies text::is_space(#[trigger] before[i]) by {
        assert(before[i] == body[i] && body[i] == s[i] && s[i] == gap[i - b]);
    }
    text::lemma_trim_pad(before, a, b);
    assert(before.subrange(a, b) =~= key);
    lemma_first_of_key(body, eq);
    assert forall|i: int| eq + 1 <= i < start implies text::is_space(#[trigger] body[i]) by {
        assert(body[i] == s[i] && s[i] == gap[i - b]);
    }
    assert(text::spaces(body, to, body.len() as int));
    assert(sound(line));
    lemma_reread_line(line);
    assert(ini::value_at(line) =~= value);
}

/// What stands before the terminator of a line holds no line feed.
proof fn lemma_content_has_no_feed(raw: Seq<char>, i: int)
    requires
        lines::is_line(raw),
        0 <= i < text::content_len(raw),
    ensures
        raw[i] != '\n',
{
    if i == raw.len() - 1 {
        assert(!text::ends_line(raw));
    }
}

/// The layout that a new entry takes: white space, and an `=` with white space around it.
proof fn lemma_pattern(line: LineModel<Kind>) -> (at: int)
    requires
        sound(line),
        line.kind is Entry,
        line.kind->Entry_value_start <= text::content_len(line.raw),
    ensures
        ({
            let indent = line.raw.take(text::leading_space(text::strip_terminator(line.raw)));
            let gap = line.raw.subrange(ini::key_end(line), line.kind->Entry_value_start);
            &&& text::spaces(indent, 0, indent.len() as int)
            &&& ini::key_end(line) <= line.kind->Entry_value_start
            &&& 0 <= at < gap.len()
            &&& gap[at] == '='
            &&& text::spaces(gap, 0, at)
            &&& text::spaces(gap, at + 1, gap.len() as int)
        }),
{
    let raw = line.raw;
    let content = text::strip_terminator(raw);
    let body = lines::body(raw);
    let start = line.kind->Entry_value_start;
    let eq = text::find_char(body, '=');
    text::lemma_find_char(body, '=');
    lines::lemma_content_of_body(raw);
    assert(eq < content.len());
    let before = body.take(eq);
    assert(content.take(eq) =~= before);
    text::lemma_trim_bounds(before);
    text::lemma_leading_space_take(content, eq);
    text::lemma_leading_space(content);
    let a = text::leading_space(content);
    let b = ini::key_end(line);
    assert(a == text::leading_space(before));
    let indent = raw.take(a);
    let gap = raw.subrange(b, start);
    assert forall|i: int| 0 <= i < indent.len() implies text::is_space(#[trigger] indent[i]) by {
        assert(indent[i] == content[i]);
    }
    let at = eq - b;
    assert forall|i: int| 0 <= i < at implies text::is_space(#[trigger] gap[i]) by {
        assert(gap[i] == body[i + b] && before[i + b] == body[i + b]);
    }
    assert forall|i: int| at + 1 <= i < gap.len() implies text::is_space(#[trigger] gap[i]) by {
        assert(gap[i] == body[i + b]);
    }
    assert(gap[at] == body[eq]);
    at
}

/// The text of a new entry is one line without its line feed, and a key that can be read is read
/// from it, with the value trimmed.
proof fn lemma_entry_text(
    file: Seq<LineModel<Kind>>,
    header: int,
    key: Seq<char>,
    value: Seq<char>,
    end: Seq<char>,
)
    requires
        sound_file(file),
        0 <= header < file.len(),
        !ini::is_unusable_key(key),
        !text::breaks_line(value),
        is_end(end),
    ensures
        ({
            let raw = ini::entry_text(file, header, key, value) + end;
            &&& lines::is_line(raw)
            &&& text::ends_line(raw)
            &&& is_readable_key(key) ==> {
                &&& ini::classified(raw).kind is Entry
                &&& ini::classified(raw).kind->Entry_key == key
                &&& ini::value_at(ini::classified(raw)) == text::trim(value)
            }
        }),
{
    let s = ini::entry_text(file, header, key, value);
    search::lemma_first_where(file.len() as int, ini::later_headers(file, header));
    let n = ini::end_of(file, header);
    search::lemma_first_where(n, ini::patterns(file, header));
    match search::first_where(n, ini::patterns(file, header)) {
        Some(i) => {
            let line = file[i];
            assert(sound(line));
            let raw = line.raw;
            let indent = raw.take(text::leading_space(text::strip_terminator(raw)));
            let gap = raw.subrange(ini::key_end(line), line.kind->Entry_value_start);
            let at = lemma_pattern(line);
            text::lemma_leading_space(text::strip_terminator(raw));
            assert(!s.contains('\n')) by {
                assert forall|j: int| 0 <= j < s.len() implies s[j] != '\n' by {
                    let a = indent.len() as int;
                    let b = a + key.len();
                    let c = b + gap.len();
                    if j < a {
                        lemma_content_has_no_feed(raw, j);
                        assert(s[j] == raw[j]);
                    } else if j < b {
                        assert(s[j] == key[j - a]);
                        assert(key.contains(key[j - a]));
                    } else if j < c {
                        lemma_content_has_no_feed(raw, j - b + ini::key_end(line));
                        assert(s[j] == gap[j - b]);
                    } else {
                        assert(s[j] == value[j - c]);
                        assert(value.contains(value[j - c]));
                    }
                }
            }
            lemma_made_line(s, end);
            if is_readable_key(key) {
                lemma_new_entry(indent, key, gap, at, value, end);
            }
        },
        None => {
            lemma_plain_entry(key, value, end);
        },
    }
}

/// A new entry in its plain form.
proof fn lemma_plain_entry(key: Seq<char>, value: Seq<char>, end: Seq<char>)
    requires
        !ini::is_unusable_key(key),
        !text::breaks_line(value),
        is_end(end),
    ensures
        ({
            let raw = key + "="@ + value + end;
            &&& lines::is_line(raw)
            &&& text::ends_line(raw)
            &&& is_readable_key(key) ==> {
                &&& ini::classified(raw).kind is Entry
                &&& ini::classified(raw).kind->Entry_key == key
                &&& ini::value_at(ini::classified(raw)) == text::trim(value)
            }
        }),
{
    reveal_strlit("=");
    let gap = "="@;
    assert(gap.len() == 1 && gap[0] == '=');
    let s = key + gap + value;
    assert(!s.contains('\n')) by {
        assert forall|j: int| 0 <= j < s.len() implies s[j] != '\n' by {
            if j < key.len() {
                assert(s[j] == key[j]);
                assert(key.contains(key[j]));
            } else if j > key.len() {
                assert(s[j] == value[j - key.len() - 1]);
                assert(value.contains(value[j - key.len() - 1]));
            }
        }
    }
    lemma_made_line(s, end);
    if is_readable_key(key) {
        let none = Seq::<char>::empty();
        assert(none + key + gap + value =~= s);
        lemma_new_entry(none, key, gap, 0, value, end);
    }
}

proof fn lemma_place(file: Seq<LineModel<Kind>>, header: int)
    requires
        0 <= header < file.len(),
    ensures
        header < ini::place_for(file, header) <= ini::end_of(file, header),
        header < ini::end_of(file, header) <= file.len(),
{
    search::lemma_first_where(file.len() as int, ini::later_headers(file, header));
    search::lemma_last_where(ini::end_of(file, header), ini::written(file, header));
}

proof fn lemma_ended_at(file: Seq<LineModel<Kind>>, i: int, end: Seq<char>)
    requires
        sound_file(file),
        0 <= i < file.len(),
        is_end(end),
    ensures
        ({
            let ended = ini::ended_at(file, i, end);
            &&& sound_file(ended)
            &&& ended.len() == file.len()
            &&& text::ends_line(ended[i].raw)
            &&& forall|j: int|
                0 <= j < file.len() ==> (#[trigger] ended[j]).kind == file[j].kind && (
                file[j].kind is Entry ==> ini::value_at(ended[j]) == ini::value_at(file[j]))
        }),
{
    let ended = ini::ended_at(file, i, end);
    assert(sound(file[i]));
    assert(lines::raws(file)[i] == file[i].raw);
    if !text::ends_line(file[i].raw) {
        lemma_ended_is_sound(file[i], end);
        lines::lemma_file_update(lines::raws(file), i, file[i].raw + end);
        assert(lines::raws(ended) =~= lines::raws(file).update(i, file[i].raw + end));
        assert forall|j: int| 0 <= j < ended.len() implies sound(#[trigger] ended[j]) by {
            assert(sound(file[j]));
        }
    }
}

proof fn lemma_terminated(file: Seq<LineModel<Kind>>, end: Seq<char>)
    requires
        sound_file(file),
        is_end(end),
    ensures
        ({
            let ended = lines::terminated(file, end);
            &&& sound_file(ended)
            &&& ended.len() == file.len()
            &&& file.len() > 0 ==> text::ends_line(ended.last().raw)
            &&& forall|j: int|
                0 <= j < file.len() ==> (#[trigger] ended[j]).kind == file[j].kind && (
                file[j].kind is Entry ==> ini::value_at(ended[j]) == ini::value_at(file[j]))
        }),
{
    if file.len() > 0 {
        lemma_ended_at(file, file.len() - 1, end);
        assert(lines::terminated(file, end) =~= ini::ended_at(file, file.len() - 1, end));
    }
}

proof fn lemma_pushed(file: Seq<LineModel<Kind>>, raw: Seq<char>)
    requires
        sound_file(file),
        file.len() > 0 ==> text::ends_line(file.last().raw),
        lines::is_line(raw),
        text::ends_line(raw),
    ensures
        sound_file(file.push(ini::classified(raw))),
{
    let after = file.push(ini::classified(raw));
    let n = file.len() as int;
    if n > 0 {
        assert(lines::raws(file)[n - 1] == file.last().raw);
    }
    lines::lemma_file_insert(lines::raws(file), n, raw);
    assert(lines::raws(after) =~= lines::raws(file).insert(n, raw));
    lemma_classified_is_sound(raw);
    assert forall|j: int| 0 <= j < after.len() implies sound(#[trigger] after[j]) by {
        if j < n {
            assert(sound(file[j]));
        }
    }
}

/// Setting a value leaves a sound file sound.
pub proof fn set_keeps_sound(
    file: Seq<LineModel<Kind>>,
    section: Seq<char>,
    key: Seq<char>,
    value: Seq<char>,
)
    requires
        sound_file(file),
    ensures
        sound_file(ini::after_set(file, section, key, value)),
{
    if ini::accepts(file, section, key, value) {
        let after = ini::after_set(file, section, key, value);
        let end = lines::terminator(file);
        lemma_found(file, section, key);
        match ini::header_of(file, section) {
            Some(header) => match ini::entry_of(file, header, key) {
                Some(i) => {
                    let edited = ini::with_value(file[i], value);
                    assert(sound(file[i]));
                    lemma_edit_is_sound(file[i], value);
                    assert(lines::raws(file)[i] == file[i].raw);
                    lines::lemma_file_update(lines::raws(file), i, edited.raw);
                    assert(lines::raws(after) =~= lines::raws(file).update(i, edited.raw));
                    assert forall|j: int| 0 <= j < after.len() implies sound(#[trigger] after[j]) by {
                        assert(sound(file[j]));
                    }
                },
                None => {
                    let place = ini::place_for(file, header);
                    lemma_place(file, header);
                    lemma_ended_at(file, place - 1, end);
                    let ended = ini::ended_at(file, place - 1, end);
                    lemma_entry_text(file, header, key, value, end);
                    let raw = ini::entry_text(file, header, key, value) + end;
                    assert(lines::raws(ended)[place - 1] == ended[place - 1].raw);
                    lines::lemma_file_insert(lines::raws(ended), place, raw);
                    assert(lines::raws(after) =~= lines::raws(ended).insert(place, raw));
                    lemma_classified_is_sound(raw);
                    assert forall|j: int| 0 <= j < after.len() implies sound(#[trigger] after[j]) by {
                        if j < place {
                            assert(after[j] == ended[j]);
                        } else if j > place {
                            assert(after[j] == ended[j - 1]);
                        }
                    }
                },
            },
            None => {
                lemma_terminated(file, end);
                let ended = lines::terminated(file, end);
                lemma_header_line(section, end);
                lemma_plain_entry(key, value, end);
                lemma_made_line(Seq::empty(), end);
                assert(Seq::<char>::empty() + end =~= end);
                let spaced = if ini::has_content(file) && !(file.last().kind is Blank) {
                    ended.push(ini::classified(end))
                } else {
                    ended
                };
                if ini::has_content(file) && !(file.last().kind is Blank) {
                    lemma_pushed(ended, end);
                }
                let header = "["@ + section + "]"@ + end;
                lemma_pushed(spaced, header);
                let with_header = spaced.push(ini::classified(header));
                lemma_pushed(with_header, key + "="@ + value + end);
            },
        }
    }
}

/// The header of a new section is one line, and is read as such.
proof fn lemma_header_line(section: Seq<char>, end: Seq<char>)
    requires
        !ini::is_unusable_section(section),
        is_end(end),
    ensures
        ({
            let raw = "["@ + section + "]"@ + end;
            &&& lines::is_line(raw)
            &&& text::ends_line(raw)
            &&& ini::classify(raw) == (Kind::Section { name: text::trim(section) })
        }),
{
    reveal_strlit("[");
    reveal_strlit("]");
    let s = "["@ + section + "]"@;
    let raw = s + end;
    assert(!s.contains('\n')) by {
        assert forall|j: int| 0 <= j < s.len() implies s[j] != '\n' by {
            if 0 < j < s.len() - 1 {
                assert(s[j] == section[j - 1]);
                assert(section.contains(section[j - 1]));
            }
        }
    }
    lemma_made_line(s, end);
    let content = text::strip_terminator(raw);
    lines::lemma_content_of_body(raw);
    lemma_same_start(content, lines::body(raw));
    lemma_same_start(s, lines::body(raw));
    assert(s[0] == '[' && s.last() == ']');
    text::lemma_trim_is(s, 0, s.len() as int);
    assert(s.subrange(0, s.len() as int) =~= s);
    assert(s.subrange(1, s.len() - 1) =~= section);
}

/// Where the lines of a file go when an entry is put at index `k`.
spec fn is_moved(file: Seq<LineModel<Kind>>, after: Seq<LineModel<Kind>>, k: int) -> bool {
    &&& 0 <= k <= file.len()
    &&& after.len() == file.len() + 1
    &&& after[k].kind is Entry
    &&& forall|i: int|
        0 <= i < file.len() ==> after[search::shifted(i, k)].kind == (#[trigger] file[i]).kind && (
        file[i].kind is Entry ==> ini::value_at(after[search::shifted(i, k)]) == ini::value_at(
            file[i],
        ))
}

proof fn lemma_moved_section(
    file: Seq<LineModel<Kind>>,
    after: Seq<LineModel<Kind>>,
    k: int,
    section: Seq<char>,
)
    requires
        is_moved(file, after, k),
    ensures
        match ini::header_of(file, section) {
            Some(header) => {
                &&& ini::header_of(after, section) == Some(search::shifted(header, k))
                &&& ini::end_of(after, search::shifted(header, k)) == search::shifted(
                    ini::end_of(file, header),
                    k,
                )
            },
            None => ini::header_of(after, section) is None,
        },
{
    let n = file.len() as int;
    let p = ini::headers(file, section);
    let q = ini::headers(after, section);
    assert forall|i: int| 0 <= i < n implies #[trigger] p(i) == q(search::shifted(i, k)) by {
        assert(after[search::shifted(i, k)].kind == file[i].kind);
    }
    search::lemma_first_where_shifts(n, p, q, k);
    if let Some(header) = ini::header_of(file, section) {
        let h = search::shifted(header, k);
        let u = ini::later_headers(file, header);
        let v = ini::later_headers(after, h);
        assert forall|i: int| 0 <= i < n implies #[trigger] u(i) == v(search::shifted(i, k)) by {
            assert(after[search::shifted(i, k)].kind == file[i].kind);
        }
        search::lemma_first_where_shifts(n, u, v, k);
    }
}

/// An entry put among the lines changes no other value: none for another key, and none in a
/// section that it is not put into.
proof fn lemma_moved_value(
    file: Seq<LineModel<Kind>>,
    after: Seq<LineModel<Kind>>,
    k: int,
    section: Seq<char>,
    key: Seq<char>,
)
    requires
        is_moved(file, after, k),
        after[k].kind->Entry_key != key || (ini::header_of(file, section) matches Some(header) ==> k
            <= header || ini::end_of(file, header) < k),
    ensures
        ini::value_of(after, section, key) == ini::value_of(file, section, key),
{
    lemma_moved_section(file, after, k, section);
    lemma_found(file, section, key);
    if let Some(header) = ini::header_of(file, section) {
        let h = search::shifted(header, k);
        let end = ini::end_of(file, header);
        let u = ini::entries(file, header, key);
        let v = ini::entries(after, h, key);
        assert forall|i: int| 0 <= i < end implies #[trigger] u(i) == v(search::shifted(i, k)) by {
            assert(after[search::shifted(i, k)].kind == file[i].kind);
        }
        if end < k {
            assert forall|i: int| 0 <= i < end implies #[trigger] u(i) == v(i) by {
                assert(search::shifted(i, k) == i);
            }
            search::lemma_last_where_agrees(end, u, v);
        } else {
            assert(!v(k));
            search::lemma_last_where_shifts(end, u, v, k);
        }
        if let Some(i) = ini::entry_of(file, header, key) {
            assert(after[search::shifted(i, k)].kind == file[i].kind);
            if end < k {
                assert(search::shifted(i, k) == i);
            }
        }
    }
}

/// Adding an entry to a section moves the lines behind it and changes no other.
proof fn lemma_with_entry_moves(
    file: Seq<LineModel<Kind>>,
    header: int,
    key: Seq<char>,
    value: Seq<char>,
)
    requires
        sound_file(file),
        0 <= header < file.len(),
        is_readable_key(key),
        !text::breaks_line(value),
    ensures
        ({
            let after = ini::with_entry(file, header, key, value);
            let k = ini::place_for(file, header);
            &&& is_moved(file, after, k)
            &&& after[k].kind->Entry_key == key
            &&& ini::value_at(after[k]) == text::trim(value)
        }),
{
    let end = lines::terminator(file);
    let k = ini::place_for(file, header);
    let after = ini::with_entry(file, header, key, value);
    lemma_place(file, header);
    lemma_ended_at(file, k - 1, end);
    lemma_entry_text(file, header, key, value, end);
    let ended = ini::ended_at(file, k - 1, end);
    assert forall|i: int| 0 <= i < file.len() implies after[search::shifted(i, k)].kind == (
    #[trigger] file[i]).kind && (file[i].kind is Entry ==> ini::value_at(
        after[search::shifted(i, k)],
    ) == ini::value_at(file[i])) by {
        assert(after[search::shifted(i, k)] == ended[i]);
    }
}

/// The value that reading gives for what was set: the value itself where an entry was edited,
/// the trimmed value where one was added.
pub open spec fn kept(
    file: Seq<LineModel<Kind>>,
    section: Seq<char>,
    key: Seq<char>,
    value: Seq<char>,
) -> Seq<char> {
    if ini::value_of(file, section, key) is Some {
        value
    } else {
        text::trim(value)
    }
}

/// Whether a value that is set can be read under its section and key: an entry that is there
/// can; one that is added needs a key, and a section that is added a name, that are read as
/// they are.
pub open spec fn is_readable(
    file: Seq<LineModel<Kind>>,
    section: Seq<char>,
    key: Seq<char>,
) -> bool {
    &&& ini::value_of(file, section, key) is Some || is_readable_key(key)
    &&& ini::header_of(file, section) is Some || text::trim(section) == section
}

/// What was set is read back.
pub proof fn read_after_set(
    file: Seq<LineModel<Kind>>,
    section: Seq<char>,
    key: Seq<char>,
    value: Seq<char>,
)
    requires
        sound_file(file),
        ini::accepts(file, section, key, value),
        is_readable(file, section, key),
    ensures
        ini::value_of(ini::after_set(file, section, key, value), section, key) == Some(
            kept(file, section, key, value),
        ),
{
    let after = ini::after_set(file, section, key, value);
    lemma_found(file, section, key);
    match ini::header_of(file, section) {
        Some(header) => match ini::entry_of(file, header, key) {
            Some(i) => {
                assert(sound(file[i]));
                lemma_edit_is_sound(file[i], value);
                assert forall|j: int| 0 <= j < file.len() implies shape((#[trigger] file[j]).kind)
                    == shape(after[j].kind) by {}
                lemma_same_shape(file, after, section, key);
            },
            None => {
                let k = ini::place_for(file, header);
                lemma_place(file, header);
                lemma_with_entry_moves(file, header, key, value);
                lemma_moved_section(file, after, k, section);
                let v = ini::entries(after, header, key);
                let to = ini::end_of(file, header) + 1;
                assert(ini::end_of(after, header) == to);
                search::lemma_last_where(ini::end_of(file, header), ini::entries(file, header, key));
                assert forall|j: int| k < j < to implies !#[trigger] v(j) by {
                    assert(!ini::entries(file, header, key)(j - 1));
                    assert(search::shifted(j - 1, k) == j);
                    assert(after[search::shifted(j - 1, k)].kind == file[j - 1].kind);
                }
                assert(v(k));
                search::lemma_last_where_is(to, v, k);
            },
        },
        None => {
            lemma_new_section(file, section, key, value);
        },
    }
}

/// A new section stands behind everything else and holds its one entry.
proof fn lemma_new_section(
    file: Seq<LineModel<Kind>>,
    section: Seq<char>,
    key: Seq<char>,
    value: Seq<char>,
)
    requires
        sound_file(file),
        ini::header_of(file, section) is None,
        ini::accepts(file, section, key, value),
        is_readable_key(key),
        text::trim(section) == section,
    ensures
        ({
            let after = ini::after_set(file, section, key, value);
            let h = after.len() - 2;
            &&& file.len() <= h
            &&& after[h].kind == (Kind::Section { name: section })
            &&& after[h + 1].kind is Entry
            &&& after[h + 1].kind->Entry_key == key
            &&& ini::value_at(after[h + 1]) == text::trim(value)
            &&& forall|i: int|
                0 <= i < file.len() ==> (#[trigger] after[i]).kind == file[i].kind && (
                file[i].kind is Entry ==> ini::value_at(after[i]) == ini::value_at(file[i]))
            &&& forall|i: int| file.len() <= i < h ==> (#[trigger] after[i]).kind is Blank
            &&& ini::header_of(after, section) == Some(h)
            &&& ini::end_of(after, h) == h + 2
            &&& ini::value_of(after, section, key) == Some(text::trim(value))
        }),
{
    let end = lines::terminator(file);
    let after = ini::after_set(file, section, key, value);
    let h = after.len() - 2;
    lemma_terminated(file, end);
    lemma_header_line(section, end);
    lemma_plain_entry(key, value, end);
    lemma_blank_line(end);
    search::lemma_first_where(file.len() as int, ini::headers(file, section));
    let p = ini::headers(after, section);
    assert forall|i: int| 0 <= i < h implies !#[trigger] p(i) by {
        if i < file.len() {
            assert(!ini::headers(file, section)(i));
            assert(after[i].kind == file[i].kind);
        }
    }
    search::lemma_first_where_is(after.len() as int, p, h);
    search::lemma_first_where(after.len() as int, ini::later_headers(after, h));
    assert(!ini::later_headers(after, h)(h + 1));
    search::lemma_last_where_is(h + 2, ini::entries(after, h, key), h + 1);
}

proof fn lemma_blank_line(end: Seq<char>)
    requires
        is_end(end),
    ensures
        ini::classify(end) is Blank,
{
    let none = Seq::<char>::empty();
    lemma_made_line(none, end);
    assert(none + end =~= end);
    let content = text::strip_terminator(end);
    lines::lemma_content_of_body(end);
    lemma_same_start(content, lines::body(end));
    lemma_same_start(none, lines::body(end));
    text::lemma_trim_bounds(none);
}

/// Setting one value changes no other.
pub proof fn set_keeps_other_values(
    file: Seq<LineModel<Kind>>,
    section: Seq<char>,
    key: Seq<char>,
    value: Seq<char>,
    other_section: Seq<char>,
    other_key: Seq<char>,
)
    requires
        sound_file(file),
        is_readable(file, section, key),
        other_section != section || other_key != key,
    ensures
        ini::value_of(
            ini::after_set(file, section, key, value),
            other_section,
            other_key,
        ) == ini::value_of(file, other_section, other_key),
{
    if ini::accepts(file, section, key, value) {
        let after = ini::after_set(file, section, key, value);
        lemma_found(file, section, key);
        lemma_found(file, other_section, other_key);
        match ini::header_of(file, section) {
            Some(header) => match ini::entry_of(file, header, key) {
                Some(i) => {
                    assert(sound(file[i]));
                    lemma_edit_is_sound(file[i], value);
                    assert forall|j: int| 0 <= j < file.len() implies shape(
                        (#[trigger] file[j]).kind,
                    ) == shape(after[j].kind) by {}
                    lemma_same_shape(file, after, other_section, other_key);
                    if let Some(h) = ini::header_of(file, other_section) {
                        if other_section != section {
                            lemma_sections_apart(file, header, h);
                        }
                    }
                },
                None => {
                    let k = ini::place_for(file, header);
                    lemma_place(file, header);
                    lemma_with_entry_moves(file, header, key, value);
                    if let Some(h) = ini::header_of(file, other_section) {
                        if other_section != section {
                            lemma_sections_apart(file, header, h);
                        }
                    }
                    lemma_moved_value(file, after, k, other_section, other_key);
                },
            },
            None => {
                lemma_new_section(file, section, key, value);
                lemma_grown_value(file, after, section, other_section, other_key);
            },
        }
    }
}

/// Sections with different headers do not overlap.
proof fn lemma_sections_apart(file: Seq<LineModel<Kind>>, a: int, b: int)
    requires
        0 <= a < file.len(),
        0 <= b < file.len(),
        a != b,
        file[a].kind is Section,
        file[b].kind is Section,
    ensures
        ini::end_of(file, a) <= b || ini::end_of(file, b) <= a,
{
    search::lemma_first_where(file.len() as int, ini::later_headers(file, a));
    search::lemma_first_where(file.len() as int, ini::later_headers(file, b));
    if a < b {
        assert(ini::later_headers(file, a)(b));
    } else {
        assert(ini::later_headers(file, b)(a));
    }
}

/// A new section at the end changes no value elsewhere.
proof fn lemma_grown_value(
    file: Seq<LineModel<Kind>>,
    after: Seq<LineModel<Kind>>,
    section: Seq<char>,
    other_section: Seq<char>,
    other_key: Seq<char>,
)
    requires
        ({
            let h = after.len() - 2;
            &&& file.len() <= h
            &&& after[h].kind == (Kind::Section { name: section })
            &&& after[h + 1].kind is Entry
            &&& other_section == section ==> after[h + 1].kind->Entry_key != other_key
            &&& forall|i: int|
                0 <= i < file.len() ==> (#[trigger] after[i]).kind == file[i].kind && (
                file[i].kind is Entry ==> ini::value_at(after[i]) == ini::value_at(file[i]))
            &&& forall|i: int| file.len() <= i < h ==> (#[trigger] after[i]).kind is Blank
            &&& ini::header_of(file, section) is None
            &&& ini::header_of(after, section) == Some(h)
            &&& ini::end_of(after, h) == h + 2
        }),
    ensures
        ini::value_of(after, other_section, other_key) == ini::value_of(
            file,
            other_section,
            other_key,
        ),
{
    let n = file.len() as int;
    let h = after.len() - 2;
    if other_section == section {
        search::lemma_last_where(h + 2, ini::entries(after, h, other_key));
    } else {
        let p = ini::headers(file, other_section);
        let q = ini::headers(after, other_section);
        search::lemma_first_where(n, p);
        search::lemma_first_where(after.len() as int, q);
        assert forall|i: int| 0 <= i < n implies #[trigger] p(i) == q(i) by {
            assert(after[i].kind == file[i].kind);
        }
        assert forall|i: int| n <= i < after.len() implies !#[trigger] q(i) by {}
        match ini::header_of(file, other_section) {
            Some(header) => {
                assert forall|i: int| 0 <= i < header implies !#[trigger] q(i) by {
                    assert(!p(i));
                }
                assert(p(header) == q(header));
                search::lemma_first_where_is(after.len() as int, q, header);
                let u = ini::later_headers(file, header);
                let v = ini::later_headers(after, header);
                assert forall|i: int| 0 <= i < n implies #[trigger] u(i) == v(i) by {
                    assert(after[i].kind == file[i].kind);
                }
                search::lemma_first_where(n, u);
                let end = ini::end_of(file, header);
                let to = if end < n {
                    end
                } else {
                    h
                };
                assert(v(to)) by {
                    if end < n {
                        assert(u(end));
                        assert(u(end) == v(end));
                    }
                }
                assert forall|i: int| 0 <= i < to implies !#[trigger] v(i) by {
                    if i < n {
                        assert(u(i) == v(i));
                        assert(!u(i));
                    }
                }
                search::lemma_first_where_is(after.len() as int, v, to);
                let x = ini::entries(file, header, other_key);
                let y = ini::entries(after, header, other_key);
                search::lemma_last_where(end, x);
                search::lemma_last_where(to, y);
                assert forall|i: int| 0 <= i < end implies #[trigger] x(i) == y(i) by {
                    assert(after[i].kind == file[i].kind);
                }
                assert forall|i: int| end <= i < to implies !#[trigger] y(i) by {}
                match ini::entry_of(file, header, other_key) {
                    Some(i) => {
                        assert(x(i) == y(i));
                        assert forall|j: int| i < j < to implies !#[trigger] y(j) by {
                            if j < end {
                                assert(!x(j));
                            }
                        }
                        search::lemma_last_where_is(to, y, i);
                        assert(after[i].kind == file[i].kind);
                    },
                    None => {
                        assert forall|j: int| 0 <= j < to implies !#[trigger] y(j) by {
                            if j < end {
                                assert(!x(j));
                            }
                        }
                    },
                }
            },
            None => {
                assert forall|i: int| 0 <= i < after.len() implies !#[trigger] q(i) by {
                    if i < n {
                        assert(!p(i));
                    }
                }
            },
        }
    }
}

/// What was set is read back from the file as it is written, trimmed.
pub proof fn written_value_is_read_back(
    file: Seq<LineModel<Kind>>,
    section: Seq<char>,
    key: Seq<char>,
    value: Seq<char>,
)
    requires
        sound_file(file),
        ini::accepts(file, section, key, value),
        is_readable(file, section, key),
    ensures
        ini::value_of(
            ini::parsed(lines::emitted(ini::after_set(file, section, key, value))),
            section,
            key,
        ) == Some(text::trim(value)),
{
    set_keeps_sound(file, section, key, value);
    read_after_set(file, section, key, value);
    reread(ini::after_set(file, section, key, value), section, key);
    text::lemma_trim_twice(value);
}

/// An entry that is added stands in the file's text behind the last line of its section that is
/// not blank, and every other character stays.
pub proof fn added_entry_stands_in_its_section(
    file: Seq<LineModel<Kind>>,
    section: Seq<char>,
    key: Seq<char>,
    value: Seq<char>,
)
    requires
        ini::accepts(file, section, key, value),
        ini::header_of(file, section) is Some,
        ini::value_of(file, section, key) is None,
    ensures
        ({
            let header = ini::header_of(file, section)->0;
            let k = ini::place_for(file, header);
            let end = lines::terminator(file);
            let ending = if text::ends_line(file[k - 1].raw) {
                Seq::empty()
            } else {
                end
            };
            &&& header < k <= ini::end_of(file, header)
            &&& lines::emitted(file) == lines::emitted(file.take(k)) + lines::emitted(file.skip(k))
            &&& lines::emitted(ini::after_set(file, section, key, value)) == lines::emitted(
                file.take(k),
            ) + ending + ini::entry_text(file, header, key, value) + end + lines::emitted(
                file.skip(k),
            )
        }),
{
    lemma_found(file, section, key);
    let header = ini::header_of(file, section)->0;
    let k = ini::place_for(file, header);
    let end = lines::terminator(file);
    lemma_place(file, header);
    let ended = ini::ended_at(file, k - 1, end);
    let line = ini::classified(ini::entry_text(file, header, key, value) + end);
    let after = ini::after_set(file, section, key, value);
    lines::lemma_emitted_insert(file, k, line);
    lines::lemma_emitted_insert(ended, k, line);
    assert(ended.skip(k) =~= file.skip(k));
    let head = file.take(k);
    let last = head.last();
    assert(last == file[k - 1]);
    assert(head.drop_last().push(last) =~= head);
    lines::lemma_emitted_push(head.drop_last(), last);
    if text::ends_line(last.raw) {
        assert(lines::emitted(after) =~= lines::emitted(head) + Seq::<char>::empty()
            + ini::entry_text(file, header, key, value) + end + lines::emitted(file.skip(k)));
    } else {
        let closed = LineModel { raw: last.raw + end, kind: last.kind };
        assert(ended.take(k) =~= head.drop_last().push(closed));
        lines::lemma_emitted_push(head.drop_last(), closed);
        assert(lines::emitted(after) =~= lines::emitted(head) + end + ini::entry_text(
            file,
            header,
            key,
            value,
        ) + end + lines::emitted(file.skip(k)));
    }
}

/// A section that is added stands behind the whole text, after the terminator of a last line that
/// had none and after a blank line, unless nothing or a blank line stands before it.
pub proof fn added_section_stands_at_the_end(
    file: Seq<LineModel<Kind>>,
    section: Seq<char>,
    key: Seq<char>,
    value: Seq<char>,
)
    requires
        ini::accepts(file, section, key, value),
        ini::header_of(file, section) is None,
    ensures
        ({
            let end = lines::terminator(file);
            let ending = if file.len() > 0 && !text::ends_line(file.last().raw) {
                end
            } else {
                Seq::empty()
            };
            let gap = if ini::has_content(file) && !(file.last().kind is Blank) {
                end
            } else {
                Seq::empty()
            };
            lines::emitted(ini::after_set(file, section, key, value)) == lines::emitted(file)
                + ending + gap + ("["@ + section + "]"@ + end) + (key + "="@ + value + end)
        }),
{
    let end = lines::terminator(file);
    let ended = lines::terminated(file, end);
    lines::lemma_emitted_terminated(file, end);
    let blank = ini::classified(end);
    let spaced = if ini::has_content(file) && !(file.last().kind is Blank) {
        ended.push(blank)
    } else {
        ended
    };
    let header = ini::classified("["@ + section + "]"@ + end);
    let entry = ini::classified(key + "="@ + value + end);
    lines::lemma_emitted_push(ended, blank);
    lines::lemma_emitted_push(spaced, header);
    lines::lemma_emitted_push(spaced.push(header), entry);
    let none = Seq::<char>::empty();
    assert(lines::emitted(file) + none + none =~= lines::emitted(file));
    assert(lines::emitted(file) + end + none =~= lines::emitted(file) + end);
    assert(lines::emitted(file) + none + end =~= lines::emitted(file) + end);
}

} // verus!
