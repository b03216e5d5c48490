//! The laws of the `monitors.conf` format.

use crate::lines;
use crate::lines::LineModel;
use crate::parsers::monitors;
use crate::parsers::monitors::{Kind, MonitorField, MonitorState};
use crate::search;
use crate::text;
use vstd::prelude::*;

verus! {

/// The texts between the commas of `s`, each without the white space around it.
pub open spec fn texts(s: Seq<char>) -> Seq<Seq<char>>
    decreases s.len(),
{
    let comma = text::find_char(s, ',');
    proof {
        text::lemma_find_char(s, ',');
    }
    if comma >= s.len() {
        seq![text::trim(s)]
    } else {
        seq![text::trim(s.take(comma))] + texts(s.skip(comma + 1))
    }
}

/// The fields that a record on one line holds, if the text is such a line.
pub open spec fn record_texts(content: Seq<char>) -> Option<Seq<Seq<char>>> {
    let code = monitors::code_of(content);
    let eq = text::find_char(code, '=');
    if eq < code.len() && text::trim(code.take(eq)) == "monitor"@ {
        Some(texts(code.skip(eq + 1)))
    } else {
        None
    }
}

/// The fields that a line holds, if it is a record.
pub open spec fn reading(line: LineModel<Kind>) -> Option<Seq<Seq<char>>> {
    match line.kind {
        Kind::Record { name, fields, disabled } => Some(
            Seq::new(fields.len(), |k: int| monitors::field_text(line, k)),
        ),
        _ => None,
    }
}

/// Whether the fields of a record stand in `code` from `from` on: one between any two commas, with
/// nothing but white space around it.
pub open spec fn laid(code: Seq<char>, from: int, fields: Seq<(int, int)>) -> bool
    decreases fields.len(),
{
    let comma = from + text::find_char(code.skip(from), ',');
    &&& fields.len() > 0
    &&& from <= fields[0].0 <= fields[0].1 <= comma
    &&& text::spaces(code, from, fields[0].0)
    &&& text::spaces(code, fields[0].1, comma)
    &&& code.subrange(fields[0].0, fields[0].1) == text::trim(code.subrange(from, comma))
    &&& if comma >= code.len() {
        fields.len() == 1
    } else {
        laid(code, comma + 1, fields.skip(1))
    }
}

/// Whether the fields make a record that switches a monitor off.
pub open spec fn switches_off(fields: Seq<Seq<char>>) -> bool {
    fields.len() == 2 && fields[1] == "disable"@
}

/// Whether a line is what its text says.
pub open spec fn sound(line: LineModel<Kind>) -> bool {
    let body = lines::body(line.raw);
    let code = monitors::code_of(body);
    let eq = text::find_char(code, '=');
    &&& lines::is_line(line.raw)
    &&& match line.kind {
        Kind::Record { name, fields, disabled } => {
            &&& record_texts(body) is Some
            &&& laid(code, eq + 1, fields)
            &&& name == texts(code.skip(eq + 1))[0]
            &&& disabled == switches_off(texts(code.skip(eq + 1)))
        },
        kind => kind == monitors::classify(line.raw),
    }
}

/// Whether the lines are those of a file, and each is what its text says.
pub open spec fn sound_file(file: Seq<LineModel<Kind>>) -> bool {
    &&& lines::is_file(lines::raws(file))
    &&& forall|i: int| 0 <= i < file.len() ==> sound(#[trigger] file[i])
}

/// Whether the positions recorded for every line lie inside it.
pub open spec fn all_fit(file: Seq<LineModel<Kind>>) -> bool {
    forall|i: int| 0 <= i < file.len() ==> monitors::spans_fit(#[trigger] file[i])
}

/// A file that was only read is written back as it was.
pub proof fn round_trip(input: Seq<char>)
    ensures
        lines::emitted(monitors::parsed(input)) == input,
{
    assert(lines::raws(monitors::parsed(input)) =~= text::split_lines(input));
    text::lemma_join_split_lines(input);
}

pub proof fn lemma_texts_one(s: Seq<char>)
    requires
        !s.contains(','),
    ensures
        texts(s) == seq![text::trim(s)],
{
    assert forall|i: int| 0 <= i < s.len() implies s[i] != ',' by {
        assert(s.contains(s[i]));
    }
    text::lemma_find_char_is(s, ',', s.len() as int);
}

pub proof fn lemma_texts_more(a: Seq<char>, rest: Seq<char>)
    requires
        !a.contains(','),
    ensures
        texts(a + seq![','] + rest) == seq![text::trim(a)] + texts(rest),
{
    let s = a + seq![','] + rest;
    let n = a.len() as int;
    assert forall|i: int| 0 <= i < n implies s[i] != ',' by {
        assert(s[i] == a[i]);
        assert(a.contains(a[i]));
    }
    text::lemma_find_char_is(s, ',', n);
    assert(s.take(n) =~= a);
    assert(s.skip(n + 1) =~= rest);
}

/// A carriage return at the end of a text is in none of its fields.
proof fn lemma_texts_return(s: Seq<char>)
    ensures
        texts(s.push('\r')) == texts(s),
    decreases s.len(),
{
    let more = s.push('\r');
    let comma = text::find_char(s, ',');
    text::lemma_find_char(s, ',');
    if comma < s.len() {
        assert forall|i: int| 0 <= i < comma implies more[i] != ',' by {
            assert(more[i] == s[i]);
        }
        text::lemma_find_char_is(more, ',', comma);
        lemma_texts_return(s.skip(comma + 1));
        assert(more.skip(comma + 1) =~= s.skip(comma + 1).push('\r'));
        assert(more.take(comma) =~= s.take(comma));
    } else {
        assert forall|i: int| 0 <= i < more.len() implies more[i] != ',' by {
            if i < s.len() {
                assert(more[i] == s[i]);
            }
        }
        text::lemma_find_char_is(more, ',', more.len() as int);
        text::lemma_trim_return(s);
    }
}

proof fn lemma_find_from(code: Seq<char>, from: int)
    requires
        0 <= from <= code.len(),
    ensures
        ({
            let comma = from + text::find_char(code.skip(from), ',');
            &&& from <= comma <= code.len()
            &&& comma < code.len() ==> code[comma] == ','
            &&& forall|i: int| from <= i < comma ==> #[trigger] code[i] != ','
            &&& code.skip(from).take(comma - from) == code.subrange(from, comma)
            &&& comma < code.len() ==> code.skip(from).skip(comma - from + 1) == code.skip(
                comma + 1,
            )
        }),
{
    let rest = code.skip(from);
    text::lemma_find_char(rest, ',');
    let comma = from + text::find_char(rest, ',');
    assert forall|i: int| from <= i < comma implies #[trigger] code[i] != ',' by {
        assert(rest[i - from] == code[i]);
    }
    assert(rest.take(comma - from) =~= code.subrange(from, comma));
    if comma < code.len() {
        assert(rest[comma - from] == code[comma]);
        assert(rest.skip(comma - from + 1) =~= code.skip(comma + 1));
    }
}

proof fn lemma_find_from_is(code: Seq<char>, from: int, comma: int)
    requires
        0 <= from <= comma <= code.len(),
        comma < code.len() ==> code[comma] == ',',
        forall|i: int| from <= i < comma ==> #[trigger] code[i] != ',',
    ensures
        from + text::find_char(code.skip(from), ',') == comma,
{
    let rest = code.skip(from);
    assert forall|i: int| 0 <= i < comma - from implies rest[i] != ',' by {
        assert(rest[i] == code[i + from]);
    }
    text::lemma_find_char_is(rest, ',', comma - from);
}

/// What was scanned is laid as the text has it.
proof fn lemma_scanned_is_laid(code: Seq<char>, from: int)
    requires
        0 <= from <= code.len(),
    ensures
        laid(code, from, monitors::fields_from(code, from)),
    decreases code.len() - from,
{
    lemma_find_from(code, from);
    let comma = from + text::find_char(code.skip(from), ',');
    let fields = monitors::fields_from(code, from);
    let segment = code.subrange(from, comma);
    text::lemma_trim_bounds(segment);
    assert(fields[0] == monitors::trimmed_span(code, from, comma));
    assert forall|i: int| from <= i < fields[0].0 implies text::is_space(#[trigger] code[i]) by {
        assert(segment[i - from] == code[i]);
    }
    assert forall|i: int| fields[0].1 <= i < comma implies text::is_space(#[trigger] code[i]) by {
        assert(segment[i - from] == code[i]);
    }
    assert(code.subrange(fields[0].0, fields[0].1) =~= text::trim(segment));
    if comma < code.len() {
        lemma_scanned_is_laid(code, comma + 1);
        assert(fields.skip(1) =~= monitors::fields_from(code, comma + 1));
    }
}

/// Fields that are laid in a text are the texts between its commas.
proof fn lemma_laid_texts(code: Seq<char>, from: int, fields: Seq<(int, int)>)
    requires
        0 <= from <= code.len(),
        laid(code, from, fields),
    ensures
        texts(code.skip(from)).len() == fields.len(),
        forall|k: int|
            0 <= k < fields.len() ==> code.subrange((#[trigger] fields[k]).0, fields[k].1) == texts(
                code.skip(from),
            )[k],
        monitors::in_order(fields, from, code.len() as int),
        text::spaces(code, fields.last().1, code.len() as int),
    decreases fields.len(),
{
    lemma_find_from(code, from);
    let comma = from + text::find_char(code.skip(from), ',');
    let all = texts(code.skip(from));
    if comma < code.len() {
        let rest = fields.skip(1);
        lemma_laid_texts(code, comma + 1, rest);
        let others = texts(code.skip(comma + 1));
        assert(all =~= seq![text::trim(code.subrange(from, comma))] + others);
        assert forall|k: int| 0 <= k < fields.len() implies code.subrange(
            (#[trigger] fields[k]).0,
            fields[k].1,
        ) == all[k] by {
            if k > 0 {
                assert(fields[k] == rest[k - 1]);
                assert(all[k] == others[k - 1]);
            }
        }
        assert forall|k: int| 0 <= k < fields.len() implies from <= (#[trigger] fields[k]).0
            && fields[k].0 <= fields[k].1 && fields[k].1 <= code.len() by {
            if k > 0 {
                assert(fields[k] == rest[k - 1]);
            }
        }
        assert forall|j: int, k: int| 0 <= j < k < fields.len() implies (#[trigger] fields[j]).1
            <= (#[trigger] fields[k]).0 by {
            assert(fields[k] == rest[k - 1]);
            if j > 0 {
                assert(fields[j] == rest[j - 1]);
            }
        }
        assert(fields.last() == rest.last());
    }
}

/// Another text in the place of one field changes that field alone.
proof fn lemma_splice_texts(
    code: Seq<char>,
    from: int,
    fields: Seq<(int, int)>,
    k: int,
    value: Seq<char>,
)
    requires
        0 <= from <= code.len(),
        laid(code, from, fields),
        0 <= k < fields.len(),
        !value.contains(','),
    ensures
        texts(text::splice(code, fields[k].0, fields[k].1, value).skip(from)) == texts(
            code.skip(from),
        ).update(k, text::trim(value)),
    decreases fields.len(),
{
    lemma_find_from(code, from);
    lemma_laid_texts(code, from, fields);
    let comma = from + text::find_char(code.skip(from), ',');
    let (a, b) = fields[k];
    let after = text::splice(code, a, b, value);
    let grown = value.len() - (b - a);
    assert forall|i: int| 0 <= i < a implies after[i] == #[trigger] code[i] by {}
    if k == 0 {
        let moved = comma + grown;
        assert forall|i: int| from <= i < moved implies #[trigger] after[i] != ',' by {
            if i < a {
                assert(after[i] == code[i]);
            } else if i < a + value.len() {
                assert(after[i] == value[i - a]);
                assert(value.contains(value[i - a]));
            } else {
                assert(after[i] == code[i - grown]);
            }
        }
        if comma < code.len() {
            assert(after[moved] == code[comma]);
        }
        lemma_find_from_is(after, from, moved);
        lemma_find_from(after, from);
        let segment = after.subrange(from, moved);
        assert forall|i: int| 0 <= i < a - from implies text::is_space(#[trigger] segment[i]) by {
            assert(segment[i] == code[i + from]);
        }
        assert forall|i: int| a - from + value.len() <= i < segment.len() implies text::is_space(
            #[trigger] segment[i],
        ) by {
            assert(segment[i] == code[i + from - grown]);
        }
        text::lemma_trim_pad(segment, a - from, a - from + value.len());
        assert(segment.subrange(a - from, a - from + value.len()) =~= value);
        if comma < code.len() {
            assert(after.skip(moved + 1) =~= code.skip(comma + 1));
        }
        assert(texts(after.skip(from)) =~= texts(code.skip(from)).update(0, text::trim(value)));
    } else {
        let rest = fields.skip(1);
        assert(comma < code.len());
        lemma_laid_texts(code, comma + 1, rest);
        assert(rest[k - 1] == fields[k]);
        assert(comma < a);
        lemma_splice_texts(code, comma + 1, rest, k - 1, value);
        assert forall|i: int| from <= i < comma implies #[trigger] after[i] != ',' by {
            assert(after[i] == code[i]);
        }
        lemma_find_from_is(after, from, comma);
        lemma_find_from(after, from);
        assert(after.subrange(from, comma) =~= code.subrange(from, comma));
        assert(texts(after.skip(from)) =~= texts(code.skip(from)).update(k, text::trim(value)));
    }
}

/// Fields stay laid when a carriage return follows the text.
proof fn lemma_laid_return(code: Seq<char>, from: int, fields: Seq<(int, int)>)
    requires
        0 <= from <= code.len(),
        laid(code, from, fields),
    ensures
        laid(code.push('\r'), from, fields),
    decreases fields.len(),
{
    let more = code.push('\r');
    lemma_find_from(code, from);
    let comma = from + text::find_char(code.skip(from), ',');
    assert forall|i: int| 0 <= i < code.len() implies more[i] == #[trigger] code[i] by {}
    if comma < code.len() {
        assert forall|i: int| from <= i < comma implies #[trigger] more[i] != ',' by {
            assert(more[i] == code[i]);
        }
        lemma_find_from_is(more, from, comma);
        lemma_laid_return(code, comma + 1, fields.skip(1));
        assert(more.subrange(from, comma) =~= code.subrange(from, comma));
    } else {
        assert forall|i: int| from <= i < more.len() implies #[trigger] more[i] != ',' by {
            if i < code.len() {
                assert(more[i] == code[i]);
            }
        }
        lemma_find_from_is(more, from, more.len() as int);
        text::lemma_trim_return(code.subrange(from, comma));
        assert(more.subrange(from, more.len() as int) =~= code.subrange(from, comma).push('\r'));
    }
    assert(more.subrange(fields[0].0, fields[0].1) =~= code.subrange(fields[0].0, fields[0].1));
    assert forall|i: int| from <= i < fields[0].0 implies text::is_space(#[trigger] more[i]) by {
        assert(more[i] == code[i]);
    }
    let to = from + text::find_char(more.skip(from), ',');
    assert forall|i: int| fields[0].1 <= i < to implies text::is_space(#[trigger] more[i]) by {
        if i < code.len() {
            assert(more[i] == code[i]);
        }
    }
}

/// A carriage return at the end of a text does not change the record that it holds.
pub proof fn lemma_same_record(content: Seq<char>, body: Seq<char>)
    requires
        content == body || content.push('\r') == body,
    ensures
        record_texts(content) == record_texts(body),
        ({
            let a = monitors::code_of(content);
            let b = monitors::code_of(body);
            &&& a == b || a.push('\r') == b
            &&& text::find_char(a, '=') < a.len() ==> text::find_char(a, '=') == text::find_char(
                b,
                '=',
            )
        }),
{
    let a = monitors::code_of(content);
    let b = monitors::code_of(body);
    text::lemma_find_char(content, '#');
    text::lemma_find_char(body, '#');
    if content != body {
        let n = text::find_char(content, '#');
        if n < content.len() {
            assert forall|i: int| 0 <= i < n implies body[i] != '#' by {
                assert(body[i] == content[i]);
            }
            text::lemma_find_char_is(body, '#', n);
            assert(a =~= b);
        } else {
            assert forall|i: int| 0 <= i < body.len() implies body[i] != '#' by {
                if i < n {
                    assert(body[i] == content[i]);
                }
            }
            text::lemma_find_char_is(body, '#', body.len() as int);
            assert(b =~= a.push('\r'));
        }
    }
    if a != b {
        text::lemma_find_char(a, '=');
        let eq = text::find_char(a, '=');
        if eq < a.len() {
            assert forall|i: int| 0 <= i < eq implies b[i] != '=' by {
                assert(b[i] == a[i]);
            }
            text::lemma_find_char_is(b, '=', eq);
            assert(a.take(eq) =~= b.take(eq));
            assert(b.skip(eq + 1) =~= a.skip(eq + 1).push('\r'));
            lemma_texts_return(a.skip(eq + 1));
        } else {
            assert forall|i: int| 0 <= i < b.len() implies b[i] != '=' by {
                if i < a.len() {
                    assert(b[i] == a[i]);
                }
            }
            text::lemma_find_char_is(b, '=', b.len() as int);
        }
    }
}

/// A line that holds a record is taken for one, with its fields.
proof fn lemma_is_record(raw: Seq<char>)
    ensures
        monitors::classify(raw) is Record <==> record_texts(text::strip_terminator(raw)) is Some,
        reading(monitors::classified(raw)) == record_texts(text::strip_terminator(raw)),
        record_texts(text::strip_terminator(raw)) matches Some(fields) ==> {
            &&& monitors::classify(raw)->name == fields[0]
            &&& monitors::classify(raw)->disabled == switches_off(fields)
        },
{
    let content = text::strip_terminator(raw);
    let code = monitors::code_of(content);
    let eq = text::find_char(code, '=');
    text::lemma_find_char(content, '#');
    text::lemma_find_char(code, '=');
    if record_texts(content) is Some {
        reveal_strlit("monitor");
        let before = code.take(eq);
        text::lemma_trim_bounds(before);
        let start = text::leading_space(before);
        assert(before =~= content.take(eq));
        text::lemma_leading_space_take(content, eq);
        assert(text::trim_start(content)[0] == content[start]);
        assert(content[start] != '#');
        assert(monitors::classify(raw) is Record);
        let fields = monitors::fields_from(code, eq + 1);
        let all = texts(code.skip(eq + 1));
        lemma_scanned_is_laid(code, eq + 1);
        lemma_laid_texts(code, eq + 1, fields);
        let line = monitors::classified(raw);
        assert forall|k: int| 0 <= k < fields.len() implies monitors::field_text(line, k)
            == all[k] by {
            assert(code.subrange(fields[k].0, fields[k].1) == all[k]);
            assert(raw.subrange(fields[k].0, fields[k].1) =~= code.subrange(
                fields[k].0,
                fields[k].1,
            ));
        }
        assert(reading(line)->0 =~= all);
    }
}

pub proof fn lemma_classified_is_sound(raw: Seq<char>)
    requires
        lines::is_line(raw),
    ensures
        sound(monitors::classified(raw)),
{
    if monitors::classify(raw) is Record {
        let content = text::strip_terminator(raw);
        let body = lines::body(raw);
        lines::lemma_content_of_body(raw);
        lemma_same_record(content, body);
        lemma_is_record(raw);
        let a = monitors::code_of(content);
        let eq = text::find_char(a, '=');
        text::lemma_find_char(a, '=');
        lemma_scanned_is_laid(a, eq + 1);
        lemma_laid_return(a, eq + 1, monitors::fields_from(a, eq + 1));
    }
}

/// A sound record gives the fields that its text holds.
pub proof fn lemma_sound_reading(line: LineModel<Kind>)
    requires
        sound(line),
    ensures
        reading(line) == record_texts(lines::body(line.raw)),
        reading(line) == reading(monitors::classified(line.raw)),
        line.kind is Record ==> {
            &&& monitors::classify(line.raw) is Record
            &&& monitors::classify(line.raw)->name == line.kind->name
            &&& monitors::classify(line.raw)->disabled == line.kind->disabled
            &&& line.kind->name == reading(line)->0[0]
            &&& line.kind->disabled == switches_off(reading(line)->0)
            &&& monitors::spans_fit(line)
        },
        line.kind is Record <==> monitors::classify(line.raw) is Record,
{
    let raw = line.raw;
    let body = lines::body(raw);
    lines::lemma_content_of_body(raw);
    lemma_same_record(text::strip_terminator(raw), body);
    lemma_is_record(raw);
    if let Kind::Record { name, fields, disabled } = line.kind {
        let code = monitors::code_of(body);
        let eq = text::find_char(code, '=');
        text::lemma_find_char(body, '#');
        text::lemma_find_char(code, '=');
        lemma_laid_texts(code, eq + 1, fields);
        let all = texts(code.skip(eq + 1));
        assert forall|k: int| 0 <= k < fields.len() implies monitors::field_text(line, k)
            == all[k] by {
            assert(code.subrange(fields[k].0, fields[k].1) == all[k]);
            assert(raw.subrange(fields[k].0, fields[k].1) =~= code.subrange(
                fields[k].0,
                fields[k].1,
            ));
        }
        assert(reading(line)->0 =~= all);
    }
}

/// A file that was read is sound.
pub proof fn parsed_is_sound(input: Seq<char>)
    ensures
        sound_file(monitors::parsed(input)),
{
    let file = monitors::parsed(input);
    let raws = text::split_lines(input);
    lines::lemma_split_is_file(input);
    assert(lines::raws(file) =~= raws);
    assert forall|i: int| 0 <= i < file.len() implies sound(#[trigger] file[i]) by {
        assert(lines::is_line(raws[i]));
        lemma_classified_is_sound(raws[i]);
    }
}

/// A line that is what its text says has its positions inside it.
pub proof fn sound_fits(file: Seq<LineModel<Kind>>)
    requires
        sound_file(file),
    ensures
        all_fit(file),
{
    assert forall|i: int| 0 <= i < file.len() implies monitors::spans_fit(#[trigger] file[i]) by {
        assert(sound(file[i]));
        lemma_sound_reading(file[i]);
    }
}

/// Whether two lines hold the same record, or none.
spec fn alike(a: LineModel<Kind>, b: LineModel<Kind>) -> bool {
    &&& reading(a) == reading(b)
    &&& a.kind is Record ==> a.kind->name == b.kind->name && a.kind->disabled == b.kind->disabled
}

proof fn lemma_alike(a: Seq<LineModel<Kind>>, b: Seq<LineModel<Kind>>, name: Seq<char>)
    requires
        a.len() == b.len(),
        forall|i: int| 0 <= i < a.len() ==> alike(#[trigger] a[i], b[i]),
    ensures
        monitors::record_of(a, name) == monitors::record_of(b, name),
        monitors::enabled_of(a, name) == monitors::enabled_of(b, name),
        forall|field: MonitorField| #[trigger]
            monitors::field_of(a, name, field) == monitors::field_of(b, name, field),
        monitors::names_upto(a, a.len() as int) == monitors::names_upto(b, b.len() as int),
{
    let p = monitors::records(a, name);
    let q = monitors::records(b, name);
    let n = a.len() as int;
    assert forall|i: int| 0 <= i < n implies #[trigger] p(i) == q(i) by {
        assert(alike(a[i], b[i]));
    }
    search::lemma_last_where_agrees(n, p, q);
    search::lemma_last_where(n, p);
    if let Some(i) = monitors::record_of(a, name) {
        assert(alike(a[i], b[i]));
        lemma_same_fields(a[i], b[i]);
    }
    lemma_same_names(a, b, n);
}

proof fn lemma_same_fields(a: LineModel<Kind>, b: LineModel<Kind>)
    requires
        a.kind is Record,
        reading(a) == reading(b),
    ensures
        b.kind is Record,
        a.kind->fields.len() == b.kind->fields.len(),
        forall|k: int|
            0 <= k < a.kind->fields.len() ==> #[trigger] monitors::field_text(a, k)
                == monitors::field_text(b, k),
{
    assert(reading(a)->0.len() == a.kind->fields.len());
    assert(reading(b)->0.len() == b.kind->fields.len());
    assert forall|k: int| 0 <= k < a.kind->fields.len() implies #[trigger] monitors::field_text(
        a,
        k,
    ) == monitors::field_text(b, k) by {
        assert(reading(a)->0[k] == monitors::field_text(a, k));
        assert(reading(b)->0[k] == monitors::field_text(b, k));
    }
}

proof fn lemma_same_names(a: Seq<LineModel<Kind>>, b: Seq<LineModel<Kind>>, n: int)
    requires
        n <= a.len(),
        a.len() == b.len(),
        forall|i: int| 0 <= i < a.len() ==> alike(#[trigger] a[i], b[i]),
    ensures
        monitors::names_upto(a, n) == monitors::names_upto(b, n),
    decreases n,
{
    if n > 0 {
        lemma_same_names(a, b, n - 1);
        assert(alike(a[n - 1], b[n - 1]));
    }
}

/// A file that is written and read again gives the names, the states and the fields that it gave.
pub proof fn reread(file: Seq<LineModel<Kind>>, name: Seq<char>, field: MonitorField)
    requires
        sound_file(file),
    ensures
        ({
            let again = monitors::parsed(lines::emitted(file));
            &&& monitors::names_upto(again, again.len() as int) == monitors::names_upto(
                file,
                file.len() as int,
            )
            &&& monitors::enabled_of(again, name) == monitors::enabled_of(file, name)
            &&& monitors::field_of(again, name, field) == monitors::field_of(file, name, field)
        }),
{
    let again = monitors::parsed(lines::emitted(file));
    lines::lemma_split_join(lines::raws(file));
    assert(again.len() == file.len());
    assert forall|i: int| 0 <= i < file.len() implies alike(#[trigger] file[i], again[i]) by {
        assert(lines::raws(file)[i] == file[i].raw);
        assert(again[i] == monitors::classified(file[i].raw));
        assert(sound(file[i]));
        lemma_sound_reading(file[i]);
    }
    lemma_alike(file, again, name);
}

/// An edit behind the `=` of a record stays behind it, and before its comment.
proof fn lemma_code_splice(body: Seq<char>, a: int, b: int, value: Seq<char>)
    requires
        record_texts(body) is Some,
        text::find_char(monitors::code_of(body), '=') < a <= b <= monitors::code_of(body).len(),
        !value.contains('#'),
    ensures
        ({
            let code = monitors::code_of(body);
            let after = text::splice(body, a, b, value);
            let edited = monitors::code_of(after);
            let eq = text::find_char(code, '=');
            &&& edited == text::splice(code, a, b, value)
            &&& text::find_char(edited, '=') == eq
            &&& record_texts(after) == Some(texts(edited.skip(eq + 1)))
        }),
{
    let code = monitors::code_of(body);
    let after = text::splice(body, a, b, value);
    let hash = text::find_char(body, '#');
    let eq = text::find_char(code, '=');
    text::lemma_find_char(body, '#');
    text::lemma_find_char(code, '=');
    let moved = hash - (b - a) + value.len();
    assert forall|i: int| 0 <= i < moved implies after[i] != '#' by {
        if i < a {
            assert(after[i] == body[i]);
        } else if i < a + value.len() {
            assert(after[i] == value[i - a]);
            assert(value.contains(value[i - a]));
        } else {
            assert(after[i] == body[i - a - value.len() + b]);
        }
    }
    if moved < after.len() {
        assert(after[moved as int] == body[hash]);
    }
    text::lemma_find_char_is(after, '#', moved as int);
    let edited = monitors::code_of(after);
    assert(edited =~= text::splice(code, a, b, value));
    assert forall|i: int| 0 <= i < eq implies edited[i] != '=' by {
        assert(edited[i] == code[i]);
    }
    assert(edited[eq] == code[eq]);
    text::lemma_find_char_is(edited, '=', eq);
    assert(edited.take(eq) =~= code.take(eq));
}

/// A record with another text for one field holds that text there, trimmed, and otherwise what it
/// held.
proof fn lemma_with_field(line: LineModel<Kind>, k: int, value: Seq<char>)
    requires
        sound(line),
        line.kind is Record,
        0 <= k < line.kind->fields.len(),
        !monitors::is_unsafe(value),
    ensures
        ({
            let edited = monitors::with_field(line, k, value);
            &&& sound(edited)
            &&& text::ends_line(edited.raw) == text::ends_line(line.raw)
            &&& reading(edited) == Some(reading(line)->0.update(k, text::trim(value)))
        }),
{
    let raw = line.raw;
    let body = lines::body(raw);
    let code = monitors::code_of(body);
    let eq = text::find_char(code, '=');
    let fields = line.kind->fields;
    let (a, b) = fields[k];
    text::lemma_find_char(body, '#');
    text::lemma_find_char(code, '=');
    lemma_sound_reading(line);
    lemma_laid_texts(code, eq + 1, fields);
    lines::lemma_line_splice(raw, a, b, value);
    lemma_code_splice(body, a, b, value);
    lemma_splice_texts(code, eq + 1, fields, k, value);
    let edited = monitors::with_field(line, k, value);
    lemma_classified_is_sound(edited.raw);
    lemma_sound_reading(edited);
}

/// What the fields of a record named `name` that says `state` are.
pub open spec fn state_texts(name: Seq<char>, state: MonitorState) -> Seq<Seq<char>> {
    match state {
        MonitorState::Active { mode, position, scale } => seq![
            name,
            text::trim(mode@),
            text::trim(position@),
            text::trim(scale@),
        ],
        MonitorState::Disabled => seq![name, "disable"@],
    }
}

proof fn lemma_no_comma(s: Seq<char>, tail: Seq<char>)
    requires
        !s.contains(','),
        text::spaces(tail, 0, tail.len() as int),
    ensures
        !(s + tail).contains(','),
        text::trim(s + tail) == text::trim(s),
{
    let more = s + tail;
    assert forall|i: int| 0 <= i < more.len() implies more[i] != ',' by {
        if i < s.len() {
            assert(more[i] == s[i]);
            assert(s.contains(s[i]));
        } else {
            assert(more[i] == tail[i - s.len()]);
        }
    }
    assert forall|i: int| s.len() <= i < more.len() implies text::is_space(#[trigger] more[i]) by {
        assert(more[i] == tail[i - s.len()]);
    }
    text::lemma_trim_pad(more, 0, s.len() as int);
    assert(more.subrange(0, s.len() as int) =~= s);
}

/// The fields of a record that is written from its name, a state, and white space behind it.
proof fn lemma_state_texts(name: Seq<char>, state: MonitorState, tail: Seq<char>)
    requires
        !name.contains(','),
        monitors::unsafe_part(state) is None,
        text::spaces(tail, 0, tail.len() as int),
    ensures
        texts(name + monitors::body_of(state) + tail) == state_texts(text::trim(name), state),
{
    reveal_strlit(",");
    reveal_strlit(",disable");
    reveal_strlit("disable");
    let comma = seq![','];
    match state {
        MonitorState::Active { mode, position, scale } => {
            lemma_no_comma(scale@, tail);
            lemma_texts_one(scale@ + tail);
            let last = scale@ + tail;
            lemma_texts_more(position@, last);
            let third = position@ + comma + last;
            lemma_texts_more(mode@, third);
            let second = mode@ + comma + third;
            lemma_texts_more(name, second);
            assert(name + monitors::body_of(state) + tail =~= name + comma + second);
            assert(texts(name + comma + second) =~= state_texts(text::trim(name), state));
        },
        MonitorState::Disabled => {
            let word = "disable"@;
            assert(!word.contains(','));
            lemma_no_comma(word, tail);
            text::lemma_trim_is(word, 0, 7);
            assert(word.subrange(0, 7) =~= word);
            lemma_texts_one(word + tail);
            lemma_texts_more(name, word + tail);
            assert(name + monitors::body_of(state) + tail =~= name + comma + (word + tail));
            assert(texts(name + comma + (word + tail)) =~= state_texts(text::trim(name), state));
        },
    }
}

/// What stands after the name of a record that says `state` is on one line, without a comment.
proof fn lemma_body_is_plain(state: MonitorState)
    requires
        monitors::unsafe_part(state) is None,
    ensures
        !text::breaks_line(monitors::body_of(state)),
        !monitors::body_of(state).contains('#'),
{
    reveal_strlit(",");
    reveal_strlit(",disable");
    let s = monitors::body_of(state);
    assert forall|i: int| 0 <= i < s.len() implies s[i] != '\n' && s[i] != '\r' && s[i] != '#' by {
        if let MonitorState::Active { mode, position, scale } = state {
            let a = 1 + mode@.len();
            let b = a + 1 + position@.len();
            if 0 < i < a {
                assert(s[i] == mode@[i - 1]);
                assert(mode@.contains(mode@[i - 1]));
            } else if a < i < b {
                assert(s[i] == position@[i - a - 1]);
                assert(position@.contains(position@[i - a - 1]));
            } else if b < i {
                assert(s[i] == scale@[i - b - 1]);
                assert(scale@.contains(scale@[i - b - 1]));
            }
        }
    }
}

/// A record that is made to say a state keeps its name and says that state.
proof fn lemma_with_body(line: LineModel<Kind>, state: MonitorState)
    requires
        sound(line),
        line.kind is Record,
        monitors::unsafe_part(state) is None,
    ensures
        ({
            let edited = monitors::with_body(line, monitors::body_of(state));
            &&& sound(edited)
            &&& text::ends_line(edited.raw) == text::ends_line(line.raw)
            &&& reading(edited) == Some(state_texts(line.kind->name, state))
        }),
{
    let raw = line.raw;
    let body = lines::body(raw);
    let code = monitors::code_of(body);
    let eq = text::find_char(code, '=');
    let fields = line.kind->fields;
    let a = fields[0].1;
    let b = fields.last().1;
    let value = monitors::body_of(state);
    text::lemma_find_char(body, '#');
    text::lemma_find_char(code, '=');
    lemma_sound_reading(line);
    lemma_laid_texts(code, eq + 1, fields);
    assert(a <= b) by {
        if fields.len() > 1 {
            assert(fields[0].1 <= fields[fields.len() - 1].0);
        }
    }
    lemma_body_is_plain(state);
    lines::lemma_line_splice(raw, a, b, value);
    lemma_code_splice(body, a, b, value);
    lemma_find_from(code, eq + 1);
    let name = code.subrange(eq + 1, a);
    let tail = code.skip(b);
    assert(!name.contains(','));
    assert forall|i: int| 0 <= i < tail.len() implies text::is_space(#[trigger] tail[i]) by {
        assert(tail[i] == code[i + b]);
    }
    lemma_state_texts(name, state, tail);
    assert(text::splice(code, a, b, value).skip(eq + 1) =~= name + value + tail);
    let comma = eq + 1 + text::find_char(code.skip(eq + 1), ',');
    let segment = code.subrange(eq + 1, comma);
    assert forall|i: int| a - eq - 1 <= i < segment.len() implies text::is_space(
        #[trigger] segment[i],
    ) by {
        assert(segment[i] == code[i + eq + 1]);
    }
    text::lemma_trim_pad(segment, 0, a - eq - 1);
    assert(segment.subrange(0, a - eq - 1) =~= name);
    let edited = monitors::with_body(line, value);
    lemma_classified_is_sound(edited.raw);
    lemma_sound_reading(edited);
}

spec fn is_end(end: Seq<char>) -> bool {
    end == seq!['\n'] || end == seq!['\r', '\n']
}

/// Whether a text is what stands before the name of a record, with its `=` at `eq`.
spec fn is_prefix(prefix: Seq<char>, eq: int) -> bool {
    &&& 0 <= eq < prefix.len()
    &&& prefix[eq] == '='
    &&& forall|i: int| 0 <= i < eq ==> #[trigger] prefix[i] != '='
    &&& text::trim(prefix.take(eq)) == "monitor"@
    &&& text::spaces(prefix, eq + 1, prefix.len() as int)
    &&& !prefix.contains('#')
    &&& !prefix.contains('\n')
}

/// A new record holds its name, trimmed, and its state.
proof fn lemma_new_record(
    prefix: Seq<char>,
    eq: int,
    name: Seq<char>,
    state: MonitorState,
    end: Seq<char>,
)
    requires
        is_prefix(prefix, eq),
        !monitors::is_unsafe(name),
        monitors::unsafe_part(state) is None,
        is_end(end),
    ensures
        ({
            let line = monitors::classified(prefix + name + monitors::body_of(state) + end);
            &&& sound(line)
            &&& text::ends_line(line.raw)
            &&& reading(line) == Some(state_texts(text::trim(name), state))
        }),
{
    let value = monitors::body_of(state);
    lemma_body_is_plain(state);
    let s = prefix + name + value;
    let raw = s + end;
    let a = prefix.len() as int;
    let b = a + name.len();
    assert forall|i: int| 0 <= i < s.len() implies #[trigger] s[i] != '\n' && s[i] != '#' by {
        if i < a {
            assert(s[i] == prefix[i]);
            assert(prefix.contains(prefix[i]));
        } else if i < b {
            assert(s[i] == name[i - a]);
            assert(name.contains(name[i - a]));
        } else {
            assert(s[i] == value[i - b]);
            assert(value.contains(value[i - b]));
        }
    }
    assert forall|i: int| 0 <= i < raw.len() - 1 implies #[trigger] raw[i] != '\n' by {
        if i < s.len() {
            assert(raw[i] == s[i]);
        }
    }
    let body = lines::body(raw);
    if end == seq!['\n'] {
        assert(body =~= s);
    } else {
        assert(body =~= s.push('\r'));
    }
    text::lemma_find_char_is(s, '#', s.len() as int);
    let code = monitors::code_of(s);
    assert(code =~= s);
    assert forall|i: int| 0 <= i < eq implies s[i] != '=' by {
        assert(s[i] == prefix[i]);
    }
    assert(s[eq] == prefix[eq]);
    text::lemma_find_char_is(s, '=', eq);
    assert(s.take(eq) =~= prefix.take(eq));
    let lead = prefix.skip(eq + 1);
    let named = lead + name;
    assert forall|i: int| 0 <= i < lead.len() implies text::is_space(#[trigger] named[i]) by {
        assert(named[i] == prefix[i + eq + 1]);
    }
    text::lemma_trim_pad(named, lead.len() as int, named.len() as int);
    assert(named.subrange(lead.len() as int, named.len() as int) =~= name);
    assert(!named.contains(',')) by {
        assert forall|i: int| 0 <= i < named.len() implies named[i] != ',' by {
            if i < lead.len() {
                assert(text::is_space(named[i]));
            } else {
                assert(named[i] == name[i - lead.len()]);
                assert(name.contains(name[i - lead.len()]));
            }
        }
    }
    let none = Seq::<char>::empty();
    lemma_state_texts(named, state, none);
    assert(s.skip(eq + 1) =~= named + value + none);
    lemma_same_record(s, body);
    let line = monitors::classified(raw);
    lemma_classified_is_sound(raw);
    lemma_sound_reading(line);
}

proof fn lemma_ended_is_sound(line: LineModel<Kind>, end: Seq<char>)
    requires
        sound(line),
        !text::ends_line(line.raw),
        is_end(end),
    ensures
        ({
            let ended = LineModel { raw: line.raw + end, kind: line.kind };
            &&& sound(ended)
            &&& text::ends_line(ended.raw)
            &&& alike(line, ended)
        }),
{
    let raw = line.raw + end;
    let ended = LineModel { raw, kind: line.kind };
    lines::lemma_line_ended(line.raw, end);
    let body = line.raw;
    let after = lines::body(raw);
    lemma_same_record(body, after);
    if let Kind::Record { name, fields, disabled } = line.kind {
        let code = monitors::code_of(body);
        let eq = text::find_char(code, '=');
        text::lemma_find_char(code, '=');
        lemma_laid_return(code, eq + 1, fields);
        lemma_sound_reading(line);
        lemma_sound_reading(ended);
    } else {
        let p = text::strip_terminator(line.raw);
        let q = text::strip_terminator(raw);
        assert(q =~= p || q =~= p.push('\r'));
        lemma_same_record(p, q);
        lemma_is_record(line.raw);
        lemma_is_record(raw);
        text::lemma_trim_start_return(p, q);
    }
}

proof fn lemma_terminated(file: Seq<LineModel<Kind>>, end: Seq<char>)
    requires
        sound_file(file),
        is_end(end),
    ensures
        sound_file(lines::terminated(file, end)),
        lines::terminated(file, end).len() == file.len(),
        file.len() > 0 ==> text::ends_line(lines::terminated(file, end).last().raw),
        forall|j: int|
            0 <= j < file.len() ==> alike(#[trigger] file[j], lines::terminated(file, end)[j]),
{
    let ended = lines::terminated(file, end);
    if file.len() > 0 {
        let n = file.len() - 1;
        assert(sound(file[n]));
        assert(lines::raws(file)[n] == file[n].raw);
        if !text::ends_line(file[n].raw) {
            lemma_ended_is_sound(file[n], end);
            lines::lemma_file_update(lines::raws(file), n, file[n].raw + end);
            assert(lines::raws(ended) =~= lines::raws(file).update(n, file[n].raw + end));
            assert forall|j: int| 0 <= j < ended.len() implies sound(#[trigger] ended[j]) by {
                assert(sound(file[j]));
            }
        }
    }
}

/// Where a new record goes: behind the last one, or at the end.
pub open spec fn place_for_record(file: Seq<LineModel<Kind>>) -> int {
    match search::last_where(file.len() as int, monitors::any_record(file)) {
        Some(i) => i + 1,
        None => file.len() as int,
    }
}

/// The lines that a new record is put among: those of the file, the last one ended where the new
/// record comes behind it.
pub open spec fn lines_around_record(file: Seq<LineModel<Kind>>) -> Seq<LineModel<Kind>> {
    if place_for_record(file) == file.len() {
        lines::terminated(file, lines::terminator(file))
    } else {
        file
    }
}

/// A new record is one line more, behind the last record or at the end.
#[verifier::rlimit(40)]
proof fn lemma_with_record(file: Seq<LineModel<Kind>>, name: Seq<char>, state: MonitorState)
    requires
        sound_file(file),
        !monitors::is_unsafe(name),
        monitors::unsafe_part(state) is None,
    ensures
        ({
            let after = monitors::with_record(file, name, monitors::body_of(state));
            let k = place_for_record(file);
            let base = lines_around_record(file);
            &&& 0 <= k <= file.len()
            &&& after.len() == file.len() + 1
            &&& after == base.insert(k, after[k])
            &&& sound_file(base)
            &&& base.len() == file.len()
            &&& forall|j: int| 0 <= j < file.len() ==> alike(#[trigger] file[j], base[j])
            &&& sound_file(after)
            &&& after[k].kind is Record
            &&& after[k].kind->name == text::trim(name)
            &&& reading(after[k]) == Some(state_texts(text::trim(name), state))
        }),
{
    let end = lines::terminator(file);
    let value = monitors::body_of(state);
    let after = monitors::with_record(file, name, value);
    let k = place_for_record(file);
    let base = lines_around_record(file);
    let found = search::last_where(file.len() as int, monitors::any_record(file));
    search::lemma_last_where(file.len() as int, monitors::any_record(file));
    lemma_terminated(file, end);
    let prefix = match found {
        Some(i) => file[i].raw.take(file[i].kind->fields[0].0),
        None => "monitor="@,
    };
    let eq = match found {
        Some(i) => text::find_char(monitors::code_of(lines::body(file[i].raw)), '='),
        None => 7,
    };
    if let Some(i) = found {
        let line = file[i];
        assert(sound(line));
        lemma_prefix_of_record(line);
        assert(lines::raws(file)[i] == line.raw);
        if k < file.len() {
            assert(text::ends_line(line.raw));
            assert(file.take(k).last() == line);
            assert(lines::terminated(file.take(k), end) =~= file.take(k));
            assert(after =~= base.insert(k, after[k]));
        } else {
            assert(file.take(k) =~= file);
            assert(after =~= base.insert(k, after[k]));
        }
    } else {
        reveal_strlit("monitor=");
        reveal_strlit("monitor");
        assert(prefix.take(7) =~= "monitor"@);
        text::lemma_trim_is(prefix.take(7), 0, 7);
        assert(prefix.take(7).subrange(0, 7) =~= prefix.take(7));
        assert(is_prefix(prefix, eq));
        assert(after =~= base.insert(k, after[k]));
    }
    lemma_new_record(prefix, eq, name, state, end);
    let line = monitors::classified(prefix + name + value + end);
    assert(after[k] == line);
    lemma_sound_reading(line);
    if k == file.len() && k > 0 {
        assert(lines::raws(base)[k - 1] == base.last().raw);
    }
    lines::lemma_file_insert(lines::raws(base), k, line.raw);
    assert(lines::raws(after) =~= lines::raws(base).insert(k, line.raw));
    assert forall|j: int| 0 <= j < after.len() implies sound(#[trigger] after[j]) by {
        if j < k {
            assert(sound(base[j]));
        } else if j > k {
            assert(sound(base[j - 1]));
        }
    }
}

/// What stands before the name of a record can stand before another.
proof fn lemma_prefix_of_record(line: LineModel<Kind>)
    requires
        sound(line),
        line.kind is Record,
    ensures
        is_prefix(
            line.raw.take(line.kind->fields[0].0),
            text::find_char(monitors::code_of(lines::body(line.raw)), '='),
        ),
{
    let body = lines::body(line.raw);
    let code = monitors::code_of(body);
    let eq = text::find_char(code, '=');
    let prefix = line.raw.take(line.kind->fields[0].0);
    text::lemma_find_char(body, '#');
    text::lemma_find_char(code, '=');
    lemma_find_from(code, eq + 1);
    assert forall|i: int| 0 <= i < prefix.len() implies prefix[i] == #[trigger] code[i] && prefix[i]
        != '#' && prefix[i] != '\n' by {
        assert(code[i] == body[i] && body[i] == line.raw[i]);
    }
    assert(prefix.take(eq) =~= code.take(eq));
    assert(prefix[eq] == code[eq]);
    assert forall|i: int| 0 <= i < eq implies #[trigger] prefix[i] != '=' by {
        assert(prefix[i] == code[i]);
    }
    assert forall|i: int| eq + 1 <= i < prefix.len() implies text::is_space(
        #[trigger] prefix[i],
    ) by {
        assert(prefix[i] == code[i]);
    }
}

/// Setting a field leaves a sound file sound.
pub proof fn set_field_keeps_sound(
    file: Seq<LineModel<Kind>>,
    name: Seq<char>,
    field: MonitorField,
    value: Seq<char>,
)
    requires
        sound_file(file),
    ensures
        sound_file(monitors::after_set_field(file, name, field, value)),
{
    if monitors::accepts_field(file, name, field, value) {
        lemma_record_of(file, name);
        let i = monitors::record_of(file, name)->0;
        assert(sound(file[i]));
        lemma_with_field(file[i], field.place(), value);
        lemma_updated(file, i, monitors::with_field(file[i], field.place(), value));
    }
}

/// Making a record say a state leaves a sound file sound.
pub proof fn set_state_keeps_sound(
    file: Seq<LineModel<Kind>>,
    name: Seq<char>,
    state: MonitorState,
)
    requires
        sound_file(file),
    ensures
        sound_file(monitors::after_set_state(file, name, state)),
{
    if monitors::accepts_state(file, name, state) {
        lemma_record_of(file, name);
        match monitors::record_of(file, name) {
            Some(i) => {
                assert(sound(file[i]));
                lemma_with_body(file[i], state);
                lemma_updated(file, i, monitors::with_body(file[i], monitors::body_of(state)));
            },
            None => lemma_with_record(file, name, state),
        }
    }
}

proof fn lemma_updated(file: Seq<LineModel<Kind>>, i: int, line: LineModel<Kind>)
    requires
        sound_file(file),
        0 <= i < file.len(),
        sound(line),
        text::ends_line(line.raw) == text::ends_line(file[i].raw),
    ensures
        sound_file(file.update(i, line)),
{
    let after = file.update(i, line);
    assert(lines::raws(file)[i] == file[i].raw);
    lines::lemma_file_update(lines::raws(file), i, line.raw);
    assert(lines::raws(after) =~= lines::raws(file).update(i, line.raw));
    assert forall|j: int| 0 <= j < after.len() implies sound(#[trigger] after[j]) by {
        assert(sound(file[j]));
    }
}

pub proof fn lemma_record_of(file: Seq<LineModel<Kind>>, name: Seq<char>)
    ensures
        monitors::record_of(file, name) matches Some(i) ==> {
            &&& 0 <= i < file.len()
            &&& file[i].kind is Record
            &&& file[i].kind->name == name
        },
{
    search::lemma_last_where(file.len() as int, monitors::records(file, name));
}

/// A record with the same name in the place of another changes nothing for other names.
proof fn lemma_update_keeps(
    file: Seq<LineModel<Kind>>,
    i: int,
    line: LineModel<Kind>,
    other: Seq<char>,
)
    requires
        0 <= i < file.len(),
        file[i].kind is Record,
        line.kind is Record,
        line.kind->name == file[i].kind->name,
    ensures
        ({
            let after = file.update(i, line);
            &&& monitors::record_of(after, other) == monitors::record_of(file, other)
            &&& other != line.kind->name ==> {
                &&& monitors::enabled_of(after, other) == monitors::enabled_of(file, other)
                &&& forall|field: MonitorField| #[trigger]
                    monitors::field_of(after, other, field) == monitors::field_of(
                        file,
                        other,
                        field,
                    )
            }
        }),
{
    let after = file.update(i, line);
    let n = file.len() as int;
    let p = monitors::records(file, other);
    let q = monitors::records(after, other);
    assert forall|j: int| 0 <= j < n implies #[trigger] p(j) == q(j) by {}
    search::lemma_last_where_agrees(n, p, q);
    lemma_record_of(file, other);
}

/// A field that was set is read back, trimmed, and the record keeps its name and all its other
/// fields. No other monitor changes. A record of two fields whose mode is set to `disable` is left
/// out: it switches the monitor off.
pub proof fn read_after_set_field(
    file: Seq<LineModel<Kind>>,
    name: Seq<char>,
    field: MonitorField,
    value: Seq<char>,
    other: MonitorField,
    other_name: Seq<char>,
)
    requires
        sound_file(file),
        monitors::accepts_field(file, name, field, value),
        monitors::field_of(file, name, MonitorField::Position) is Some || text::trim(value)
            != "disable"@,
    ensures
        ({
            let after = monitors::after_set_field(file, name, field, value);
            &&& monitors::field_of(after, name, field) == Some(text::trim(value))
            &&& other != field ==> monitors::field_of(after, name, other) == monitors::field_of(
                file,
                name,
                other,
            )
            &&& monitors::enabled_of(after, name) == Some(true)
            &&& other_name != name ==> {
                &&& monitors::field_of(after, other_name, other) == monitors::field_of(
                    file,
                    other_name,
                    other,
                )
                &&& monitors::enabled_of(after, other_name) == monitors::enabled_of(
                    file,
                    other_name,
                )
            }
        }),
{
    let k = field.place();
    lemma_record_of(file, name);
    let i = monitors::record_of(file, name)->0;
    let line = file[i];
    let edited = monitors::with_field(line, k, value);
    assert(sound(line));
    lemma_with_field(line, k, value);
    lemma_sound_reading(line);
    lemma_sound_reading(edited);
    let before = reading(line)->0;
    let after = reading(edited)->0;
    assert(before.len() == line.kind->fields.len());
    assert(after.len() == edited.kind->fields.len());
    assert(edited.kind->name == line.kind->name);
    lemma_update_keeps(file, i, edited, name);
    lemma_update_keeps(file, i, edited, other_name);
    assert(!edited.kind->disabled);
    assert(after[k] == monitors::field_text(edited, k));
    if other.place() < before.len() {
        assert(after[other.place()] == monitors::field_text(edited, other.place()));
        assert(before[other.place()] == monitors::field_text(line, other.place()));
    }
}

/// The number of fields of a record, and so of its commas, is the same after one is set, as are
/// all fields but that one, the ones behind the scale included.
pub proof fn set_field_keeps_the_other_fields(
    file: Seq<LineModel<Kind>>,
    name: Seq<char>,
    field: MonitorField,
    value: Seq<char>,
)
    requires
        sound_file(file),
        monitors::accepts_field(file, name, field, value),
    ensures
        ({
            let i = monitors::record_of(file, name)->0;
            let after = monitors::after_set_field(file, name, field, value);
            &&& monitors::record_of(after, name) == Some(i)
            &&& after == file.update(i, after[i])
            &&& reading(after[i]) == Some(
                reading(file[i])->0.update(field.place(), text::trim(value)),
            )
        }),
{
    let k = field.place();
    lemma_record_of(file, name);
    let i = monitors::record_of(file, name)->0;
    assert(sound(file[i]));
    lemma_with_field(file[i], k, value);
    lemma_sound_reading(file[i]);
    let edited = monitors::with_field(file[i], k, value);
    lemma_sound_reading(edited);
    assert(reading(file[i])->0.len() == file[i].kind->fields.len());
    lemma_update_keeps(file, i, edited, name);
}

/// An edit of a field replaces its characters and leaves every other character of the file.
pub proof fn field_edit_replaces_one_field(
    file: Seq<LineModel<Kind>>,
    name: Seq<char>,
    field: MonitorField,
    value: Seq<char>,
)
    requires
        all_fit(file),
        monitors::accepts_field(file, name, field, value),
    ensures
        exists|before: Seq<char>, after: Seq<char>| #![trigger before + value + after]
            {
                &&& lines::emitted(file) == before + monitors::field_of(file, name, field)->0
                    + after
                &&& lines::emitted(monitors::after_set_field(file, name, field, value)) == before
                    + value + after
            },
{
    lemma_record_of(file, name);
    let i = monitors::record_of(file, name)->0;
    let k = field.place();
    assert(monitors::spans_fit(file[i]));
    let (start, end) = file[i].kind->fields[k];
    let edited = monitors::with_field(file[i], k, value);
    lines::lemma_emitted_splice(file, i, start, end, value, edited.kind);
    let before = lines::text_before(file, i, start);
    let after = lines::text_after(file, i, end);
    assert(lines::emitted(monitors::after_set_field(file, name, field, value)) == before + value
        + after);
}

/// A state that was set is read back, its parts trimmed, and no other monitor changes. Where a
/// record is added its name must be without white space around it: a record is found by its name
/// without that.
pub proof fn read_after_set_state(
    file: Seq<LineModel<Kind>>,
    name: Seq<char>,
    state: MonitorState,
    other: Seq<char>,
    field: MonitorField,
)
    requires
        sound_file(file),
        monitors::accepts_state(file, name, state),
        monitors::record_of(file, name) is None ==> text::trim(name) == name,
    ensures
        ({
            let after = monitors::after_set_state(file, name, state);
            &&& monitors::enabled_of(after, name) == Some(state is Active)
            &&& state matches MonitorState::Active { mode, position, scale } ==> {
                &&& monitors::field_of(after, name, MonitorField::Mode) == Some(text::trim(mode@))
                &&& monitors::field_of(after, name, MonitorField::Position) == Some(
                    text::trim(position@),
                )
                &&& monitors::field_of(after, name, MonitorField::Scale) == Some(
                    text::trim(scale@),
                )
            }
            &&& other != name ==> {
                &&& monitors::enabled_of(after, other) == monitors::enabled_of(file, other)
                &&& monitors::field_of(after, other, field) == monitors::field_of(
                    file,
                    other,
                    field,
                )
            }
        }),
{
    let after = monitors::after_set_state(file, name, state);
    lemma_record_of(file, name);
    match monitors::record_of(file, name) {
        Some(i) => {
            assert(sound(file[i]));
            let edited = monitors::with_body(file[i], monitors::body_of(state));
            lemma_with_body(file[i], state);
            lemma_sound_reading(edited);
            lemma_update_keeps(file, i, edited, name);
            lemma_update_keeps(file, i, edited, other);
            lemma_says(edited, name, state);
        },
        None => {
            lemma_with_record(file, name, state);
            let k = place_for_record(file);
            let base = lines_around_record(file);
            let line = after[k];
            assert(sound(line));
            lemma_sound_reading(line);
            lemma_alike(file, base, name);
            lemma_alike(file, base, other);
            lemma_record_of(base, name);
            search::lemma_last_where(base.len() as int, monitors::records(base, name));
            let q = monitors::records(after, name);
            assert forall|j: int| k < j < after.len() implies !#[trigger] q(j) by {
                assert(after[j] == base[j - 1]);
                assert(!monitors::records(base, name)(j - 1));
            }
            search::lemma_last_where_is(after.len() as int, q, k);
            lemma_says(line, name, state);
            if other != name {
                lemma_insert_keeps(base, k, line, other);
            }
        },
    }
}

/// What a record that says a state gives.
proof fn lemma_says(line: LineModel<Kind>, name: Seq<char>, state: MonitorState)
    requires
        sound(line),
        reading(line) == Some(state_texts(name, state)),
    ensures
        line.kind is Record,
        line.kind->disabled == (state is Disabled),
        state matches MonitorState::Active { mode, position, scale } ==> {
            &&& line.kind->fields.len() == 4
            &&& monitors::field_text(line, 1) == text::trim(mode@)
            &&& monitors::field_text(line, 2) == text::trim(position@)
            &&& monitors::field_text(line, 3) == text::trim(scale@)
        },
{
    lemma_sound_reading(line);
    let all = reading(line)->0;
    assert(all.len() == line.kind->fields.len());
    if state is Active {
        assert(all[1] == monitors::field_text(line, 1));
        assert(all[2] == monitors::field_text(line, 2));
        assert(all[3] == monitors::field_text(line, 3));
    }
}

/// A record that is put among the lines changes nothing for other names.
proof fn lemma_insert_keeps(
    base: Seq<LineModel<Kind>>,
    k: int,
    line: LineModel<Kind>,
    other: Seq<char>,
)
    requires
        0 <= k <= base.len(),
        line.kind is Record,
        line.kind->name != other,
    ensures
        ({
            let after = base.insert(k, line);
            &&& monitors::enabled_of(after, other) == monitors::enabled_of(base, other)
            &&& forall|field: MonitorField| #[trigger]
                monitors::field_of(after, other, field) == monitors::field_of(base, other, field)
        }),
{
    let after = base.insert(k, line);
    let n = base.len() as int;
    let p = monitors::records(base, other);
    let q = monitors::records(after, other);
    assert forall|j: int| 0 <= j < n implies #[trigger] p(j) == q(search::shifted(j, k)) by {
        assert(after[search::shifted(j, k)] == base[j]);
    }
    search::lemma_last_where_shifts(n, p, q, k);
    lemma_record_of(base, other);
    if let Some(j) = monitors::record_of(base, other) {
        assert(after[search::shifted(j, k)] == base[j]);
    }
}

/// A state that was set is read back from the file as it is written.
pub proof fn written_state_is_read_back(
    file: Seq<LineModel<Kind>>,
    name: Seq<char>,
    state: MonitorState,
    field: MonitorField,
)
    requires
        sound_file(file),
    ensures
        ({
            let after = monitors::after_set_state(file, name, state);
            let again = monitors::parsed(lines::emitted(after));
            &&& monitors::enabled_of(again, name) == monitors::enabled_of(after, name)
            &&& monitors::field_of(again, name, field) == monitors::field_of(after, name, field)
        }),
{
    set_state_keeps_sound(file, name, state);
    reread(monitors::after_set_state(file, name, state), name, field);
}

/// A field that was set is read back from the file as it is written.
pub proof fn written_field_is_read_back(
    file: Seq<LineModel<Kind>>,
    name: Seq<char>,
    field: MonitorField,
    value: Seq<char>,
    other: MonitorField,
)
    requires
        sound_file(file),
    ensures
        ({
            let after = monitors::after_set_field(file, name, field, value);
            let again = monitors::parsed(lines::emitted(after));
            &&& monitors::enabled_of(again, name) == monitors::enabled_of(after, name)
            &&& monitors::field_of(again, name, other) == monitors::field_of(after, name, other)
        }),
{
    set_field_keeps_sound(file, name, field, value);
    reread(monitors::after_set_field(file, name, field, value), name, other);
}

/// A record that is added stands on a line of its own behind the last record, or at the end where
/// there is none, and every character of the file stays.
pub proof fn added_record_stands_behind_the_last(
    file: Seq<LineModel<Kind>>,
    name: Seq<char>,
    state: MonitorState,
)
    requires
        sound_file(file),
        monitors::accepts_state(file, name, state),
        monitors::record_of(file, name) is None,
    ensures
        ({
            let after = monitors::after_set_state(file, name, state);
            let k = place_for_record(file);
            let end = lines::terminator(file);
            &&& 0 <= k <= file.len()
            &&& lines::emitted(file) == lines::emitted(file.take(k)) + lines::emitted(file.skip(k))
            &&& lines::emitted(after) == if k == file.len() && k > 0 && !text::ends_line(
                file.last().raw,
            ) {
                lines::emitted(file) + end + after[k].raw
            } else {
                lines::emitted(file.take(k)) + after[k].raw + lines::emitted(file.skip(k))
            }
        }),
{
    let after = monitors::after_set_state(file, name, state);
    let k = place_for_record(file);
    let end = lines::terminator(file);
    let base = lines_around_record(file);
    lemma_with_record(file, name, state);
    lines::lemma_emitted_insert(base, k, after[k]);
    lines::lemma_emitted_insert(file, k, after[k]);
    if k == file.len() {
        lines::lemma_emitted_terminated(file, end);
        assert(base.take(k) =~= base);
        assert(base.skip(k) =~= Seq::empty());
        assert(file.take(k) =~= file);
        assert(file.skip(k) =~= Seq::empty());
        assert(lines::raws(base.skip(k)) =~= Seq::empty());
        assert(lines::emitted(base.skip(k)) =~= Seq::<char>::empty());
        assert(lines::emitted(after) =~= lines::emitted(base) + after[k].raw);
        assert(lines::emitted(file.take(k)) + after[k].raw + lines::emitted(file.skip(k))
            =~= lines::emitted(file) + after[k].raw);
    }
}

/// Whether a text can be a field: none of its characters is a comma, a line feed, a carriage return
/// or `#`.
pub open spec fn is_plain(value: Seq<char>) -> bool {
    forall|i: int|
        0 <= i < value.len() ==> #[trigger] value[i] != ',' && value[i] != '\n' && value[i] != '\r'
            && value[i] != '#'
}

/// What can be a field is a matter of the characters alone.
pub proof fn lemma_plain(value: Seq<char>)
    ensures
        monitors::is_unsafe(value) <==> !is_plain(value),
{
    if monitors::is_unsafe(value) {
        let c = if value.contains('\n') {
            '\n'
        } else if value.contains('\r') {
            '\r'
        } else if value.contains(',') {
            ','
        } else {
            '#'
        };
        let i = choose|i: int| 0 <= i < value.len() && value[i] == c;
        assert(value[i] == c);
    }
    if !is_plain(value) {
        let i = choose|i: int|
            0 <= i < value.len() && !(#[trigger] value[i] != ',' && value[i] != '\n' && value[i]
                != '\r' && value[i] != '#');
        assert(value.contains(value[i]));
    }
}

/// Setting a field that an enabled record has succeeds for every value whose characters are neither
/// comma nor line feed nor carriage return nor `#`; the value is then read back, trimmed, but for a
/// record of two fields whose mode becomes `disable`, which switches the monitor off. Any other
/// value, and any value for a field that the record lacks, is refused and leaves the file as it was.
pub proof fn plain_field_is_set(
    file: Seq<LineModel<Kind>>,
    name: Seq<char>,
    field: MonitorField,
    value: Seq<char>,
)
    requires
        sound_file(file),
    ensures
        ({
            let after = monitors::after_set_field(file, name, field, value);
            let has_field = monitors::record_of(file, name) matches Some(i)
                && monitors::enabled_of(file, name) == Some(true) && reading(file[i])->0.len()
                > field.place();
            &&& monitors::field_of(file, name, field) is Some <==> has_field
            &&& is_plain(value) && has_field ==> monitors::accepts_field(file, name, field, value)
                && (monitors::field_of(file, name, MonitorField::Position) is Some || text::trim(
                value,
            ) != "disable"@ ==> monitors::field_of(after, name, field) == Some(text::trim(value)))
            &&& !is_plain(value) || !has_field ==> !monitors::accepts_field(
                file,
                name,
                field,
                value,
            ) && after == file
        }),
{
    lemma_plain(value);
    lemma_record_of(file, name);
    if monitors::accepts_field(file, name, field, value) && (monitors::field_of(
        file,
        name,
        MonitorField::Position,
    ) is Some || text::trim(value) != "disable"@) {
        read_after_set_field(file, name, field, value, field, name);
    }
}

/// Whether every part of a state can be a field.
pub open spec fn says_plainly(state: MonitorState) -> bool {
    state matches MonitorState::Active { mode, position, scale } ==> is_plain(mode@) && is_plain(
        position@,
    ) && is_plain(scale@)
}

/// A record can be made to say any state whose parts hold neither comma nor line feed nor carriage
/// return nor `#`, and is added where the monitor has none and its name holds none of these either.
/// Otherwise the file stays as it was.
pub proof fn plain_state_is_set(file: Seq<LineModel<Kind>>, name: Seq<char>, state: MonitorState)
    ensures
        monitors::accepts_state(file, name, state) <==> says_plainly(state) && (
        monitors::enabled_of(file, name) is Some || is_plain(name)),
        !monitors::accepts_state(file, name, state) ==> monitors::after_set_state(file, name, state)
            == file,
{
    lemma_plain(name);
    if let MonitorState::Active { mode, position, scale } = state {
        lemma_plain(mode@);
        lemma_plain(position@);
        lemma_plain(scale@);
    }
}

} // verus!
