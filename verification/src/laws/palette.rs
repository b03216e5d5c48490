//! The laws of the palette format.

use crate::lines;
use crate::lines::LineModel;
use crate::parsers::assignment;
use crate::parsers::palette;
use crate::parsers::palette::Kind;
use crate::search;
use crate::text;
use vstd::prelude::*;

verus! {

/// Whether a line is what its text says: an entry's value lies behind the first `=` with nothing
/// but white space around it, and any other line is what it is taken for.
pub open spec fn sound(line: LineModel<Kind>) -> bool {
    let body = lines::body(line.raw);
    let eq = text::find_char(body, '=');
    &&& lines::is_line(line.raw)
    &&& match line.kind {
        Kind::Entry { key, value_start, value_end } => {
            &&& key == text::trim(body.take(eq))
            &&& palette::is_key(key)
            &&& eq < value_start <= value_end <= body.len()
            &&& text::spaces(body, eq + 1, value_start)
            &&& text::spaces(body, value_end, body.len() as int)
        },
        kind => kind == palette::classify(line.raw),
    }
}

/// Whether the lines are those of a file, and each is what its text says.
pub open spec fn sound_file(file: Seq<LineModel<Kind>>) -> bool {
    &&& lines::is_file(lines::raws(file))
    &&& forall|i: int| 0 <= i < file.len() ==> sound(#[trigger] file[i])
}

/// Whether the positions recorded for every line lie inside it.
pub open spec fn all_fit(file: Seq<LineModel<Kind>>) -> bool {
    forall|i: int| 0 <= i < file.len() ==> palette::spans_fit(#[trigger] file[i])
}

/// A line that is what its text says has its positions inside it.
pub proof fn sound_fits(file: Seq<LineModel<Kind>>)
    requires
        sound_file(file),
    ensures
        all_fit(file),
{
    assert forall|i: int| 0 <= i < file.len() implies palette::spans_fit(#[trigger] file[i]) by {
        assert(sound(file[i]));
        text::lemma_find_char(lines::body(file[i].raw), '=');
    }
}

/// A file that was only read is written back as it was.
pub proof fn round_trip(input: Seq<char>)
    ensures
        lines::emitted(palette::parsed(input)) == input,
{
    assert(lines::raws(palette::parsed(input)) =~= text::split_lines(input));
    text::lemma_join_split_lines(input);
}

proof fn lemma_classified_is_sound(raw: Seq<char>)
    requires
        lines::is_line(raw),
    ensures
        sound(palette::classified(raw)),
{
    let content = text::strip_terminator(raw);
    let body = lines::body(raw);
    lines::lemma_content_of_body(raw);
    if palette::classify(raw) is Entry {
        let eq = text::find_char(content, '=');
        text::lemma_find_char(content, '=');
        assert(body[eq] == '=' && body.take(eq) =~= content.take(eq));
        assert forall|i: int| 0 <= i < eq implies body[i] != '=' by {
            assert(body[i] == content[i]);
        }
        text::lemma_find_char_is(body, '=', eq);
        assignment::lemma_value_span(content, eq);
        let after = content.skip(eq + 1);
        text::lemma_trim_bounds(after);
        let start = assignment::value_start(content, eq);
        let end = assignment::value_end(content, eq);
        assert forall|i: int| eq + 1 <= i < start implies text::is_space(#[trigger] body[i]) by {
            assert(body[i] == content[i]);
        }
        assert forall|i: int| end <= i < body.len() implies text::is_space(#[trigger] body[i]) by {
            if i < content.len() {
                assert(body[i] == content[i]);
                assert(after[i - eq - 1] == content[i]);
            }
        }
    }
}

/// A file that was read is sound.
pub proof fn parsed_is_sound(input: Seq<char>)
    ensures
        sound_file(palette::parsed(input)),
{
    let file = palette::parsed(input);
    let raws = text::split_lines(input);
    lines::lemma_split_is_file(input);
    assert(lines::raws(file) =~= raws);
    assert forall|i: int| 0 <= i < file.len() implies sound(#[trigger] file[i]) by {
        assert(lines::is_line(raws[i]));
        lemma_classified_is_sound(raws[i]);
    }
}

/// Reading a sound line again gives the same line, with an entry's value trimmed.
proof fn lemma_reread_line(line: LineModel<Kind>)
    requires
        sound(line),
    ensures
        match line.kind {
            Kind::Entry { key, value_start, value_end } => {
                let again = palette::classified(line.raw);
                &&& again.kind is Entry
                &&& again.kind->Entry_key == key
                &&& palette::value_at(again) == text::trim(palette::value_at(line))
            },
            kind => palette::classify(line.raw) == kind,
        },
{
    if let Kind::Entry { key, value_start, value_end } = line.kind {
        let raw = line.raw;
        let content = text::strip_terminator(raw);
        let body = lines::body(raw);
        let eq = text::find_char(body, '=');
        lines::lemma_content_of_body(raw);
        text::lemma_find_char(body, '=');
        assert(body[eq] == '=');
        assert(eq < content.len());
        assert forall|i: int| 0 <= i < eq implies content[i] != '=' by {
            assert(body[i] == content[i]);
        }
        assert(content[eq] == body[eq]);
        text::lemma_find_char_is(content, '=', eq);
        let before = content.take(eq);
        assert(before =~= body.take(eq));
        text::lemma_trim_bounds(before);
        text::lemma_leading_space_take(content, eq);
        text::lemma_leading_space(content);
        let k = text::leading_space(content);
        assert(text::trim_start(content)[0] == content[k]);
        assert(key[0] == before[k]);
        assert(text::is_letter(key[0]) || text::is_digit(key[0]) || key[0] == '_');
        let after = content.skip(eq + 1);
        let behind = body.skip(eq + 1);
        if content.len() < body.len() {
            assert(behind =~= after.push('\r'));
            text::lemma_trim_return(after);
        } else {
            assert(behind =~= after);
        }
        let from = value_start - eq - 1;
        let to = value_end - eq - 1;
        assert forall|i: int| 0 <= i < from implies text::is_space(#[trigger] behind[i]) by {
            assert(behind[i] == body[i + eq + 1]);
        }
        assert forall|i: int| to <= i < behind.len() implies text::is_space(#[trigger] behind[i]) by {
            assert(behind[i] == body[i + eq + 1]);
        }
        text::lemma_trim_pad(behind, from, to);
        assert(behind.subrange(from, to) =~= palette::value_at(line));
        assignment::lemma_value_span(content, eq);
        let again = palette::classified(raw);
        assert(palette::value_at(again) =~= content.subrange(
            assignment::value_start(content, eq),
            assignment::value_end(content, eq),
        ));
    }
}

spec fn shape(kind: Kind) -> Kind {
    match kind {
        Kind::Entry { key, value_start, value_end } => Kind::Entry {
            key,
            value_start: 0,
            value_end: 0,
        },
        _ => kind,
    }
}

proof fn lemma_same_shape(a: Seq<LineModel<Kind>>, b: Seq<LineModel<Kind>>, key: Seq<char>)
    requires
        a.len() == b.len(),
        forall|i: int| 0 <= i < a.len() ==> shape((#[trigger] a[i]).kind) == shape(b[i].kind),
    ensures
        palette::entry_of(a, key) == palette::entry_of(b, key),
        palette::keys(a) == palette::keys(b),
{
    let p = palette::entries(a, key);
    let q = palette::entries(b, key);
    assert forall|i: int| 0 <= i < a.len() implies #[trigger] p(i) == q(i) by {
        assert(shape(a[i].kind) == shape(b[i].kind));
    }
    search::lemma_first_where_agrees(a.len() as int, p, q);
    lemma_same_keys(a, b, a.len() as int);
}

proof fn lemma_same_keys(a: Seq<LineModel<Kind>>, b: Seq<LineModel<Kind>>, n: int)
    requires
        n <= a.len(),
        n <= b.len(),
        forall|i: int| 0 <= i < n ==> shape((#[trigger] a[i]).kind) == shape(b[i].kind),
    ensures
        palette::keys_upto(a, n) == palette::keys_upto(b, n),
    decreases n,
{
    if n > 0 {
        lemma_same_keys(a, b, n - 1);
        assert(shape(a[n - 1].kind) == shape(b[n - 1].kind));
    }
}

proof fn lemma_found(file: Seq<LineModel<Kind>>, key: Seq<char>)
    ensures
        palette::entry_of(file, key) matches Some(i) ==> {
            &&& 0 <= i < file.len()
            &&& file[i].kind is Entry
            &&& file[i].kind->Entry_key == key
        },
{
    search::lemma_first_where(file.len() as int, palette::entries(file, key));
}

/// A file that is written and read again gives every value that it gave, trimmed.
pub proof fn reread(file: Seq<LineModel<Kind>>, key: Seq<char>)
    requires
        sound_file(file),
    ensures
        palette::value_of(palette::parsed(lines::emitted(file)), key) == match palette::value_of(
            file,
            key,
        ) {
            Some(value) => Some(text::trim(value)),
            None => None,
        },
{
    let again = palette::parsed(lines::emitted(file));
    lines::lemma_split_join(lines::raws(file));
    assert(again.len() == file.len());
    assert forall|i: int| 0 <= i < file.len() implies shape((#[trigger] file[i]).kind) == shape(
        again[i].kind,
    ) by {
        assert(lines::raws(file)[i] == file[i].raw);
        assert(again[i] == palette::classified(file[i].raw));
        lemma_reread_line(file[i]);
    }
    lemma_same_shape(file, again, key);
    lemma_found(file, key);
    if let Some(i) = palette::entry_of(file, key) {
        assert(lines::raws(file)[i] == file[i].raw);
        assert(again[i] == palette::classified(file[i].raw));
        lemma_reread_line(file[i]);
    }
}

proof fn lemma_edit_is_sound(line: LineModel<Kind>, value: Seq<char>)
    requires
        sound(line),
        line.kind is Entry,
        palette::is_color(value),
    ensures
        sound(palette::with_value(line, value)),
        text::ends_line(palette::with_value(line, value).raw) == text::ends_line(line.raw),
        palette::value_at(palette::with_value(line, value)) == value,
{
    let start = line.kind->Entry_value_start;
    let end = line.kind->Entry_value_end;
    let body = lines::body(line.raw);
    let eq = text::find_char(body, '=');
    text::lemma_find_char(body, '=');
    assert(!value.contains('\n')) by {
        assert forall|i: int| 0 <= i < value.len() implies value[i] != '\n' by {
            assert(text::is_hex_digit(value[i]));
        }
    }
    lines::lemma_line_splice(line.raw, start, end, value);
    let edited = palette::with_value(line, value);
    let after = lines::body(edited.raw);
    assert(after == text::splice(body, start, end, value));
    assert forall|i: int| 0 <= i < start implies after[i] == #[trigger] body[i] by {}
    text::lemma_find_char_is(after, '=', eq);
    assert(after.take(eq) =~= body.take(eq));
    assert forall|i: int| eq + 1 <= i < start implies text::is_space(#[trigger] after[i]) by {
        assert(after[i] == body[i]);
    }
    assert forall|i: int| start + value.len() <= i < after.len() implies text::is_space(
        #[trigger] after[i],
    ) by {
        assert(after[i] == body[i - start - value.len() + end]);
    }
    assert(palette::value_at(edited) =~= value);
}

/// Setting a value leaves a sound file sound.
pub proof fn set_keeps_sound(file: Seq<LineModel<Kind>>, key: Seq<char>, value: Seq<char>)
    requires
        sound_file(file),
    ensures
        sound_file(palette::after_set(file, key, value)),
{
    if palette::accepts(file, key, value) {
        let after = palette::after_set(file, key, value);
        lemma_found(file, key);
        let i = palette::entry_of(file, key)->0;
        let edited = palette::with_value(file[i], value);
        assert(sound(file[i]));
        lemma_edit_is_sound(file[i], value);
        assert(lines::raws(file)[i] == file[i].raw);
        lines::lemma_file_update(lines::raws(file), i, edited.raw);
        assert(lines::raws(after) =~= lines::raws(file).update(i, edited.raw));
        assert forall|j: int| 0 <= j < after.len() implies sound(#[trigger] after[j]) by {
            assert(sound(file[j]));
        }
    }
}

/// An edit replaces the characters of one value and leaves every other character of the file.
pub proof fn edit_replaces_one_value(
    file: Seq<LineModel<Kind>>,
    key: Seq<char>,
    value: Seq<char>,
)
    requires
        all_fit(file),
        palette::accepts(file, key, value),
    ensures
        exists|before: Seq<char>, after: Seq<char>| #![trigger before + value + after]
            {
                &&& lines::emitted(file) == before + palette::value_of(file, key)->0 + after
                &&& lines::emitted(palette::after_set(file, key, value)) == before + value + after
            },
{
    lemma_found(file, key);
    let i = palette::entry_of(file, key)->0;
    let start = file[i].kind->Entry_value_start;
    let end = file[i].kind->Entry_value_end;
    let edited = palette::with_value(file[i], value);
    assert(palette::spans_fit(file[i]));
    lines::lemma_emitted_splice(file, i, start, end, value, edited.kind);
    let before = lines::text_before(file, i, start);
    let after = lines::text_after(file, i, end);
    assert(lines::emitted(palette::after_set(file, key, value)) == before + value + after);
}

/// What was set is read back, no other value changes, and neither do the keys.
pub proof fn read_after_set(
    file: Seq<LineModel<Kind>>,
    key: Seq<char>,
    value: Seq<char>,
    other: Seq<char>,
)
    requires
        all_fit(file),
        palette::accepts(file, key, value),
    ensures
        palette::value_of(palette::after_set(file, key, value), key) == Some(value),
        other != key ==> palette::value_of(palette::after_set(file, key, value), other)
            == palette::value_of(file, other),
        palette::keys(palette::after_set(file, key, value)) == palette::keys(file),
{
    let after = palette::after_set(file, key, value);
    lemma_found(file, key);
    lemma_found(file, other);
    let i = palette::entry_of(file, key)->0;
    assert(palette::spans_fit(file[i]));
    assert forall|j: int| 0 <= j < file.len() implies shape((#[trigger] file[j]).kind) == shape(
        after[j].kind,
    ) by {}
    lemma_same_shape(file, after, key);
    lemma_same_shape(file, after, other);
    assert(palette::value_at(after[i]) =~= value);
}

/// What was set is read back from the file as it is written.
pub proof fn written_value_is_read_back(
    file: Seq<LineModel<Kind>>,
    key: Seq<char>,
    value: Seq<char>,
)
    requires
        sound_file(file),
        palette::accepts(file, key, value),
    ensures
        palette::value_of(
            palette::parsed(lines::emitted(palette::after_set(file, key, value))),
            key,
        ) == Some(value),
{
    sound_fits(file);
    set_keeps_sound(file, key, value);
    read_after_set(file, key, value, key);
    reread(palette::after_set(file, key, value), key);
    assert(text::is_hex_digit(value[0]) && text::is_hex_digit(value[5]));
    text::lemma_trim_is(value, 0, 6);
    assert(value.subrange(0, 6) =~= value);
}

/// Setting a value to what it is, where that is a color, leaves the file as it is.
pub proof fn setting_the_current_value_changes_nothing(
    file: Seq<LineModel<Kind>>,
    key: Seq<char>,
)
    requires
        all_fit(file),
        palette::value_of(file, key) is Some,
    ensures
        palette::after_set(file, key, palette::value_of(file, key)->0) == file,
{
    lemma_found(file, key);
    let i = palette::entry_of(file, key)->0;
    let line = file[i];
    assert(palette::spans_fit(line));
    let value = palette::value_at(line);
    assert(text::splice(
        line.raw,
        line.kind->Entry_value_start,
        line.kind->Entry_value_end,
        value,
    ) =~= line.raw);
    assert(palette::after_set(file, key, value) =~= file);
}

proof fn lemma_keep_empty(texts: Seq<Seq<char>>, p: spec_fn(Seq<char>) -> bool)
    ensures
        palette::keep(texts, p).len() == 0 <==> forall|i: int|
            0 <= i < texts.len() ==> !p(#[trigger] texts[i]),
    decreases texts.len(),
{
    if texts.len() > 0 {
        let rest = texts.drop_last();
        lemma_keep_empty(rest, p);
        if palette::keep(texts, p).len() == 0 {
            assert forall|i: int| 0 <= i < texts.len() implies !p(#[trigger] texts[i]) by {
                if i < rest.len() {
                    assert(rest[i] == texts[i]);
                }
            }
        } else if !p(texts.last()) {
            let i = choose|i: int| 0 <= i < rest.len() && p(#[trigger] rest[i]);
            assert(p(texts[i]));
        } else {
            assert(p(texts[texts.len() - 1]));
        }
    }
}

pub proof fn lemma_distinct_contains(texts: Seq<Seq<char>>, s: Seq<char>)
    ensures
        palette::distinct(texts).contains(s) <==> texts.contains(s),
    decreases texts.len(),
{
    if texts.len() > 0 {
        let rest = texts.drop_last();
        let before = palette::distinct(rest);
        lemma_distinct_contains(rest, s);
        if texts.contains(s) {
            let i = choose|i: int| 0 <= i < texts.len() && texts[i] == s;
            if i < rest.len() {
                assert(rest[i] == s);
            }
        }
        if rest.contains(s) {
            let i = choose|i: int| 0 <= i < rest.len() && rest[i] == s;
            assert(texts[i] == s);
        }
        if !before.contains(texts.last()) {
            let all = palette::distinct(texts);
            assert(all == before.push(texts.last()));
            if before.contains(s) {
                let i = choose|i: int| 0 <= i < before.len() && before[i] == s;
                assert(all[i] == s);
            }
            if all.contains(s) {
                let i = choose|i: int| 0 <= i < all.len() && all[i] == s;
                if i < before.len() {
                    assert(before[i] == s);
                } else {
                    assert(texts[texts.len() - 1] == s);
                }
            }
            if s == texts.last() {
                assert(all[before.len() as int] == s);
                assert(texts[texts.len() - 1] == s);
            }
        } else if s == texts.last() {
            assert(texts[texts.len() - 1] == s);
        }
    } else {
        assert(!texts.contains(s));
        assert(!palette::distinct(texts).contains(s));
    }
}

pub proof fn lemma_times(texts: Seq<Seq<char>>, s: Seq<char>)
    ensures
        0 <= text::times(texts, s),
        text::times(texts, s) > 0 <==> texts.contains(s),
    decreases texts.len(),
{
    if texts.len() > 0 {
        let rest = texts.drop_last();
        lemma_times(rest, s);
        if texts.contains(s) {
            let i = choose|i: int| 0 <= i < texts.len() && texts[i] == s;
            if i < rest.len() {
                assert(rest[i] == s);
            }
        }
        if rest.contains(s) {
            let i = choose|i: int| 0 <= i < rest.len() && rest[i] == s;
            assert(texts[i] == s);
        }
        if texts.last() == s {
            assert(texts[texts.len() - 1] == s);
        }
    }
}

/// Keys are those of a scheme exactly where each palette key stands among them once and no other
/// key does.
pub proof fn valid_means_each_key_once(keys: Seq<Seq<char>>)
    ensures
        palette::validation_of(keys).is_valid() <==> {
            &&& forall|key: Seq<char>| #[trigger]
                palette::schema().contains(key) ==> text::times(keys, key) == 1
            &&& forall|key: Seq<char>| #[trigger]
                keys.contains(key) ==> palette::schema().contains(key)
        },
{
    let firsts = palette::distinct(keys);
    let schema = palette::schema();
    lemma_keep_empty(firsts, palette::foreign());
    lemma_keep_empty(firsts, palette::repeated(keys));
    lemma_keep_empty(schema, palette::absent(keys));
    if palette::validation_of(keys).is_valid() {
        assert forall|key: Seq<char>| #[trigger] schema.contains(key) implies text::times(keys, key)
            == 1 by {
            let j = choose|j: int| 0 <= j < schema.len() && schema[j] == key;
            assert(!palette::absent(keys)(schema[j]));
            lemma_times(keys, key);
            lemma_distinct_contains(keys, key);
            let i = choose|i: int| 0 <= i < firsts.len() && firsts[i] == key;
            assert(!palette::repeated(keys)(firsts[i]));
        }
        assert forall|key: Seq<char>| #[trigger] keys.contains(key) implies schema.contains(key) by {
            lemma_distinct_contains(keys, key);
            let i = choose|i: int| 0 <= i < firsts.len() && firsts[i] == key;
            assert(!palette::foreign()(firsts[i]));
        }
    }
    if (forall|key: Seq<char>| #[trigger] schema.contains(key) ==> text::times(keys, key) == 1) && (
    forall|key: Seq<char>| #[trigger] keys.contains(key) ==> schema.contains(key)) {
        assert forall|i: int| 0 <= i < firsts.len() implies !palette::foreign()(#[trigger] firsts[i])
            && !palette::repeated(keys)(firsts[i]) by {
            let key = firsts[i];
            assert(firsts.contains(key));
            lemma_distinct_contains(keys, key);
            assert(schema.contains(key));
        }
        assert forall|j: int| 0 <= j < schema.len() implies !palette::absent(keys)(
            #[trigger] schema[j],
        ) by {
            assert(schema.contains(schema[j]));
            lemma_times(keys, schema[j]);
        }
    }
}

} // verus!
