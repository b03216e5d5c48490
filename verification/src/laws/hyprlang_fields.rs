//! The laws of repeatable hyprlang keys.

use crate::laws::hyprlang as file_laws;
use crate::lines;
use crate::lines::LineModel;
use crate::parsers::hyprlang;
use crate::parsers::hyprlang::Kind;
use crate::search;
use crate::text;
use vstd::prelude::*;

verus! {

/// Where the comma and the portion of a value stand.
proof fn lemma_portion(value: Seq<char>)
    requires
        value.contains(','),
    ensures
        ({
            let comma = text::find_char(value, ',');
            let start = hyprlang::portion_start(value);
            &&& 0 <= comma < start <= value.len()
            &&& value[comma] == ','
            &&& forall|i: int| 0 <= i < comma ==> #[trigger] value[i] != ','
            &&& text::spaces(value, comma + 1, start)
            &&& start < value.len() ==> !text::is_space(value[start])
        }),
{
    text::lemma_find_char(value, ',');
    let comma = text::find_char(value, ',');
    let at = choose|i: int| 0 <= i < value.len() && value[i] == ',';
    assert(comma <= at);
    let after = value.skip(comma + 1);
    text::lemma_leading_space(after);
    let start = hyprlang::portion_start(value);
    assert forall|i: int| comma + 1 <= i < start implies text::is_space(#[trigger] value[i]) by {
        assert(after[i - comma - 1] == value[i]);
    }
    if start < value.len() {
        assert(after[start - comma - 1] == value[start]);
    }
}

/// A value with another portion has the field that it had, and that portion.
proof fn lemma_new_portion(old_value: Seq<char>, portion: Seq<char>)
    requires
        old_value.contains(','),
    ensures
        ({
            let value = old_value.take(hyprlang::portion_start(old_value)) + portion;
            &&& value.contains(',')
            &&& hyprlang::first_field(value) == hyprlang::first_field(old_value)
            &&& hyprlang::portion_of(value) == Some(text::trim_start(portion))
        }),
{
    lemma_portion(old_value);
    let comma = text::find_char(old_value, ',');
    let start = hyprlang::portion_start(old_value);
    let value = old_value.take(start) + portion;
    assert(value[comma] == ',');
    assert forall|i: int| 0 <= i < comma implies value[i] != ',' by {
        assert(value[i] == old_value[i]);
    }
    text::lemma_find_char_is(value, ',', comma);
    assert(value.take(comma) =~= old_value.take(comma));
    lemma_portion(value);
    text::lemma_leading_space(portion);
    let skipped = text::leading_space(portion);
    let found = hyprlang::portion_start(value);
    if found < start {
        assert(value[found] == old_value[found]);
    }
    if start + skipped < found {
        assert(value[start + skipped] == portion[skipped]);
    }
    if start <= found < start + skipped {
        assert(value[found] == portion[found - start]);
    }
    assert(found == start + skipped);
    assert(value.skip(found) =~= text::trim_start(portion));
}

/// Trimming a value changes neither its first field nor, but for its end, its portion.
proof fn lemma_trimmed_portion(value: Seq<char>)
    ensures
        hyprlang::first_field(text::trim(value)) == hyprlang::first_field(value),
        hyprlang::portion_of(text::trim(value)) == match hyprlang::portion_of(value) {
            Some(portion) => Some(text::trim(portion)),
            None => None,
        },
{
    let token = text::trim(value);
    text::lemma_trim_bounds(value);
    let from = text::leading_space(value);
    let to = from + token.len();
    if value.contains(',') {
        lemma_portion(value);
        let comma = text::find_char(value, ',');
        text::lemma_trim_keeps(value, comma);
        assert(token[comma - from] == ',');
        assert forall|i: int| 0 <= i < comma - from implies token[i] != ',' by {
            assert(token[i] == value[i + from]);
        }
        text::lemma_find_char_is(token, ',', comma - from);
        lemma_portion(token);
        let before = value.take(comma);
        assert forall|i: int| 0 <= i < from implies text::is_space(#[trigger] before[i]) by {
            assert(before[i] == value[i]);
        }
        text::lemma_trim_pad(before, from, comma);
        assert(before.subrange(from, comma) =~= token.take(comma - from));
        let start = hyprlang::portion_start(value);
        let found = hyprlang::portion_start(token) + from;
        let portion = value.skip(start);
        if start < to {
            if found < start {
                assert(token[found - from] == value[found]);
            }
            if start < found {
                assert(token[start - from] == value[start]);
            }
            assert(found == start);
            assert forall|i: int| to - start <= i < portion.len() implies text::is_space(
                #[trigger] portion[i],
            ) by {
                assert(portion[i] == value[i + start]);
            }
            assert(portion[0] == value[start]);
            assert(portion[to - start - 1] == value[to - 1]);
            text::lemma_trim_is(portion, 0, to - start);
            assert(portion.subrange(0, to - start) =~= token.skip(found - from));
        } else {
            if start < value.len() {
                assert(text::is_space(value[start]));
            }
            assert(found == to) by {
                if found < to {
                    assert(token[found - from] == value[found]);
                }
            }
            text::lemma_trim_is(portion, 0, 0);
            assert(portion.subrange(0, 0) =~= token.skip(found - from));
        }
    } else {
        assert(!token.contains(',')) by {
            assert forall|i: int| 0 <= i < token.len() implies token[i] != ',' by {
                assert(token[i] == value[i + from]);
                assert(value.contains(value[i + from]));
            }
        }
        assert forall|i: int| 0 <= i < value.len() implies value[i] != ',' by {
            assert(value.contains(value[i]));
        }
        assert forall|i: int| 0 <= i < token.len() implies token[i] != ',' by {
            assert(token.contains(token[i]));
        }
        text::lemma_find_char_is(value, ',', value.len() as int);
        text::lemma_find_char_is(token, ',', token.len() as int);
        assert(value.take(value.len() as int) =~= value);
        assert(token.take(token.len() as int) =~= token);
        text::lemma_trim_twice(value);
    }
}

/// Files with the same outline and, on every assignment, the same first field have their
/// repeatable keys on the same lines.
proof fn lemma_same_repeated(
    a: Seq<LineModel<Kind>>,
    b: Seq<LineModel<Kind>>,
    key: Seq<char>,
    field: Seq<char>,
)
    requires
        file_laws::outline(a) == file_laws::outline(b),
        forall|i: int|
            0 <= i < a.len() && (#[trigger] a[i]).kind is Entry ==> hyprlang::first_field(
                hyprlang::value_at(a[i]),
            ) == hyprlang::first_field(hyprlang::value_at(b[i])),
    ensures
        hyprlang::repeated_at(a, key, field) == hyprlang::repeated_at(b, key, field),
{
    let p = hyprlang::repeated(a, key, field);
    let q = hyprlang::repeated(b, key, field);
    let n = a.len() as int;
    assert(file_laws::outline(a).len() == a.len());
    assert(file_laws::outline(b).len() == b.len());
    assert forall|i: int| 0 <= i < n implies #[trigger] p(i) == q(i) by {
        file_laws::lemma_prefix_of_outline(a, b, i);
        assert(file_laws::outline(a)[i] == file_laws::shape(a[i].kind));
        assert(file_laws::outline(b)[i] == file_laws::shape(b[i].kind));
    }
    search::lemma_first_where_agrees(n, p, q);
}

proof fn lemma_repeated_at(file: Seq<LineModel<Kind>>, key: Seq<char>, field: Seq<char>)
    ensures
        hyprlang::repeated_at(file, key, field) matches Some(i) ==> {
            &&& 0 <= i < file.len()
            &&& file[i].kind is Entry
            &&& hyprlang::repeated(file, key, field)(i)
        },
{
    search::lemma_first_where(file.len() as int, hyprlang::repeated(file, key, field));
}

/// An edit of a portion replaces its characters and leaves every other character of the file.
pub proof fn field_edit_replaces_one_portion(
    file: Seq<LineModel<Kind>>,
    key: Seq<char>,
    field: Seq<char>,
    value: Seq<char>,
)
    requires
        file_laws::all_fit(file),
        hyprlang::accepts_field(file, key, field, value),
    ensures
        hyprlang::field_of(file, key, field) is Some,
        exists|before: Seq<char>, after: Seq<char>| #![trigger before + value + after]
            {
                &&& lines::emitted(file) == before + hyprlang::field_of(file, key, field)->0 + after
                &&& lines::emitted(hyprlang::after_set_field(file, key, field, value)) == before
                    + value + after
            },
{
    lemma_repeated_at(file, key, field);
    let i = hyprlang::repeated_at(file, key, field)->0;
    assert(hyprlang::spans_fit(file[i]));
    let current = hyprlang::value_at(file[i]);
    lemma_portion(current);
    let from = file[i].kind->value_start + hyprlang::portion_start(current);
    let end = file[i].kind->value_end;
    let edited = hyprlang::with_value(file[i], from, value);
    lines::lemma_emitted_splice(file, i, from, end, value, edited.kind);
    assert(file[i].raw.subrange(from, end) =~= hyprlang::field_of(file, key, field)->0);
    let before = lines::text_before(file, i, from);
    let after = lines::text_after(file, i, end);
    assert(lines::emitted(hyprlang::after_set_field(file, key, field, value)) == before + value
        + after);
}

/// The portion that was set is read back, without the white space before it, and that of no other
/// field or key changes.
pub proof fn read_after_set_field(
    file: Seq<LineModel<Kind>>,
    key: Seq<char>,
    field: Seq<char>,
    value: Seq<char>,
    other_key: Seq<char>,
    other_field: Seq<char>,
)
    requires
        file_laws::all_fit(file),
        hyprlang::accepts_field(file, key, field, value),
    ensures
        ({
            let after = hyprlang::after_set_field(file, key, field, value);
            &&& hyprlang::field_of(after, key, field) == Some(text::trim_start(value))
            &&& other_key != key || other_field != field ==> hyprlang::field_of(
                after,
                other_key,
                other_field,
            ) == hyprlang::field_of(file, other_key, other_field)
        }),
{
    let after = hyprlang::after_set_field(file, key, field, value);
    lemma_repeated_at(file, key, field);
    lemma_repeated_at(file, other_key, other_field);
    let i = hyprlang::repeated_at(file, key, field)->0;
    assert(hyprlang::spans_fit(file[i]));
    let current = hyprlang::value_at(file[i]);
    lemma_portion(current);
    lemma_new_portion(current, value);
    let start = hyprlang::portion_start(current);
    assert(hyprlang::value_at(after[i]) =~= current.take(start) + value);
    assert(file_laws::outline(after) =~= file_laws::outline(file));
    assert forall|j: int| 0 <= j < file.len() && (#[trigger] file[j]).kind is Entry implies
        hyprlang::first_field(hyprlang::value_at(file[j])) == hyprlang::first_field(
        hyprlang::value_at(after[j]),
    ) by {}
    lemma_same_repeated(file, after, key, field);
    lemma_same_repeated(file, after, other_key, other_field);
}

/// Setting a portion leaves every repeatable key and field on its line.
pub proof fn set_field_keeps_places(
    file: Seq<LineModel<Kind>>,
    key: Seq<char>,
    field: Seq<char>,
    value: Seq<char>,
    other_key: Seq<char>,
    other_field: Seq<char>,
)
    requires
        file_laws::all_fit(file),
    ensures
        hyprlang::repeated_at(
            hyprlang::after_set_field(file, key, field, value),
            other_key,
            other_field,
        ) == hyprlang::repeated_at(file, other_key, other_field),
{
    if hyprlang::accepts_field(file, key, field, value) {
        let after = hyprlang::after_set_field(file, key, field, value);
        lemma_repeated_at(file, key, field);
        let i = hyprlang::repeated_at(file, key, field)->0;
        assert(hyprlang::spans_fit(file[i]));
        let current = hyprlang::value_at(file[i]);
        lemma_portion(current);
        lemma_new_portion(current, value);
        assert(hyprlang::value_at(after[i]) =~= current.take(hyprlang::portion_start(current))
            + value);
        assert(file_laws::outline(after) =~= file_laws::outline(file));
        lemma_same_repeated(file, after, other_key, other_field);
    }
}

/// Setting a portion to what it is leaves the file as it is.
pub proof fn setting_the_current_portion_changes_nothing(
    file: Seq<LineModel<Kind>>,
    key: Seq<char>,
    field: Seq<char>,
)
    requires
        file_laws::all_fit(file),
        hyprlang::field_of(file, key, field) is Some,
    ensures
        hyprlang::after_set_field(file, key, field, hyprlang::field_of(file, key, field)->0)
            == file,
{
    lemma_repeated_at(file, key, field);
    let i = hyprlang::repeated_at(file, key, field)->0;
    let line = file[i];
    assert(hyprlang::spans_fit(line));
    let current = hyprlang::value_at(line);
    lemma_portion(current);
    let portion = hyprlang::field_of(file, key, field)->0;
    let from = line.kind->value_start + hyprlang::portion_start(current);
    assert(text::splice(line.raw, from, line.kind->value_end, portion) =~= line.raw);
    assert(hyprlang::after_set_field(file, key, field, portion) =~= file);
}

/// Setting a portion leaves a sound file sound.
pub proof fn set_field_keeps_sound(
    file: Seq<LineModel<Kind>>,
    key: Seq<char>,
    field: Seq<char>,
    value: Seq<char>,
)
    requires
        file_laws::sound_file(file),
    ensures
        file_laws::sound_file(hyprlang::after_set_field(file, key, field, value)),
{
    if hyprlang::accepts_field(file, key, field, value) {
        lemma_repeated_at(file, key, field);
        let i = hyprlang::repeated_at(file, key, field)->0;
        file_laws::sound_fits(file);
        assert(hyprlang::spans_fit(file[i]));
        let current = hyprlang::value_at(file[i]);
        lemma_portion(current);
        let from = file[i].kind->value_start + hyprlang::portion_start(current);
        file_laws::lemma_update_is_sound(file, i, from, value);
    }
}

/// A file that is written and read again gives every portion that it gave, trimmed.
pub proof fn reread_field(file: Seq<LineModel<Kind>>, key: Seq<char>, field: Seq<char>)
    requires
        file_laws::sound_file(file),
    ensures
        hyprlang::field_of(hyprlang::parsed(lines::emitted(file)), key, field)
            == match hyprlang::field_of(file, key, field) {
            Some(portion) => Some(text::trim(portion)),
            None => None,
        },
{
    let again = hyprlang::parsed(lines::emitted(file));
    file_laws::lemma_reread_outline(file);
    assert forall|i: int| 0 <= i < file.len() && (#[trigger] file[i]).kind is Entry implies
        hyprlang::first_field(hyprlang::value_at(file[i])) == hyprlang::first_field(
        hyprlang::value_at(again[i]),
    ) by {
        assert(file_laws::sound(file[i]));
        file_laws::lemma_reread_line(file[i]);
        lemma_trimmed_portion(hyprlang::value_at(file[i]));
    }
    lemma_same_repeated(file, again, key, field);
    lemma_repeated_at(file, key, field);
    if let Some(i) = hyprlang::repeated_at(file, key, field) {
        assert(file_laws::sound(file[i]));
        file_laws::lemma_reread_line(file[i]);
        lemma_trimmed_portion(hyprlang::value_at(file[i]));
    }
}

/// The portion that was set is read back from the file as it is written, trimmed.
pub proof fn written_field_is_read_back(
    file: Seq<LineModel<Kind>>,
    key: Seq<char>,
    field: Seq<char>,
    value: Seq<char>,
)
    requires
        file_laws::sound_file(file),
        hyprlang::accepts_field(file, key, field, value),
    ensures
        hyprlang::field_of(
            hyprlang::parsed(lines::emitted(hyprlang::after_set_field(file, key, field, value))),
            key,
            field,
        ) == Some(text::trim(value)),
{
    file_laws::sound_fits(file);
    set_field_keeps_sound(file, key, field, value);
    read_after_set_field(file, key, field, value, key, field);
    reread_field(hyprlang::after_set_field(file, key, field, value), key, field);
    text::lemma_trim_start(value);
}

/// Whether a text holds a comma.
pub open spec fn has_comma(value: Seq<char>) -> bool {
    exists|i: int| 0 <= i < value.len() && #[trigger] value[i] == ','
}

/// The portion after the first field of a repeatable key can be set wherever the key stands with
/// that field and a comma, to any value whose characters are neither line feed nor carriage return
/// nor `#`; it is then read back, without the white space before it. Otherwise the file stays as it
/// was.
pub proof fn plain_portion_is_set(
    file: Seq<LineModel<Kind>>,
    key: Seq<char>,
    field: Seq<char>,
    value: Seq<char>,
)
    requires
        file_laws::all_fit(file),
    ensures
        ({
            let after = hyprlang::after_set_field(file, key, field, value);
            let place = hyprlang::repeated_at(file, key, field);
            let found = place matches Some(i) && has_comma(hyprlang::value_at(file[i]));
            &&& hyprlang::field_of(file, key, field) is Some <==> found
            &&& file_laws::is_plain(value) && found ==> hyprlang::accepts_field(
                file,
                key,
                field,
                value,
            ) && hyprlang::field_of(after, key, field) == Some(text::trim_start(value))
            &&& !file_laws::is_plain(value) || !found ==> !hyprlang::accepts_field(
                file,
                key,
                field,
                value,
            ) && after == file
        }),
{
    file_laws::lemma_plain(value);
    if let Some(i) = hyprlang::repeated_at(file, key, field) {
        let current = hyprlang::value_at(file[i]);
        if current.contains(',') {
            let k = choose|k: int| 0 <= k < current.len() && current[k] == ',';
            assert(current[k] == ',');
        }
    }
    if hyprlang::accepts_field(file, key, field, value) {
        read_after_set_field(file, key, field, value, key, field);
    }
}

} // verus!
