//! The laws of what a line of a palette source is taken for, and of what a file says.

use crate::laws::palette as palette_laws;
use crate::laws::text as text_laws;
use crate::lines::LineModel;
use crate::parsers::palette;
use crate::parsers::palette::{Kind, Warning, WarningKind};
use crate::search;
use crate::text;
use vstd::prelude::*;

verus! {

/// Whether a text can be a palette key: it is not empty, and its characters are letters, digits and
/// underscores.
pub open spec fn is_name(key: Seq<char>) -> bool {
    key.len() > 0 && forall|i: int|
        0 <= i < key.len()
            ==> "ABCDEFGHIJKLMNOPQRSTUVWXYZabcdefghijklmnopqrstuvwxyz0123456789_"@.contains(
            #[trigger] key[i],
        )
}

/// What can be a palette key is a matter of the characters alone.
pub proof fn keys_are_words(key: Seq<char>)
    ensures
        palette::is_key(key) <==> is_name(key),
{
    assert forall|i: int| 0 <= i < key.len() implies (text::is_letter(#[trigger] key[i])
        || text::is_digit(key[i]) || key[i] == '_')
        == "ABCDEFGHIJKLMNOPQRSTUVWXYZabcdefghijklmnopqrstuvwxyz0123456789_"@.contains(key[i]) by {
        text_laws::lemma_word_char(key[i]);
    }
}

/// Whether a value is a color: six hexadecimal digits.
pub open spec fn is_six_digits(value: Seq<char>) -> bool {
    value.len() == 6 && forall|i: int|
        0 <= i < value.len() ==> "0123456789abcdefABCDEF"@.contains(#[trigger] value[i])
}

/// What is a color is a matter of the characters alone.
pub proof fn colors_are_six_digits(value: Seq<char>)
    ensures
        palette::is_color(value) <==> is_six_digits(value),
{
    assert forall|i: int| 0 <= i < value.len() implies text::is_hex_digit(#[trigger] value[i])
        == "0123456789abcdefABCDEF"@.contains(value[i]) by {
        text_laws::hexadecimal_digits_are_listed(value[i]);
    }
}

/// A line of a key, `=` and a value, with any white space around them, is an entry that gives the
/// key the value.
pub proof fn entry_line_is_read(
    before: Seq<char>,
    key: Seq<char>,
    between: Seq<char>,
    gap: Seq<char>,
    value: Seq<char>,
    tail: Seq<char>,
    end: Seq<char>,
)
    requires
        text_laws::is_gap(before),
        is_name(key),
        text_laws::is_gap(between),
        text_laws::is_gap(gap),
        text_laws::is_one_line(value),
        text_laws::is_tight(value),
        text_laws::is_gap(tail),
        text_laws::is_ending(end),
    ensures
        ({
            let line = palette::classified(
                before + key + between + seq!['='] + gap + value + tail + end,
            );
            &&& line.kind is Entry
            &&& line.kind->key == key
            &&& palette::value_at(line) == value
        }),
{
    let head = before + key + between;
    let content = head + seq!['='] + gap + value + tail;
    let raw = content + end;
    text_laws::lemma_one_line_add(before, key);
    text_laws::lemma_one_line_add(before + key, between);
    text_laws::lemma_one_line_add(head, seq!['=']);
    text_laws::lemma_one_line_add(head + seq!['='], gap);
    text_laws::lemma_one_line_add(head + seq!['='] + gap, value);
    text_laws::lemma_one_line_add(head + seq!['='] + gap + value, tail);
    assert forall|i: int| 0 <= i < key.len() implies #[trigger] key[i] != '\n' && key[i] != '\r'
        && key[i] != '=' && key[i] != '#' && !text_laws::blanks().contains(key[i]) by {
        text_laws::lemma_word_char(key[i]);
        if text_laws::blanks().contains(key[i]) {
            text_laws::lemma_blank_char(key[i]);
        }
    }
    assert(text_laws::is_one_line(key));
    text_laws::lemma_content(content, end);
    assert forall|i: int| 0 <= i < head.len() implies head[i] != '=' by {
        if i < before.len() {
            assert(head[i] == before[i]);
            text_laws::lemma_blank_char(before[i]);
        } else if i < before.len() + key.len() {
            assert(head[i] == key[i - before.len()]);
        } else {
            assert(head[i] == between[i - before.len() - key.len()]);
            text_laws::lemma_blank_char(between[i - before.len() - key.len()]);
        }
    }
    text_laws::lemma_value(head, gap, value, tail);
    text_laws::trimming_takes_white_space_away(before, key, between);
    let body = key + between + seq!['='] + gap + value + tail;
    assert(content =~= before + body);
    assert(body[0] == key[0]);
    text_laws::lemma_body(before, body);
    keys_are_words(key);
    let line = palette::classified(raw);
    assert(palette::value_at(line) =~= content.subrange(
        line.kind->value_start,
        line.kind->value_end,
    ));
}

/// A line of white space alone is blank, and one that begins with `#`, white space aside, is a
/// comment, whatever follows.
pub proof fn blank_and_comment_lines(before: Seq<char>, rest: Seq<char>, end: Seq<char>)
    requires
        text_laws::is_gap(before),
        text_laws::is_one_line(rest),
        text_laws::is_ending(end),
    ensures
        palette::classify(before + end) is Blank,
        palette::classify(before + seq!['#'] + rest + end) is Comment,
{
    text_laws::lemma_content(before, end);
    text_laws::lemma_body(before, Seq::empty());
    assert(before + Seq::<char>::empty() =~= before);
    let body = seq!['#'] + rest;
    text_laws::lemma_one_line_add(before, seq!['#']);
    text_laws::lemma_one_line_add(before + seq!['#'], rest);
    text_laws::lemma_content(before + seq!['#'] + rest, end);
    assert(before + seq!['#'] + rest =~= before + body);
    text_laws::white_space_is_listed('#');
    text_laws::lemma_body(before, body);
}

/// A line that is neither blank nor a comment is malformed where it has no `=`, and where what
/// stands before its first `=` is no key.
pub proof fn other_lines_are_malformed(
    before: Seq<char>,
    key: Seq<char>,
    between: Seq<char>,
    rest: Seq<char>,
    end: Seq<char>,
)
    requires
        text_laws::is_gap(before),
        text_laws::is_one_line(key),
        text_laws::is_tight(key),
        key.len() > 0 ==> key[0] != '#',
        !key.contains('='),
        text_laws::is_gap(between),
        text_laws::is_one_line(rest),
        text_laws::is_ending(end),
    ensures
        key.len() > 0 ==> palette::classify(before + key + between + end) is Malformed,
        !is_name(key) ==> palette::classify(before + key + between + seq!['='] + rest + end)
            is Malformed,
{
    let head = before + key + between;
    text_laws::lemma_one_line_add(before, key);
    text_laws::lemma_one_line_add(before + key, between);
    assert forall|i: int| 0 <= i < head.len() implies head[i] != '=' by {
        if i < before.len() {
            assert(head[i] == before[i]);
            text_laws::lemma_blank_char(before[i]);
        } else if i < before.len() + key.len() {
            assert(head[i] == key[i - before.len()]);
            assert(key.contains(key[i - before.len()]));
        } else {
            assert(head[i] == between[i - before.len() - key.len()]);
            text_laws::lemma_blank_char(between[i - before.len() - key.len()]);
        }
    }
    text_laws::lemma_content(head, end);
    text::lemma_find_char_is(head, '=', head.len() as int);
    assert(head =~= before + (key + between));
    text_laws::lemma_body(before, key + between);
    let content = head + seq!['='] + rest;
    text_laws::lemma_one_line_add(head, seq!['=']);
    text_laws::lemma_one_line_add(head + seq!['='], rest);
    text_laws::lemma_content(content, end);
    assert forall|i: int| 0 <= i < head.len() implies content[i] != '=' by {
        assert(content[i] == head[i]);
    }
    assert(content[head.len() as int] == '=');
    text::lemma_find_char_is(content, '=', head.len() as int);
    assert(content.take(head.len() as int) =~= head);
    text_laws::trimming_takes_white_space_away(before, key, between);
    keys_are_words(key);
    if key.len() > 0 {
        let body = key + between + seq!['='] + rest;
        assert(content =~= before + body);
        assert(body[0] == key[0]);
        assert((key + between)[0] == key[0]);
        text_laws::lemma_body(before, body);
    } else {
        text_laws::lemma_blank_add(before, between);
        let body = seq!['='] + rest;
        assert(content =~= (before + between) + body);
        text_laws::white_space_is_listed('=');
        text_laws::lemma_body(before + between, body);
    }
}

/// The value of a key is that of the first entry for it, and there is none where no entry is.
pub proof fn first_entry_counts(file: Seq<LineModel<Kind>>, key: Seq<char>)
    ensures
        palette::value_of(file, key) is None <==> forall|i: int|
            0 <= i < file.len() ==> !((#[trigger] file[i]).kind is Entry && file[i].kind->key == key),
        forall|i: int|
            0 <= i < file.len() && (#[trigger] file[i]).kind is Entry && file[i].kind->key == key && (
            forall|j: int|
                0 <= j < i ==> !((#[trigger] file[j]).kind is Entry && file[j].kind->key == key))
                ==> palette::value_of(file, key) == Some(palette::value_at(file[i])),
{
    let p = palette::entries(file, key);
    search::lemma_first_where(file.len() as int, p);
    assert forall|i: int|
        0 <= i < file.len() && (#[trigger] file[i]).kind is Entry && file[i].kind->key == key && (
        forall|j: int|
            0 <= j < i ==> !((#[trigger] file[j]).kind is Entry && file[j].kind->key == key)) implies
        palette::value_of(file, key) == Some(palette::value_at(file[i])) by {
        assert forall|j: int| 0 <= j < i implies !#[trigger] p(j) by {
            assert(!(file[j].kind is Entry && file[j].kind->key == key));
        }
        assert(p(i));
        search::lemma_first_where_is(file.len() as int, p, i);
    }
    if palette::value_of(file, key) is None {
        assert forall|i: int| 0 <= i < file.len() implies !((#[trigger] file[i]).kind is Entry
            && file[i].kind->key == key) by {
            assert(!p(i));
        }
    } else {
        let i = palette::entry_of(file, key)->0;
        assert(p(i));
    }
}

/// A key that a file has an entry for can be given every color and nothing else, and the color is
/// read back. Otherwise the file stays as it was.
pub proof fn color_is_set(file: Seq<LineModel<Kind>>, key: Seq<char>, value: Seq<char>)
    requires
        palette_laws::all_fit(file),
    ensures
        palette::accepts(file, key, value) <==> is_six_digits(value) && palette::value_of(
            file,
            key,
        ) is Some,
        palette::accepts(file, key, value) ==> palette::value_of(
            palette::after_set(file, key, value),
            key,
        ) == Some(value),
        !palette::accepts(file, key, value) ==> palette::after_set(file, key, value) == file,
{
    colors_are_six_digits(value);
    if palette::accepts(file, key, value) {
        palette_laws::read_after_set(file, key, value, key);
    }
}

/// Whether something is wrong with line `i`: it is malformed, or it gives a key what is no color.
pub open spec fn is_wrong(file: Seq<LineModel<Kind>>, i: int) -> bool {
    file[i].kind is Malformed || (file[i].kind is Entry && !is_six_digits(
        palette::value_at(file[i]),
    ))
}

/// What is said of a line that something is wrong with.
pub open spec fn complaint(file: Seq<LineModel<Kind>>, i: int) -> Warning {
    Warning {
        line: i + 1,
        kind: if file[i].kind is Malformed {
            WarningKind::MalformedLine
        } else {
            WarningKind::InvalidHexValue {
                key: file[i].kind->key,
                value: palette::value_at(file[i]),
            }
        },
    }
}

/// A file warns of every line that something is wrong with, and of no other, in the order of the
/// lines.
pub proof fn wrong_lines_are_warned_of(file: Seq<LineModel<Kind>>)
    ensures
        forall|i: int|
            0 <= i < file.len() && #[trigger] is_wrong(file, i) ==> palette::warnings(
                file,
            ).contains(complaint(file, i)),
        forall|k: int|
            0 <= k < palette::warnings(file).len() ==> {
                let i = (#[trigger] palette::warnings(file)[k]).line - 1;
                &&& 0 <= i < file.len()
                &&& is_wrong(file, i)
                &&& palette::warnings(file)[k] == complaint(file, i)
            },
        forall|j: int, k: int|
            0 <= j < k < palette::warnings(file).len() ==> (#[trigger] palette::warnings(
                file,
            )[j]).line < (#[trigger] palette::warnings(file)[k]).line,
{
    lemma_warned_upto(file, file.len() as int);
}

proof fn lemma_warned_upto(file: Seq<LineModel<Kind>>, n: int)
    requires
        0 <= n <= file.len(),
    ensures
        forall|i: int|
            0 <= i < n && #[trigger] is_wrong(file, i) ==> palette::warnings_upto(
                file,
                n,
            ).contains(complaint(file, i)),
        forall|k: int|
            0 <= k < palette::warnings_upto(file, n).len() ==> {
                let i = (#[trigger] palette::warnings_upto(file, n)[k]).line - 1;
                &&& 0 <= i < n
                &&& is_wrong(file, i)
                &&& palette::warnings_upto(file, n)[k] == complaint(file, i)
            },
        forall|j: int, k: int|
            0 <= j < k < palette::warnings_upto(file, n).len() ==> (#[trigger] palette::warnings_upto(
                file,
                n,
            )[j]).line < (#[trigger] palette::warnings_upto(file, n)[k]).line,
    decreases n,
{
    if n > 0 {
        lemma_warned_upto(file, n - 1);
        let old_all = palette::warnings_upto(file, n - 1);
        let all = palette::warnings_upto(file, n);
        colors_are_six_digits(palette::value_at(file[n - 1]));
        assert forall|i: int| 0 <= i < n && #[trigger] is_wrong(file, i) implies all.contains(
            complaint(file, i),
        ) by {
            if i < n - 1 {
                let k = choose|k: int|
                    0 <= k < old_all.len() && old_all[k] == complaint(file, i);
                assert(all[k] == complaint(file, i));
            } else {
                assert(all[all.len() - 1] == complaint(file, i));
            }
        }
        assert forall|k: int| 0 <= k < all.len() implies {
            let i = (#[trigger] all[k]).line - 1;
            &&& 0 <= i < n
            &&& is_wrong(file, i)
            &&& all[k] == complaint(file, i)
        } by {
            if k < old_all.len() {
                assert(all[k] == old_all[k]);
            }
        }
    }
}

/// The keys of a file are those of its entries, in the order of the lines.
pub proof fn keys_are_those_of_the_entries(file: Seq<LineModel<Kind>>, more: LineModel<Kind>)
    ensures
        palette::keys(Seq::<LineModel<Kind>>::empty()) == Seq::<Seq<char>>::empty(),
        more.kind is Entry ==> palette::keys(file.push(more)) == palette::keys(file).push(
            more.kind->key,
        ),
        !(more.kind is Entry) ==> palette::keys(file.push(more)) == palette::keys(file),
{
    lemma_keys_of_prefix(file, file.push(more), file.len() as int);
}

proof fn lemma_keys_of_prefix(a: Seq<LineModel<Kind>>, b: Seq<LineModel<Kind>>, n: int)
    requires
        n <= a.len(),
        n <= b.len(),
        forall|i: int| 0 <= i < n ==> #[trigger] a[i] == b[i],
    ensures
        palette::keys_upto(a, n) == palette::keys_upto(b, n),
    decreases n,
{
    if n > 0 {
        lemma_keys_of_prefix(a, b, n - 1);
        assert(a[n - 1] == b[n - 1]);
    }
}

/// How the keys of a file differ from those of a scheme: unknown are those that no scheme defines,
/// missing are those that do not stand in the file, and duplicate those that stand there more than
/// once.
pub proof fn differences_are_named(keys: Seq<Seq<char>>, key: Seq<char>)
    ensures
        palette::validation_of(keys).unknown.contains(key) <==> keys.contains(key)
            && !palette::schema().contains(key),
        palette::validation_of(keys).missing.contains(key) <==> palette::schema().contains(key)
            && !keys.contains(key),
        palette::validation_of(keys).duplicate.contains(key) <==> exists|i: int, j: int|
            0 <= i < j < keys.len() && #[trigger] keys[i] == key && #[trigger] keys[j] == key,
{
    let firsts = palette::distinct(keys);
    palette_laws::lemma_distinct_contains(keys, key);
    lemma_keep(firsts, palette::foreign(), key);
    lemma_keep(palette::schema(), palette::absent(keys), key);
    lemma_keep(firsts, palette::repeated(keys), key);
    lemma_times_twice(keys, key);
    palette_laws::lemma_times(keys, key);
}

proof fn lemma_keep(texts: Seq<Seq<char>>, p: spec_fn(Seq<char>) -> bool, key: Seq<char>)
    ensures
        palette::keep(texts, p).contains(key) <==> texts.contains(key) && p(key),
    decreases texts.len(),
{
    if texts.len() > 0 {
        let rest = texts.drop_last();
        lemma_keep(rest, p, key);
        let kept = palette::keep(texts, p);
        let before = palette::keep(rest, p);
        if texts.contains(key) {
            let i = choose|i: int| 0 <= i < texts.len() && texts[i] == key;
            if i < rest.len() {
                assert(rest[i] == key);
            }
        }
        if rest.contains(key) {
            let i = choose|i: int| 0 <= i < rest.len() && rest[i] == key;
            assert(texts[i] == key);
        }
        if before.contains(key) {
            let i = choose|i: int| 0 <= i < before.len() && before[i] == key;
            assert(kept[i] == key);
        }
        if kept.contains(key) {
            let i = choose|i: int| 0 <= i < kept.len() && kept[i] == key;
            if i < before.len() {
                assert(before[i] == key);
            }
        }
        if texts.last() == key {
            assert(texts[texts.len() - 1] == key);
            if p(key) {
                assert(kept[kept.len() - 1] == key);
            }
        }
    }
}

proof fn lemma_times_twice(texts: Seq<Seq<char>>, s: Seq<char>)
    ensures
        text::times(texts, s) > 1 <==> exists|i: int, j: int|
            0 <= i < j < texts.len() && #[trigger] texts[i] == s && #[trigger] texts[j] == s,
    decreases texts.len(),
{
    if texts.len() > 0 {
        let rest = texts.drop_last();
        lemma_times_twice(rest, s);
        palette_laws::lemma_times(rest, s);
        if text::times(texts, s) > 1 {
            if texts.last() == s {
                let i = choose|i: int| 0 <= i < rest.len() && rest[i] == s;
                assert(texts[i] == s && texts[texts.len() - 1] == s);
            } else {
                let (i, j) = choose|i: int, j: int|
                    0 <= i < j < rest.len() && #[trigger] rest[i] == s && #[trigger] rest[j] == s;
                assert(texts[i] == s && texts[j] == s);
            }
        }
        if exists|i: int, j: int|
            0 <= i < j < texts.len() && #[trigger] texts[i] == s && #[trigger] texts[j] == s {
            let (i, j) = choose|i: int, j: int|
                0 <= i < j < texts.len() && #[trigger] texts[i] == s && #[trigger] texts[j] == s;
            assert(rest[i] == s);
            if j < rest.len() {
                assert(rest[j] == s);
            } else {
                assert(rest.contains(s));
            }
        }
    }
}

/// Whether `a` stands before `b` in a list.
pub open spec fn precedes(list: Seq<Seq<char>>, a: Seq<char>, b: Seq<char>) -> bool {
    exists|i: int, j: int|
        0 <= i < j < list.len() && #[trigger] list[i] == a && #[trigger] list[j] == b
}

/// Unknown and duplicate keys are named in the order in which they first stand in the file, each
/// once, and missing ones in the order of a scheme.
pub proof fn differences_keep_their_order(keys: Seq<Seq<char>>, i: int, j: int)
    ensures
        0 <= i < j < keys.len() && !keys.take(i).contains(keys[i]) && !keys.take(j).contains(keys[j])
            ==> {
            let found = palette::validation_of(keys);
            &&& found.unknown.contains(keys[i]) && found.unknown.contains(keys[j]) ==> precedes(
                found.unknown,
                keys[i],
                keys[j],
            )
            &&& found.duplicate.contains(keys[i]) && found.duplicate.contains(keys[j]) ==> precedes(
                found.duplicate,
                keys[i],
                keys[j],
            )
        },
        0 <= i < j < palette::schema().len() ==> {
            let missing = palette::validation_of(keys).missing;
            let a = palette::schema()[i];
            let b = palette::schema()[j];
            missing.contains(a) && missing.contains(b) ==> precedes(missing, a, b)
        },
        forall|key: Seq<char>| !precedes(palette::validation_of(keys).unknown, key, key),
        forall|key: Seq<char>| !precedes(palette::validation_of(keys).duplicate, key, key),
{
    let firsts = palette::distinct(keys);
    let found = palette::validation_of(keys);
    let schema = palette::schema();
    if 0 <= i < j < keys.len() && !keys.take(i).contains(keys[i]) && !keys.take(j).contains(
        keys[j],
    ) {
        lemma_distinct_order(keys, i, j);
        let (a, b) = choose|a: int, b: int|
            0 <= a < b < firsts.len() && #[trigger] firsts[a] == keys[i] && #[trigger] firsts[b]
                == keys[j];
        lemma_keep(firsts, palette::foreign(), keys[i]);
        lemma_keep(firsts, palette::foreign(), keys[j]);
        lemma_keep(firsts, palette::repeated(keys), keys[i]);
        lemma_keep(firsts, palette::repeated(keys), keys[j]);
        lemma_keep_order(firsts, palette::foreign(), a, b);
        lemma_keep_order(firsts, palette::repeated(keys), a, b);
    }
    if 0 <= i < j < schema.len() {
        lemma_keep(schema, palette::absent(keys), schema[i]);
        lemma_keep(schema, palette::absent(keys), schema[j]);
        lemma_keep_order(schema, palette::absent(keys), i, j);
    }
    lemma_distinct_once(keys);
    lemma_keep_once(firsts, palette::foreign());
    lemma_keep_once(firsts, palette::repeated(keys));
}

proof fn lemma_distinct_order(texts: Seq<Seq<char>>, i: int, j: int)
    requires
        0 <= i < j < texts.len(),
        !texts.take(i).contains(texts[i]),
        !texts.take(j).contains(texts[j]),
    ensures
        precedes(palette::distinct(texts), texts[i], texts[j]),
    decreases texts.len(),
{
    let rest = texts.drop_last();
    let before = palette::distinct(rest);
    let all = palette::distinct(texts);
    if j < rest.len() {
        assert(rest.take(i) =~= texts.take(i));
        assert(rest.take(j) =~= texts.take(j));
        lemma_distinct_order(rest, i, j);
        let (a, b) = choose|a: int, b: int|
            0 <= a < b < before.len() && #[trigger] before[a] == texts[i] && #[trigger] before[b]
                == texts[j];
        assert(all[a] == texts[i] && all[b] == texts[j]);
    } else {
        assert(texts.take(j) =~= rest);
        palette_laws::lemma_distinct_contains(rest, texts[j]);
        palette_laws::lemma_distinct_contains(rest, texts[i]);
        assert(rest[i] == texts[i]);
        assert(rest.contains(texts[i]));
        let a = choose|a: int| 0 <= a < before.len() && before[a] == texts[i];
        assert(all[a] == texts[i] && all[all.len() - 1] == texts[j]);
    }
}

proof fn lemma_keep_order(texts: Seq<Seq<char>>, p: spec_fn(Seq<char>) -> bool, i: int, j: int)
    requires
        0 <= i < j < texts.len(),
    ensures
        p(texts[i]) && p(texts[j]) ==> precedes(palette::keep(texts, p), texts[i], texts[j]),
    decreases texts.len(),
{
    let rest = texts.drop_last();
    let before = palette::keep(rest, p);
    let all = palette::keep(texts, p);
    if p(texts[i]) && p(texts[j]) {
        if j < rest.len() {
            lemma_keep_order(rest, p, i, j);
            let (a, b) = choose|a: int, b: int|
                0 <= a < b < before.len() && #[trigger] before[a] == texts[i]
                    && #[trigger] before[b] == texts[j];
            assert(all[a] == texts[i] && all[b] == texts[j]);
        } else {
            lemma_keep(rest, p, texts[i]);
            assert(rest[i] == texts[i]);
            let a = choose|a: int| 0 <= a < before.len() && before[a] == texts[i];
            assert(all[a] == texts[i] && all[all.len() - 1] == texts[j]);
        }
    }
}

proof fn lemma_distinct_once(texts: Seq<Seq<char>>)
    ensures
        forall|key: Seq<char>| !precedes(palette::distinct(texts), key, key),
    decreases texts.len(),
{
    if texts.len() > 0 {
        let rest = texts.drop_last();
        lemma_distinct_once(rest);
        let before = palette::distinct(rest);
        let all = palette::distinct(texts);
        assert forall|key: Seq<char>| !precedes(all, key, key) by {
            assert(!precedes(before, key, key));
            if precedes(all, key, key) {
                let (a, b) = choose|a: int, b: int|
                    0 <= a < b < all.len() && #[trigger] all[a] == key && #[trigger] all[b] == key;
                assert(before[a] == key);
                if b < before.len() {
                    assert(before[b] == key);
                } else {
                    assert(before.contains(key));
                }
            }
        }
    }
}

proof fn lemma_keep_once(texts: Seq<Seq<char>>, p: spec_fn(Seq<char>) -> bool)
    requires
        forall|key: Seq<char>| !precedes(texts, key, key),
    ensures
        forall|key: Seq<char>| !precedes(palette::keep(texts, p), key, key),
    decreases texts.len(),
{
    if texts.len() > 0 {
        let rest = texts.drop_last();
        assert forall|key: Seq<char>| !precedes(rest, key, key) by {
            assert(!precedes(texts, key, key));
            if precedes(rest, key, key) {
                let (a, b) = choose|a: int, b: int|
                    0 <= a < b < rest.len() && #[trigger] rest[a] == key && #[trigger] rest[b]
                        == key;
                assert(texts[a] == key && texts[b] == key);
            }
        }
        lemma_keep_once(rest, p);
        let before = palette::keep(rest, p);
        let all = palette::keep(texts, p);
        assert forall|key: Seq<char>| !precedes(all, key, key) by {
            assert(!precedes(before, key, key));
            assert(!precedes(texts, key, key));
            if precedes(all, key, key) {
                let (a, b) = choose|a: int, b: int|
                    0 <= a < b < all.len() && #[trigger] all[a] == key && #[trigger] all[b] == key;
                assert(before[a] == key);
                if b < before.len() {
                    assert(before[b] == key);
                } else {
                    lemma_keep(rest, p, key);
                    let c = choose|c: int| 0 <= c < rest.len() && rest[c] == key;
                    assert(texts[c] == key && texts[texts.len() - 1] == key);
                }
            }
        }
    }
}

/// The keys of a scheme: four backgrounds, three foregrounds and four accents, each by its number
/// from zero, and behind them six colors by their names.
pub proof fn scheme_keys_are_numbered(i: int)
    ensures
        palette::schema().len() == 4 + 3 + 4 + 6,
        0 <= i < 4 ==> palette::schema()[i] == "bg"@ + text::decimal(i),
        0 <= i < 3 ==> palette::schema()[4 + i] == "fg"@ + text::decimal(i),
        0 <= i < 4 ==> palette::schema()[7 + i] == "accent"@ + text::decimal(i),
        palette::schema().skip(11) == seq![
            "red"@,
            "orange"@,
            "yellow"@,
            "green"@,
            "blue"@,
            "purple"@,
        ],
{
    reveal_strlit("bg");
    reveal_strlit("bg0");
    reveal_strlit("bg1");
    reveal_strlit("bg2");
    reveal_strlit("bg3");
    reveal_strlit("fg");
    reveal_strlit("fg0");
    reveal_strlit("fg1");
    reveal_strlit("fg2");
    reveal_strlit("accent");
    reveal_strlit("accent0");
    reveal_strlit("accent1");
    reveal_strlit("accent2");
    reveal_strlit("accent3");
    if 0 <= i < 4 {
        assert(text::decimal(i) =~= seq![text::digit(i)]);
        assert(palette::schema()[i] =~= "bg"@ + text::decimal(i));
        assert(palette::schema()[7 + i] =~= "accent"@ + text::decimal(i));
        if i < 3 {
            assert(palette::schema()[4 + i] =~= "fg"@ + text::decimal(i));
        }
    }
    assert(palette::schema().skip(11) =~= seq![
        "red"@,
        "orange"@,
        "yellow"@,
        "green"@,
        "blue"@,
        "purple"@,
    ]);
}

} // verus!
