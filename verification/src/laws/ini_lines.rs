//! The laws of what a line of a `settings.ini` is taken for, and of what a file says.

use crate::laws::ini as ini_laws;
use crate::laws::text as text_laws;
use crate::lines;
use crate::lines::LineModel;
use crate::parsers::assignment;
use crate::parsers::ini;
use crate::parsers::ini::Kind;
use crate::search;
use crate::text;
use vstd::prelude::*;

verus! {

/// A line of a key, `=` and a value, with any white space around them, is an entry that gives the
/// key the value, unless it begins like a comment or a header.
pub proof fn entry_line_is_read(
    before: Seq<char>,
    key: Seq<char>,
    between: Seq<char>,
    gap: Seq<char>,
    value: Seq<char>,
    tail: Seq<char>,
    end: Seq<char>,
)
    requires
        text_laws::is_gap(before),
        key.len() > 0,
        key[0] != '#',
        key[0] != '[',
        !key.contains('='),
        text_laws::is_tight(key),
        text_laws::is_one_line(key),
        text_laws::is_gap(between),
        text_laws::is_gap(gap),
        text_laws::is_one_line(value),
        text_laws::is_tight(value),
        text_laws::is_gap(tail),
        text_laws::is_ending(end),
    ensures
        ({
            let line = ini::classified(
                before + key + between + seq!['='] + gap + value + tail + end,
            );
            &&& line.kind is Entry
            &&& line.kind->key == key
            &&& ini::value_at(line) == value
            &&& value.len() > 0 ==> line.kind->value_start == (before + key + between + seq!['=']
                + gap).len()
            &&& text::leading_space(text::strip_terminator(line.raw)) == before.len()
            &&& line.kind->value_start <= text::content_len(line.raw)
            &&& before.len() + key.len() <= line.kind->value_start
        }),
{
    let head = before + key + between;
    let content = head + seq!['='] + gap + value + tail;
    let raw = content + end;
    text_laws::lemma_assigning_line(before, key, between, gap, value, tail, end);
    lemma_head(before, key, between);
    text_laws::lemma_value(head, gap, value, tail);
    text_laws::trimming_takes_white_space_away(before, key, between);
    let line = ini::classified(raw);
    assert(line.kind is Entry);
    assert(ini::value_at(line) =~= content.subrange(line.kind->value_start, line.kind->value_end));
    assert(line.kind->value_start > head.len()) by {
        assignment::lemma_value_span(content, head.len() as int);
    }
    if value.len() > 0 {
        text_laws::lemma_value_place(head, gap, value, tail);
    }
}

proof fn lemma_head(before: Seq<char>, key: Seq<char>, between: Seq<char>)
    requires
        text_laws::is_blank(before),
        !key.contains('='),
        text_laws::is_blank(between),
    ensures
        !(before + key + between).contains('='),
{
    let head = before + key + between;
    assert forall|i: int| 0 <= i < head.len() implies head[i] != '=' by {
        if i < before.len() {
            assert(head[i] == before[i]);
            text_laws::lemma_blank_char(before[i]);
        } else if i < before.len() + key.len() {
            assert(head[i] == key[i - before.len()]);
            assert(key.contains(key[i - before.len()]));
        } else {
            assert(head[i] == between[i - before.len() - key.len()]);
            text_laws::lemma_blank_char(between[i - before.len() - key.len()]);
        }
    }
}

/// A line of white space alone is blank, and one that begins with `#`, white space aside, is a
/// comment, whatever follows.
pub proof fn blank_and_comment_lines(before: Seq<char>, rest: Seq<char>, end: Seq<char>)
    requires
        text_laws::is_gap(before),
        text_laws::is_one_line(rest),
        text_laws::is_ending(end),
    ensures
        ini::classify(before + end) is Blank,
        ini::classify(before + seq!['#'] + rest + end) is Comment,
{
    text_laws::lemma_content(before, end);
    text_laws::lemma_body(before, Seq::empty());
    assert(before + Seq::<char>::empty() =~= before);
    let body = seq!['#'] + rest;
    text_laws::lemma_one_line_add(before, seq!['#']);
    text_laws::lemma_one_line_add(before + seq!['#'], rest);
    text_laws::lemma_content(before + seq!['#'] + rest, end);
    assert(before + seq!['#'] + rest =~= before + body);
    text_laws::white_space_is_listed('#');
    text_laws::lemma_body(before, body);
}

/// A line of a name in brackets, with any white space around them and inside, is the header of the
/// section of that name.
pub proof fn header_line_is_read(
    before: Seq<char>,
    left: Seq<char>,
    name: Seq<char>,
    right: Seq<char>,
    tail: Seq<char>,
    end: Seq<char>,
)
    requires
        text_laws::is_gap(before),
        text_laws::is_gap(left),
        text_laws::is_one_line(name),
        text_laws::is_tight(name),
        text_laws::is_gap(right),
        text_laws::is_gap(tail),
        text_laws::is_ending(end),
    ensures
        ini::classify(before + seq!['['] + left + name + right + seq![']'] + tail + end) == (
        Kind::Section { name }),
{
    let inner = left + name + right;
    let body = seq!['['] + inner + seq![']'];
    let content = before + body + tail;
    assert(before + seq!['['] + left + name + right + seq![']'] + tail + end =~= content + end);
    text_laws::lemma_one_line_add(left, name);
    text_laws::lemma_one_line_add(left + name, right);
    text_laws::lemma_one_line_add(seq!['['], inner);
    text_laws::lemma_one_line_add(seq!['['] + inner, seq![']']);
    text_laws::lemma_one_line_add(before, body);
    text_laws::lemma_one_line_add(before + body, tail);
    text_laws::lemma_content(content, end);
    text_laws::white_space_is_listed('[');
    text_laws::white_space_is_listed(']');
    text_laws::trimming_takes_white_space_away(before, body, tail);
    assert(body.subrange(1, body.len() - 1) =~= inner);
    text_laws::trimming_takes_white_space_away(left, name, right);
}

/// A line that begins with a bracket and does not end with the other one is malformed.
pub proof fn open_header_is_malformed(
    before: Seq<char>,
    rest: Seq<char>,
    tail: Seq<char>,
    end: Seq<char>,
)
    requires
        text_laws::is_gap(before),
        text_laws::is_one_line(rest),
        rest.len() > 0 ==> rest.last() != ']' && !text_laws::blanks().contains(rest.last()),
        text_laws::is_gap(tail),
        text_laws::is_ending(end),
    ensures
        ini::classify(before + seq!['['] + rest + tail + end) is Malformed,
{
    let body = seq!['['] + rest;
    let content = before + body + tail;
    assert(before + seq!['['] + rest + tail + end =~= content + end);
    text_laws::lemma_one_line_add(seq!['['], rest);
    text_laws::lemma_one_line_add(before, body);
    text_laws::lemma_one_line_add(before + body, tail);
    text_laws::lemma_content(content, end);
    text_laws::white_space_is_listed('[');
    assert(rest.len() > 0 ==> body.last() == rest.last());
    text_laws::trimming_takes_white_space_away(before, body, tail);
}

/// A line that is neither blank nor a comment nor a header is malformed where it has no `=`, and
/// where nothing stands before its first `=`.
pub proof fn other_lines_are_malformed(
    before: Seq<char>,
    body: Seq<char>,
    rest: Seq<char>,
    end: Seq<char>,
)
    requires
        text_laws::is_gap(before),
        body.len() > 0,
        body[0] != '#',
        body[0] != '[',
        !text_laws::blanks().contains(body[0]),
        !body.contains('='),
        text_laws::is_one_line(body),
        text_laws::is_one_line(rest),
        text_laws::is_ending(end),
    ensures
        ini::classify(before + body + end) is Malformed,
        ini::classify(before + seq!['='] + rest + end) is Malformed,
{
    let content = before + body;
    text_laws::lemma_one_line_add(before, body);
    text_laws::lemma_content(content, end);
    text_laws::lemma_body(before, body);
    let none = Seq::<char>::empty();
    lemma_head(before, body, none);
    assert(before + body + none =~= content);
    assert forall|i: int| 0 <= i < content.len() implies content[i] != '=' by {
        assert(content.contains(content[i]));
    }
    text::lemma_find_char_is(content, '=', content.len() as int);
    let other = before + (seq!['='] + rest);
    text_laws::lemma_one_line_add(seq!['='], rest);
    text_laws::lemma_one_line_add(before, seq!['='] + rest);
    assert(before + seq!['='] + rest + end =~= other + end);
    text_laws::lemma_content(other, end);
    text_laws::white_space_is_listed('=');
    text_laws::lemma_body(before, seq!['='] + rest);
    assert forall|i: int| 0 <= i < before.len() implies other[i] != '=' by {
        assert(other[i] == before[i]);
        text_laws::lemma_blank_char(before[i]);
    }
    assert(other[before.len() as int] == '=');
    text::lemma_find_char_is(other, '=', before.len() as int);
    assert(other.take(before.len() as int) =~= before);
    text_laws::trimming_takes_white_space_away(before, none, none);
    assert(before + none + none =~= before);
}

/// The value of a key is that of the last entry for it in the first section of the name, and there
/// is none where that section has no such entry or there is no such section. A section reaches to
/// the next header.
pub proof fn last_entry_of_the_first_section_counts(
    file: Seq<LineModel<Kind>>,
    section: Seq<char>,
    key: Seq<char>,
    header: int,
    next: int,
)
    requires
        0 <= header < next <= file.len(),
        file[header].kind == (Kind::Section { name: section }),
        forall|i: int| 0 <= i < header ==> (#[trigger] file[i]).kind != (Kind::Section { name: section }),
        forall|i: int| header < i < next ==> !((#[trigger] file[i]).kind is Section),
        next < file.len() ==> file[next].kind is Section,
    ensures
        forall|i: int|
            header < i < next && (#[trigger] file[i]).kind is Entry && file[i].kind->key == key && (
            forall|j: int|
                i < j < next ==> !((#[trigger] file[j]).kind is Entry && file[j].kind->key == key))
                ==> ini::value_of(file, section, key) == Some(ini::value_at(file[i])),
        ini::value_of(file, section, key) is None <==> forall|i: int|
            header < i < next ==> !((#[trigger] file[i]).kind is Entry && file[i].kind->key == key),
{
    let n = file.len() as int;
    let is_header = ini::headers(file, section);
    assert forall|i: int| 0 <= i < header implies !#[trigger] is_header(i) by {
        assert(file[i].kind != (Kind::Section { name: section }));
    }
    search::lemma_first_where_is(n, is_header, header);
    lemma_end(file, header, next);
    let p = ini::entries(file, header, key);
    search::lemma_last_where(next, p);
    assert forall|i: int|
        header < i < next && (#[trigger] file[i]).kind is Entry && file[i].kind->key == key && (
        forall|j: int|
            i < j < next ==> !((#[trigger] file[j]).kind is Entry && file[j].kind->key == key)) implies
        ini::value_of(file, section, key) == Some(ini::value_at(file[i])) by {
        assert forall|j: int| i < j < next implies !#[trigger] p(j) by {
            assert(!(file[j].kind is Entry && file[j].kind->key == key));
        }
        assert(p(i));
        search::lemma_last_where_is(next, p, i);
    }
    if ini::value_of(file, section, key) is None {
        assert forall|i: int| header < i < next implies !((#[trigger] file[i]).kind is Entry
            && file[i].kind->key == key) by {
            assert(!p(i));
        }
    } else {
        let i = ini::entry_of(file, header, key)->0;
        assert(p(i));
    }
}

proof fn lemma_end(file: Seq<LineModel<Kind>>, header: int, next: int)
    requires
        0 <= header < next <= file.len(),
        forall|i: int| header < i < next ==> !((#[trigger] file[i]).kind is Section),
        next < file.len() ==> file[next].kind is Section,
    ensures
        ini::end_of(file, header) == next,
{
    let n = file.len() as int;
    let later = ini::later_headers(file, header);
    assert forall|i: int| 0 <= i < next implies !#[trigger] later(i) by {
        if header < i {
            assert(!(file[i].kind is Section));
        }
    }
    if next < n {
        search::lemma_first_where_is(n, later, next);
    } else {
        search::lemma_first_where(n, later);
    }
}

/// Nothing is read from a section that there is not.
pub proof fn absent_section_has_no_values(
    file: Seq<LineModel<Kind>>,
    section: Seq<char>,
    key: Seq<char>,
)
    requires
        forall|i: int|
            0 <= i < file.len() ==> (#[trigger] file[i]).kind != (Kind::Section { name: section }),
    ensures
        ini::value_of(file, section, key) is None,
{
    let is_header = ini::headers(file, section);
    search::lemma_first_where(file.len() as int, is_header);
    if let Some(i) = ini::header_of(file, section) {
        assert(is_header(i));
        assert(file[i].kind != (Kind::Section { name: section }));
    }
}

/// Whether a text can be the key of a new entry: it is not empty, and none of its characters is
/// `=`, a line feed or a carriage return.
pub open spec fn is_usable_key(key: Seq<char>) -> bool {
    key.len() > 0 && forall|i: int|
        0 <= i < key.len() ==> #[trigger] key[i] != '=' && key[i] != '\n' && key[i] != '\r'
}

/// Whether a text can be the name of a new section: it is not empty, and none of its characters is a
/// bracket, a line feed or a carriage return.
pub open spec fn is_usable_section(section: Seq<char>) -> bool {
    section.len() > 0 && forall|i: int|
        0 <= i < section.len() ==> #[trigger] section[i] != '[' && section[i] != ']' && section[i]
            != '\n' && section[i] != '\r'
}

proof fn lemma_usable(key: Seq<char>)
    ensures
        ini::is_unusable_key(key) <==> !is_usable_key(key),
        ini::is_unusable_section(key) <==> !is_usable_section(key),
        text::breaks_line(key) <==> !text_laws::is_one_line(key),
{
    text_laws::line_is_broken_by_feed_or_return(key);
    if key.contains('=') {
        let i = choose|i: int| 0 <= i < key.len() && key[i] == '=';
        assert(key[i] == '=');
    }
    if key.contains('[') {
        let i = choose|i: int| 0 <= i < key.len() && key[i] == '[';
        assert(key[i] == '[');
    }
    if key.contains(']') {
        let i = choose|i: int| 0 <= i < key.len() && key[i] == ']';
        assert(key[i] == ']');
    }
    if !is_usable_key(key) && key.len() > 0 {
        let i = choose|i: int|
            0 <= i < key.len() && !(#[trigger] key[i] != '=' && key[i] != '\n' && key[i] != '\r');
        assert(key.contains(key[i]));
    }
    if !is_usable_section(key) && key.len() > 0 {
        let i = choose|i: int|
            0 <= i < key.len() && !(#[trigger] key[i] != '[' && key[i] != ']' && key[i] != '\n'
                && key[i] != '\r');
        assert(key.contains(key[i]));
    }
}

/// Whether a file has a section of this name.
pub open spec fn has_section(file: Seq<LineModel<Kind>>, section: Seq<char>) -> bool {
    exists|i: int|
        0 <= i < file.len() && (#[trigger] file[i]).kind == (Kind::Section { name: section })
}

/// A value can be set exactly where it stays on its line and either its key has a value already, or
/// the key and, where there is no section of the name, the section can be written: the key without
/// `=` and the section without brackets, neither of them empty nor broken into lines. Otherwise the
/// file stays as it was.
pub proof fn plain_value_is_set(
    file: Seq<LineModel<Kind>>,
    section: Seq<char>,
    key: Seq<char>,
    value: Seq<char>,
)
    ensures
        ini::accepts(file, section, key, value) <==> text_laws::is_one_line(value) && (
        ini::value_of(file, section, key) is Some || (is_usable_key(key) && (has_section(
            file,
            section,
        ) || is_usable_section(section)))),
        !ini::accepts(file, section, key, value) ==> ini::after_set(file, section, key, value)
            == file,
{
    lemma_usable(key);
    lemma_usable(section);
    lemma_usable(value);
    let is_header = ini::headers(file, section);
    search::lemma_first_where(file.len() as int, is_header);
    if let Some(i) = ini::header_of(file, section) {
        assert(is_header(i));
        assert(file[i].kind == (Kind::Section { name: section }));
    } else if has_section(file, section) {
        let i = choose|i: int|
            0 <= i < file.len() && (#[trigger] file[i]).kind == (Kind::Section { name: section });
        assert(is_header(i));
    }
}

/// A value that is set and can be read under its section and key is read back, whatever its
/// characters, if it stays on its line.
pub proof fn plain_value_is_read_back(
    file: Seq<LineModel<Kind>>,
    section: Seq<char>,
    key: Seq<char>,
    value: Seq<char>,
)
    requires
        ini_laws::sound_file(file),
        text_laws::is_one_line(value),
        ini::value_of(file, section, key) is Some,
    ensures
        ini::value_of(ini::after_set(file, section, key, value), section, key) == Some(value),
{
    plain_value_is_set(file, section, key, value);
    ini_laws::read_after_set(file, section, key, value);
}

/// An entry that is added to a section goes behind the last line there that is not blank: only blank
/// lines stand between it and the end of the section.
pub proof fn added_entry_follows_what_is_written(file: Seq<LineModel<Kind>>, header: int, next: int)
    requires
        0 <= header < next <= file.len(),
        forall|i: int| header < i < next ==> !((#[trigger] file[i]).kind is Section),
        next < file.len() ==> file[next].kind is Section,
    ensures
        ({
            let place = ini::place_for(file, header);
            &&& header < place <= next
            &&& place == header + 1 || !(file[place - 1].kind is Blank)
            &&& forall|i: int| place <= i < next ==> (#[trigger] file[i]).kind is Blank
        }),
{
    lemma_end(file, header, next);
    let p = ini::written(file, header);
    search::lemma_last_where(next, p);
    let place = ini::place_for(file, header);
    assert forall|i: int| place <= i < next implies (#[trigger] file[i]).kind is Blank by {
        assert(!p(i));
    }
    if let Some(i) = search::last_where(next, p) {
        assert(p(i));
    }
}

/// An entry that is added to a section is laid out like the first entry there: with the white space
/// that stands before its key and around its `=`. Where there is no entry it is written plainly.
pub proof fn added_entry_is_laid_out_like_the_first(
    file: Seq<LineModel<Kind>>,
    header: int,
    next: int,
    first: int,
    key: Seq<char>,
    value: Seq<char>,
    before: Seq<char>,
    other: Seq<char>,
    between: Seq<char>,
    gap: Seq<char>,
    other_value: Seq<char>,
    tail: Seq<char>,
    end: Seq<char>,
)
    requires
        0 <= header < first <= next <= file.len(),
        forall|i: int| header < i < next ==> !((#[trigger] file[i]).kind is Section),
        next < file.len() ==> file[next].kind is Section,
        forall|i: int| header < i < first ==> !((#[trigger] file[i]).kind is Entry),
        first < next ==> {
            &&& file[first] == ini::classified(
                before + other + between + seq!['='] + gap + other_value + tail + end,
            )
            &&& text_laws::is_gap(before)
            &&& other.len() > 0
            &&& other[0] != '#'
            &&& other[0] != '['
            &&& !other.contains('=')
            &&& text_laws::is_tight(other)
            &&& text_laws::is_one_line(other)
            &&& text_laws::is_gap(between)
            &&& text_laws::is_gap(gap)
            &&& other_value.len() > 0
            &&& text_laws::is_one_line(other_value)
            &&& text_laws::is_tight(other_value)
            &&& text_laws::is_gap(tail)
            &&& text_laws::is_ending(end)
        },
        first == next ==> header < next,
    ensures
        first < next ==> ini::entry_text(file, header, key, value) == before + key + between
            + seq!['='] + gap + value,
        first == next ==> ini::entry_text(file, header, key, value) == key + seq!['='] + value,
{
    lemma_end(file, header, next);
    let p = ini::patterns(file, header);
    assert forall|i: int| 0 <= i < first implies !#[trigger] p(i) by {
        if header < i {
            assert(!(file[i].kind is Entry));
        }
    }
    if first < next {
        entry_line_is_read(before, other, between, gap, other_value, tail, end);
        let raw = file[first].raw;
        assert(p(first));
        search::lemma_first_where_is(next, p, first);
        assert(raw.take(before.len() as int) =~= before);
        let from = ini::key_end(file[first]);
        assert(from == before.len() + other.len());
        let to = file[first].kind->value_start;
        assert(raw.subrange(from, to) =~= between + seq!['='] + gap);
        assert(before + key + (between + seq!['='] + gap) + value =~= before + key + between
            + seq!['='] + gap + value);
    } else {
        search::lemma_first_where(next, p);
        if let Some(i) = search::first_where(next, p) {
            assert(p(i));
        }
        reveal_strlit("=");
        assert("="@ =~= seq!['=']);
    }
}

/// A file warns of every malformed line, and of no other, in the order of the lines, which are
/// counted from one.
pub proof fn malformed_lines_are_warned_of(file: Seq<LineModel<Kind>>)
    ensures
        forall|i: int|
            0 <= i < file.len() ==> ((#[trigger] file[i]).kind is Malformed <==> ini::malformed(
                file,
            ).contains(i + 1)),
        forall|k: int|
            0 <= k < ini::malformed(file).len() ==> 1 <= #[trigger] ini::malformed(file)[k]
                <= file.len(),
        forall|j: int, k: int|
            0 <= j < k < ini::malformed(file).len() ==> #[trigger] ini::malformed(file)[j]
                < #[trigger] ini::malformed(file)[k],
{
    lemma_malformed_upto(file, file.len() as int);
}

proof fn lemma_malformed_upto(file: Seq<LineModel<Kind>>, n: int)
    requires
        0 <= n <= file.len(),
    ensures
        forall|i: int|
            0 <= i < n ==> ((#[trigger] file[i]).kind is Malformed <==> ini::malformed_upto(
                file,
                n,
            ).contains(i + 1)),
        forall|k: int|
            0 <= k < ini::malformed_upto(file, n).len() ==> 1 <= #[trigger] ini::malformed_upto(
                file,
                n,
            )[k] <= n,
        forall|j: int, k: int|
            0 <= j < k < ini::malformed_upto(file, n).len() ==> #[trigger] ini::malformed_upto(
                file,
                n,
            )[j] < #[trigger] ini::malformed_upto(file, n)[k],
    decreases n,
{
    if n > 0 {
        lemma_malformed_upto(file, n - 1);
        let old_all = ini::malformed_upto(file, n - 1);
        let all = ini::malformed_upto(file, n);
        assert forall|i: int| 0 <= i < n implies ((#[trigger] file[i]).kind is Malformed
            <==> all.contains(i + 1)) by {
            if old_all.contains(i + 1) {
                let k = choose|k: int| 0 <= k < old_all.len() && old_all[k] == i + 1;
                assert(all[k] == i + 1);
            }
            if all.contains(i + 1) {
                let k = choose|k: int| 0 <= k < all.len() && all[k] == i + 1;
                if k < old_all.len() {
                    assert(old_all[k] == i + 1);
                }
            }
            if i == n - 1 && file[i].kind is Malformed {
                assert(all[all.len() - 1] == n);
            }
        }
    }
}

/// A section that is added is set off from what stands before it: a blank line comes between them
/// where the file holds anything but blank lines and its last line is not blank, and none comes
/// where the file holds nothing else or ends with a blank line.
pub proof fn added_section_is_set_off(
    file: Seq<LineModel<Kind>>,
    section: Seq<char>,
    key: Seq<char>,
    value: Seq<char>,
)
    ensures
        ({
            let after = ini::with_section(file, section, key, value);
            let end = lines::terminator(file);
            let n = file.len() as int;
            &&& n > 0 && !(file[n - 1].kind is Blank) ==> after.len() == n + 3 && after[n].raw == end
            &&& n > 0 && file[n - 1].kind is Blank ==> after.len() == n + 2
            &&& n == 0 ==> after.len() == 2
            &&& after[after.len() - 2].raw == seq!['['] + section + seq![']'] + end
            &&& after[after.len() - 1].raw == key + seq!['='] + value + end
            &&& forall|i: int| 0 <= i < n - 1 ==> #[trigger] after[i] == file[i]
        }),
{
    let after = ini::with_section(file, section, key, value);
    let n = file.len() as int;
    reveal_strlit("[");
    reveal_strlit("]");
    reveal_strlit("=");
    assert("["@ =~= seq!['[']);
    assert("]"@ =~= seq![']']);
    assert("="@ =~= seq!['=']);
    if n > 0 && !(file[n - 1].kind is Blank) {
        assert(ini::has_content(file));
    }
}

} // verus!
