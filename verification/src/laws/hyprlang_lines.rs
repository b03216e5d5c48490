//! The laws of what a line of a hyprlang file is taken for, and of what a file says.

use crate::laws::hyprlang as file_laws;
use crate::laws::text as text_laws;
use crate::lines;
use crate::lines::LineModel;
use crate::parsers::hyprlang;
use crate::parsers::hyprlang::{Address, Kind, Plan, Step, Warning, WarningKind};
use crate::search;
use crate::text;
use vstd::prelude::*;

verus! {

/// Whether a text can stand behind the code of a line: nothing, or a comment.
pub open spec fn is_comment(s: Seq<char>) -> bool {
    text_laws::is_one_line(s) && (s.len() > 0 ==> s[0] == '#')
}

/// Whether a text can stand before the comment of a line.
pub open spec fn is_code(s: Seq<char>) -> bool {
    forall|i: int| 0 <= i < s.len() ==> #[trigger] s[i] != '#' && s[i] != '\n' && s[i] != '\r'
}

pub proof fn lemma_code_add(a: Seq<char>, b: Seq<char>)
    requires
        is_code(a),
        is_code(b),
    ensures
        is_code(a + b),
{
    let s = a + b;
    assert forall|i: int| 0 <= i < s.len() implies #[trigger] s[i] != '#' && s[i] != '\n' && s[i]
        != '\r' by {
        if i < a.len() {
            assert(s[i] == a[i]);
        } else {
            assert(s[i] == b[i - a.len()]);
        }
    }
}

pub proof fn lemma_gap_is_code(s: Seq<char>)
    requires
        text_laws::is_gap(s),
    ensures
        is_code(s),
{
    assert forall|i: int| 0 <= i < s.len() implies #[trigger] s[i] != '#' && s[i] != '\n' && s[i]
        != '\r' by {
        text_laws::lemma_blank_char(s[i]);
    }
}

/// The code of a line is what stands before its comment.
proof fn lemma_code(before: Seq<char>, body: Seq<char>, comment: Seq<char>, end: Seq<char>)
    requires
        text_laws::is_gap(before),
        is_code(body),
        body.len() > 0,
        !text_laws::blanks().contains(body[0]),
        is_comment(comment),
        text_laws::is_ending(end),
    ensures
        ({
            let code = before + body;
            let content = code + comment;
            &&& text::strip_terminator(content + end) == content
            &&& hyprlang::code_of(content) == code
            &&& text::trim_start(content).len() > 0
            &&& text::trim_start(content)[0] == body[0]
            &&& text::leading_space(content) == before.len()
            &&& body[0] != '#'
        }),
{
    let code = before + body;
    let content = code + comment;
    lemma_gap_is_code(before);
    lemma_code_add(before, body);
    text_laws::lemma_one_line_add(code, comment);
    text_laws::lemma_content(content, end);
    assert forall|i: int| 0 <= i < code.len() implies content[i] != '#' by {
        assert(content[i] == code[i]);
    }
    if comment.len() > 0 {
        assert(content[code.len() as int] == comment[0]);
    }
    text::lemma_find_char_is(content, '#', code.len() as int);
    assert(content.take(code.len() as int) =~= code);
    assert(content =~= before + (body + comment));
    assert((body + comment)[0] == body[0]);
    text_laws::lemma_body(before, body + comment);
}

/// Whether a text can be a key: it is not empty, and none of its characters is white space, a brace,
/// `=`, or `#`.
pub open spec fn is_name(key: Seq<char>) -> bool {
    key.len() > 0 && forall|i: int|
        0 <= i < key.len() ==> !text_laws::blanks().contains(#[trigger] key[i]) && key[i] != '{'
            && key[i] != '}' && key[i] != '=' && key[i] != '#'
}

proof fn lemma_blanks_end_lines()
    ensures
        text_laws::blanks().contains('\n'),
        text_laws::blanks().contains('\r'),
{
    text_laws::white_space_is_listed('\n');
    text_laws::white_space_is_listed('\r');
}

/// What stands on a line that assigns is code, and begins with the key.
proof fn lemma_entry_is_code(
    key: Seq<char>,
    between: Seq<char>,
    gap: Seq<char>,
    value: Seq<char>,
    tail: Seq<char>,
)
    requires
        is_name(key),
        text_laws::is_gap(between),
        text_laws::is_gap(gap),
        is_code(value),
        text_laws::is_gap(tail),
    ensures
        ({
            let body = key + between + seq!['='] + gap + value + tail;
            &&& is_code(body)
            &&& body[0] == key[0]
            &&& !text_laws::blanks().contains(body[0])
        }),
{
    lemma_blanks_end_lines();
    assert(is_code(key));
    lemma_gap_is_code(between);
    lemma_gap_is_code(gap);
    lemma_gap_is_code(tail);
    lemma_code_add(key, between);
    assert(is_code(seq!['=']));
    lemma_code_add(key + between, seq!['=']);
    lemma_code_add(key + between + seq!['='], gap);
    lemma_code_add(key + between + seq!['='] + gap, value);
    lemma_code_add(key + between + seq!['='] + gap + value, tail);
}

/// Where the parts of an assignment stand on its line.
proof fn lemma_entry(
    before: Seq<char>,
    key: Seq<char>,
    between: Seq<char>,
    gap: Seq<char>,
    value: Seq<char>,
    tail: Seq<char>,
)
    requires
        text_laws::is_gap(before),
        is_name(key),
        text_laws::is_gap(between),
        text_laws::is_gap(gap),
        text_laws::is_tight(value),
        text_laws::is_gap(tail),
    ensures
        ({
            let code = before + key + between + seq!['='] + gap + value + tail;
            let eq = before.len() + key.len() + between.len();
            &&& text::find_char(code, '=') == eq
            &&& eq < code.len()
            &&& hyprlang::key_of(code) == key
            &&& hyprlang::is_key(key)
            &&& hyprlang::after_equals(code) == gap + value + tail
            &&& text::trim(hyprlang::after_equals(code)) == value
            &&& text::trim(code).contains('=')
            &&& value.len() > 0 ==> text::leading_space(hyprlang::after_equals(code)) == gap.len()
        }),
{
    let head = before + key + between;
    let code = head + seq!['='] + gap + value + tail;
    let eq = head.len() as int;
    assert forall|i: int| 0 <= i < head.len() implies head[i] != '=' by {
        if i < before.len() {
            assert(head[i] == before[i]);
            text_laws::lemma_blank_char(before[i]);
        } else if i < before.len() + key.len() {
            assert(head[i] == key[i - before.len()]);
        } else {
            assert(head[i] == between[i - before.len() - key.len()]);
            text_laws::lemma_blank_char(between[i - before.len() - key.len()]);
        }
    }
    text_laws::lemma_value(head, gap, value, tail);
    text_laws::trimming_takes_white_space_away(before, key, between);
    assert forall|i: int| 0 <= i < key.len() implies !text::is_space(#[trigger] key[i]) && key[i]
        != '{' && key[i] != '}' by {
        text_laws::white_space_is_listed(key[i]);
    }
    assert(code[eq] == '=');
    text_laws::white_space_is_listed('=');
    text::lemma_trim_keeps(code, eq);
    if value.len() > 0 {
        let after = gap + (value + tail);
        assert(after =~= gap + value + tail);
        assert((value + tail)[0] == value[0]);
        text_laws::lemma_body(gap, value + tail);
    }
}

/// A line of a key, `=` and a value, with any white space around them and a comment behind them or
/// none, assigns the value to the key.
pub proof fn assignment_line_is_read(
    before: Seq<char>,
    key: Seq<char>,
    between: Seq<char>,
    gap: Seq<char>,
    value: Seq<char>,
    tail: Seq<char>,
    comment: Seq<char>,
    end: Seq<char>,
)
    requires
        text_laws::is_gap(before),
        is_name(key),
        text_laws::is_gap(between),
        text_laws::is_gap(gap),
        is_code(value),
        text_laws::is_tight(value),
        text_laws::is_gap(tail),
        is_comment(comment),
        text_laws::is_ending(end),
    ensures
        ({
            let raw = before + key + between + seq!['='] + gap + value + tail + comment + end;
            let line = LineModel { raw, kind: hyprlang::classify(raw) };
            &&& line.kind is Entry
            &&& line.kind->key == key
            &&& line.kind->key_start == before.len()
            &&& hyprlang::value_at(line) == value
            &&& value.len() > 0 ==> line.kind->value_start == (before + key + between + seq!['=']
                + gap).len()
        }),
{
    let body = key + between + seq!['='] + gap + value + tail;
    let code = before + body;
    let raw = before + key + between + seq!['='] + gap + value + tail + comment + end;
    lemma_entry(before, key, between, gap, value, tail);
    lemma_entry_is_code(key, between, gap, value, tail);
    assert(before + key + between + seq!['='] + gap + value + tail =~= code);
    lemma_code(before, body, comment, end);
    let content = code + comment;
    assert(raw == content + end);
    let trimmed = text::trim(code);
    if trimmed == seq!['}'] {
        assert(trimmed[0] == '}');
        let i = choose|i: int| 0 <= i < trimmed.len() && trimmed[i] == '=';
        assert(i == 0);
    }
    if hyprlang::is_header(trimmed) {
        let i = choose|i: int| 0 <= i < trimmed.len() && trimmed[i] == '=';
        let name = trimmed.drop_last();
        assert(name[i] == '=');
        text_laws::white_space_is_listed('=');
        text::lemma_trim_keeps(name, i);
        assert(false);
    }
    let kind = hyprlang::classify(raw);
    assert(kind is Entry);
    let eq = text::find_char(code, '=');
    let after = hyprlang::after_equals(code);
    text::lemma_trim_bounds(after);
    assert(raw.subrange(kind->value_start, kind->value_end) =~= after.subrange(
        text::leading_space(after),
        text::leading_space(after) + value.len(),
    ));
}

/// A line of a name and an opening brace, with any white space around them and a comment behind them
/// or none, opens a section of that name.
pub proof fn header_line_is_read(
    before: Seq<char>,
    name: Seq<char>,
    between: Seq<char>,
    tail: Seq<char>,
    comment: Seq<char>,
    end: Seq<char>,
)
    requires
        text_laws::is_gap(before),
        name.len() > 0,
        is_code(name),
        text_laws::is_tight(name),
        !name.contains('='),
        text_laws::is_gap(between),
        text_laws::is_gap(tail),
        is_comment(comment),
        text_laws::is_ending(end),
    ensures
        hyprlang::classify(before + name + between + seq!['{'] + tail + comment + end) == (
        Kind::SectionOpen { name }),
{
    let opening = name + between + seq!['{'];
    let body = opening + tail;
    let code = before + body;
    lemma_opening(name, between);
    lemma_gap_is_code(tail);
    lemma_code_add(opening, tail);
    assert(body[0] == name[0]);
    lemma_code(before, body, comment, end);
    assert(before + name + between + seq!['{'] + tail + comment + end =~= code + comment + end);
    text_laws::trimming_takes_white_space_away(before, opening, tail);
    assert(before + opening + tail =~= code);
}

proof fn lemma_opening(name: Seq<char>, between: Seq<char>)
    requires
        name.len() > 0,
        is_code(name),
        text_laws::is_tight(name),
        !name.contains('='),
        text_laws::is_gap(between),
    ensures
        ({
            let opening = name + between + seq!['{'];
            &&& is_code(opening)
            &&& opening[0] == name[0]
            &&& text_laws::is_tight(opening)
            &&& opening != seq!['}']
            &&& hyprlang::is_header(opening)
            &&& text::trim(opening.drop_last()) == name
        }),
{
    let opening = name + between + seq!['{'];
    lemma_gap_is_code(between);
    lemma_code_add(name, between);
    assert(is_code(seq!['{']));
    lemma_code_add(name + between, seq!['{']);
    text_laws::white_space_is_listed('{');
    assert(opening.last() == '{');
    assert(opening.drop_last() =~= name + between);
    let none = Seq::<char>::empty();
    text_laws::trimming_takes_white_space_away(none, name, between);
    assert(none + name + between =~= name + between);
}

/// A line of a closing brace, with any white space around it and a comment behind it or none, closes
/// a section.
pub proof fn closing_line_is_read(
    before: Seq<char>,
    tail: Seq<char>,
    comment: Seq<char>,
    end: Seq<char>,
)
    requires
        text_laws::is_gap(before),
        text_laws::is_gap(tail),
        is_comment(comment),
        text_laws::is_ending(end),
    ensures
        hyprlang::classify(before + seq!['}'] + tail + comment + end) is SectionClose,
{
    let brace = seq!['}'];
    let closing = brace + tail;
    let code = before + closing;
    assert(is_code(brace));
    lemma_gap_is_code(tail);
    lemma_code_add(brace, tail);
    text_laws::white_space_is_listed('}');
    lemma_code(before, closing, comment, end);
    assert(before + brace + tail + comment + end =~= code + comment + end);
    text_laws::trimming_takes_white_space_away(before, brace, tail);
    assert(before + brace + tail =~= code);
}

/// A line of white space alone is blank, and one that begins with `#`, white space aside, is a
/// comment, whatever follows.
pub proof fn blank_and_comment_lines(before: Seq<char>, rest: Seq<char>, end: Seq<char>)
    requires
        text_laws::is_gap(before),
        text_laws::is_one_line(rest),
        text_laws::is_ending(end),
    ensures
        hyprlang::classify(before + end) is Blank,
        hyprlang::classify(before + seq!['#'] + rest + end) is Comment,
{
    text_laws::lemma_content(before, end);
    text_laws::lemma_body(before, Seq::empty());
    assert(before + Seq::<char>::empty() =~= before);
    let body = seq!['#'] + rest;
    text_laws::lemma_one_line_add(before, seq!['#']);
    text_laws::lemma_one_line_add(before + seq!['#'], rest);
    text_laws::lemma_content(before + seq!['#'] + rest, end);
    assert(before + seq!['#'] + rest =~= before + body);
    text_laws::white_space_is_listed('#');
    text_laws::lemma_body(before, body);
}

/// A line whose code has no `=`, does not end with an opening brace and is no closing brace is
/// malformed, and so is one of an opening brace without a name.
pub proof fn line_without_equals_is_malformed(
    before: Seq<char>,
    body: Seq<char>,
    tail: Seq<char>,
    comment: Seq<char>,
    end: Seq<char>,
)
    requires
        text_laws::is_gap(before),
        body.len() > 0,
        is_code(body),
        text_laws::is_tight(body),
        !body.contains('='),
        body.last() != '{' || body.len() == 1,
        body != seq!['}'],
        text_laws::is_gap(tail),
        is_comment(comment),
        text_laws::is_ending(end),
    ensures
        hyprlang::classify(before + body + tail + comment + end) is Malformed,
{
    let whole = body + tail;
    let code = before + whole;
    lemma_gap_is_code(tail);
    lemma_code_add(body, tail);
    assert(whole[0] == body[0]);
    lemma_code(before, whole, comment, end);
    assert(before + body + tail + comment + end =~= code + comment + end);
    text_laws::trimming_takes_white_space_away(before, body, tail);
    assert(before + body + tail =~= code);
    assert forall|i: int| 0 <= i < code.len() implies code[i] != '=' by {
        if i < before.len() {
            assert(code[i] == before[i]);
            text_laws::lemma_blank_char(before[i]);
        } else if i < before.len() + body.len() {
            assert(code[i] == body[i - before.len()]);
            assert(body.contains(body[i - before.len()]));
        } else {
            assert(code[i] == tail[i - before.len() - body.len()]);
            text_laws::lemma_blank_char(tail[i - before.len() - body.len()]);
        }
    }
    text::lemma_find_char_is(code, '=', code.len() as int);
    if hyprlang::is_header(body) {
        assert(body.len() == 1);
        let name = body.drop_last();
        assert(name.len() == 0);
        text::lemma_trim(name);
        assert(false);
    }
}

/// A line that assigns to what is no key, because it is empty or holds white space or a brace, is
/// malformed.
pub proof fn line_without_a_key_is_malformed(
    before: Seq<char>,
    key: Seq<char>,
    between: Seq<char>,
    rest: Seq<char>,
    comment: Seq<char>,
    end: Seq<char>,
)
    requires
        text_laws::is_gap(before),
        is_code(key),
        text_laws::is_tight(key),
        !key.contains('='),
        !is_name(key),
        key.len() == 0 ==> between.len() == 0,
        text_laws::is_gap(between),
        is_code(rest),
        is_comment(comment),
        text_laws::is_ending(end),
    ensures
        hyprlang::classify(before + key + between + seq!['='] + rest + comment + end) is Malformed,
{
    let head = before + key + between;
    let body = key + between + seq!['='] + rest;
    let code = before + body;
    assert(code =~= head + seq!['='] + rest);
    lemma_gap_is_code(between);
    lemma_code_add(key, between);
    assert(is_code(seq!['=']));
    lemma_code_add(key + between, seq!['=']);
    lemma_code_add(key + between + seq!['='], rest);
    text_laws::white_space_is_listed('=');
    if key.len() > 0 {
        assert(body[0] == key[0]);
    } else {
        assert(body[0] == '=');
    }
    lemma_code(before, body, comment, end);
    assert(before + key + between + seq!['='] + rest + comment + end =~= code + comment + end);
    assert forall|i: int| 0 <= i < head.len() implies code[i] != '=' by {
        if i < before.len() {
            assert(code[i] == before[i]);
            text_laws::lemma_blank_char(before[i]);
        } else if i < before.len() + key.len() {
            assert(code[i] == key[i - before.len()]);
            assert(key.contains(key[i - before.len()]));
        } else {
            assert(code[i] == between[i - before.len() - key.len()]);
            text_laws::lemma_blank_char(between[i - before.len() - key.len()]);
        }
    }
    let eq = head.len() as int;
    assert(code[eq] == '=');
    text::lemma_find_char_is(code, '=', eq);
    assert(code.take(eq) =~= head);
    text_laws::trimming_takes_white_space_away(before, key, between);
    if hyprlang::is_key(key) {
        assert forall|i: int| 0 <= i < key.len() implies !text_laws::blanks().contains(
            #[trigger] key[i],
        ) && key[i] != '{' && key[i] != '}' && key[i] != '=' && key[i] != '#' by {
            text_laws::white_space_is_listed(key[i]);
            assert(key.contains(key[i]));
        }
        assert(false);
    }
    text::lemma_trim_keeps(code, eq);
    let trimmed = text::trim(code);
    if trimmed == seq!['}'] {
        let i = choose|i: int| 0 <= i < trimmed.len() && trimmed[i] == '=';
        assert(trimmed[i] == '}');
    }
    if hyprlang::is_header(trimmed) {
        let i = choose|i: int| 0 <= i < trimmed.len() && trimmed[i] == '=';
        let name = trimmed.drop_last();
        assert(name[i] == '=');
        text::lemma_trim_keeps(name, i);
        assert(false);
    }
}

/// A line that opens a section puts it inside those that are open, a line that closes one takes the
/// innermost away, and any other line changes nothing.
pub proof fn sections_open_and_close(file: Seq<LineModel<Kind>>, line: LineModel<Kind>)
    ensures
        hyprlang::sections(Seq::<LineModel<Kind>>::empty()).len() == 0,
        line.kind matches Kind::SectionOpen { name } ==> {
            let now = hyprlang::sections(file.push(line));
            &&& now.len() == hyprlang::sections(file).len() + 1
            &&& now.drop_last() == hyprlang::sections(file)
            &&& now.last().name == name
        },
        line.kind is SectionClose ==> {
            let open = hyprlang::sections(file);
            let now = hyprlang::sections(file.push(line));
            &&& open.len() > 0 ==> now == open.take(open.len() - 1)
            &&& open.len() == 0 ==> now.len() == 0
        },
        !(line.kind is SectionOpen) && !(line.kind is SectionClose) ==> hyprlang::sections(
            file.push(line),
        ) == hyprlang::sections(file),
{
    assert(file.push(line).drop_last() =~= file);
    let open = hyprlang::sections(file);
    if open.len() > 0 {
        assert(open.drop_last() =~= open.take(open.len() - 1));
    }
    if line.kind is SectionOpen {
        assert(hyprlang::sections(file.push(line)).drop_last() =~= open);
    }
}

/// Whether a file opens a section of this name directly inside the given ones on line `i`.
pub open spec fn opens(
    file: Seq<LineModel<Kind>>,
    parent: Seq<Step>,
    name: Seq<char>,
    i: int,
) -> bool {
    file[i].kind == (Kind::SectionOpen { name }) && hyprlang::sections(file.take(i)) == parent
}

/// The first section of a name inside others has the number zero, and each later one the number
/// after that of the one before it.
pub proof fn sections_are_numbered(file: Seq<LineModel<Kind>>, line: LineModel<Kind>)
    requires
        line.kind is SectionOpen,
    ensures
        ({
            let parent = hyprlang::sections(file);
            let name = line.kind->name;
            let number = hyprlang::sections(file.push(line)).last().occurrence;
            &&& (forall|i: int| 0 <= i < file.len() ==> !#[trigger] opens(file, parent, name, i))
                ==> number == 0
            &&& forall|i: int|
                0 <= i < file.len() && #[trigger] opens(file, parent, name, i) && (forall|j: int|
                    i < j < file.len() ==> !#[trigger] opens(file, parent, name, j)) ==> number
                    == hyprlang::sections(file.take(i + 1)).last().occurrence + 1
        }),
{
    let parent = hyprlang::sections(file);
    let name = line.kind->name;
    let n = file.len() as int;
    assert(file.push(line).drop_last() =~= file);
    assert(file.take(n) =~= file);
    if forall|i: int| 0 <= i < n ==> !#[trigger] opens(file, parent, name, i) {
        lemma_opened_between(file, parent, name, 0, n);
        assert(file.take(0) =~= Seq::empty());
    }
    assert forall|i: int|
        0 <= i < file.len() && #[trigger] opens(file, parent, name, i) && (forall|j: int|
            i < j < file.len() ==> !#[trigger] opens(file, parent, name, j)) implies
        hyprlang::sections(file.push(line)).last().occurrence == hyprlang::sections(
        file.take(i + 1),
    ).last().occurrence + 1 by {
        lemma_opened_between(file, parent, name, i + 1, n);
        assert(file.take(i + 1).drop_last() =~= file.take(i));
        assert(file.take(i + 1).last() == file[i]);
    }
}

proof fn lemma_opened_between(
    file: Seq<LineModel<Kind>>,
    parent: Seq<Step>,
    name: Seq<char>,
    from: int,
    to: int,
)
    requires
        0 <= from <= to <= file.len(),
        forall|i: int| from <= i < to ==> !#[trigger] opens(file, parent, name, i),
    ensures
        hyprlang::opened(file.take(to), parent, name) == hyprlang::opened(
            file.take(from),
            parent,
            name,
        ),
    decreases to - from,
{
    if from < to {
        lemma_opened_between(file, parent, name, from, to - 1);
        assert(file.take(to).drop_last() =~= file.take(to - 1));
        assert(file.take(to).last() == file[to - 1]);
        assert(!opens(file, parent, name, to - 1));
    }
}

/// Whether line `i` assigns to the key of an address, directly inside its sections.
pub open spec fn assigns(file: Seq<LineModel<Kind>>, path: Address, i: int) -> bool {
    file[i].kind is Entry && file[i].kind->key == path.key && hyprlang::sections(file.take(i))
        == path.sections
}

/// The value at an address is that of the first assignment to its key directly inside its sections,
/// and there is none where no line is such an assignment.
pub proof fn first_assignment_counts(file: Seq<LineModel<Kind>>, path: Address)
    ensures
        (forall|i: int| 0 <= i < file.len() ==> !#[trigger] assigns(file, path, i))
            ==> hyprlang::value_of(file, path) is None,
        forall|i: int|
            0 <= i < file.len() && #[trigger] assigns(file, path, i) && (forall|j: int|
                0 <= j < i ==> !#[trigger] assigns(file, path, j)) && (forall|j: int|
                0 <= j < i ==> !((#[trigger] file[j]).kind is SectionClose && hyprlang::sections(
                    file.take(j),
                ) == path.sections)) ==> hyprlang::value_of(file, path) == Some(
                hyprlang::value_at(file[i]),
            ),
{
    let n = file.len() as int;
    let end = hyprlang::end_of(file, path.sections);
    let p = hyprlang::named(file, path);
    let closers = hyprlang::closers(file, path.sections);
    search::lemma_first_where(n, closers);
    search::lemma_first_where(end, p);
    if forall|i: int| 0 <= i < n ==> !#[trigger] assigns(file, path, i) {
        if let Some(i) = search::first_where(end, p) {
            assert(p(i));
            assert(assigns(file, path, i));
        }
    }
    assert forall|i: int|
        0 <= i < file.len() && #[trigger] assigns(file, path, i) && (forall|j: int|
            0 <= j < i ==> !#[trigger] assigns(file, path, j)) && (forall|j: int|
            0 <= j < i ==> !((#[trigger] file[j]).kind is SectionClose && hyprlang::sections(
                file.take(j),
            ) == path.sections)) implies hyprlang::value_of(file, path) == Some(
        hyprlang::value_at(file[i]),
    ) by {
        assert(i < end) by {
            if end <= i {
                assert(closers(end));
                assert(file[end].kind is SectionClose);
            }
        }
        assert(p(i));
        assert forall|j: int| 0 <= j < i implies !#[trigger] p(j) by {
            assert(!assigns(file, path, j));
        }
        search::lemma_first_where_is(end, p, i);
    }
}

/// Whether the section that line `i` opens is open to the end of the file.
pub open spec fn stays_open(file: Seq<LineModel<Kind>>, i: int) -> bool {
    forall|j: int|
        i < j <= file.len() ==> hyprlang::sections(file.take(i)).len() < #[trigger] hyprlang::sections(
            file.take(j),
        ).len()
}

/// What is wrong with line `i`: it is malformed, it closes a section where none is open, or it opens
/// one that is never closed.
pub open spec fn complaint(file: Seq<LineModel<Kind>>, i: int) -> Option<WarningKind> {
    if file[i].kind is Malformed {
        Some(WarningKind::MalformedLine)
    } else if file[i].kind is SectionClose && hyprlang::sections(file.take(i)).len() == 0 {
        Some(WarningKind::StrayClosingBrace)
    } else if file[i].kind is SectionOpen && stays_open(file, i) {
        Some(WarningKind::UnclosedSection { name: file[i].kind->name })
    } else {
        None
    }
}

/// A file warns of every line that something is wrong with, and of no other, in the order of the
/// lines, which are counted from one.
pub proof fn wrong_lines_are_warned_of(file: Seq<LineModel<Kind>>)
    ensures
        forall|i: int|
            0 <= i < file.len() ==> (#[trigger] complaint(file, i) matches Some(kind)
                ==> hyprlang::warnings(file).contains(Warning { line: i + 1, kind })),
        forall|k: int|
            0 <= k < hyprlang::warnings(file).len() ==> {
                let warning = #[trigger] hyprlang::warnings(file)[k];
                &&& 1 <= warning.line <= file.len()
                &&& complaint(file, warning.line - 1) == Some(warning.kind)
            },
        forall|j: int, k: int|
            0 <= j < k < hyprlang::warnings(file).len() ==> (#[trigger] hyprlang::warnings(
                file,
            )[j]).line < (#[trigger] hyprlang::warnings(file)[k]).line,
{
    lemma_warned_upto(file, file.len() as int);
}

proof fn lemma_complaint(file: Seq<LineModel<Kind>>, i: int)
    requires
        0 <= i < file.len(),
    ensures
        hyprlang::warning_at(file, i) == match complaint(file, i) {
            Some(kind) => Some(Warning { line: i + 1, kind }),
            None => None,
        },
{
    if hyprlang::never_closed(file, i) {
        assert forall|j: int| i < j <= file.len() implies hyprlang::sections(file.take(i)).len()
            < #[trigger] hyprlang::sections(file.take(j)).len() by {
            assert(hyprlang::nesting(file, i) < hyprlang::nesting(file, j));
        }
    }
    if stays_open(file, i) {
        assert forall|j: int| i < j <= file.len() implies hyprlang::nesting(file, i)
            < #[trigger] hyprlang::nesting(file, j) by {
            assert(hyprlang::sections(file.take(i)).len() < hyprlang::sections(
                file.take(j),
            ).len());
        }
    }
}

proof fn lemma_warned_upto(file: Seq<LineModel<Kind>>, n: int)
    requires
        0 <= n <= file.len(),
    ensures
        forall|i: int|
            0 <= i < n ==> (#[trigger] complaint(file, i) matches Some(kind)
                ==> hyprlang::warnings_upto(file, n).contains(Warning { line: i + 1, kind })),
        forall|k: int|
            0 <= k < hyprlang::warnings_upto(file, n).len() ==> {
                let warning = #[trigger] hyprlang::warnings_upto(file, n)[k];
                &&& 1 <= warning.line <= n
                &&& complaint(file, warning.line - 1) == Some(warning.kind)
            },
        forall|j: int, k: int|
            0 <= j < k < hyprlang::warnings_upto(file, n).len() ==> (
            #[trigger] hyprlang::warnings_upto(file, n)[j]).line < (
            #[trigger] hyprlang::warnings_upto(file, n)[k]).line,
    decreases n,
{
    if n > 0 {
        lemma_warned_upto(file, n - 1);
        lemma_complaint(file, n - 1);
        let old_all = hyprlang::warnings_upto(file, n - 1);
        let all = hyprlang::warnings_upto(file, n);
        assert forall|i: int| 0 <= i < n implies (#[trigger] complaint(file, i) matches Some(kind)
            ==> all.contains(Warning { line: i + 1, kind })) by {
            if let Some(kind) = complaint(file, i) {
                let warning = Warning { line: i + 1, kind };
                if i < n - 1 {
                    let k = choose|k: int| 0 <= k < old_all.len() && old_all[k] == warning;
                    assert(all[k] == warning);
                } else {
                    assert(all[all.len() - 1] == warning);
                }
            }
        }
        assert forall|k: int| 0 <= k < all.len() implies {
            let warning = #[trigger] all[k];
            &&& 1 <= warning.line <= n
            &&& complaint(file, warning.line - 1) == Some(warning.kind)
        } by {
            if k < old_all.len() {
                assert(all[k] == old_all[k]);
            }
        }
    }
}

/// An assignment that is added is laid out like the last one in its sections: with the white space
/// before its key and around its `=`. Where there is none it stands behind the white space of the
/// section's header and four spaces, with one space on each side of its `=`; outside every section
/// it stands at the beginning of its line.
pub proof fn added_assignment_is_laid_out_like_the_last(
    file: Seq<LineModel<Kind>>,
    plan: Plan,
    key: Seq<char>,
    value: Seq<char>,
    before: Seq<char>,
    other: Seq<char>,
    between: Seq<char>,
    gap: Seq<char>,
    other_value: Seq<char>,
    behind: Seq<char>,
)
    requires
        0 <= plan.index <= file.len(),
        plan.sibling matches Some(i) ==> {
            &&& file[i].raw == before + other + between + seq!['='] + gap + other_value + behind
            &&& file[i].kind is Entry
            &&& file[i].kind->Entry_key == other
            &&& file[i].kind->key_start == before.len()
            &&& file[i].kind->value_start == (before + other + between + seq!['='] + gap).len()
        },
        plan.sibling is None ==> (plan.header matches Some(i) ==> {
            &&& file[i].raw == before + other
            &&& text_laws::is_blank(before)
            &&& other.len() > 0
            &&& !text_laws::blanks().contains(other[0])
        }),
    ensures
        ({
            let after = hyprlang::appended(file, key, value, plan);
            let line = after[plan.index];
            let end = lines::terminator(file);
            &&& line.kind is Entry
            &&& line.kind->key == key
            &&& hyprlang::value_at(line) == value
            &&& plan.sibling is Some ==> line.raw == before + key + between + seq!['='] + gap
                + value + end
            &&& plan.sibling is None && plan.header is Some ==> line.raw == before + seq![
                ' ',
                ' ',
                ' ',
                ' ',
            ] + key + seq![' ', '=', ' '] + value + end
            &&& plan.sibling is None && plan.header is None ==> line.raw == key + seq![' ', '=', ' ']
                + value + end
        }),
{
    let after = hyprlang::appended(file, key, value, plan);
    let end = lines::terminator(file);
    let indent = hyprlang::indent_for(file, plan);
    let separator = hyprlang::separator_for(file, plan);
    let line = hyprlang::new_entry(indent, key, separator, value, end);
    if plan.index == file.len() {
        assert(lines::terminated(file, end).len() == file.len());
    }
    assert(after[plan.index] == line);
    assert(hyprlang::value_at(line) =~= value);
    reveal_strlit("    ");
    reveal_strlit(" = ");
    if let Some(i) = plan.sibling {
        assert(indent =~= before);
        assert(separator =~= between + seq!['='] + gap);
        assert(line.raw =~= before + key + between + seq!['='] + gap + value + end);
    } else if let Some(i) = plan.header {
        text_laws::lemma_body(before, other);
        assert(file[i].raw.take(before.len() as int) =~= before);
        assert(line.raw =~= before + seq![' ', ' ', ' ', ' '] + key + seq![' ', '=', ' '] + value
            + end);
    } else {
        assert(line.raw =~= key + seq![' ', '=', ' '] + value + end);
    }
}

/// Where an assignment is added: before the line that closes its section or at the end of the file,
/// taking after the last assignment directly inside the sections.
pub proof fn added_assignment_has_its_place(file: Seq<LineModel<Kind>>, path: Address)
    requires
        hyprlang::resolved(file, path) is Append,
    ensures
        ({
            let plan = hyprlang::resolved(file, path)->Append_0;
            &&& 0 <= plan.index <= file.len()
            &&& plan.index < file.len() ==> file[plan.index].kind is SectionClose
                && hyprlang::sections(file.take(plan.index)) == path.sections
            &&& path.sections.len() == 0 ==> plan.index == file.len() && plan.header is None
            &&& plan.sibling matches Some(i) ==> {
                &&& 0 <= i < plan.index
                &&& file[i].kind is Entry
                &&& hyprlang::sections(file.take(i)) == path.sections
                &&& forall|j: int|
                    i < j < plan.index ==> !((#[trigger] file[j]).kind is Entry
                        && hyprlang::sections(file.take(j)) == path.sections)
            }
            &&& plan.sibling is None ==> forall|j: int|
                0 <= j < plan.index ==> !((#[trigger] file[j]).kind is Entry && hyprlang::sections(
                    file.take(j),
                ) == path.sections)
            &&& plan.header matches Some(i) ==> {
                &&& 0 <= i < plan.index
                &&& file[i].kind is SectionOpen
                &&& hyprlang::sections(file.take(i + 1)) == path.sections
            }
        }),
{
    let n = file.len() as int;
    let target = path.sections;
    let plan = hyprlang::resolved(file, path)->Append_0;
    let end = hyprlang::end_of(file, target);
    search::lemma_first_where(n, hyprlang::closers(file, target));
    if end < n {
        assert(hyprlang::closers(file, target)(end));
    }
    let p = hyprlang::children(file, target);
    search::lemma_last_where(end, p);
    search::lemma_first_where(end, hyprlang::headers(file, target));
    if let Some(i) = plan.sibling {
        assert(p(i));
        assert forall|j: int| i < j < plan.index implies !((#[trigger] file[j]).kind is Entry
            && hyprlang::sections(file.take(j)) == target) by {
            assert(!p(j));
        }
    } else {
        assert forall|j: int| 0 <= j < plan.index implies !((#[trigger] file[j]).kind is Entry
            && hyprlang::sections(file.take(j)) == target) by {
            assert(!p(j));
        }
    }
    if let Some(i) = plan.header {
        assert(hyprlang::headers(file, target)(i));
    }
}

/// The first field of a value is what stands before its first comma without the white space around
/// it, and the portion what stands behind that comma and white space. A value without a comma is one
/// field and has no portion.
pub proof fn first_comma_ends_the_first_field(
    before: Seq<char>,
    field: Seq<char>,
    between: Seq<char>,
    gap: Seq<char>,
    portion: Seq<char>,
)
    requires
        text_laws::is_blank(before),
        text_laws::is_tight(field),
        !field.contains(','),
        text_laws::is_blank(between),
        text_laws::is_blank(gap),
        portion.len() > 0 ==> !text_laws::blanks().contains(portion[0]),
    ensures
        ({
            let value = before + field + between + seq![','] + gap + portion;
            &&& hyprlang::first_field(value) == field
            &&& hyprlang::portion_of(value) == Some(portion)
        }),
        hyprlang::first_field(before + field + between) == field,
        hyprlang::portion_of(before + field + between) is None,
{
    let head = before + field + between;
    let value = head + seq![','] + gap + portion;
    assert forall|i: int| 0 <= i < head.len() implies head[i] != ',' by {
        if i < before.len() {
            assert(head[i] == before[i]);
            text_laws::lemma_blank_char(before[i]);
        } else if i < before.len() + field.len() {
            assert(head[i] == field[i - before.len()]);
            assert(field.contains(field[i - before.len()]));
        } else {
            assert(head[i] == between[i - before.len() - field.len()]);
            text_laws::lemma_blank_char(between[i - before.len() - field.len()]);
        }
    }
    let comma = head.len() as int;
    assert forall|i: int| 0 <= i < comma implies value[i] != ',' by {
        assert(value[i] == head[i]);
    }
    assert(value[comma] == ',');
    text::lemma_find_char_is(value, ',', comma);
    text::lemma_find_char_is(head, ',', comma);
    assert(value.take(comma) =~= head);
    assert(head.take(comma) =~= head);
    text_laws::trimming_takes_white_space_away(before, field, between);
    assert(value.skip(comma + 1) =~= gap + portion);
    text_laws::lemma_body(gap, portion);
    let start = hyprlang::portion_start(value);
    if portion.len() > 0 {
        assert(start == comma + 1 + gap.len());
    } else {
        text::lemma_leading_space(gap + portion);
        assert(text::trim_start(gap + portion).len() == 0);
        assert(start == value.len());
    }
    assert(value.skip(start) =~= portion);
}

/// How a step of an address is written: by its name, with its number in brackets unless that is
/// zero.
pub open spec fn is_written_step(written: Seq<char>, step: Step) -> bool {
    if step.occurrence == 0 {
        written == step.name
    } else {
        exists|digits: Seq<char>|
            #![trigger step.name + seq!['['] + digits + seq![']']]
            {
                &&& written == step.name + seq!['['] + digits + seq![']']
                &&& text_laws::value_of_digits(digits) == step.occurrence
                &&& forall|i: int| 0 <= i < digits.len() ==> '0' <= #[trigger] digits[i] <= '9'
            }
    }
}

/// An address is written as its steps and its key with a dot between any two: what stands before the
/// last dot is the address of the last section, written like a key.
pub proof fn address_is_written_step_by_step(sections: Seq<Step>, step: Step, key: Seq<char>)
    requires
        0 <= step.occurrence,
    ensures
        hyprlang::address_text(Address { sections: Seq::empty(), key }) == key,
        exists|written: Seq<char>|
            #![trigger is_written_step(written, step)]
            {
                &&& is_written_step(written, step)
                &&& hyprlang::address_text(Address { sections: sections.push(step), key })
                    == hyprlang::address_text(Address { sections, key: written }) + seq!['.'] + key
            },
{
    let none = Address { sections: Seq::empty(), key };
    assert(hyprlang::address_text(none) =~= key);
    let all = sections.push(step);
    assert(all.drop_last() =~= sections);
    reveal_strlit(".");
    reveal_strlit("[");
    reveal_strlit("].");
    let digits = text::decimal(step.occurrence);
    text_laws::decimal_stands_for_its_number(step.occurrence);
    let written = if step.occurrence == 0 {
        step.name
    } else {
        step.name + seq!['['] + digits + seq![']']
    };
    assert(is_written_step(written, step));
    let text_now = hyprlang::address_text(Address { sections: all, key });
    assert(text_now =~= hyprlang::address_text(Address { sections, key: written }) + seq!['.'] + key);
}

/// What was set is the value that a line of the file assigns, on a line that is otherwise as it was:
/// an edit keeps the white space, the key and the comment of its line.
pub proof fn edited_line_keeps_its_layout(
    file: Seq<LineModel<Kind>>,
    path: Address,
    value: Seq<char>,
)
    requires
        file_laws::all_fit(file),
        file_laws::is_plain(value),
        hyprlang::value_of(file, path) is Some,
    ensures
        ({
            let i = hyprlang::resolved(file, path)->Entry_0;
            let after = hyprlang::after_set(file, path, value);
            let old_value = hyprlang::value_of(file, path)->0;
            let start = file[i].kind->value_start;
            &&& 0 <= i < file.len()
            &&& assigns(file, path, i)
            &&& after.len() == file.len()
            &&& forall|j: int| 0 <= j < file.len() && j != i ==> #[trigger] after[j] == file[j]
            &&& file[i].raw == file[i].raw.take(start) + old_value + file[i].raw.skip(
                start + old_value.len(),
            )
            &&& after[i].raw == file[i].raw.take(start) + value + file[i].raw.skip(
                start + old_value.len(),
            )
        }),
{
    file_laws::lemma_plain(value);
    let end = hyprlang::end_of(file, path.sections);
    search::lemma_first_where(file.len() as int, hyprlang::closers(file, path.sections));
    search::lemma_first_where(end, hyprlang::named(file, path));
    let i = hyprlang::resolved(file, path)->Entry_0;
    assert(hyprlang::named(file, path)(i));
    assert(hyprlang::spans_fit(file[i]));
    let start = file[i].kind->value_start;
    let old_value = hyprlang::value_of(file, path)->0;
    assert(old_value.len() == file[i].kind->value_end - start);
    assert(file[i].raw =~= file[i].raw.take(start) + old_value + file[i].raw.skip(
        start + old_value.len(),
    ));
}

/// Whether line `i` assigns to a repeatable key with this first field, outside every section.
pub open spec fn repeats(
    file: Seq<LineModel<Kind>>,
    key: Seq<char>,
    field: Seq<char>,
    i: int,
) -> bool {
    &&& file[i].kind is Entry
    &&& file[i].kind->key == key
    &&& hyprlang::sections(file.take(i)).len() == 0
    &&& hyprlang::first_field(hyprlang::value_at(file[i])) == field
}

/// A repeatable key with a first field is the first assignment outside every section to that key
/// with that field, and there is none where no line is one. Assignments inside sections do not
/// count.
pub proof fn first_repeated_key_counts(
    file: Seq<LineModel<Kind>>,
    key: Seq<char>,
    field: Seq<char>,
)
    ensures
        hyprlang::repeated_at(file, key, field) is None <==> forall|i: int|
            0 <= i < file.len() ==> !#[trigger] repeats(file, key, field, i),
        forall|i: int|
            0 <= i < file.len() && #[trigger] repeats(file, key, field, i) && (forall|j: int|
                0 <= j < i ==> !#[trigger] repeats(file, key, field, j))
                ==> hyprlang::repeated_at(file, key, field) == Some(i) && hyprlang::field_of(
                file,
                key,
                field,
            ) == hyprlang::portion_of(hyprlang::value_at(file[i])),
{
    let n = file.len() as int;
    let p = hyprlang::repeated(file, key, field);
    search::lemma_first_where(n, p);
    assert forall|i: int| 0 <= i < n implies #[trigger] p(i) == repeats(file, key, field, i) by {
        let open = hyprlang::sections(file.take(i));
        if open.len() == 0 {
            assert(open =~= Seq::<Step>::empty());
        }
    }
    if let Some(i) = hyprlang::repeated_at(file, key, field) {
        assert(p(i));
        assert(repeats(file, key, field, i));
    } else {
        assert forall|i: int| 0 <= i < n implies !#[trigger] repeats(file, key, field, i) by {
            assert(!p(i));
        }
    }
    assert forall|i: int|
        0 <= i < file.len() && #[trigger] repeats(file, key, field, i) && (forall|j: int|
            0 <= j < i ==> !#[trigger] repeats(file, key, field, j)) implies hyprlang::repeated_at(
        file,
        key,
        field,
    ) == Some(i) by {
        assert(p(i));
        assert forall|j: int| 0 <= j < i implies !#[trigger] p(j) by {
            assert(!repeats(file, key, field, j));
        }
        search::lemma_first_where_is(n, p, i);
    }
}

} // verus!
