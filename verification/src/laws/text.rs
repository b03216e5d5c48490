//! The laws of text: which characters are of which kind, and how a text is trimmed, split into
//! lines and written as a number.

use crate::parsers::assignment;
use crate::text;
use vstd::prelude::*;

verus! {

/// The characters of Unicode that are white space, one by one.
pub open spec fn blanks() -> Seq<char> {
    seq![
        '\t',
        '\n',
        '\u{b}',
        '\u{c}',
        '\r',
        ' ',
        '\u{85}',
        '\u{a0}',
        '\u{1680}',
        '\u{2000}',
        '\u{2001}',
        '\u{2002}',
        '\u{2003}',
        '\u{2004}',
        '\u{2005}',
        '\u{2006}',
        '\u{2007}',
        '\u{2008}',
        '\u{2009}',
        '\u{200a}',
        '\u{2028}',
        '\u{2029}',
        '\u{202f}',
        '\u{205f}',
        '\u{3000}',
    ]
}

/// Whether a text is made of white space alone.
pub open spec fn is_blank(s: Seq<char>) -> bool {
    forall|i: int| 0 <= i < s.len() ==> blanks().contains(#[trigger] s[i])
}

/// Whether a text neither begins nor ends with white space.
pub open spec fn is_tight(s: Seq<char>) -> bool {
    s.len() > 0 ==> !blanks().contains(s[0]) && !blanks().contains(s.last())
}

/// Whether a text holds none of the given characters.
pub open spec fn lacks(s: Seq<char>, chars: Seq<char>) -> bool {
    forall|i: int| 0 <= i < s.len() ==> !chars.contains(#[trigger] s[i])
}

/// White space is what the list of it holds.
pub proof fn white_space_is_listed(c: char)
    ensures
        text::is_space(c) <==> blanks().contains(c),
{
    let n = c as u32;
    let all = blanks();
    assert(all[0] == '\t' && all[1] == '\n' && all[2] == '\u{b}' && all[3] == '\u{c}' && all[4]
        == '\r' && all[5] == ' ' && all[6] == '\u{85}' && all[7] == '\u{a0}' && all[8]
        == '\u{1680}' && all[9] == '\u{2000}' && all[10] == '\u{2001}' && all[11] == '\u{2002}'
        && all[12] == '\u{2003}' && all[13] == '\u{2004}' && all[14] == '\u{2005}' && all[15]
        == '\u{2006}' && all[16] == '\u{2007}' && all[17] == '\u{2008}' && all[18] == '\u{2009}'
        && all[19] == '\u{200a}' && all[20] == '\u{2028}' && all[21] == '\u{2029}' && all[22]
        == '\u{202f}' && all[23] == '\u{205f}' && all[24] == '\u{3000}');
    if text::is_space(c) {
        if 0x09 <= n <= 0x0d {
            assert(all[n - 0x09] == c);
        } else if 0x2000 <= n <= 0x200a {
            assert(all[n - 0x2000 + 9] == c);
        } else {
            assert(c == all[5] || c == all[6] || c == all[7] || c == all[8] || c == all[20] || c
                == all[21] || c == all[22] || c == all[23] || c == all[24]);
        }
    }
    if all.contains(c) {
        let i = choose|i: int| 0 <= i < all.len() && all[i] == c;
        assert(0 <= i < 25);
    }
}

/// Trimming takes the white space around a text away and nothing else.
pub proof fn trimming_takes_white_space_away(before: Seq<char>, s: Seq<char>, after: Seq<char>)
    requires
        is_blank(before),
        is_tight(s),
        is_blank(after),
    ensures
        text::trim(before + s + after) == s,
        s.len() > 0 ==> text::trim_start(before + s + after) == s + after,
{
    let whole = before + s + after;
    let start = before.len() as int;
    let end = start + s.len();
    assert forall|i: int| 0 <= i < start implies text::is_space(#[trigger] whole[i]) by {
        assert(whole[i] == before[i]);
        white_space_is_listed(before[i]);
    }
    assert forall|i: int| end <= i < whole.len() implies text::is_space(#[trigger] whole[i]) by {
        assert(whole[i] == after[i - end]);
        white_space_is_listed(after[i - end]);
    }
    if s.len() > 0 {
        assert(whole[start] == s[0] && whole[end - 1] == s.last());
        white_space_is_listed(s[0]);
        white_space_is_listed(s.last());
    }
    text::lemma_trim_is(whole, start, end);
    assert(whole.subrange(start, end) =~= s);
    if s.len() > 0 {
        assert(whole.skip(start) =~= s + after);
    }
}

/// Letters are those from `A` to `Z` and from `a` to `z`.
pub proof fn letters_are_listed(c: char)
    ensures
        text::is_letter(c) <==> "ABCDEFGHIJKLMNOPQRSTUVWXYZabcdefghijklmnopqrstuvwxyz"@.contains(c),
{
    reveal_strlit("ABCDEFGHIJKLMNOPQRSTUVWXYZabcdefghijklmnopqrstuvwxyz");
    let all = "ABCDEFGHIJKLMNOPQRSTUVWXYZabcdefghijklmnopqrstuvwxyz"@;
    if 0x41 <= c as u32 <= 0x5a {
        assert(all[c as u32 - 0x41] == c);
    } else if 0x61 <= c as u32 <= 0x7a {
        assert(all[c as u32 - 0x61 + 26] == c);
    }
    if all.contains(c) {
        let i = choose|i: int| 0 <= i < all.len() && all[i] == c;
        assert(0 <= i < 52);
    }
}

/// Digits are those from `0` to `9`.
pub proof fn digits_are_listed(c: char)
    ensures
        text::is_digit(c) <==> "0123456789"@.contains(c),
{
    reveal_strlit("0123456789");
    let all = "0123456789"@;
    if 0x30 <= c as u32 <= 0x39 {
        assert(all[c as u32 - 0x30] == c);
    }
    if all.contains(c) {
        let i = choose|i: int| 0 <= i < all.len() && all[i] == c;
        assert(0 <= i < 10);
    }
}

/// Hexadecimal digits are those from `0` to `9`, and the letters from `a` to `f` in either case.
pub proof fn hexadecimal_digits_are_listed(c: char)
    ensures
        text::is_hex_digit(c) <==> "0123456789abcdefABCDEF"@.contains(c),
{
    reveal_strlit("0123456789abcdefABCDEF");
    let all = "0123456789abcdefABCDEF"@;
    if 0x30 <= c as u32 <= 0x39 {
        assert(all[c as u32 - 0x30] == c);
    } else if 0x61 <= c as u32 <= 0x66 {
        assert(all[c as u32 - 0x61 + 10] == c);
    } else if 0x41 <= c as u32 <= 0x46 {
        assert(all[c as u32 - 0x41 + 16] == c);
    }
    if all.contains(c) {
        let i = choose|i: int| 0 <= i < all.len() && all[i] == c;
        assert(0 <= i < 22);
    }
}

/// A text breaks its line exactly where one of its characters is a line feed or a carriage return.
pub proof fn line_is_broken_by_feed_or_return(s: Seq<char>)
    ensures
        text::breaks_line(s) <==> exists|i: int|
            0 <= i < s.len() && (#[trigger] s[i] == '\n' || s[i] == '\r'),
{
    if text::breaks_line(s) {
        if s.contains('\n') {
            let i = choose|i: int| 0 <= i < s.len() && s[i] == '\n';
            assert(s[i] == '\n');
        } else {
            let i = choose|i: int| 0 <= i < s.len() && s[i] == '\r';
            assert(s[i] == '\r');
        }
    }
}

/// The line endings that a line can have; the last line of a file can have none.
pub open spec fn is_ending(end: Seq<char>) -> bool {
    end == Seq::<char>::empty() || end == seq!['\n'] || end == seq!['\r', '\n']
}

/// What stands before the ending of a line is its content, whichever ending that is.
pub proof fn ending_is_taken_off(content: Seq<char>, end: Seq<char>)
    requires
        is_ending(end),
        lacks(content, seq!['\n', '\r']),
    ensures
        text::strip_terminator(content + end) == content,
        text::ends_line(content + end) <==> end.len() > 0,
        text::ends_crlf(content + end) <==> end.len() == 2,
{
    let raw = content + end;
    let broken = seq!['\n', '\r'];
    assert(broken[0] == '\n' && broken[1] == '\r');
    if content.len() > 0 {
        assert(!broken.contains(content[content.len() - 1]));
    }
    if end.len() == 2 {
        assert(raw[raw.len() - 1] == '\n' && raw[raw.len() - 2] == '\r');
    } else if end.len() == 1 {
        assert(raw[raw.len() - 1] == '\n');
    } else {
        assert(raw =~= content);
    }
    assert(text::content_len(raw) == content.len());
    assert(raw.take(content.len() as int) =~= content);
}

/// The lines of a text are the text cut behind every line feed: put together they are the text,
/// none is empty, and a line feed stands at the end of each but the last, and nowhere else.
pub proof fn lines_are_cut_behind_line_feeds(s: Seq<char>)
    ensures
        text::join(text::split_lines(s)) == s,
        forall|i: int|
            0 <= i < text::split_lines(s).len() ==> (#[trigger] text::split_lines(s)[i]).len() > 0,
        forall|i: int, j: int|
            0 <= i < text::split_lines(s).len() && 0 <= j < text::split_lines(s)[i].len() - 1
                ==> #[trigger] text::split_lines(s)[i][j] != '\n',
        forall|i: int|
            0 <= i < text::split_lines(s).len() - 1 ==> (#[trigger] text::split_lines(s)[i]).last()
                == '\n',
    decreases s.len(),
{
    text::lemma_join_split_lines(s);
    text::lemma_find_char(s, '\n');
    let n = text::find_char(s, '\n');
    let all = text::split_lines(s);
    if s.len() > 0 && n < s.len() {
        let rest = s.skip(n + 1);
        lines_are_cut_behind_line_feeds(rest);
        assert forall|i: int| 0 <= i < all.len() implies (#[trigger] all[i]).len() > 0 by {
            if i > 0 {
                assert(all[i] == text::split_lines(rest)[i - 1]);
            }
        }
        assert forall|i: int, j: int|
            0 <= i < all.len() && 0 <= j < all[i].len() - 1 implies #[trigger] all[i][j] != '\n' by {
            if i > 0 {
                assert(all[i] == text::split_lines(rest)[i - 1]);
            }
        }
        assert forall|i: int| 0 <= i < all.len() - 1 implies (#[trigger] all[i]).last() == '\n' by {
            if i > 0 {
                assert(all[i] == text::split_lines(rest)[i - 1]);
            }
        }
    }
}

/// The number that decimal digits stand for, the last of them for the ones.
pub open spec fn value_of_digits(digits: Seq<char>) -> int
    decreases digits.len(),
{
    if digits.len() == 0 {
        0
    } else {
        value_of_digits(digits.drop_last()) * 10 + (digits.last() as int - '0' as int)
    }
}

/// A number written in decimal is made of digits that stand for it, without a zero in front.
pub proof fn decimal_stands_for_its_number(n: int)
    requires
        0 <= n,
    ensures
        text::decimal(n).len() > 0,
        forall|i: int|
            0 <= i < text::decimal(n).len() ==> '0' <= #[trigger] text::decimal(n)[i] <= '9',
        value_of_digits(text::decimal(n)) == n,
        n > 0 ==> text::decimal(n)[0] != '0',
    decreases n,
{
    let written = text::decimal(n);
    if n < 10 {
        assert(written.drop_last() =~= Seq::empty());
        assert(value_of_digits(written.drop_last()) == 0);
        assert(written.last() as int == 0x30 + n);
    } else {
        decimal_stands_for_its_number(n / 10);
        assert(written.drop_last() =~= text::decimal(n / 10));
        assert(written.last() as int == 0x30 + n % 10);
        assert(written[0] == text::decimal(n / 10)[0]);
        assert forall|i: int| 0 <= i < written.len() implies '0' <= #[trigger] written[i] <= '9' by {
            if i < written.len() - 1 {
                assert(written[i] == text::decimal(n / 10)[i]);
            }
        }
    }
}

/// Whether a text stays on one line: it holds neither a line feed nor a carriage return.
pub open spec fn is_one_line(s: Seq<char>) -> bool {
    forall|i: int| 0 <= i < s.len() ==> #[trigger] s[i] != '\n' && s[i] != '\r'
}

/// Whether a text is white space that stays on one line.
pub open spec fn is_gap(s: Seq<char>) -> bool {
    is_blank(s) && is_one_line(s)
}

pub proof fn lemma_one_line_add(a: Seq<char>, b: Seq<char>)
    ensures
        is_one_line(a + b) <==> is_one_line(a) && is_one_line(b),
{
    let s = a + b;
    if is_one_line(s) {
        assert forall|i: int| 0 <= i < a.len() implies #[trigger] a[i] != '\n' && a[i] != '\r' by {
            assert(s[i] == a[i]);
        }
        assert forall|i: int| 0 <= i < b.len() implies #[trigger] b[i] != '\n' && b[i] != '\r' by {
            assert(s[a.len() + i] == b[i]);
        }
    }
    if is_one_line(a) && is_one_line(b) {
        assert forall|i: int| 0 <= i < s.len() implies #[trigger] s[i] != '\n' && s[i] != '\r' by {
            if i < a.len() {
                assert(s[i] == a[i]);
            } else {
                assert(s[i] == b[i - a.len()]);
            }
        }
    }
}

pub proof fn lemma_blank_add(a: Seq<char>, b: Seq<char>)
    requires
        is_blank(a),
        is_blank(b),
    ensures
        is_blank(a + b),
{
    let s = a + b;
    assert forall|i: int| 0 <= i < s.len() implies blanks().contains(#[trigger] s[i]) by {
        if i < a.len() {
            assert(s[i] == a[i]);
        } else {
            assert(s[i] == b[i - a.len()]);
        }
    }
}

/// What stands on a line is its content, whichever ending the line has.
pub proof fn lemma_content(content: Seq<char>, end: Seq<char>)
    requires
        is_ending(end),
        is_one_line(content),
    ensures
        text::strip_terminator(content + end) == content,
{
    let broken = seq!['\n', '\r'];
    assert forall|i: int| 0 <= i < content.len() implies !broken.contains(#[trigger] content[i]) by {
        if broken.contains(content[i]) {
            let k = choose|k: int| 0 <= k < broken.len() && broken[k] == content[i];
            assert(k == 0 || k == 1);
        }
    }
    ending_is_taken_off(content, end);
}

/// White space is neither a letter, a digit, an underscore nor one of the marks of the formats.
pub proof fn lemma_blank_char(c: char)
    requires
        blanks().contains(c),
    ensures
        text::is_space(c),
        c != '=' && c != '#' && c != '{' && c != '}' && c != '[' && c != ']' && c != ',' && c != '_',
        !text::is_letter(c),
        !text::is_digit(c),
{
    white_space_is_listed(c);
}

/// Where a text begins behind white space, and that white space alone leaves nothing.
pub proof fn lemma_body(before: Seq<char>, s: Seq<char>)
    requires
        is_blank(before),
    ensures
        s.len() == 0 ==> text::trim_start(before + s).len() == 0 && text::trim(before + s).len()
            == 0,
        s.len() > 0 && !blanks().contains(s[0]) ==> {
            &&& text::trim_start(before + s) == s
            &&& text::leading_space(before + s) == before.len()
            &&& text::trim(before + s).len() > 0
            &&& text::trim(before + s)[0] == s[0]
        },
{
    let whole = before + s;
    text::lemma_leading_space(whole);
    assert forall|i: int| 0 <= i < before.len() implies text::is_space(#[trigger] whole[i]) by {
        assert(whole[i] == before[i]);
        white_space_is_listed(before[i]);
    }
    if s.len() > 0 {
        white_space_is_listed(s[0]);
        assert(whole[before.len() as int] == s[0]);
        if !blanks().contains(s[0]) {
            assert(text::leading_space(whole) == before.len());
            assert(whole.skip(before.len() as int) =~= s);
            text::lemma_trim_keeps(whole, before.len() as int);
            text::lemma_trim_bounds(whole);
        }
    } else {
        assert(text::leading_space(whole) == whole.len());
        text::lemma_trim_bounds(whole);
    }
}

/// The value behind the first `=` of a line is what stands there without the white space around it.
pub proof fn lemma_value(head: Seq<char>, gap: Seq<char>, value: Seq<char>, tail: Seq<char>)
    requires
        !head.contains('='),
        is_blank(gap),
        is_tight(value),
        is_blank(tail),
    ensures
        ({
            let content = head + seq!['='] + gap + value + tail;
            let eq = head.len() as int;
            &&& text::find_char(content, '=') == eq
            &&& eq < content.len()
            &&& content.take(eq) == head
            &&& content.skip(eq + 1) == gap + value + tail
            &&& text::trim(content.skip(eq + 1)) == value
            &&& assignment::value_end(content, eq) <= content.len()
            &&& 0 <= assignment::value_start(content, eq) <= assignment::value_end(content, eq)
            &&& content.subrange(
                assignment::value_start(content, eq),
                assignment::value_end(content, eq),
            ) == value
        }),
{
    let content = head + seq!['='] + gap + value + tail;
    let eq = head.len() as int;
    assert forall|i: int| 0 <= i < eq implies content[i] != '=' by {
        assert(content[i] == head[i]);
        assert(head.contains(head[i]));
    }
    assert(content[eq] == '=');
    text::lemma_find_char_is(content, '=', eq);
    assert(content.take(eq) =~= head);
    assert(content.skip(eq + 1) =~= gap + value + tail);
    trimming_takes_white_space_away(gap, value, tail);
    assignment::lemma_value_span(content, eq);
}

/// Letters, digits and the underscore, listed.
pub proof fn lemma_word_char(c: char)
    ensures
        "ABCDEFGHIJKLMNOPQRSTUVWXYZabcdefghijklmnopqrstuvwxyz0123456789_"@.contains(c)
            <==> text::is_letter(c) || text::is_digit(c) || c == '_',
{
    reveal_strlit("ABCDEFGHIJKLMNOPQRSTUVWXYZabcdefghijklmnopqrstuvwxyz0123456789_");
    let all = "ABCDEFGHIJKLMNOPQRSTUVWXYZabcdefghijklmnopqrstuvwxyz0123456789_"@;
    if 0x41 <= c as u32 <= 0x5a {
        assert(all[c as u32 - 0x41] == c);
    } else if 0x61 <= c as u32 <= 0x7a {
        assert(all[c as u32 - 0x61 + 26] == c);
    } else if 0x30 <= c as u32 <= 0x39 {
        assert(all[c as u32 - 0x30 + 52] == c);
    } else if c == '_' {
        assert(all[62] == c);
    }
    if all.contains(c) {
        let i = choose|i: int| 0 <= i < all.len() && all[i] == c;
        assert(0 <= i < 63);
    }
}

/// The content of a line that assigns is what stands on it, whichever ending it has, and begins with
/// its key behind white space.
pub proof fn lemma_assigning_line(
    before: Seq<char>,
    key: Seq<char>,
    between: Seq<char>,
    gap: Seq<char>,
    value: Seq<char>,
    tail: Seq<char>,
    end: Seq<char>,
)
    requires
        is_gap(before),
        is_one_line(key),
        is_gap(between),
        is_gap(gap),
        is_one_line(value),
        is_gap(tail),
        is_ending(end),
    ensures
        ({
            let content = before + key + between + seq!['='] + gap + value + tail;
            &&& text::strip_terminator(content + end) == content
            &&& text::content_len(content + end) == content.len()
            &&& key.len() > 0 && !blanks().contains(key[0]) ==> {
                &&& text::trim_start(content) == key + between + seq!['='] + gap + value + tail
                &&& text::leading_space(content) == before.len()
                &&& text::trim(content).len() > 0
                &&& text::trim(content)[0] == key[0]
            }
        }),
{
    let head = before + key + between;
    let content = head + seq!['='] + gap + value + tail;
    lemma_one_line_add(before, key);
    lemma_one_line_add(before + key, between);
    lemma_one_line_add(head, seq!['=']);
    lemma_one_line_add(head + seq!['='], gap);
    lemma_one_line_add(head + seq!['='] + gap, value);
    lemma_one_line_add(head + seq!['='] + gap + value, tail);
    lemma_content(content, end);
    assert(text::strip_terminator(content + end).len() == text::content_len(content + end));
    if key.len() > 0 && !blanks().contains(key[0]) {
        let body = key + between + seq!['='] + gap + value + tail;
        assert(content =~= before + body);
        assert(body[0] == key[0]);
        lemma_body(before, body);
    }
}

/// Where the value of an assignment begins, if it is not empty.
pub proof fn lemma_value_place(head: Seq<char>, gap: Seq<char>, value: Seq<char>, tail: Seq<char>)
    requires
        is_blank(gap),
        value.len() > 0,
        !blanks().contains(value[0]),
    ensures
        assignment::value_start(head + seq!['='] + gap + value + tail, head.len() as int)
            == head.len() + 1 + gap.len(),
{
    let content = head + seq!['='] + gap + value + tail;
    let after = gap + (value + tail);
    assert(content.skip(head.len() as int + 1) =~= after);
    assert((value + tail)[0] == value[0]);
    lemma_body(gap, value + tail);
}

/// A carriage return at the end of a text is taken off with the ending, or alone where the text has
/// no line feed, and only the last of several is.
pub proof fn one_return_is_taken_off(content: Seq<char>)
    ensures
        text::strip_terminator(content + seq!['\r']) == content,
        text::strip_terminator(content + seq!['\r', '\n']) == content,
        text::strip_terminator(content + seq!['\r', '\r', '\n']) == content + seq!['\r'],
        content.len() > 0 && content.last() != '\n' && content.last() != '\r'
            ==> text::strip_terminator(content) == content,
        content.len() == 0 || content.last() != '\r' ==> text::strip_terminator(
            content + seq!['\n'],
        ) == content,
{
    let a = content + seq!['\r'];
    assert(a.take(content.len() as int) =~= content);
    let b = content + seq!['\r', '\n'];
    assert(b[b.len() - 1] == '\n' && b[b.len() - 2] == '\r');
    assert(b.take(content.len() as int) =~= content);
    let c = content + seq!['\r', '\r', '\n'];
    assert(c[c.len() - 1] == '\n' && c[c.len() - 2] == '\r');
    assert(c.take(content.len() as int + 1) =~= content + seq!['\r']);
    assert(content.take(content.len() as int) =~= content);
    let d = content + seq!['\n'];
    assert(d.last() == '\n');
    assert(content.len() > 0 ==> d[d.len() - 2] == content.last());
    assert(d.take(content.len() as int) =~= content);
}

} // verus!
