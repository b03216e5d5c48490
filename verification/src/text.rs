//! Text as a sequence of characters: the searching, trimming and splitting that the
//! line-oriented parsers are built from.

use vstd::prelude::*;
use vstd::slice::slice_subrange;

verus! {

/// Appends one character to a string (`String::push`): the string keeps its characters
/// and gains `c` at its end.
pub assume_specification[ String::push ](s: &mut String, c: char)
    ensures
        final(s)@ == old(s)@.push(c),
;

/// Whether `c` has the Unicode `White_Space` property.
pub open spec fn is_space(c: char) -> bool {
    let n = c as u32;
    ||| 0x09 <= n <= 0x0d
    ||| n == 0x20
    ||| n == 0x85
    ||| n == 0xa0
    ||| n == 0x1680
    ||| 0x2000 <= n <= 0x200a
    ||| n == 0x2028
    ||| n == 0x2029
    ||| n == 0x202f
    ||| n == 0x205f
    ||| n == 0x3000
}

/// Decides [`is_space`].
pub fn is_whitespace(c: char) -> (r: bool)
    ensures
        r == is_space(c),
{
    let n: u32 = c as u32;
    (0x09 <= n && n <= 0x0d) || n == 0x20 || n == 0x85 || n == 0xa0 || n == 0x1680 || (0x2000 <= n
        && n <= 0x200a) || n == 0x2028 || n == 0x2029 || n == 0x202f || n == 0x205f || n == 0x3000
}

/// How many characters stand before the first `c` in `s`; the length of `s` where there
/// is no `c`.
pub open spec fn find_char(s: Seq<char>, c: char) -> int
    decreases s.len(),
{
    if s.len() == 0 || s[0] == c {
        0
    } else {
        1 + find_char(s.drop_first(), c)
    }
}

/// How many white-space characters `s` begins with.
pub open spec fn leading_space(s: Seq<char>) -> int
    decreases s.len(),
{
    if s.len() == 0 || !is_space(s[0]) {
        0
    } else {
        1 + leading_space(s.drop_first())
    }
}

/// How many white-space characters `s` ends with.
pub open spec fn trailing_space(s: Seq<char>) -> int
    decreases s.len(),
{
    if s.len() == 0 || !is_space(s.last()) {
        0
    } else {
        1 + trailing_space(s.drop_last())
    }
}

/// `s` without its leading white space.
pub open spec fn trim_start(s: Seq<char>) -> Seq<char> {
    s.skip(leading_space(s))
}

/// `s` without its trailing white space.
pub open spec fn trim_end(s: Seq<char>) -> Seq<char> {
    s.take(s.len() - trailing_space(s))
}

/// `s` without the white space around it.
pub open spec fn trim(s: Seq<char>) -> Seq<char> {
    trim_end(trim_start(s))
}

/// Whether `c` is one of the letters `A` to `Z` and `a` to `z`.
pub open spec fn is_letter(c: char) -> bool {
    0x41 <= c as u32 <= 0x5a || 0x61 <= c as u32 <= 0x7a
}

/// Whether `c` is one of the digits `0` to `9`.
pub open spec fn is_digit(c: char) -> bool {
    0x30 <= c as u32 <= 0x39
}

/// Whether `c` is one of the hexadecimal digits, in either case.
pub open spec fn is_hex_digit(c: char) -> bool {
    is_digit(c) || 0x41 <= c as u32 <= 0x46 || 0x61 <= c as u32 <= 0x66
}

/// Whether a text holds a line feed or a carriage return.
pub open spec fn breaks_line(s: Seq<char>) -> bool {
    s.contains('\n') || s.contains('\r')
}

/// The length of `raw` without a trailing line feed and a carriage return before it.
pub open spec fn content_len(raw: Seq<char>) -> int {
    let n = if raw.len() > 0 && raw.last() == '\n' {
        raw.len() - 1
    } else {
        raw.len() as int
    };
    if n > 0 && raw[n - 1] == '\r' {
        n - 1
    } else {
        n
    }
}

/// `raw` without its line terminator.
pub open spec fn strip_terminator(raw: Seq<char>) -> Seq<char> {
    raw.take(content_len(raw))
}

/// Whether `raw` ends with a line feed.
pub open spec fn ends_line(raw: Seq<char>) -> bool {
    raw.len() > 0 && raw.last() == '\n'
}

/// Whether `raw` ends with a carriage return and a line feed.
pub open spec fn ends_crlf(raw: Seq<char>) -> bool {
    raw.len() > 1 && raw.last() == '\n' && raw[raw.len() - 2] == '\r'
}

/// The decimal digit for `n`.
pub open spec fn digit(n: int) -> char {
    (0x30 + n) as char
}

/// `n` written in decimal.
pub open spec fn decimal(n: int) -> Seq<char>
    decreases n,
{
    if n < 10 {
        seq![digit(n)]
    } else {
        decimal(n / 10).push(digit(n % 10))
    }
}

/// The lines of `s` in order, each with the line feed that ends it.
pub open spec fn split_lines(s: Seq<char>) -> Seq<Seq<char>>
    decreases s.len(),
{
    proof {
        lemma_find_char(s, '\n');
    }
    if s.len() == 0 {
        Seq::empty()
    } else if find_char(s, '\n') >= s.len() {
        seq![s]
    } else {
        seq![s.take(find_char(s, '\n') + 1)] + split_lines(s.skip(find_char(s, '\n') + 1))
    }
}

/// The given pieces one after the other.
pub open spec fn join(parts: Seq<Seq<char>>) -> Seq<char>
    decreases parts.len(),
{
    if parts.len() == 0 {
        Seq::empty()
    } else {
        join(parts.drop_last()) + parts.last()
    }
}

/// `s` with the characters from `start` up to `end` replaced by `value`.
pub open spec fn splice(s: Seq<char>, start: int, end: int, value: Seq<char>) -> Seq<char> {
    s.take(start) + value + s.skip(end)
}

pub proof fn lemma_join_add(a: Seq<Seq<char>>, b: Seq<Seq<char>>)
    ensures
        join(a + b) == join(a) + join(b),
    decreases b.len(),
{
    if b.len() == 0 {
        assert(a + b =~= a);
        assert(join(a) + join(b) =~= join(a));
    } else {
        lemma_join_add(a, b.drop_last());
        assert((a + b).drop_last() =~= a + b.drop_last());
        assert(join(a) + (join(b.drop_last()) + b.last()) =~= (join(a) + join(b.drop_last()))
            + b.last());
    }
}

pub proof fn lemma_join_one(s: Seq<char>)
    ensures
        join(seq![s]) == s,
{
    assert(seq![s].drop_last() =~= Seq::empty());
    assert(Seq::<char>::empty() + s =~= s);
    assert(join(seq![s]) == join(seq![s].drop_last()) + s);
}

/// Splitting a text into its lines and putting them together again gives the text.
pub proof fn lemma_join_split_lines(s: Seq<char>)
    ensures
        join(split_lines(s)) == s,
    decreases s.len(),
{
    lemma_find_char(s, '\n');
    let n = find_char(s, '\n');
    if s.len() == 0 {
        assert(s =~= Seq::empty());
    } else if n >= s.len() {
        lemma_join_one(s);
    } else {
        lemma_join_split_lines(s.skip(n + 1));
        lemma_join_one(s.take(n + 1));
        lemma_join_add(seq![s.take(n + 1)], split_lines(s.skip(n + 1)));
        assert(s.take(n + 1) + s.skip(n + 1) =~= s);
    }
}

/// Around piece `i`, a sequence of pieces is what precedes it, the piece and what follows.
pub proof fn lemma_join_around(parts: Seq<Seq<char>>, i: int)
    requires
        0 <= i < parts.len(),
    ensures
        join(parts) == join(parts.take(i)) + parts[i] + join(parts.skip(i + 1)),
{
    assert(parts =~= parts.take(i) + seq![parts[i]] + parts.skip(i + 1));
    lemma_join_add(parts.take(i) + seq![parts[i]], parts.skip(i + 1));
    lemma_join_add(parts.take(i), seq![parts[i]]);
    lemma_join_one(parts[i]);
}

pub proof fn lemma_find_char(s: Seq<char>, c: char)
    ensures
        0 <= find_char(s, c) <= s.len(),
        forall|i: int| 0 <= i < find_char(s, c) ==> s[i] != c,
        find_char(s, c) < s.len() ==> s[find_char(s, c)] == c,
    decreases s.len(),
{
    if s.len() > 0 && s[0] != c {
        let rest = s.drop_first();
        lemma_find_char(rest, c);
        assert forall|i: int| 0 <= i < find_char(s, c) implies s[i] != c by {
            if i > 0 {
                assert(s[i] == rest[i - 1]);
            }
        }
    }
}

pub proof fn lemma_find_char_is(s: Seq<char>, c: char, n: int)
    requires
        0 <= n <= s.len(),
        forall|i: int| 0 <= i < n ==> s[i] != c,
        n < s.len() ==> s[n] == c,
    ensures
        find_char(s, c) == n,
{
    lemma_find_char(s, c);
}

pub proof fn lemma_leading_space(s: Seq<char>)
    ensures
        0 <= leading_space(s) <= s.len(),
        forall|i: int| 0 <= i < leading_space(s) ==> is_space(s[i]),
        leading_space(s) < s.len() ==> !is_space(s[leading_space(s)]),
    decreases s.len(),
{
    if s.len() > 0 && is_space(s[0]) {
        let rest = s.drop_first();
        lemma_leading_space(rest);
        assert forall|i: int| 0 <= i < leading_space(s) implies is_space(s[i]) by {
            if i > 0 {
                assert(s[i] == rest[i - 1]);
            }
        }
    }
}

pub proof fn lemma_trailing_space(s: Seq<char>)
    ensures
        0 <= trailing_space(s) <= s.len(),
        forall|i: int| s.len() - trailing_space(s) <= i < s.len() ==> is_space(s[i]),
        trailing_space(s) < s.len() ==> !is_space(s[s.len() - trailing_space(s) - 1]),
    decreases s.len(),
{
    if s.len() > 0 && is_space(s.last()) {
        let rest = s.drop_last();
        lemma_trailing_space(rest);
        assert forall|i: int| s.len() - trailing_space(s) <= i < s.len() implies is_space(s[i]) by {
            if i < rest.len() {
                assert(s[i] == rest[i]);
            }
        }
    }
}

/// Trimming cuts out a stretch that begins after the leading white space.
pub proof fn lemma_trim(s: Seq<char>)
    ensures
        0 <= leading_space(s),
        leading_space(s) + trim(s).len() <= s.len(),
        trim(s) == s.subrange(leading_space(s), leading_space(s) + trim(s).len()),
{
    lemma_leading_space(s);
    lemma_trailing_space(trim_start(s));
    assert(trim(s) =~= s.subrange(leading_space(s), leading_space(s) + trim(s).len()));
}

/// Leading white space that ends inside a prefix is that of the whole.
pub proof fn lemma_leading_space_take(s: Seq<char>, n: int)
    requires
        0 <= n <= s.len(),
        leading_space(s.take(n)) < n,
    ensures
        leading_space(s) == leading_space(s.take(n)),
{
    let k = leading_space(s.take(n));
    lemma_leading_space(s.take(n));
    lemma_leading_space(s);
    assert forall|i: int| 0 <= i < k implies is_space(s[i]) by {
        assert(s.take(n)[i] == s[i]);
    }
    assert(s.take(n)[k] == s[k]);
}

/// Whether the characters of `s` from `start` up to `end` are white space.
pub open spec fn spaces(s: Seq<char>, start: int, end: int) -> bool {
    forall|i: int| start <= i < end ==> is_space(#[trigger] s[i])
}

/// What is left of a text without the white space around it, told by its first and last
/// character.
pub proof fn lemma_trim_is(s: Seq<char>, start: int, end: int)
    requires
        0 <= start <= end <= s.len(),
        spaces(s, 0, start),
        spaces(s, end, s.len() as int),
        start < end ==> !is_space(s[start]) && !is_space(s[end - 1]),
    ensures
        trim(s) == s.subrange(start, end),
        start < end ==> leading_space(s) == start,
{
    lemma_leading_space(s);
    let rest = trim_start(s);
    lemma_trailing_space(rest);
    if start < end {
        assert(leading_space(s) == start);
        let k = rest.len() - trailing_space(rest);
        assert(rest[end - 1 - start] == s[end - 1]);
        if k > 0 {
            assert(rest[k - 1] == s[start + k - 1]);
        }
        assert(k == end - start);
        assert(trim(s) =~= s.subrange(start, end));
    } else {
        assert forall|i: int| 0 <= i < s.len() implies is_space(#[trigger] s[i]) by {}
        assert(leading_space(s) == s.len());
        assert(trim(s) =~= s.subrange(start, end));
    }
}

/// Trimming cuts between two characters that are not white space, or leaves nothing.
pub proof fn lemma_trim_bounds(s: Seq<char>)
    ensures
        ({
            let start = leading_space(s);
            let end = start + trim(s).len();
            &&& 0 <= start <= end <= s.len()
            &&& trim(s) == s.subrange(start, end)
            &&& spaces(s, 0, start)
            &&& spaces(s, end, s.len() as int)
            &&& start < end ==> !is_space(s[start]) && !is_space(s[end - 1])
        }),
{
    lemma_trim(s);
    lemma_leading_space(s);
    let rest = trim_start(s);
    lemma_trailing_space(rest);
    let start = leading_space(s);
    let end = start + trim(s).len();
    assert forall|i: int| end <= i < s.len() implies is_space(#[trigger] s[i]) by {
        assert(rest[i - start] == s[i]);
    }
    if start < end {
        assert(rest[end - 1 - start] == s[end - 1]);
        assert(start < s.len());
    }
}

/// White space around a text is trimmed away with that of the text itself.
pub proof fn lemma_trim_pad(s: Seq<char>, start: int, end: int)
    requires
        0 <= start <= end <= s.len(),
        spaces(s, 0, start),
        spaces(s, end, s.len() as int),
    ensures
        trim(s) == trim(s.subrange(start, end)),
{
    let inner = s.subrange(start, end);
    lemma_trim_bounds(inner);
    let a = leading_space(inner);
    let b = a + trim(inner).len();
    assert forall|i: int| 0 <= i < start + a implies is_space(#[trigger] s[i]) by {
        if i >= start {
            assert(inner[i - start] == s[i]);
        }
    }
    assert forall|i: int| start + b <= i < s.len() implies is_space(#[trigger] s[i]) by {
        if i < end {
            assert(inner[i - start] == s[i]);
        }
    }
    if a < b {
        assert(inner[a] == s[start + a]);
        assert(inner[b - 1] == s[start + b - 1]);
    }
    lemma_trim_is(s, start + a, start + b);
    assert(s.subrange(start + a, start + b) =~= inner.subrange(a, b));
}

/// Trimming the start first changes nothing.
pub proof fn lemma_trim_start(s: Seq<char>)
    ensures
        trim(trim_start(s)) == trim(s),
{
    lemma_leading_space(s);
    let skipped = leading_space(s);
    lemma_trim_pad(s, skipped, s.len() as int);
    assert(s.subrange(skipped, s.len() as int) =~= trim_start(s));
}

/// A carriage return at the end of a text is trimmed away.
pub proof fn lemma_trim_return(s: Seq<char>)
    ensures
        trim(s.push('\r')) == trim(s),
{
    let more = s.push('\r');
    lemma_trim_pad(more, 0, s.len() as int);
    assert(more.subrange(0, s.len() as int) =~= s);
}

/// Trimming keeps what is not white space.
pub proof fn lemma_trim_keeps(s: Seq<char>, i: int)
    requires
        0 <= i < s.len(),
        !is_space(s[i]),
    ensures
        trim(s).contains(s[i]),
        leading_space(s) <= i < leading_space(s) + trim(s).len(),
{
    lemma_trim_bounds(s);
    let start = leading_space(s);
    assert(trim(s)[i - start] == s[i]);
}

/// Trimming twice is trimming once.
pub proof fn lemma_trim_twice(s: Seq<char>)
    ensures
        trim(trim(s)) == trim(s),
{
    lemma_trim_bounds(s);
    let start = leading_space(s);
    let end = start + trim(s).len();
    lemma_trim_pad(s, start, end);
}

/// A carriage return at the end of a text does not change how it begins.
pub proof fn lemma_trim_start_return(content: Seq<char>, more: Seq<char>)
    requires
        more == content || more == content.push('\r'),
    ensures
        trim_start(content).len() == 0 <==> trim_start(more).len() == 0,
        trim_start(content).len() > 0 ==> trim_start(content)[0] == trim_start(
            more,
        )[0],
{
    lemma_leading_space(content);
    lemma_leading_space(more);
    let a = leading_space(content);
    let b = leading_space(more);
    if a < content.len() {
        assert(content[a] == more[a]);
        if b < a {
            assert(content[b] == more[b]);
        }
        assert(a == b);
    } else if b < more.len() {
        if b < content.len() {
            assert(content[b] == more[b]);
        }
        assert(false);
    }
}

/// The characters of a string, for access by index.
pub fn chars(s: &str) -> (r: Vec<char>)
    ensures
        r@ == s@,
{
    let mut r: Vec<char> = Vec::new();
    for c in it: s.chars()
        invariant
            it.seq() == s@,
            r@ == s@.take(it.index()),
    {
        assert(s@.take(it.index() + 1) =~= s@.take(it.index()).push(c));
        r.push(c);
    }
    assert(s@.take(s@.len() as int) =~= s@);
    r
}

/// The string made of the given characters.
pub fn text(s: &[char]) -> (r: String)
    ensures
        r@ == s@,
{
    let mut r = String::new();
    let mut i: usize = 0;
    while i < s.len()
        invariant
            i <= s.len(),
            r@ == s@.take(i as int),
        decreases s.len() - i,
    {
        assert(s@.take(i + 1) =~= s@.take(i as int).push(s@[i as int]));
        r.push(s[i]);
        i += 1;
    }
    assert(s@.take(s@.len() as int) =~= s@);
    r
}

/// Computes [`find_char`]: the index of the first `c`, if there is one.
pub fn index_of(s: &[char], c: char) -> (r: Option<usize>)
    ensures
        match r {
            Some(i) => i < s@.len() && i == find_char(s@, c),
            None => find_char(s@, c) == s@.len(),
        },
{
    let mut i: usize = 0;
    while i < s.len()
        invariant
            i <= s.len(),
            forall|j: int| 0 <= j < i ==> s@[j] != c,
        decreases s.len() - i,
    {
        if s[i] == c {
            proof {
                lemma_find_char_is(s@, c, i as int);
            }
            return Some(i);
        }
        i += 1;
    }
    proof {
        lemma_find_char_is(s@, c, s@.len() as int);
    }
    None
}

/// Computes [`leading_space`].
pub fn count_leading_space(s: &[char]) -> (r: usize)
    ensures
        r == leading_space(s@),
        r <= s@.len(),
{
    let mut i: usize = 0;
    while i < s.len() && is_whitespace(s[i])
        invariant
            i <= s.len(),
            forall|j: int| 0 <= j < i ==> is_space(s@[j]),
        decreases s.len() - i,
    {
        i += 1;
    }
    proof {
        lemma_leading_space(s@);
    }
    i
}

/// Computes [`trailing_space`].
pub fn count_trailing_space(s: &[char]) -> (r: usize)
    ensures
        r == trailing_space(s@),
        r <= s@.len(),
{
    let mut i: usize = s.len();
    while i > 0 && is_whitespace(s[i - 1])
        invariant
            i <= s.len(),
            forall|j: int| i <= j < s@.len() ==> is_space(s@[j]),
        decreases i,
    {
        i -= 1;
    }
    proof {
        lemma_trailing_space(s@);
    }
    s.len() - i
}

/// Decides whether `c` occurs in `s`.
pub fn has_char(s: &[char], c: char) -> (r: bool)
    ensures
        r == s@.contains(c),
{
    proof {
        lemma_find_char(s@, c);
    }
    match index_of(s, c) {
        Some(i) => {
            assert(s@[i as int] == c);
            true
        },
        None => false,
    }
}

/// Decides [`is_letter`].
pub fn letter(c: char) -> (r: bool)
    ensures
        r == is_letter(c),
{
    let n: u32 = c as u32;
    (0x41 <= n && n <= 0x5a) || (0x61 <= n && n <= 0x7a)
}

/// Decides [`is_digit`].
pub fn decimal_digit(c: char) -> (r: bool)
    ensures
        r == is_digit(c),
{
    let n: u32 = c as u32;
    0x30 <= n && n <= 0x39
}

/// Decides [`is_hex_digit`].
pub fn hex_digit(c: char) -> (r: bool)
    ensures
        r == is_hex_digit(c),
{
    let n: u32 = c as u32;
    decimal_digit(c) || (0x41 <= n && n <= 0x46) || (0x61 <= n && n <= 0x66)
}

/// Decides [`breaks_line`].
pub fn splits_line(s: &str) -> (r: bool)
    ensures
        r == breaks_line(s@),
{
    let cs = chars(s);
    has_char(cs.as_slice(), '\n') || has_char(cs.as_slice(), '\r')
}

/// `s` without its leading white space.
pub fn trimmed_start<'a>(s: &'a [char]) -> (r: &'a [char])
    ensures
        r@ == trim_start(s@),
{
    let n: usize = count_leading_space(s);
    slice_subrange(s, n, s.len())
}

/// `s` without the white space around it.
pub fn trimmed<'a>(s: &'a [char]) -> (r: &'a [char])
    ensures
        r@ == trim(s@),
{
    let body = trimmed_start(s);
    let n: usize = count_trailing_space(body);
    slice_subrange(body, 0, body.len() - n)
}

/// `raw` without its line terminator.
pub fn without_terminator<'a>(raw: &'a [char]) -> (r: &'a [char])
    ensures
        r@ == strip_terminator(raw@),
{
    let mut n: usize = raw.len();
    if n > 0 && raw[n - 1] == '\n' {
        n -= 1;
    }
    if n > 0 && raw[n - 1] == '\r' {
        n -= 1;
    }
    slice_subrange(raw, 0, n)
}

/// Decides whether two strings hold the same characters.
pub fn same_text(a: &str, b: &str) -> (r: bool)
    ensures
        r == (a@ == b@),
{
    a.to_owned() == b.to_owned()
}

/// Decides whether `raw` ends with a line feed.
pub fn is_terminated(raw: &str) -> (r: bool)
    ensures
        r == ends_line(raw@),
{
    let cs = chars(raw);
    cs.len() > 0 && cs[cs.len() - 1] == '\n'
}

/// Decides whether `raw` ends with a carriage return and a line feed.
pub fn is_crlf_terminated(raw: &str) -> (r: bool)
    ensures
        r == ends_crlf(raw@),
{
    let cs = chars(raw);
    cs.len() > 1 && cs[cs.len() - 1] == '\n' && cs[cs.len() - 2] == '\r'
}

/// The characters of each of the given strings.
pub open spec fn views(strings: Seq<String>) -> Seq<Seq<char>> {
    strings.map_values(|s: String| s@)
}

/// The characters of a string that may be missing.
pub open spec fn optional_view(s: Option<String>) -> Option<Seq<char>> {
    match s {
        Some(s) => Some(s@),
        None => None,
    }
}

/// How often `s` stands among the given texts.
pub open spec fn times(texts: Seq<Seq<char>>, s: Seq<char>) -> int
    decreases texts.len(),
{
    if texts.len() == 0 {
        0
    } else {
        times(texts.drop_last(), s) + (if texts.last() == s {
            1int
        } else {
            0
        })
    }
}

/// The index of the first of the given strings that is `s`, if there is one.
pub fn position_of(strings: &Vec<String>, s: &str) -> (r: Option<usize>)
    ensures
        match r {
            Some(i) => i < strings@.len() && views(strings@)[i as int] == s@ && forall|j: int|
                0 <= j < i ==> #[trigger] views(strings@)[j] != s@,
            None => !views(strings@).contains(s@),
        },
{
    let mut i: usize = 0;
    while i < strings.len()
        invariant
            i <= strings.len(),
            forall|j: int| 0 <= j < i ==> #[trigger] views(strings@)[j] != s@,
        decreases strings.len() - i,
    {
        assert(views(strings@)[i as int] == strings@[i as int]@);
        if same_text(strings[i].as_str(), s) {
            return Some(i);
        }
        i += 1;
    }
    None
}

/// Decides whether `s` is among the given strings.
pub fn contains_text(strings: &Vec<String>, s: &str) -> (r: bool)
    ensures
        r == views(strings@).contains(s@),
{
    match position_of(strings, s) {
        Some(i) => {
            assert(views(strings@)[i as int] == s@);
            true
        },
        None => false,
    }
}

/// Computes [`times`].
pub fn count_text(strings: &Vec<String>, s: &str) -> (r: usize)
    ensures
        r == times(views(strings@), s@),
        r <= strings@.len(),
{
    let ghost all = views(strings@);
    let mut r: usize = 0;
    let mut i: usize = 0;
    while i < strings.len()
        invariant
            i <= strings.len(),
            r <= i,
            all == views(strings@),
            r == times(all.take(i as int), s@),
        decreases strings.len() - i,
    {
        assert(all.take(i + 1).drop_last() =~= all.take(i as int));
        assert(all.take(i + 1).last() == strings@[i as int]@);
        if same_text(strings[i].as_str(), s) {
            r += 1;
        }
        i += 1;
    }
    assert(all.take(all.len() as int) =~= all);
    r
}

/// A copy of a string slice that may be missing.
pub fn owned(s: Option<&str>) -> (r: Option<String>)
    ensures
        match s {
            Some(text) => optional_view(r) == Some(text@),
            None => r is None,
        },
{
    match s {
        Some(text) => Some(text.to_owned()),
        None => None,
    }
}

/// A copy of the given strings.
pub fn copy_strings(strings: &Vec<String>) -> (r: Vec<String>)
    ensures
        views(r@) == views(strings@),
{
    let ghost all = views(strings@);
    let mut r: Vec<String> = Vec::new();
    let mut i: usize = 0;
    while i < strings.len()
        invariant
            i <= strings.len(),
            all == views(strings@),
            views(r@) == all.take(i as int),
        decreases strings.len() - i,
    {
        let ghost before = views(r@);
        r.push(strings[i].clone());
        assert(views(r@) =~= before.push(strings@[i as int]@));
        assert(all.take(i + 1) =~= all.take(i as int).push(strings@[i as int]@));
        i += 1;
    }
    assert(all.take(all.len() as int) =~= all);
    r
}

/// A copy of a string that may be missing.
pub fn copy_option(s: &Option<String>) -> (r: Option<String>)
    ensures
        optional_view(r) == optional_view(*s),
{
    match s {
        Some(s) => Some(s.clone()),
        None => None,
    }
}

/// Writes `n` in decimal.
pub fn decimal_text(n: usize) -> (r: String)
    ensures
        r@ == decimal(n as int),
    decreases n,
{
    let mut r = if n < 10 {
        String::new()
    } else {
        decimal_text(n / 10)
    };
    let d: u8 = (n % 10) as u8;
    r.push((0x30 + d) as char);
    assert(r@ =~= decimal(n as int));
    r
}

/// Replaces the characters of `s` from `start` up to `end` by `value`.
pub fn spliced(s: &str, start: usize, end: usize, value: &str) -> (r: String)
    requires
        start <= end <= s@.len(),
    ensures
        r@ == splice(s@, start as int, end as int, value@),
{
    let n: usize = s.unicode_len();
    let mut r = s.substring_char(0, start).to_owned();
    r.append(value);
    r.append(s.substring_char(end, n));
    assert(r@ =~= splice(s@, start as int, end as int, value@));
    r
}

pub proof fn lemma_split_first(s: Seq<char>, rest: Seq<char>)
    requires
        s.len() > 0,
        s.last() == '\n',
        forall|i: int| 0 <= i < s.len() - 1 ==> s[i] != '\n',
    ensures
        split_lines(s + rest) == seq![s] + split_lines(rest),
{
    lemma_find_char_is(s + rest, '\n', s.len() - 1);
    assert((s + rest).take(s.len() as int) =~= s);
    assert((s + rest).skip(s.len() as int) =~= rest);
}

/// Splits a string into its lines, each with its line feed.
pub fn lines_of(s: &str) -> (r: Vec<String>)
    ensures
        views(r@) == split_lines(s@),
{
    let mut r: Vec<String> = Vec::new();
    let mut line = String::new();
    let ghost mut done: Seq<Seq<char>> = Seq::empty();
    assert(line@ + s@.skip(0) =~= s@);
    for c in it: s.chars()
        invariant
            it.seq() == s@,
            done == views(r@),
            forall|i: int| 0 <= i < line@.len() ==> line@[i] != '\n',
            split_lines(s@) == done + split_lines(line@ + s@.skip(it.index())),
    {
        let ghost before = line@;
        let ghost rest = s@.skip(it.index() + 1);
        line.push(c);
        assert(before + s@.skip(it.index()) =~= line@ + rest);
        if c == '\n' {
            proof {
                lemma_split_first(line@, rest);
                assert(done + (seq![line@] + split_lines(rest)) =~= done.push(line@) + split_lines(
                    rest,
                ));
                done = done.push(line@);
            }
            r.push(line);
            assert(done =~= views(r@));
            line = String::new();
            assert(line@ + rest =~= rest);
        }
    }
    assert(line@ + s@.skip(s@.len() as int) =~= line@);
    proof {
        lemma_find_char_is(line@, '\n', line@.len() as int);
    }
    if line.as_str().is_empty() {
        assert(split_lines(line@) =~= Seq::<Seq<char>>::empty());
    } else {
        assert(done + seq![line@] =~= done.push(line@));
        r.push(line);
    }
    assert(views(r@) =~= split_lines(s@));
    r
}

} // verus!
