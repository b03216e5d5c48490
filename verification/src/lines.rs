//! A file as a sequence of classified lines: the part that every line-oriented parser
//! shares.
//!
//! A line keeps its exact text, terminator included, so writing the lines back one after
//! the other gives the file. What a line means is the parser's own matter.

use crate::text;
use crate::text::{is_crlf_terminated, is_terminated};
use vstd::prelude::*;

verus! {

/// One physical line: its exact text, terminator included, and what the parser took it for.
#[derive(Clone, Debug)]
pub struct Line<K> {
    /// The text of the line, with its terminator where it has one.
    pub raw: String,
    /// What the parser took the line for.
    pub kind: K,
}

/// The mathematical counterpart of [`Line`].
pub struct LineModel<M> {
    /// The text of the line, with its terminator where it has one.
    pub raw: Seq<char>,
    /// What the parser took the line for.
    pub kind: M,
}

impl<K: View> View for Line<K> {
    type V = LineModel<K::V>;

    open spec fn view(&self) -> LineModel<K::V> {
        LineModel { raw: self.raw@, kind: self.kind@ }
    }
}

/// Whether a copy of what a line was taken for is taken for the same.
pub open spec fn copies_well<K: View + Clone>() -> bool {
    forall|a: K, b: K| #[trigger] call_ensures(K::clone, (&a,), b) ==> b@ == a@
}

/// A copy of the given lines.
pub fn copy_lines<K: View + Clone>(lines: &Vec<Line<K>>) -> (r: Vec<Line<K>>)
    requires
        copies_well::<K>(),
    ensures
        models(r@) == models(lines@),
        r@.len() == lines@.len(),
        forall|i: int| 0 <= i < r@.len() ==> (#[trigger] r@[i])@ == lines@[i]@,
{
    let ghost all = models(lines@);
    let mut r: Vec<Line<K>> = Vec::new();
    let mut i: usize = 0;
    while i < lines.len()
        invariant
            i <= lines.len(),
            copies_well::<K>(),
            all == models(lines@),
            models(r@) == all.take(i as int),
            r@.len() == i,
            forall|j: int| 0 <= j < i ==> (#[trigger] r@[j])@ == lines@[j]@,
        decreases lines.len() - i,
    {
        let ghost before = models(r@);
        let line = Line { raw: lines[i].raw.clone(), kind: lines[i].kind.clone() };
        r.push(line);
        assert(line@ == lines@[i as int]@);
        assert(models(r@) =~= before.push(line@));
        assert(all.take(i + 1) =~= all.take(i as int).push(line@));
        i += 1;
    }
    assert(all.take(all.len() as int) =~= all);
    r
}

/// The models of the given lines.
pub open spec fn models<K: View>(lines: Seq<Line<K>>) -> Seq<LineModel<K::V>> {
    lines.map_values(|line: Line<K>| line@)
}

/// The texts of the given lines.
pub open spec fn raws<M>(lines: Seq<LineModel<M>>) -> Seq<Seq<char>> {
    lines.map_values(|line: LineModel<M>| line.raw)
}

/// The whole file: the texts of its lines one after the other.
pub open spec fn emitted<M>(lines: Seq<LineModel<M>>) -> Seq<char> {
    text::join(raws(lines))
}

/// Writes the lines back.
pub fn emit_lines<K: View>(lines: &Vec<Line<K>>) -> (r: String)
    ensures
        r@ == emitted(models(lines@)),
{
    let mut r = String::new();
    let mut i: usize = 0;
    let ghost all = raws(models(lines@));
    while i < lines.len()
        invariant
            i <= lines.len(),
            all == raws(models(lines@)),
            r@ == text::join(all.take(i as int)),
        decreases lines.len() - i,
    {
        r.append(lines[i].raw.as_str());
        assert(all.take(i + 1).drop_last() =~= all.take(i as int));
        assert(all.take(i + 1).last() == lines@[i as int].raw@);
        i += 1;
    }
    assert(all.take(all.len() as int) =~= all);
    r
}

/// The terminator that a line added to the file gets: the carriage return and line feed of
/// a file that has such a line anywhere, else a line feed.
pub open spec fn terminator<M>(lines: Seq<LineModel<M>>) -> Seq<char> {
    if exists|i: int| 0 <= i < lines.len() && text::ends_crlf(#[trigger] lines[i].raw) {
        seq!['\r', '\n']
    } else {
        seq!['\n']
    }
}

/// The file with `end` added to its last line where that line has no line feed.
pub open spec fn terminated<M>(lines: Seq<LineModel<M>>, end: Seq<char>) -> Seq<LineModel<M>> {
    if lines.len() > 0 && !text::ends_line(lines.last().raw) {
        lines.drop_last().push(LineModel { raw: lines.last().raw + end, ..lines.last() })
    } else {
        lines
    }
}

/// Computes [`terminator`].
pub fn line_terminator<K: View>(lines: &Vec<Line<K>>) -> (r: &'static str)
    ensures
        r@ == terminator(models(lines@)),
{
    proof {
        reveal_strlit("\r\n");
        reveal_strlit("\n");
    }
    assert("\r\n"@ =~= seq!['\r', '\n']);
    assert("\n"@ =~= seq!['\n']);
    let mut i: usize = 0;
    while i < lines.len()
        invariant
            i <= lines.len(),
            "\r\n"@ == seq!['\r', '\n'],
            forall|j: int| 0 <= j < i ==> !text::ends_crlf(#[trigger] models(lines@)[j].raw),
        decreases lines.len() - i,
    {
        assert(models(lines@)[i as int].raw == lines@[i as int].raw@);
        if is_crlf_terminated(lines[i].raw.as_str()) {
            return "\r\n";
        }
        i += 1;
    }
    "\n"
}

/// Makes the lines [`terminated`].
pub fn terminate<K: View>(lines: &mut Vec<Line<K>>, end: &str)
    ensures
        models(final(lines)@) == terminated(models(old(lines)@), end@),
{
    let ghost before = models(lines@);
    if let Some(mut last) = lines.pop() {
        assert(before.last() == last@);
        assert(models(lines@) =~= before.drop_last());
        if !is_terminated(last.raw.as_str()) {
            last.raw.append(end);
        }
        let ghost kept = last@;
        lines.push(last);
        assert(models(lines@) =~= before.drop_last().push(kept));
        assert(terminated(before, end@) =~= before.drop_last().push(kept));
    }
}

/// Around line `i`, a file is what precedes it, the line and what follows.
pub proof fn lemma_emitted_around<M>(lines: Seq<LineModel<M>>, i: int)
    requires
        0 <= i < lines.len(),
    ensures
        emitted(lines) == emitted(lines.take(i)) + lines[i].raw + emitted(lines.skip(i + 1)),
{
    text::lemma_join_around(raws(lines), i);
    assert(raws(lines).take(i) =~= raws(lines.take(i)));
    assert(raws(lines).skip(i + 1) =~= raws(lines.skip(i + 1)));
}

/// Replacing a stretch of one line replaces that stretch of the file and nothing else.
pub proof fn lemma_emitted_splice<M>(
    lines: Seq<LineModel<M>>,
    i: int,
    start: int,
    end: int,
    value: Seq<char>,
    kind: M,
)
    requires
        0 <= i < lines.len(),
        0 <= start <= end <= lines[i].raw.len(),
    ensures
        emitted(lines) == text_before(lines, i, start) + lines[i].raw.subrange(start, end)
            + text_after(lines, i, end),
        emitted(
            lines.update(i, LineModel { raw: text::splice(lines[i].raw, start, end, value), kind }),
        ) == text_before(lines, i, start) + value + text_after(lines, i, end),
{
    let raw = lines[i].raw;
    let edited = LineModel { raw: text::splice(raw, start, end, value), kind };
    let after = lines.update(i, edited);
    lemma_emitted_around(lines, i);
    lemma_emitted_around(after, i);
    assert(after.take(i) =~= lines.take(i));
    assert(after.skip(i + 1) =~= lines.skip(i + 1));
    assert(raw =~= raw.take(start) + raw.subrange(start, end) + raw.skip(end));
    assert(emitted(lines) =~= text_before(lines, i, start) + raw.subrange(start, end) + text_after(
        lines,
        i,
        end,
    ));
    assert(emitted(after) =~= text_before(lines, i, start) + value + text_after(lines, i, end));
}

/// The file's text before position `start` of line `i`.
pub open spec fn text_before<M>(lines: Seq<LineModel<M>>, i: int, start: int) -> Seq<char> {
    emitted(lines.take(i)) + lines[i].raw.take(start)
}

/// The file's text from position `end` of line `i` on.
pub open spec fn text_after<M>(lines: Seq<LineModel<M>>, i: int, end: int) -> Seq<char> {
    lines[i].raw.skip(end) + emitted(lines.skip(i + 1))
}

/// A line put into a file stands in its text between what was before it and what was after.
pub proof fn lemma_emitted_insert<M>(lines: Seq<LineModel<M>>, i: int, line: LineModel<M>)
    requires
        0 <= i <= lines.len(),
    ensures
        emitted(lines) == emitted(lines.take(i)) + emitted(lines.skip(i)),
        emitted(lines.insert(i, line)) == emitted(lines.take(i)) + line.raw + emitted(
            lines.skip(i),
        ),
{
    let after = lines.insert(i, line);
    text::lemma_join_add(raws(lines.take(i)), raws(lines.skip(i)));
    assert(raws(lines) =~= raws(lines.take(i)) + raws(lines.skip(i)));
    lemma_emitted_around(after, i);
    assert(after.take(i) =~= lines.take(i));
    assert(after.skip(i + 1) =~= lines.skip(i));
}

/// A line put at the end of a file stands at the end of its text.
pub proof fn lemma_emitted_push<M>(lines: Seq<LineModel<M>>, line: LineModel<M>)
    ensures
        emitted(lines.push(line)) == emitted(lines) + line.raw,
{
    assert(raws(lines.push(line)).drop_last() =~= raws(lines));
}

/// Ending a file's last line adds the terminator to its text where it was missing.
pub proof fn lemma_emitted_terminated<M>(lines: Seq<LineModel<M>>, end: Seq<char>)
    ensures
        emitted(terminated(lines, end)) == if lines.len() > 0 && !text::ends_line(
            lines.last().raw,
        ) {
            emitted(lines) + end
        } else {
            emitted(lines)
        },
{
    if lines.len() > 0 && !text::ends_line(lines.last().raw) {
        let kept = lines.drop_last();
        lemma_emitted_push(kept, lines.last());
        lemma_emitted_push(kept, LineModel { raw: lines.last().raw + end, ..lines.last() });
        assert(kept.push(lines.last()) =~= lines);
        assert(emitted(terminated(lines, end)) =~= emitted(lines) + end);
    }
}

/// Whether `raw` is one line: it is not empty, and no line feed stands in it but at its end.
pub open spec fn is_line(raw: Seq<char>) -> bool {
    &&& raw.len() > 0
    &&& forall|i: int| 0 <= i < raw.len() - 1 ==> #[trigger] raw[i] != '\n'
}

/// Whether the given texts are the lines of a file: each ends with a line feed, but for the last
/// one, which need not.
pub open spec fn is_file(raws: Seq<Seq<char>>) -> bool {
    forall|i: int|
        0 <= i < raws.len() ==> is_line(#[trigger] raws[i]) && (i < raws.len() - 1
            ==> text::ends_line(raws[i]))
}

/// A line without its line feed.
pub open spec fn body(raw: Seq<char>) -> Seq<char> {
    if text::ends_line(raw) {
        raw.drop_last()
    } else {
        raw
    }
}

/// Splitting a text gives the lines of a file.
pub proof fn lemma_split_is_file(s: Seq<char>)
    ensures
        is_file(text::split_lines(s)),
    decreases s.len(),
{
    text::lemma_find_char(s, '\n');
    let n = text::find_char(s, '\n');
    if s.len() > 0 && n < s.len() {
        let first = s.take(n + 1);
        let rest = s.skip(n + 1);
        lemma_split_is_file(rest);
        let all = text::split_lines(s);
        let tail = text::split_lines(rest);
        assert(is_line(first) && text::ends_line(first));
        assert forall|i: int| 0 <= i < all.len() implies is_line(#[trigger] all[i]) && (i
            < all.len() - 1 ==> text::ends_line(all[i])) by {
            if i > 0 {
                assert(all[i] == tail[i - 1]);
            }
        }
    }
}

/// The lines of a file, put together and split again, are the same lines.
pub proof fn lemma_split_join(raws: Seq<Seq<char>>)
    requires
        is_file(raws),
    ensures
        text::split_lines(text::join(raws)) == raws,
    decreases raws.len(),
{
    if raws.len() == 0 {
        assert(text::split_lines(text::join(raws)) =~= raws);
    } else {
        let first = raws[0];
        let rest = raws.skip(1);
        assert(is_line(first));
        assert(raws =~= seq![first] + rest);
        text::lemma_join_add(seq![first], rest);
        text::lemma_join_one(first);
        assert forall|i: int| 0 <= i < rest.len() implies is_line(#[trigger] rest[i]) && (i
            < rest.len() - 1 ==> text::ends_line(rest[i])) by {
            assert(rest[i] == raws[i + 1]);
        }
        lemma_split_join(rest);
        if rest.len() > 0 || text::ends_line(first) {
            assert(text::ends_line(first));
            text::lemma_split_first(first, text::join(rest));
        } else {
            assert(text::join(rest) =~= Seq::<char>::empty());
            assert(first + text::join(rest) =~= first);
            text::lemma_find_char_is(first, '\n', first.len() as int);
            assert(text::split_lines(first) =~= raws);
        }
    }
}

/// Another text in the place of a line leaves the lines of a file, where it is one line and ends
/// as the other did.
pub proof fn lemma_file_update(raws: Seq<Seq<char>>, i: int, raw: Seq<char>)
    requires
        is_file(raws),
        0 <= i < raws.len(),
        is_line(raw),
        text::ends_line(raws[i]) ==> text::ends_line(raw),
    ensures
        is_file(raws.update(i, raw)),
{
    let after = raws.update(i, raw);
    assert forall|j: int| 0 <= j < after.len() implies is_line(#[trigger] after[j]) && (j
        < after.len() - 1 ==> text::ends_line(after[j])) by {
        assert(is_line(raws[j]));
    }
}

/// A line with a line feed, put anywhere among the lines of a file but behind one without, leaves
/// the lines of a file.
pub proof fn lemma_file_insert(raws: Seq<Seq<char>>, i: int, raw: Seq<char>)
    requires
        is_file(raws),
        0 <= i <= raws.len(),
        is_line(raw),
        text::ends_line(raw),
        i == raws.len() && i > 0 ==> text::ends_line(raws.last()),
    ensures
        is_file(raws.insert(i, raw)),
{
    let after = raws.insert(i, raw);
    assert forall|j: int| 0 <= j < after.len() implies is_line(#[trigger] after[j]) && (j
        < after.len() - 1 ==> text::ends_line(after[j])) by {
        if j < i {
            assert(after[j] == raws[j]);
            assert(is_line(raws[j]));
        } else if j > i {
            assert(after[j] == raws[j - 1]);
            assert(is_line(raws[j - 1]));
        }
    }
}

/// A line without a line feed stays one line when it gets one.
pub proof fn lemma_line_ended(raw: Seq<char>, end: Seq<char>)
    requires
        is_line(raw),
        !text::ends_line(raw),
        end == seq!['\n'] || end == seq!['\r', '\n'],
    ensures
        is_line(raw + end),
        text::ends_line(raw + end),
        body(raw + end) == raw || body(raw + end) == raw.push('\r'),
{
    let more = raw + end;
    assert forall|i: int| 0 <= i < more.len() - 1 implies #[trigger] more[i] != '\n' by {
        if i < raw.len() {
            assert(more[i] == raw[i]);
            if i == raw.len() - 1 {
                assert(raw.last() != '\n');
            }
        }
    }
    if end == seq!['\n'] {
        assert(body(more) =~= raw);
    } else {
        assert(body(more) =~= raw.push('\r'));
    }
}

/// What stands before the terminator of a line is its body, but for one carriage return at the
/// end.
pub proof fn lemma_content_of_body(raw: Seq<char>)
    ensures
        text::strip_terminator(raw) == body(raw) || text::strip_terminator(raw).push('\r') == body(
            raw,
        ),
{
    let content = text::strip_terminator(raw);
    if content.len() == body(raw).len() {
        assert(content =~= body(raw));
    } else {
        assert(content.push('\r') =~= body(raw));
    }
}

/// Replacing a stretch of a line before its line feed by text without one leaves one line, and
/// replaces that stretch of its body.
pub proof fn lemma_line_splice(raw: Seq<char>, start: int, end: int, value: Seq<char>)
    requires
        is_line(raw),
        0 < start <= end <= body(raw).len(),
        !value.contains('\n'),
    ensures
        is_line(text::splice(raw, start, end, value)),
        text::ends_line(text::splice(raw, start, end, value)) == text::ends_line(raw),
        body(text::splice(raw, start, end, value)) == text::splice(body(raw), start, end, value),
{
    let after = text::splice(raw, start, end, value);
    let n = after.len() as int;
    let tail = raw.len() - end;
    assert forall|i: int| 0 <= i < n && after[i] == '\n' implies i == n - 1 && text::ends_line(
        raw,
    ) by {
        if i < start {
            assert(after[i] == raw[i]);
        } else if i < start + value.len() {
            assert(after[i] == value[i - start]);
            assert(value.contains(after[i]));
        } else {
            assert(after[i] == raw[i - start - value.len() + end]);
        }
    }
    if text::ends_line(raw) {
        assert(after[n - 1] == raw[raw.len() - 1]);
    } else if text::ends_line(after) {
        assert(after[n - 1] == '\n');
    }
    assert(body(after) =~= text::splice(body(raw), start, end, value));
}

} // verus!
