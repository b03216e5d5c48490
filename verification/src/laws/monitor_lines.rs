//! The laws of what a line of a `monitors.conf` is taken for, and of what a file says.

use crate::laws::hyprlang_lines as line_laws;
use crate::laws::monitors as file_laws;
use crate::laws::text as text_laws;
use crate::lines;
use crate::lines::LineModel;
use crate::parsers::monitors;
use crate::parsers::monitors::{Kind, MonitorField, MonitorState, Warning};
use crate::search;
use crate::text;
use vstd::prelude::*;

verus! {

/// The code of a line is what stands before its comment.
proof fn lemma_code(before: Seq<char>, body: Seq<char>, comment: Seq<char>, end: Seq<char>)
    requires
        text_laws::is_gap(before),
        line_laws::is_code(body),
        body.len() > 0,
        !text_laws::blanks().contains(body[0]),
        line_laws::is_comment(comment),
        text_laws::is_ending(end),
    ensures
        ({
            let code = before + body;
            let content = code + comment;
            &&& text::strip_terminator(content + end) == content
            &&& monitors::code_of(content) == code
            &&& text::trim_start(content).len() > 0
            &&& text::trim_start(content)[0] == body[0]
            &&& body[0] != '#'
            &&& lines::is_line(content + end)
        }),
{
    let code = before + body;
    let content = code + comment;
    line_laws::lemma_gap_is_code(before);
    line_laws::lemma_code_add(before, body);
    text_laws::lemma_one_line_add(code, comment);
    text_laws::lemma_content(content, end);
    assert forall|i: int| 0 <= i < code.len() implies content[i] != '#' by {
        assert(content[i] == code[i]);
    }
    if comment.len() > 0 {
        assert(content[code.len() as int] == comment[0]);
    }
    text::lemma_find_char_is(content, '#', code.len() as int);
    assert(content.take(code.len() as int) =~= code);
    assert(content =~= before + (body + comment));
    assert((body + comment)[0] == body[0]);
    text_laws::lemma_body(before, body + comment);
    let raw = content + end;
    assert forall|i: int| 0 <= i < raw.len() - 1 implies #[trigger] raw[i] != '\n' by {
        if i < content.len() {
            assert(raw[i] == content[i]);
        } else {
            assert(raw[i] == end[i - content.len()]);
        }
    }
}

/// The texts between commas are read one by one: each is what stands there without the white space
/// around it.
pub proof fn commas_separate_texts(
    before: Seq<char>,
    s: Seq<char>,
    after: Seq<char>,
    rest: Seq<char>,
)
    requires
        text_laws::is_blank(before),
        text_laws::is_tight(s),
        !s.contains(','),
        text_laws::is_blank(after),
    ensures
        file_laws::texts(before + s + after) == seq![s],
        file_laws::texts(before + s + after + seq![','] + rest) == seq![s] + file_laws::texts(rest),
{
    let one = before + s + after;
    assert forall|i: int| 0 <= i < one.len() implies one[i] != ',' by {
        if i < before.len() {
            assert(one[i] == before[i]);
            text_laws::lemma_blank_char(before[i]);
        } else if i < before.len() + s.len() {
            assert(one[i] == s[i - before.len()]);
            assert(s.contains(s[i - before.len()]));
        } else {
            assert(one[i] == after[i - before.len() - s.len()]);
            text_laws::lemma_blank_char(after[i - before.len() - s.len()]);
        }
    }
    text_laws::trimming_takes_white_space_away(before, s, after);
    file_laws::lemma_texts_one(one);
    file_laws::lemma_texts_more(one, rest);
}

/// A line of `monitor`, `=` and texts between commas, with any white space around the word and a
/// comment behind them or none, is a record: the first text is the name of its monitor, all of them
/// are its fields, and it switches the monitor off exactly where it is of two texts and the second is
/// `disable`.
pub proof fn record_line_is_read(
    before: Seq<char>,
    between: Seq<char>,
    rest: Seq<char>,
    comment: Seq<char>,
    end: Seq<char>,
)
    requires
        text_laws::is_gap(before),
        text_laws::is_gap(between),
        line_laws::is_code(rest),
        line_laws::is_comment(comment),
        text_laws::is_ending(end),
    ensures
        ({
            let line = monitors::classified(
                before + "monitor"@ + between + seq!['='] + rest + comment + end,
            );
            let fields = file_laws::texts(rest);
            &&& line.kind is Record
            &&& file_laws::reading(line) == Some(fields)
            &&& line.kind->name == fields[0]
            &&& line.kind->disabled <==> fields.len() == 2 && fields[1] == "disable"@
        }),
{
    reveal_strlit("monitor");
    let word = "monitor"@;
    let body = word + between + seq!['='] + rest;
    let code = before + body;
    let content = code + comment;
    let raw = before + word + between + seq!['='] + rest + comment + end;
    assert(raw =~= content + end);
    lemma_word();
    line_laws::lemma_gap_is_code(between);
    line_laws::lemma_code_add(word, between);
    assert(line_laws::is_code(seq!['=']));
    line_laws::lemma_code_add(word + between, seq!['=']);
    line_laws::lemma_code_add(word + between + seq!['='], rest);
    assert(body[0] == word[0]);
    lemma_code(before, body, comment, end);
    let head = before + word + between;
    assert(code =~= head + seq!['='] + rest);
    assert forall|i: int| 0 <= i < head.len() implies code[i] != '=' by {
        assert(code[i] == head[i]);
        if i < before.len() {
            assert(head[i] == before[i]);
            text_laws::lemma_blank_char(before[i]);
        } else if i < before.len() + word.len() {
            assert(head[i] == word[i - before.len()]);
        } else {
            assert(head[i] == between[i - before.len() - word.len()]);
            text_laws::lemma_blank_char(between[i - before.len() - word.len()]);
        }
    }
    let eq = head.len() as int;
    assert(code[eq] == '=');
    text::lemma_find_char_is(code, '=', eq);
    assert(code.take(eq) =~= head);
    assert(code.skip(eq + 1) =~= rest);
    text_laws::trimming_takes_white_space_away(before, word, between);
    let line = monitors::classified(raw);
    assert(line.kind is Record);
    file_laws::lemma_classified_is_sound(raw);
    file_laws::lemma_sound_reading(line);
    lines::lemma_content_of_body(raw);
    file_laws::lemma_same_record(content, lines::body(raw));
    assert(file_laws::record_texts(content) == Some(file_laws::texts(rest)));
}

proof fn lemma_word()
    ensures
        line_laws::is_code("monitor"@),
        text_laws::is_tight("monitor"@),
        !text_laws::blanks().contains("monitor"@[0]),
        forall|i: int| 0 <= i < "monitor"@.len() ==> "monitor"@[i] != '=',
{
    reveal_strlit("monitor");
    text_laws::white_space_is_listed('m');
    text_laws::white_space_is_listed('r');
}

/// A line of white space alone is blank, and one that begins with `#`, white space aside, is a
/// comment, whatever follows. A line without `=` before its comment, and one with another word than
/// `monitor` before its first `=`, is no record.
pub proof fn other_lines(
    before: Seq<char>,
    word: Seq<char>,
    between: Seq<char>,
    rest: Seq<char>,
    comment: Seq<char>,
    end: Seq<char>,
)
    requires
        text_laws::is_gap(before),
        line_laws::is_code(word),
        word.len() > 0,
        text_laws::is_tight(word),
        !word.contains('='),
        word != "monitor"@,
        text_laws::is_gap(between),
        line_laws::is_code(rest),
        line_laws::is_comment(comment),
        text_laws::is_ending(end),
    ensures
        monitors::classify(before + end) is Blank,
        monitors::classify(before + seq!['#'] + rest + end) is Comment,
        monitors::classify(before + word + between + seq!['='] + rest + comment + end) is Other,
        monitors::classify(before + word + between + comment + end) is Other,
{
    text_laws::lemma_content(before, end);
    text_laws::lemma_body(before, Seq::empty());
    assert(before + Seq::<char>::empty() =~= before);
    let body = seq!['#'] + rest;
    text_laws::lemma_one_line_add(before, seq!['#']);
    text_laws::lemma_one_line_add(before + seq!['#'], rest);
    text_laws::lemma_content(before + seq!['#'] + rest, end);
    assert(before + seq!['#'] + rest =~= before + body);
    text_laws::white_space_is_listed('#');
    text_laws::lemma_body(before, body);
    let head = before + word + between;
    assert forall|i: int| 0 <= i < head.len() implies head[i] != '=' by {
        if i < before.len() {
            assert(head[i] == before[i]);
            text_laws::lemma_blank_char(before[i]);
        } else if i < before.len() + word.len() {
            assert(head[i] == word[i - before.len()]);
            assert(word.contains(word[i - before.len()]));
        } else {
            assert(head[i] == between[i - before.len() - word.len()]);
            text_laws::lemma_blank_char(between[i - before.len() - word.len()]);
        }
    }
    text_laws::trimming_takes_white_space_away(before, word, between);
    line_laws::lemma_gap_is_code(between);
    line_laws::lemma_code_add(word, between);
    let short = word + between;
    assert(short[0] == word[0]);
    lemma_code(before, short, comment, end);
    assert(before + short =~= head);
    text::lemma_find_char_is(head, '=', head.len() as int);
    lemma_other(before, word, between, rest, comment, end, head);
}

proof fn lemma_other(
    before: Seq<char>,
    word: Seq<char>,
    between: Seq<char>,
    rest: Seq<char>,
    comment: Seq<char>,
    end: Seq<char>,
    head: Seq<char>,
)
    requires
        text_laws::is_gap(before),
        line_laws::is_code(word),
        word.len() > 0,
        text_laws::is_tight(word),
        word != "monitor"@,
        text_laws::is_gap(between),
        line_laws::is_code(rest),
        line_laws::is_comment(comment),
        text_laws::is_ending(end),
        head == before + word + between,
        text::trim(head) == word,
        forall|i: int| 0 <= i < head.len() ==> head[i] != '=',
    ensures
        monitors::classify(before + word + between + seq!['='] + rest + comment + end) is Other,
{
    let long = word + between + seq!['='] + rest;
    line_laws::lemma_gap_is_code(between);
    line_laws::lemma_code_add(word, between);
    assert(line_laws::is_code(seq!['=']));
    line_laws::lemma_code_add(word + between, seq!['=']);
    line_laws::lemma_code_add(word + between + seq!['='], rest);
    assert(long[0] == word[0]);
    lemma_code(before, long, comment, end);
    let code = before + long;
    assert(code =~= head + seq!['='] + rest);
    assert(before + word + between + seq!['='] + rest + comment + end =~= code + comment + end);
    assert forall|i: int| 0 <= i < head.len() implies code[i] != '=' by {
        assert(code[i] == head[i]);
    }
    assert(code[head.len() as int] == '=');
    text::lemma_find_char_is(code, '=', head.len() as int);
    assert(code.take(head.len() as int) =~= head);
}

/// What the last record of a monitor says counts: it tells whether the monitor is used, and the texts
/// behind its name are its mode, its position and its scale. Where a monitor is not used or has no
/// record, nothing is read.
pub proof fn last_record_counts(file: Seq<LineModel<Kind>>, name: Seq<char>)
    ensures
        (forall|i: int|
            0 <= i < file.len() ==> !((#[trigger] file[i]).kind is Record && file[i].kind->name
                == name)) ==> monitors::enabled_of(file, name) is None && forall|field: MonitorField|
            monitors::field_of(file, name, field) is None,
        forall|i: int|
            0 <= i < file.len() && (#[trigger] file[i]).kind is Record && file[i].kind->name == name
                && (forall|j: int|
                i < j < file.len() ==> !((#[trigger] file[j]).kind is Record && file[j].kind->name
                    == name)) ==> {
                let fields = file_laws::reading(file[i])->0;
                &&& monitors::enabled_of(file, name) == Some(!file[i].kind->disabled)
                &&& monitors::field_of(file, name, MonitorField::Mode) == if file[i].kind->disabled
                    || fields.len() < 2 {
                    None
                } else {
                    Some(fields[1])
                }
                &&& monitors::field_of(file, name, MonitorField::Position)
                    == if file[i].kind->disabled || fields.len() < 3 {
                    None
                } else {
                    Some(fields[2])
                }
                &&& monitors::field_of(file, name, MonitorField::Scale) == if file[i].kind->disabled
                    || fields.len() < 4 {
                    None
                } else {
                    Some(fields[3])
                }
            },
{
    let n = file.len() as int;
    let p = monitors::records(file, name);
    search::lemma_last_where(n, p);
    if let Some(i) = monitors::record_of(file, name) {
        assert(p(i));
        assert(file[i].kind is Record && file[i].kind->name == name);
    }
    assert forall|i: int|
        0 <= i < file.len() && (#[trigger] file[i]).kind is Record && file[i].kind->name == name && (
        forall|j: int|
            i < j < file.len() ==> !((#[trigger] file[j]).kind is Record && file[j].kind->name
                == name)) implies monitors::record_of(file, name) == Some(i) by {
        assert forall|j: int| i < j < n implies !#[trigger] p(j) by {
            assert(!(file[j].kind is Record && file[j].kind->name == name));
        }
        assert(p(i));
        search::lemma_last_where_is(n, p, i);
    }
}

/// Whether line `i` is a record that switches its monitor on but lacks a mode, a position or a
/// scale.
pub open spec fn is_short(file: Seq<LineModel<Kind>>, i: int) -> bool {
    file[i].kind is Record && !file[i].kind->disabled && file_laws::reading(file[i])->0.len() < 4
}

/// A file warns of every record that switches its monitor on but lacks a mode, a position or a
/// scale, and of no other line, in the order of the lines, and tells how many fields there are.
pub proof fn short_records_are_warned_of(file: Seq<LineModel<Kind>>)
    ensures
        forall|i: int|
            0 <= i < file.len() && #[trigger] is_short(file, i) ==> monitors::warnings(
                file,
            ).contains(
                Warning {
                    line: i + 1,
                    field_count: file_laws::reading(file[i])->0.len() as int,
                },
            ),
        forall|k: int|
            0 <= k < monitors::warnings(file).len() ==> {
                let i = (#[trigger] monitors::warnings(file)[k]).line - 1;
                &&& 0 <= i < file.len()
                &&& is_short(file, i)
            },
        forall|j: int, k: int|
            0 <= j < k < monitors::warnings(file).len() ==> (#[trigger] monitors::warnings(
                file,
            )[j]).line < (#[trigger] monitors::warnings(file)[k]).line,
{
    lemma_warned_upto(file, file.len() as int);
}

proof fn lemma_warned_upto(file: Seq<LineModel<Kind>>, n: int)
    requires
        0 <= n <= file.len(),
    ensures
        forall|i: int|
            0 <= i < n && #[trigger] is_short(file, i) ==> monitors::warnings_upto(
                file,
                n,
            ).contains(
                Warning {
                    line: i + 1,
                    field_count: file_laws::reading(file[i])->0.len() as int,
                },
            ),
        forall|k: int|
            0 <= k < monitors::warnings_upto(file, n).len() ==> {
                let i = (#[trigger] monitors::warnings_upto(file, n)[k]).line - 1;
                &&& 0 <= i < n
                &&& is_short(file, i)
            },
        forall|j: int, k: int|
            0 <= j < k < monitors::warnings_upto(file, n).len() ==> (
            #[trigger] monitors::warnings_upto(file, n)[j]).line < (
            #[trigger] monitors::warnings_upto(file, n)[k]).line,
    decreases n,
{
    if n > 0 {
        lemma_warned_upto(file, n - 1);
        let old_all = monitors::warnings_upto(file, n - 1);
        let all = monitors::warnings_upto(file, n);
        assert forall|i: int| 0 <= i < n && #[trigger] is_short(file, i) implies all.contains(
            Warning { line: i + 1, field_count: file_laws::reading(file[i])->0.len() as int },
        ) by {
            let warning = Warning {
                line: i + 1,
                field_count: file_laws::reading(file[i])->0.len() as int,
            };
            if i < n - 1 {
                let k = choose|k: int| 0 <= k < old_all.len() && old_all[k] == warning;
                assert(all[k] == warning);
            } else {
                assert(all[all.len() - 1] == warning);
            }
        }
        assert forall|k: int| 0 <= k < all.len() implies {
            let i = (#[trigger] all[k]).line - 1;
            &&& 0 <= i < n
            &&& is_short(file, i)
        } by {
            if k < old_all.len() {
                assert(all[k] == old_all[k]);
            }
        }
    }
}

/// The names of a file are those of its records, in the order of the lines.
pub proof fn names_are_those_of_the_records(file: Seq<LineModel<Kind>>, more: LineModel<Kind>)
    ensures
        monitors::names_upto(Seq::<LineModel<Kind>>::empty(), 0) == Seq::<Seq<char>>::empty(),
        more.kind is Record ==> monitors::names_upto(file.push(more), file.len() as int + 1)
            == monitors::names_upto(file, file.len() as int).push(more.kind->name),
        !(more.kind is Record) ==> monitors::names_upto(file.push(more), file.len() as int + 1)
            == monitors::names_upto(file, file.len() as int),
{
    lemma_names_of_prefix(file, file.push(more), file.len() as int);
}

proof fn lemma_names_of_prefix(a: Seq<LineModel<Kind>>, b: Seq<LineModel<Kind>>, n: int)
    requires
        n <= a.len(),
        n <= b.len(),
        forall|i: int| 0 <= i < n ==> #[trigger] a[i] == b[i],
    ensures
        monitors::names_upto(a, n) == monitors::names_upto(b, n),
    decreases n,
{
    if n > 0 {
        lemma_names_of_prefix(a, b, n - 1);
        assert(a[n - 1] == b[n - 1]);
    }
}

/// What a state is written as behind the name: its parts behind commas, or the word `disable`.
pub open spec fn is_written_state(body: Seq<char>, state: MonitorState) -> bool {
    match state {
        MonitorState::Active { mode, position, scale } => body == seq![','] + mode@ + seq![',']
            + position@ + seq![','] + scale@,
        MonitorState::Disabled => body == seq![','] + "disable"@,
    }
}

/// Where a state is set on a record that there is, what stands before the end of its name stays, as
/// does what stands behind its last field, and the state is written between them. No other line
/// changes.
pub proof fn state_is_written_behind_the_name(
    file: Seq<LineModel<Kind>>,
    name: Seq<char>,
    state: MonitorState,
    i: int,
)
    requires
        monitors::record_of(file, name) == Some(i),
        file_laws::says_plainly(state),
        0 <= i < file.len(),
    ensures
        ({
            let after = monitors::after_set_state(file, name, state);
            let line = file[i];
            let start = line.kind->fields[0].1;
            let end = line.kind->fields.last().1;
            &&& after.len() == file.len()
            &&& forall|j: int| 0 <= j < file.len() && j != i ==> #[trigger] after[j] == file[j]
            &&& exists|body: Seq<char>|
                #![trigger is_written_state(body, state)]
                is_written_state(body, state) && after[i].raw == line.raw.take(start) + body
                    + line.raw.skip(end)
        }),
{
    file_laws::plain_state_is_set(file, name, state);
    lemma_state_text(state);
    let body = monitors::body_of(state);
    assert(is_written_state(body, state));
    let after = monitors::after_set_state(file, name, state);
    assert(after[i].raw == file[i].raw.take(file[i].kind->fields[0].1) + body + file[i].raw.skip(
        file[i].kind->fields.last().1,
    ));
}

proof fn lemma_state_text(state: MonitorState)
    ensures
        is_written_state(monitors::body_of(state), state),
{
    reveal_strlit(",");
    reveal_strlit(",disable");
    reveal_strlit("disable");
    assert(","@ =~= seq![',']);
    assert(",disable"@ =~= seq![','] + "disable"@);
}

/// A record that is added begins like the last record of the file, or with `monitor=` where there is
/// none, and says the name and the state.
pub proof fn added_record_begins_like_the_last(
    file: Seq<LineModel<Kind>>,
    name: Seq<char>,
    state: MonitorState,
)
    requires
        monitors::record_of(file, name) is None,
        file_laws::says_plainly(state),
        file_laws::is_plain(name),
    ensures
        ({
            let after = monitors::after_set_state(file, name, state);
            let k = file_laws::place_for_record(file);
            let end = lines::terminator(file);
            &&& 0 <= k <= file.len()
            &&& exists|body: Seq<char>|
                #![trigger is_written_state(body, state)]
                is_written_state(body, state) && after[k].raw == if k > 0 && file[k
                    - 1].kind is Record {
                    file[k - 1].raw.take(file[k - 1].kind->fields[0].0) + name + body + end
                } else {
                    "monitor="@ + name + body + end
                }
            &&& forall|j: int| k <= j < file.len() ==> !((#[trigger] file[j]).kind is Record)
        }),
{
    file_laws::plain_state_is_set(file, name, state);
    lemma_state_text(state);
    let n = file.len() as int;
    let p = monitors::any_record(file);
    search::lemma_last_where(n, p);
    search::lemma_last_where(n, monitors::records(file, name));
    let k = file_laws::place_for_record(file);
    let end = lines::terminator(file);
    let body = monitors::body_of(state);
    let after = monitors::after_set_state(file, name, state);
    assert(is_written_state(body, state));
    assert forall|j: int| k <= j < n implies !((#[trigger] file[j]).kind is Record) by {
        assert(!p(j));
    }
    if let Some(i) = search::last_where(n, p) {
        assert(p(i));
        let before = lines::terminated(file.take(i + 1), end);
        assert(before.len() == i + 1);
        let prefix = file[i].raw.take(file[i].kind->fields[0].0);
        assert(after[k] == monitors::classified(prefix + name + body + end));
    } else {
        assert(lines::terminated(file, end).len() == n);
        assert(after[k] == monitors::classified("monitor="@ + name + body + end));
        if k > 0 {
            assert(!p(k - 1));
        }
    }
}

} // verus!
