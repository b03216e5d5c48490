//! The laws of the `uwsm/env` format.

use crate::lines;
use crate::lines::LineModel;
use crate::parsers::assignment;
use crate::parsers::env;
use crate::parsers::env::{Kind, Scan};
use crate::search;
use crate::text;
use vstd::prelude::*;

verus! {

/// Where the `=` of an assignment stands.
pub open spec fn equals(content: Seq<char>) -> int {
    let from = env::name_start(content).0;
    from + text::find_char(content.skip(from), '=')
}

/// Whether a line is what its text says: an assignment's value lies behind its `=` with nothing
/// but white space around it, and any other line is what it is taken for.
pub open spec fn sound(line: LineModel<Kind>) -> bool {
    let body = lines::body(line.raw);
    &&& lines::is_line(line.raw)
    &&& match line.kind {
        Kind::Assignment(found) => {
            &&& env::scan(body) matches Some(scan)
            &&& scan.key == found.key
            &&& scan.exported == found.exported
            &&& equals(body) < found.value_start <= found.value_end <= body.len()
            &&& text::spaces(body, equals(body) + 1, found.value_start)
            &&& text::spaces(body, found.value_end, body.len() as int)
        },
        kind => kind == env::classify(line.raw),
    }
}

/// Whether the lines are those of a file, and each is what its text says.
pub open spec fn sound_file(file: Seq<LineModel<Kind>>) -> bool {
    &&& lines::is_file(lines::raws(file))
    &&& forall|i: int| 0 <= i < file.len() ==> sound(#[trigger] file[i])
}

/// Whether the positions recorded for every line lie inside it.
pub open spec fn all_fit(file: Seq<LineModel<Kind>>) -> bool {
    forall|i: int| 0 <= i < file.len() ==> env::spans_fit(#[trigger] file[i])
}

/// A line that is what its text says has its positions inside it.
pub proof fn sound_fits(file: Seq<LineModel<Kind>>)
    requires
        sound_file(file),
    ensures
        all_fit(file),
{
    assert forall|i: int| 0 <= i < file.len() implies env::spans_fit(#[trigger] file[i]) by {
        assert(sound(file[i]));
        lemma_equals(lines::body(file[i].raw));
    }
}

/// A file that was only read is written back as it was.
pub proof fn round_trip(input: Seq<char>)
    ensures
        lines::emitted(env::parsed(input)) == input,
{
    assert(lines::raws(env::parsed(input)) =~= text::split_lines(input));
    text::lemma_join_split_lines(input);
}

proof fn lemma_equals(content: Seq<char>)
    ensures
        0 <= env::name_start(content).0 <= equals(content) <= content.len(),
        env::scan(content) is Some ==> equals(content) < content.len() && content[equals(content)]
            == '=' && env::name_start(content).0 < equals(content),
        forall|i: int|
            env::name_start(content).0 <= i < equals(content) ==> #[trigger] content[i] != '=',
        env::leading_separators(content) <= env::name_start(content).0,
{
    let from = env::name_start(content).0;
    env::lemma_scan_fits(content);
    env::lemma_leading_separators(content);
    env::lemma_leading_separators(content.skip(env::leading_separators(content) + 6));
    let rest = content.skip(from);
    text::lemma_find_char(rest, '=');
    assert forall|i: int| from <= i < equals(content) implies #[trigger] content[i] != '=' by {
        assert(rest[i - from] == content[i]);
    }
    if env::scan(content) is Some {
        assert(rest[equals(content) - from] == content[equals(content)]);
        assert(content.subrange(from, equals(content)).len() > 0);
    }
}

/// An assignment begins with its keyword or its variable.
proof fn lemma_scan_opens(content: Seq<char>)
    requires
        env::scan(content) is Some,
    ensures
        text::trim(content).len() > 0,
        text::trim(content)[0] != '#',
{
    lemma_equals(content);
    let start = env::leading_separators(content);
    env::lemma_leading_separators(content);
    let from = env::name_start(content).0;
    let key = content.subrange(from, equals(content));
    if env::is_export_at(content, start) {
        let word = content.subrange(start, start + 6);
        assert(word[0] == content[start]);
        assert(env::export_word()[0] == 'e');
    } else {
        assert(key[0] == content[start]);
        assert(text::is_letter(key[0]) || text::is_digit(key[0]) || key[0] == '_');
    }
    assert(!text::is_space(content[start]) && content[start] != '#');
    text::lemma_leading_space(content);
    assert(text::leading_space(content) == start);
    text::lemma_trim_keeps(content, start);
    text::lemma_trim_bounds(content);
}

/// What an assignment assigns to is told by its text up to the `=`.
proof fn lemma_scan_prefix(a: Seq<char>, b: Seq<char>)
    requires
        env::scan(a) is Some,
        equals(a) < b.len(),
        a.take(equals(a) + 1) == b.take(equals(a) + 1),
    ensures
        env::scan(b) is Some,
        equals(b) == equals(a),
        env::scan(b)->0.key == env::scan(a)->0.key,
        env::scan(b)->0.exported == env::scan(a)->0.exported,
{
    let eq = equals(a);
    lemma_equals(a);
    assert forall|i: int| 0 <= i <= eq implies a[i] == #[trigger] b[i] by {
        assert(a.take(eq + 1)[i] == b.take(eq + 1)[i]);
    }
    env::lemma_leading_separators(a);
    env::lemma_leading_separators(b);
    let start = env::leading_separators(a);
    assert(start <= eq);
    let found = env::leading_separators(b);
    if found < start {
        assert(env::is_separator(a[found]) && a[found] == b[found]);
    }
    if found > start {
        assert(env::is_separator(b[start]) && a[start] == b[start]);
    }
    assert(found == start);
    let word = env::export_word();
    assert(word[0] == 'e' && word[1] == 'x' && word[2] == 'p' && word[3] == 'o' && word[4] == 'r'
        && word[5] == 't');
    if start + 6 <= eq {
        assert(a.subrange(start, start + 6) =~= b.subrange(start, start + 6));
    } else {
        assert(!env::is_export_at(a, start)) by {
            if env::is_export_at(a, start) {
                assert(a.subrange(start, start + 6)[eq - start] == a[eq]);
            }
        }
        assert(!env::is_export_at(b, start)) by {
            if env::is_export_at(b, start) {
                assert(b.subrange(start, start + 6)[eq - start] == b[eq]);
            }
        }
    }
    assert(env::is_export_at(a, start) == env::is_export_at(b, start));
    if env::is_export_at(a, start) {
        let x = a.skip(start + 6);
        let y = b.skip(start + 6);
        env::lemma_leading_separators(x);
        env::lemma_leading_separators(y);
        let m = env::leading_separators(x);
        let k = env::leading_separators(y);
        assert(start + 6 + m == env::name_start(a).0);
        assert(m <= eq - start - 6);
        assert(x[m] == a[start + 6 + m] && y[m] == b[start + 6 + m]);
        if k < m {
            assert(x[k] == a[start + 6 + k] && y[k] == b[start + 6 + k]);
        }
        assert(k == m);
    }
    let from = env::name_start(a).0;
    assert(env::name_start(b).0 == from);
    let rest = b.skip(from);
    assert forall|i: int| 0 <= i < eq - from implies rest[i] != '=' by {
        assert(rest[i] == b[i + from] && b[i + from] == a[i + from]);
    }
    assert(rest[eq - from] == b[eq]);
    text::lemma_find_char_is(rest, '=', eq - from);
    assert(a.subrange(from, eq) =~= b.subrange(from, eq));
}

proof fn lemma_same_start(content: Seq<char>, body: Seq<char>)
    requires
        content == body || content.push('\r') == body,
    ensures
        text::trim(content) == text::trim(body),
        forall|i: int| 0 <= i < content.len() ==> content[i] == #[trigger] body[i],
        content.len() <= body.len(),
        env::scan(content) is Some <==> env::scan(body) is Some,
        env::scan(content) is Some ==> equals(content) == equals(body) && equals(content)
            < content.len() && env::scan(content)->0.key == env::scan(body)->0.key && env::scan(
            content,
        )->0.exported == env::scan(body)->0.exported,
{
    text::lemma_trim_return(content);
    if env::scan(content) is Some {
        lemma_equals(content);
        let eq = equals(content);
        assert(content.take(eq + 1) =~= body.take(eq + 1));
        lemma_scan_prefix(content, body);
    }
    if env::scan(body) is Some {
        lemma_equals(body);
        let eq = equals(body);
        assert(eq < content.len());
        assert(content.take(eq + 1) =~= body.take(eq + 1));
        lemma_scan_prefix(body, content);
    }
}

proof fn lemma_classified_is_sound(raw: Seq<char>)
    requires
        lines::is_line(raw),
    ensures
        sound(env::classified(raw)),
{
    let content = text::strip_terminator(raw);
    let body = lines::body(raw);
    lines::lemma_content_of_body(raw);
    lemma_same_start(content, body);
    if env::classify(raw) is Assignment {
        let eq = equals(content);
        lemma_equals(content);
        assignment::lemma_value_span(content, eq);
        let after = content.skip(eq + 1);
        text::lemma_trim_bounds(after);
        let start = assignment::value_start(content, eq);
        let end = assignment::value_end(content, eq);
        assert forall|i: int| eq + 1 <= i < start implies text::is_space(#[trigger] body[i]) by {
            assert(body[i] == content[i]);
        }
        assert forall|i: int| end <= i < body.len() implies text::is_space(#[trigger] body[i]) by {
            if i < content.len() {
                assert(body[i] == content[i]);
                assert(after[i - eq - 1] == content[i]);
            }
        }
    }
}

/// A file that was read is sound.
pub proof fn parsed_is_sound(input: Seq<char>)
    ensures
        sound_file(env::parsed(input)),
{
    let file = env::parsed(input);
    let raws = text::split_lines(input);
    lines::lemma_split_is_file(input);
    assert(lines::raws(file) =~= raws);
    assert forall|i: int| 0 <= i < file.len() implies sound(#[trigger] file[i]) by {
        assert(lines::is_line(raws[i]));
        lemma_classified_is_sound(raws[i]);
    }
}

/// Reading a sound line again gives the same line, with an assignment's value trimmed.
proof fn lemma_reread_line(line: LineModel<Kind>)
    requires
        sound(line),
    ensures
        match line.kind {
            Kind::Assignment(found) => {
                let again = env::classified(line.raw);
                &&& again.kind is Assignment
                &&& again.kind->0.key == found.key
                &&& again.kind->0.exported == found.exported
                &&& env::value_at(again) == text::trim(env::value_at(line))
            },
            kind => env::classify(line.raw) == kind,
        },
{
    if let Kind::Assignment(found) = line.kind {
        let raw = line.raw;
        let content = text::strip_terminator(raw);
        let body = lines::body(raw);
        lines::lemma_content_of_body(raw);
        lemma_same_start(content, body);
        lemma_equals(body);
        lemma_scan_opens(content);
        let eq = equals(body);
        let after = content.skip(eq + 1);
        let behind = body.skip(eq + 1);
        if content.len() < body.len() {
            assert(behind =~= after.push('\r'));
            text::lemma_trim_return(after);
        } else {
            assert(behind =~= after);
        }
        let from = found.value_start - eq - 1;
        let to = found.value_end - eq - 1;
        assert forall|i: int| 0 <= i < from implies text::is_space(#[trigger] behind[i]) by {
            assert(behind[i] == body[i + eq + 1]);
        }
        assert forall|i: int| to <= i < behind.len() implies text::is_space(#[trigger] behind[i]) by {
            assert(behind[i] == body[i + eq + 1]);
        }
        text::lemma_trim_pad(behind, from, to);
        assert(behind.subrange(from, to) =~= env::value_at(line));
        assignment::lemma_value_span(content, eq);
        let again = env::classified(raw);
        assert(env::value_at(again) =~= content.subrange(
            assignment::value_start(content, eq),
            assignment::value_end(content, eq),
        ));
    }
}

proof fn lemma_found(file: Seq<LineModel<Kind>>, key: Seq<char>)
    ensures
        env::assignment_of(file, key) matches Some(i) ==> {
            &&& 0 <= i < file.len()
            &&& file[i].kind is Assignment
            &&& file[i].kind->0.key == key
        },
{
    search::lemma_last_where(file.len() as int, env::assigns(file, key));
}

/// Whether two lines assign to the same variable, if they assign to any.
spec fn alike(a: LineModel<Kind>, b: LineModel<Kind>) -> bool {
    &&& a.kind is Assignment <==> b.kind is Assignment
    &&& a.kind is Assignment ==> a.kind->0.key == b.kind->0.key
}

proof fn lemma_alike(a: Seq<LineModel<Kind>>, b: Seq<LineModel<Kind>>, key: Seq<char>)
    requires
        a.len() == b.len(),
        forall|i: int| 0 <= i < a.len() ==> alike(#[trigger] a[i], b[i]),
    ensures
        env::assignment_of(a, key) == env::assignment_of(b, key),
{
    let p = env::assigns(a, key);
    let q = env::assigns(b, key);
    assert forall|i: int| 0 <= i < a.len() implies #[trigger] p(i) == q(i) by {
        assert(alike(a[i], b[i]));
    }
    search::lemma_last_where_agrees(a.len() as int, p, q);
}

/// A file that is written and read again gives every value that it gave, trimmed.
pub proof fn reread(file: Seq<LineModel<Kind>>, key: Seq<char>)
    requires
        sound_file(file),
    ensures
        env::value_of(env::parsed(lines::emitted(file)), key) == match env::value_of(file, key) {
            Some(value) => Some(text::trim(value)),
            None => None,
        },
{
    let again = env::parsed(lines::emitted(file));
    lines::lemma_split_join(lines::raws(file));
    assert(again.len() == file.len());
    assert forall|i: int| 0 <= i < file.len() implies alike(#[trigger] file[i], again[i]) by {
        assert(lines::raws(file)[i] == file[i].raw);
        assert(again[i] == env::classified(file[i].raw));
        lemma_reread_line(file[i]);
    }
    lemma_alike(file, again, key);
    lemma_found(file, key);
    if let Some(i) = env::assignment_of(file, key) {
        assert(lines::raws(file)[i] == file[i].raw);
        assert(again[i] == env::classified(file[i].raw));
        lemma_reread_line(file[i]);
    }
}

proof fn lemma_edit_is_sound(line: LineModel<Kind>, value: Seq<char>)
    requires
        sound(line),
        line.kind is Assignment,
        !text::breaks_line(value),
    ensures
        sound(env::with_value(line, value)),
        text::ends_line(env::with_value(line, value).raw) == text::ends_line(line.raw),
        env::value_at(env::with_value(line, value)) == value,
{
    let start = line.kind->0.value_start;
    let end = line.kind->0.value_end;
    let body = lines::body(line.raw);
    let eq = equals(body);
    lemma_equals(body);
    lines::lemma_line_splice(line.raw, start, end, value);
    let edited = env::with_value(line, value);
    let after = lines::body(edited.raw);
    assert(after == text::splice(body, start, end, value));
    assert forall|i: int| 0 <= i < start implies after[i] == #[trigger] body[i] by {}
    assert(body.take(eq + 1) =~= after.take(eq + 1));
    lemma_scan_prefix(body, after);
    assert forall|i: int| eq + 1 <= i < start implies text::is_space(#[trigger] after[i]) by {
        assert(after[i] == body[i]);
    }
    assert forall|i: int| start + value.len() <= i < after.len() implies text::is_space(
        #[trigger] after[i],
    ) by {
        assert(after[i] == body[i - start - value.len() + end]);
    }
    assert(env::value_at(edited) =~= value);
}

spec fn is_end(end: Seq<char>) -> bool {
    end == seq!['\n'] || end == seq!['\r', '\n']
}

proof fn lemma_ended_is_sound(line: LineModel<Kind>, end: Seq<char>)
    requires
        sound(line),
        !text::ends_line(line.raw),
        is_end(end),
    ensures
        sound(LineModel { raw: line.raw + end, kind: line.kind }),
        text::ends_line(line.raw + end),
        line.kind is Assignment ==> env::value_at(
            LineModel { raw: line.raw + end, kind: line.kind },
        ) == env::value_at(line),
{
    let raw = line.raw + end;
    let ended = LineModel { raw, kind: line.kind };
    lines::lemma_line_ended(line.raw, end);
    let body = line.raw;
    let after = lines::body(raw);
    lemma_same_start(body, after);
    if line.kind is Assignment {
        let eq = equals(body);
        lemma_equals(body);
        let start = line.kind->0.value_start;
        let to = line.kind->0.value_end;
        assert forall|i: int| eq + 1 <= i < start implies text::is_space(#[trigger] after[i]) by {
            assert(after[i] == body[i]);
        }
        assert forall|i: int| to <= i < after.len() implies text::is_space(#[trigger] after[i]) by {
            if i < body.len() {
                assert(after[i] == body[i]);
            }
        }
        assert(env::value_at(ended) =~= env::value_at(line));
    } else {
        let p = text::strip_terminator(line.raw);
        let q = text::strip_terminator(raw);
        lines::lemma_content_of_body(line.raw);
        lines::lemma_content_of_body(raw);
        lemma_same_start(p, body);
        lemma_same_start(q, after);
    }
}

proof fn lemma_terminated(file: Seq<LineModel<Kind>>, end: Seq<char>)
    requires
        sound_file(file),
        is_end(end),
    ensures
        ({
            let ended = lines::terminated(file, end);
            &&& sound_file(ended)
            &&& ended.len() == file.len()
            &&& file.len() > 0 ==> text::ends_line(ended.last().raw)
            &&& forall|j: int|
                0 <= j < file.len() ==> (#[trigger] ended[j]).kind == file[j].kind && (
                file[j].kind is Assignment ==> env::value_at(ended[j]) == env::value_at(file[j]))
        }),
{
    let ended = lines::terminated(file, end);
    if file.len() > 0 {
        let n = file.len() - 1;
        assert(sound(file[n]));
        assert(lines::raws(file)[n] == file[n].raw);
        if !text::ends_line(file[n].raw) {
            lemma_ended_is_sound(file[n], end);
            lines::lemma_file_update(lines::raws(file), n, file[n].raw + end);
            assert(lines::raws(ended) =~= lines::raws(file).update(n, file[n].raw + end));
            assert forall|j: int| 0 <= j < ended.len() implies sound(#[trigger] ended[j]) by {
                assert(sound(file[j]));
            }
        }
    }
}

/// A new assignment is one line, and is read as such.
proof fn lemma_new_export(key: Seq<char>, value: Seq<char>, end: Seq<char>)
    requires
        env::is_identifier(key),
        !text::breaks_line(value),
        is_end(end),
    ensures
        ({
            let line = env::classified("export "@ + key + "="@ + value + end);
            &&& lines::is_line(line.raw)
            &&& text::ends_line(line.raw)
            &&& line.kind is Assignment
            &&& line.kind->0.key == key
            &&& line.kind->0.exported
            &&& env::value_at(line) == text::trim(value)
        }),
{
    reveal_strlit("export ");
    reveal_strlit("=");
    let s = "export "@ + key + "="@ + value;
    let raw = s + end;
    let eq: int = 7 + key.len() as int;
    assert forall|j: int| 0 <= j < key.len() implies s[7 + j] == #[trigger] key[j] by {}
    assert(s[eq as int] == '=');
    assert(!s.contains('\n')) by {
        assert forall|j: int| 0 <= j < s.len() implies s[j] != '\n' by {
            if 7 <= j < eq {
                assert(s[j] == key[j - 7]);
                assert(text::is_letter(key[j - 7]) || text::is_digit(key[j - 7]) || key[j - 7]
                    == '_');
            } else if j > eq {
                assert(s[j] == value[j - eq - 1]);
                assert(value.contains(value[j - eq - 1]));
            }
        }
    }
    assert forall|i: int| 0 <= i < raw.len() - 1 implies #[trigger] raw[i] != '\n' by {
        if i < s.len() {
            assert(raw[i] == s[i]);
            assert(s.contains(s[i]));
        }
    }
    let body = lines::body(raw);
    if end == seq!['\n'] {
        assert(body =~= s);
    } else {
        assert(body =~= s.push('\r'));
    }
    assert forall|i: int| 0 <= i < s.len() implies body[i] == #[trigger] s[i] by {}
    env::lemma_leading_separators(body);
    assert(body[0] == s[0] && s[0] == 'e');
    assert(env::leading_separators(body) == 0);
    assert(body.subrange(0, 6) =~= env::export_word());
    assert(body[6] == s[6] && s[6] == ' ');
    assert(env::is_export_at(body, 0));
    let rest = body.skip(6);
    env::lemma_leading_separators(rest);
    assert(rest[0] == body[6]);
    assert(rest[1] == body[7] && body[7] == s[7] && s[7] == key[0]);
    assert(text::is_letter(key[0]) || text::is_digit(key[0]) || key[0] == '_');
    assert(env::leading_separators(rest) == 1);
    assert(env::name_start(body) == (7int, true));
    let tail = body.skip(7);
    assert forall|i: int| 0 <= i < key.len() implies tail[i] != '=' by {
        assert(tail[i] == body[7 + i] && body[7 + i] == s[7 + i] && s[7 + i] == key[i]);
        assert(text::is_letter(key[i]) || text::is_digit(key[i]) || key[i] == '_');
    }
    assert(tail[key.len() as int] == body[eq as int]);
    text::lemma_find_char_is(tail, '=', key.len() as int);
    assert(equals(body) == eq);
    assert(body.subrange(7, eq as int) =~= key);
    let line = LineModel {
        raw,
        kind: Kind::Assignment(
            Scan { key, exported: true, value_start: eq + 1, value_end: eq + 1 + value.len() as int },
        ),
    };
    assert(sound(line));
    lemma_reread_line(line);
    assert(env::value_at(line) =~= value);
}

/// Setting a value leaves a sound file sound.
pub proof fn set_keeps_sound(file: Seq<LineModel<Kind>>, key: Seq<char>, value: Seq<char>)
    requires
        sound_file(file),
    ensures
        sound_file(env::after_set(file, key, value)),
{
    if env::accepts(file, key, value) {
        let after = env::after_set(file, key, value);
        let end = lines::terminator(file);
        lemma_found(file, key);
        match env::assignment_of(file, key) {
            Some(i) => {
                let edited = env::with_value(file[i], value);
                assert(sound(file[i]));
                lemma_edit_is_sound(file[i], value);
                assert(lines::raws(file)[i] == file[i].raw);
                lines::lemma_file_update(lines::raws(file), i, edited.raw);
                assert(lines::raws(after) =~= lines::raws(file).update(i, edited.raw));
                assert forall|j: int| 0 <= j < after.len() implies sound(#[trigger] after[j]) by {
                    assert(sound(file[j]));
                }
            },
            None => {
                lemma_terminated(file, end);
                lemma_new_export(key, value, end);
                let ended = lines::terminated(file, end);
                let raw = "export "@ + key + "="@ + value + end;
                let n = ended.len() as int;
                if n > 0 {
                    assert(lines::raws(ended)[n - 1] == ended.last().raw);
                }
                lines::lemma_file_insert(lines::raws(ended), n, raw);
                assert(lines::raws(after) =~= lines::raws(ended).insert(n, raw));
                lemma_classified_is_sound(raw);
                assert forall|j: int| 0 <= j < after.len() implies sound(#[trigger] after[j]) by {
                    if j < n {
                        assert(after[j] == ended[j]);
                    }
                }
            },
        }
    }
}

/// An edit of a value that exists replaces the characters of that value and leaves every other
/// character of the file.
pub proof fn edit_replaces_one_value(
    file: Seq<LineModel<Kind>>,
    key: Seq<char>,
    value: Seq<char>,
)
    requires
        all_fit(file),
        env::value_of(file, key) is Some,
        !text::breaks_line(value),
    ensures
        exists|before: Seq<char>, after: Seq<char>| #![trigger before + value + after]
            {
                &&& lines::emitted(file) == before + env::value_of(file, key)->0 + after
                &&& lines::emitted(env::after_set(file, key, value)) == before + value + after
            },
{
    lemma_found(file, key);
    let i = env::assignment_of(file, key)->0;
    let start = file[i].kind->0.value_start;
    let end = file[i].kind->0.value_end;
    let edited = env::with_value(file[i], value);
    assert(env::spans_fit(file[i]));
    lines::lemma_emitted_splice(file, i, start, end, value, edited.kind);
    let before = lines::text_before(file, i, start);
    let after = lines::text_after(file, i, end);
    assert(lines::emitted(env::after_set(file, key, value)) == before + value + after);
}

/// An assignment that is added stands behind the whole text, after the terminator of a last line
/// that had none.
pub proof fn added_export_stands_at_the_end(
    file: Seq<LineModel<Kind>>,
    key: Seq<char>,
    value: Seq<char>,
)
    requires
        env::accepts(file, key, value),
        env::value_of(file, key) is None,
    ensures
        ({
            let end = lines::terminator(file);
            let line = "export "@ + key + "="@ + value + end;
            lines::emitted(env::after_set(file, key, value)) == if file.len() > 0
                && !text::ends_line(file.last().raw) {
                lines::emitted(file) + end + line
            } else {
                lines::emitted(file) + line
            }
        }),
{
    let end = lines::terminator(file);
    lines::lemma_emitted_terminated(file, end);
    lines::lemma_emitted_push(
        lines::terminated(file, end),
        env::classified("export "@ + key + "="@ + value + end),
    );
}

/// What was set is read back, trimmed where an assignment was added, and no other value changes.
pub proof fn read_after_set(
    file: Seq<LineModel<Kind>>,
    key: Seq<char>,
    value: Seq<char>,
    other: Seq<char>,
)
    requires
        sound_file(file),
        env::accepts(file, key, value),
    ensures
        env::value_of(env::after_set(file, key, value), key) == Some(
            if env::value_of(file, key) is Some {
                value
            } else {
                text::trim(value)
            },
        ),
        other != key ==> env::value_of(env::after_set(file, key, value), other) == env::value_of(
            file,
            other,
        ),
{
    let after = env::after_set(file, key, value);
    lemma_found(file, key);
    lemma_found(file, other);
    match env::assignment_of(file, key) {
        Some(i) => {
            assert(sound(file[i]));
            lemma_edit_is_sound(file[i], value);
            assert forall|j: int| 0 <= j < file.len() implies alike(#[trigger] file[j], after[j]) by {}
            lemma_alike(file, after, key);
            lemma_alike(file, after, other);
        },
        None => {
            let end = lines::terminator(file);
            let n = file.len() as int;
            lemma_terminated(file, end);
            lemma_new_export(key, value, end);
            search::lemma_last_where_is(n + 1, env::assigns(after, key), n);
            if other != key {
                let p = env::assigns(file, other);
                let q = env::assigns(after, other);
                assert forall|j: int| 0 <= j < n implies #[trigger] p(j) == q(j) by {
                    assert(after[j].kind == file[j].kind);
                }
                search::lemma_last_where_agrees(n, p, q);
                assert(!q(n));
                assert(env::assignment_of(after, other) == env::assignment_of(file, other));
                if let Some(k) = env::assignment_of(file, other) {
                    assert(after[k].kind == file[k].kind);
                }
            }
        },
    }
}

/// What was set is read back from the file as it is written, trimmed.
pub proof fn written_value_is_read_back(
    file: Seq<LineModel<Kind>>,
    key: Seq<char>,
    value: Seq<char>,
)
    requires
        sound_file(file),
        env::accepts(file, key, value),
    ensures
        env::value_of(env::parsed(lines::emitted(env::after_set(file, key, value))), key) == Some(
            text::trim(value),
        ),
{
    set_keeps_sound(file, key, value);
    read_after_set(file, key, value, key);
    reread(env::after_set(file, key, value), key);
    text::lemma_trim_twice(value);
}

/// Setting a value to what it is leaves the file as it is.
pub proof fn setting_the_current_value_changes_nothing(
    file: Seq<LineModel<Kind>>,
    key: Seq<char>,
)
    requires
        all_fit(file),
        env::value_of(file, key) is Some,
    ensures
        env::after_set(file, key, env::value_of(file, key)->0) == file,
{
    lemma_found(file, key);
    let i = env::assignment_of(file, key)->0;
    let line = file[i];
    assert(env::spans_fit(line));
    let value = env::value_at(line);
    assert(text::splice(line.raw, line.kind->0.value_start, line.kind->0.value_end, value)
        =~= line.raw);
    assert(env::after_set(file, key, value) =~= file);
}

proof fn lemma_scan_before_return(content: Seq<char>, key: Seq<char>)
    ensures
        ({
            let more = content.push('\r');
            &&& env::scan(content) is Some <==> env::scan(more) is Some
            &&& env::scan(content) matches Some(found) ==> {
                let again = env::scan(more)->0;
                &&& again.key == found.key
                &&& content.subrange(found.value_start, found.value_end) == more.subrange(
                    again.value_start,
                    again.value_end,
                )
            }
        }),
{
    let more = content.push('\r');
    lemma_same_start(content, more);
    if env::scan(content) is Some {
        let eq = equals(content);
        lemma_equals(content);
        lemma_equals(more);
        let after = content.skip(eq + 1);
        assert(more.skip(eq + 1) =~= after.push('\r'));
        text::lemma_trim_return(after);
        assignment::lemma_value_span(content, eq);
        assignment::lemma_value_span(more, eq);
    }
}

/// A comment that gets a terminator says what it said.
proof fn lemma_comment_ended(raw: Seq<char>, end: Seq<char>, key: Seq<char>)
    requires
        lines::is_line(raw),
        !text::ends_line(raw),
        is_end(end),
        env::classify(raw) is Comment,
    ensures
        env::commented_value(raw + end, key) == env::commented_value(raw, key),
{
    let content = text::strip_terminator(raw);
    let ended = text::strip_terminator(raw + end);
    assert(ended =~= content || ended =~= content.push('\r'));
    if ended != content {
        let body = text::trim_start(content);
        let more = text::trim_start(ended);
        text::lemma_leading_space(content);
        text::lemma_leading_space(ended);
        text::lemma_trim_bounds(content);
        let start = text::leading_space(content);
        let found = text::leading_space(ended);
        assert(start < content.len());
        if found < start {
            assert(content[found] == ended[found]);
        }
        if start < found {
            assert(content[start] == ended[start]);
        }
        assert(more =~= body.push('\r'));
        env::lemma_leading_hashes(body);
        env::lemma_leading_hashes(more);
        let count = env::leading_hashes(body);
        let again = env::leading_hashes(more);
        if count < again {
            assert(more[count] == '#');
            if count < body.len() {
                assert(body[count] == more[count]);
            }
        }
        if again < count {
            assert(body[again] == '#');
            assert(body[again] == more[again]);
        }
        assert(count == again);
        assert(env::uncommented(raw + end) =~= env::uncommented(raw).push('\r'));
        lemma_scan_before_return(env::uncommented(raw), key);
    }
}

/// An edit changes no comment, so a variable that is commented out stays so, with its value.
pub proof fn comments_stay(
    file: Seq<LineModel<Kind>>,
    key: Seq<char>,
    value: Seq<char>,
    commented: Seq<char>,
)
    requires
        sound_file(file),
    ensures
        env::commented_value_of(env::after_set(file, key, value), commented)
            == env::commented_value_of(file, commented),
{
    if env::accepts(file, key, value) {
        let after = env::after_set(file, key, value);
        let end = lines::terminator(file);
        let n = file.len() as int;
        lemma_found(file, key);
        let p = env::comments_on(file, commented);
        let q = env::comments_on(after, commented);
        if env::assignment_of(file, key) is None {
            lemma_new_export(key, value, end);
            lemma_terminated(file, end);
            assert(!q(n));
            if n > 0 && !text::ends_line(file[n - 1].raw) && file[n - 1].kind is Comment {
                assert(sound(file[n - 1]));
                lemma_comment_ended(file[n - 1].raw, end, commented);
            }
        }
        assert forall|j: int| 0 <= j < n implies #[trigger] p(j) == q(j) by {}
        search::lemma_last_where_agrees(n, p, q);
        search::lemma_last_where(n, p);
    }
}

} // verus!
