//! The laws of what a line of a `uwsm/env` is taken for, and of what a file says.

use crate::laws::env as env_laws;
use crate::laws::text as text_laws;
use crate::lines::LineModel;
use crate::parsers::assignment;
use crate::parsers::env;
use crate::parsers::env::Kind;
use crate::search;
use crate::text;
use vstd::prelude::*;

verus! {

/// Whether a text is made of spaces and tabs alone.
pub open spec fn is_spacing(s: Seq<char>) -> bool {
    forall|i: int| 0 <= i < s.len() ==> #[trigger] s[i] == ' ' || s[i] == '\t'
}

/// Whether a text can be a variable's name: it is not empty, its characters are letters, digits and
/// underscores, and it does not begin with a digit.
pub open spec fn is_name(key: Seq<char>) -> bool {
    &&& key.len() > 0
    &&& !"0123456789"@.contains(key[0])
    &&& forall|i: int|
        0 <= i < key.len()
            ==> "ABCDEFGHIJKLMNOPQRSTUVWXYZabcdefghijklmnopqrstuvwxyz0123456789_"@.contains(
            #[trigger] key[i],
        )
}

/// What can be a variable's name is a matter of the characters alone.
pub proof fn names_are_words(key: Seq<char>)
    ensures
        env::is_identifier(key) <==> is_name(key),
{
    assert forall|i: int| 0 <= i < key.len() implies (text::is_letter(#[trigger] key[i])
        || text::is_digit(key[i]) || key[i] == '_')
        == "ABCDEFGHIJKLMNOPQRSTUVWXYZabcdefghijklmnopqrstuvwxyz0123456789_"@.contains(key[i]) by {
        text_laws::lemma_word_char(key[i]);
    }
    if key.len() > 0 {
        text_laws::digits_are_listed(key[0]);
    }
}

/// What stands before the name of a variable that is exported, or not.
pub open spec fn keyword(exported: bool, spacing: Seq<char>) -> Seq<char> {
    if exported {
        "export"@ + spacing
    } else {
        Seq::empty()
    }
}

/// Whether a text begins with the word `export` and a space or tab behind it.
pub open spec fn begins_with_export(s: Seq<char>) -> bool {
    s.len() > 6 && s.take(6) == "export"@ && (s[6] == ' ' || s[6] == '\t')
}

proof fn lemma_separators(spacing: Seq<char>, rest: Seq<char>)
    requires
        is_spacing(spacing),
        rest.len() > 0 ==> rest[0] != ' ' && rest[0] != '\t',
    ensures
        env::leading_separators(spacing + rest) == spacing.len(),
{
    let s = spacing + rest;
    env::lemma_leading_separators(s);
    let n = env::leading_separators(s);
    if n < spacing.len() {
        assert(s[n] == spacing[n]);
    }
    if n > spacing.len() {
        assert(s[spacing.len() as int] == rest[0]);
    }
}

/// Where the name of a variable stands behind spaces, tabs and the keyword.
proof fn lemma_name_start(lead: Seq<char>, exported: bool, spacing: Seq<char>, rest: Seq<char>)
    requires
        is_spacing(lead),
        is_spacing(spacing),
        exported ==> spacing.len() > 0,
        rest.len() > 0,
        rest[0] != ' ' && rest[0] != '\t',
        !exported ==> !begins_with_export(rest),
    ensures
        env::name_start(lead + keyword(exported, spacing) + rest) == (
            (lead.len() + keyword(exported, spacing).len()) as int,
            exported,
        ),
{
    reveal_strlit("export");
    let word = env::export_word();
    assert("export"@ =~= word);
    let content = lead + keyword(exported, spacing) + rest;
    let start = lead.len() as int;
    if exported {
        let behind = "export"@ + spacing + rest;
        assert(content =~= lead + behind);
        assert(behind[0] == 'e');
        lemma_separators(lead, behind);
        assert(content.subrange(start, start + 6) =~= word);
        assert(content[start + 6] == spacing[0]);
        assert(content.skip(start + 6) =~= spacing + rest);
        lemma_separators(spacing, rest);
    } else {
        assert(content =~= lead + rest);
        lemma_separators(lead, rest);
        if env::is_export_at(content, start) {
            assert(rest.take(6) =~= content.subrange(start, start + 6));
            assert(rest[6] == content[start + 6]);
            assert(false);
        }
    }
}

/// A text of spaces and tabs, the keyword or none, a name, `=` and a value is an assignment of that
/// value, and none where the name is none.
proof fn lemma_scan(
    lead: Seq<char>,
    exported: bool,
    spacing: Seq<char>,
    key: Seq<char>,
    gap: Seq<char>,
    value: Seq<char>,
    tail: Seq<char>,
)
    requires
        is_spacing(lead),
        is_spacing(spacing),
        exported ==> spacing.len() > 0,
        key.len() > 0 ==> key[0] != ' ' && key[0] != '\t',
        !key.contains('='),
        !exported ==> !begins_with_export(key),
        text_laws::is_blank(gap),
        text_laws::is_tight(value),
        text_laws::is_blank(tail),
    ensures
        ({
            let content = lead + keyword(exported, spacing) + key + seq!['='] + gap + value + tail;
            let found = env::scan(content);
            &&& found is Some <==> is_name(key)
            &&& found matches Some(scan) ==> {
                &&& scan.key == key
                &&& scan.exported == exported
                &&& 0 <= scan.value_start <= scan.value_end <= content.len()
                &&& content.subrange(scan.value_start, scan.value_end) == value
            }
        }),
{
    let before = lead + keyword(exported, spacing);
    let head = before + key;
    let content = head + seq!['='] + gap + value + tail;
    let rest = key + seq!['='] + gap + value + tail;
    assert(content =~= before + rest);
    reveal_strlit("export");
    if key.len() > 0 {
        assert(rest[0] == key[0]);
    }
    if !exported && begins_with_export(rest) {
        assert(rest.take(6)[5] == 't');
        if key.len() > 6 {
            assert(rest.take(6) =~= key.take(6));
            assert(rest[6] == key[6]);
        } else if key.len() == 6 {
            assert(rest[6] == '=');
        } else {
            assert(rest.take(6)[key.len() as int] == '=');
            assert("export"@[key.len() as int] != '=');
        }
        assert(false);
    }
    lemma_name_start(lead, exported, spacing, rest);
    let from = before.len() as int;
    assert(content.skip(from) =~= rest);
    assert forall|i: int| 0 <= i < key.len() implies rest[i] != '=' by {
        assert(rest[i] == key[i]);
        assert(key.contains(key[i]));
    }
    assert(rest[key.len() as int] == '=');
    text::lemma_find_char_is(rest, '=', key.len() as int);
    let eq = from + key.len();
    assert(content.subrange(from, eq) =~= key);
    names_are_words(key);
    assert(content.skip(eq + 1) =~= gap + value + tail);
    text_laws::trimming_takes_white_space_away(gap, value, tail);
    assignment::lemma_value_span(content, eq);
}

proof fn lemma_spacing_is_gap(s: Seq<char>)
    requires
        is_spacing(s),
    ensures
        text_laws::is_gap(s),
{
    assert forall|i: int| 0 <= i < s.len() implies text_laws::blanks().contains(#[trigger] s[i]) by {
        text_laws::white_space_is_listed(s[i]);
    }
}

/// A line of spaces and tabs, the keyword `export` or none, a name, `=` and a value, with any white
/// space around the value, is an assignment that gives the variable the value. Where the name is
/// none the line is malformed.
pub proof fn assignment_line_is_read(
    lead: Seq<char>,
    exported: bool,
    spacing: Seq<char>,
    key: Seq<char>,
    gap: Seq<char>,
    value: Seq<char>,
    tail: Seq<char>,
    end: Seq<char>,
)
    requires
        is_spacing(lead),
        is_spacing(spacing),
        exported ==> spacing.len() > 0,
        key.len() > 0 ==> key[0] != '#' && !text_laws::blanks().contains(key[0]),
        !key.contains('='),
        text_laws::is_one_line(key),
        !exported ==> !begins_with_export(key),
        text_laws::is_gap(gap),
        text_laws::is_one_line(value),
        text_laws::is_tight(value),
        text_laws::is_gap(tail),
        text_laws::is_ending(end),
    ensures
        ({
            let line = env::classified(
                lead + keyword(exported, spacing) + key + seq!['='] + gap + value + tail + end,
            );
            &&& is_name(key) ==> {
                &&& line.kind is Assignment
                &&& line.kind->0.key == key
                &&& line.kind->0.exported == exported
                &&& env::value_at(line) == value
            }
            &&& !is_name(key) ==> line.kind is Malformed
        }),
{
    let word = keyword(exported, spacing);
    let content = lead + word + key + seq!['='] + gap + value + tail;
    lemma_spacing_is_gap(lead);
    reveal_strlit("export");
    if key.len() > 0 {
        text_laws::white_space_is_listed(key[0]);
        text_laws::white_space_is_listed(' ');
        text_laws::white_space_is_listed('\t');
    }
    lemma_scan(lead, exported, spacing, key, gap, value, tail);
    lemma_said(lead, exported, spacing, key, gap, value, tail);
    text_laws::lemma_content(content, end);
    let body = word + key + seq!['='] + gap + value + tail;
    assert(content =~= lead + body);
    text_laws::white_space_is_listed('e');
    text_laws::white_space_is_listed('=');
    if exported {
        assert(body[0] == 'e');
    } else if key.len() > 0 {
        assert(body[0] == key[0]);
    } else {
        assert(body[0] == '=');
    }
    text_laws::lemma_body(lead, body);
    let line = env::classified(content + end);
    if is_name(key) {
        let found = env::scan(content)->0;
        assert(env::value_at(line) =~= content.subrange(found.value_start, found.value_end));
    }
}

/// A line of white space alone is blank, one that begins with `#`, white space aside, is a comment,
/// whatever follows, and any other line without `=` is malformed.
pub proof fn other_lines(before: Seq<char>, rest: Seq<char>, end: Seq<char>)
    requires
        text_laws::is_gap(before),
        text_laws::is_one_line(rest),
        text_laws::is_ending(end),
    ensures
        env::classify(before + end) is Blank,
        env::classify(before + seq!['#'] + rest + end) is Comment,
        rest.len() > 0 && rest[0] != '#' && !text_laws::blanks().contains(rest[0])
            && !rest.contains('=') ==> env::classify(before + rest + end) is Malformed,
{
    text_laws::lemma_content(before, end);
    text_laws::lemma_body(before, Seq::empty());
    assert(before + Seq::<char>::empty() =~= before);
    let body = seq!['#'] + rest;
    text_laws::lemma_one_line_add(before, seq!['#']);
    text_laws::lemma_one_line_add(before + seq!['#'], rest);
    text_laws::lemma_content(before + seq!['#'] + rest, end);
    assert(before + seq!['#'] + rest =~= before + body);
    text_laws::white_space_is_listed('#');
    text_laws::lemma_body(before, body);
    if rest.len() > 0 && rest[0] != '#' && !text_laws::blanks().contains(rest[0]) && !rest.contains(
        '=',
    ) {
        let content = before + rest;
        text_laws::lemma_one_line_add(before, rest);
        text_laws::lemma_content(content, end);
        text_laws::lemma_body(before, rest);
        assert forall|i: int| 0 <= i < content.len() implies content[i] != '=' by {
            if i < before.len() {
                assert(content[i] == before[i]);
                text_laws::lemma_blank_char(before[i]);
            } else {
                assert(content[i] == rest[i - before.len()]);
                assert(rest.contains(rest[i - before.len()]));
            }
        }
        let (from, exported) = env::name_start(content);
        env::lemma_scan_fits(content);
        let behind = content.skip(from);
        assert forall|i: int| 0 <= i < behind.len() implies behind[i] != '=' by {
            assert(behind[i] == content[from + i]);
        }
        text::lemma_find_char_is(behind, '=', behind.len() as int);
    }
}

/// A variable that is assigned in a comment, behind one `#` or several, has there the value that it
/// would have without them.
pub proof fn commented_assignment_is_read(
    before: Seq<char>,
    hashes: Seq<char>,
    lead: Seq<char>,
    exported: bool,
    spacing: Seq<char>,
    key: Seq<char>,
    gap: Seq<char>,
    value: Seq<char>,
    tail: Seq<char>,
    end: Seq<char>,
    other: Seq<char>,
)
    requires
        text_laws::is_gap(before),
        hashes.len() > 0,
        forall|i: int| 0 <= i < hashes.len() ==> #[trigger] hashes[i] == '#',
        is_spacing(lead),
        is_spacing(spacing),
        exported ==> spacing.len() > 0,
        is_name(key),
        text_laws::is_gap(gap),
        text_laws::is_one_line(value),
        text_laws::is_tight(value),
        text_laws::is_gap(tail),
        text_laws::is_ending(end),
    ensures
        ({
            let raw = before + hashes + (lead + keyword(exported, spacing) + key + seq!['='] + gap
                + value + tail) + end;
            &&& env::classify(raw) is Comment
            &&& env::commented_value(raw, key) == Some(value)
            &&& other != key ==> env::commented_value(raw, other) is None
        }),
{
    let word = keyword(exported, spacing);
    let said = lead + word + key + seq!['='] + gap + value + tail;
    lemma_name_chars(key);
    lemma_said(lead, exported, spacing, key, gap, value, tail);
    lemma_scan(lead, exported, spacing, key, gap, value, tail);
    lemma_commented(before, hashes, said, end);
}

/// A text that assigns stays on one line, and does not begin with `#`.
proof fn lemma_said(
    lead: Seq<char>,
    exported: bool,
    spacing: Seq<char>,
    key: Seq<char>,
    gap: Seq<char>,
    value: Seq<char>,
    tail: Seq<char>,
)
    requires
        is_spacing(lead),
        is_spacing(spacing),
        key.len() > 0 ==> key[0] != '#',
        text_laws::is_one_line(key),
        text_laws::is_gap(gap),
        text_laws::is_one_line(value),
        text_laws::is_gap(tail),
    ensures
        ({
            let said = lead + keyword(exported, spacing) + key + seq!['='] + gap + value + tail;
            &&& text_laws::is_one_line(said)
            &&& said.len() > 0
            &&& said[0] != '#'
        }),
{
    let word = keyword(exported, spacing);
    let said = lead + word + key + seq!['='] + gap + value + tail;
    lemma_spacing_is_gap(lead);
    lemma_spacing_is_gap(spacing);
    reveal_strlit("export");
    assert(text_laws::is_one_line("export"@));
    text_laws::lemma_one_line_add("export"@, spacing);
    assert(text_laws::is_one_line(word));
    text_laws::lemma_one_line_add(lead, word);
    text_laws::lemma_one_line_add(lead + word, key);
    text_laws::lemma_one_line_add(lead + word + key, seq!['=']);
    text_laws::lemma_one_line_add(lead + word + key + seq!['='], gap);
    text_laws::lemma_one_line_add(lead + word + key + seq!['='] + gap, value);
    text_laws::lemma_one_line_add(lead + word + key + seq!['='] + gap + value, tail);
    if lead.len() > 0 {
        assert(said[0] == lead[0]);
    } else if word.len() > 0 {
        assert(said[0] == word[0]);
        assert(word[0] == 'e');
    } else if key.len() > 0 {
        assert(said[0] == key[0]);
    } else {
        assert(said[0] == '=');
    }
}

/// What a comment says is what stands behind all of its `#`.
proof fn lemma_commented(before: Seq<char>, hashes: Seq<char>, said: Seq<char>, end: Seq<char>)
    requires
        text_laws::is_gap(before),
        hashes.len() > 0,
        forall|i: int| 0 <= i < hashes.len() ==> #[trigger] hashes[i] == '#',
        text_laws::is_one_line(said),
        said.len() > 0,
        said[0] != '#',
        text_laws::is_ending(end),
    ensures
        env::classify(before + hashes + said + end) is Comment,
        env::uncommented(before + hashes + said + end) == said,
{
    let body = hashes + said;
    let content = before + body;
    assert(before + hashes + said + end =~= content + end);
    assert(text_laws::is_one_line(hashes));
    text_laws::lemma_one_line_add(hashes, said);
    text_laws::lemma_one_line_add(before, body);
    text_laws::lemma_content(content, end);
    text_laws::white_space_is_listed('#');
    assert(body[0] == hashes[0]);
    text_laws::lemma_body(before, body);
    env::lemma_leading_hashes(body);
    let n = env::leading_hashes(body);
    assert(body[hashes.len() as int] == said[0]);
    if n < hashes.len() {
        assert(body[n] == hashes[n]);
    }
    assert(body.skip(hashes.len() as int) =~= said);
}

proof fn lemma_name_chars(key: Seq<char>)
    requires
        is_name(key),
    ensures
        text_laws::is_one_line(key),
        !key.contains('='),
        key[0] != '#' && key[0] != ' ' && key[0] != '\t',
        !text_laws::blanks().contains(key[0]),
        !begins_with_export(key),
{
    assert forall|i: int| 0 <= i < key.len() implies #[trigger] key[i] != '\n' && key[i] != '\r'
        && key[i] != '=' && key[i] != '#' && key[i] != ' ' && key[i] != '\t' by {
        text_laws::lemma_word_char(key[i]);
    }
    text_laws::lemma_word_char(key[0]);
    if text_laws::blanks().contains(key[0]) {
        text_laws::lemma_blank_char(key[0]);
    }
}

/// The value of a variable is that of the last assignment to it, and there is none where nothing
/// assigns to it.
pub proof fn last_assignment_counts(file: Seq<LineModel<Kind>>, key: Seq<char>)
    ensures
        env::value_of(file, key) is None <==> forall|i: int|
            0 <= i < file.len() ==> !((#[trigger] file[i]).kind is Assignment && file[i].kind->0.key
                == key),
        forall|i: int|
            0 <= i < file.len() && (#[trigger] file[i]).kind is Assignment && file[i].kind->0.key
                == key && (forall|j: int|
                i < j < file.len() ==> !((#[trigger] file[j]).kind is Assignment
                    && file[j].kind->0.key == key)) ==> env::value_of(file, key) == Some(
                env::value_at(file[i]),
            ),
{
    let n = file.len() as int;
    let p = env::assigns(file, key);
    search::lemma_last_where(n, p);
    assert forall|i: int|
        0 <= i < file.len() && (#[trigger] file[i]).kind is Assignment && file[i].kind->0.key == key
            && (forall|j: int|
            i < j < file.len() ==> !((#[trigger] file[j]).kind is Assignment && file[j].kind->0.key
                == key)) implies env::value_of(file, key) == Some(env::value_at(file[i])) by {
        assert forall|j: int| i < j < n implies !#[trigger] p(j) by {
            assert(!(file[j].kind is Assignment && file[j].kind->0.key == key));
        }
        assert(p(i));
        search::lemma_last_where_is(n, p, i);
    }
    if env::value_of(file, key) is None {
        assert forall|i: int| 0 <= i < file.len() implies !((#[trigger] file[i]).kind is Assignment
            && file[i].kind->0.key == key) by {
            assert(!p(i));
        }
    } else {
        let i = env::assignment_of(file, key)->0;
        assert(p(i));
    }
}

/// The value that comments would give a variable is that of the last comment that assigns to it.
pub proof fn last_comment_counts(file: Seq<LineModel<Kind>>, key: Seq<char>, i: int)
    requires
        0 <= i < file.len(),
        file[i].kind is Comment,
        env::commented_value(file[i].raw, key) is Some,
        forall|j: int|
            i < j < file.len() ==> !((#[trigger] file[j]).kind is Comment && env::commented_value(
                file[j].raw,
                key,
            ) is Some),
    ensures
        env::commented_value_of(file, key) == env::commented_value(file[i].raw, key),
{
    let n = file.len() as int;
    let p = env::comments_on(file, key);
    assert forall|j: int| i < j < n implies !#[trigger] p(j) by {
        assert(!(file[j].kind is Comment && env::commented_value(file[j].raw, key) is Some));
    }
    assert(p(i));
    search::lemma_last_where_is(n, p, i);
}

/// A variable can be given every value that stays on its line, if it is assigned already or has a
/// name that can be assigned to; the value is then read back, trimmed where the assignment is new.
/// Otherwise the file stays as it was.
pub proof fn plain_value_is_set(file: Seq<LineModel<Kind>>, key: Seq<char>, value: Seq<char>)
    requires
        env_laws::sound_file(file),
    ensures
        env::accepts(file, key, value) <==> text_laws::is_one_line(value) && (env::value_of(
            file,
            key,
        ) is Some || is_name(key)),
        env::accepts(file, key, value) ==> env::value_of(env::after_set(file, key, value), key)
            == Some(
            if env::value_of(file, key) is Some {
                value
            } else {
                text::trim(value)
            },
        ),
        !env::accepts(file, key, value) ==> env::after_set(file, key, value) == file,
{
    names_are_words(key);
    text_laws::line_is_broken_by_feed_or_return(value);
    if env::accepts(file, key, value) {
        env_laws::read_after_set(file, key, value, key);
    }
}

/// A file warns of every malformed line, and of no other, in the order of the lines, which are
/// counted from one.
pub proof fn malformed_lines_are_warned_of(file: Seq<LineModel<Kind>>)
    ensures
        forall|i: int|
            0 <= i < file.len() ==> ((#[trigger] file[i]).kind is Malformed <==> env::malformed(
                file,
            ).contains(i + 1)),
        forall|k: int|
            0 <= k < env::malformed(file).len() ==> 1 <= #[trigger] env::malformed(file)[k]
                <= file.len(),
        forall|j: int, k: int|
            0 <= j < k < env::malformed(file).len() ==> #[trigger] env::malformed(file)[j]
                < #[trigger] env::malformed(file)[k],
{
    lemma_malformed_upto(file, file.len() as int);
}

proof fn lemma_malformed_upto(file: Seq<LineModel<Kind>>, n: int)
    requires
        0 <= n <= file.len(),
    ensures
        forall|i: int|
            0 <= i < n ==> ((#[trigger] file[i]).kind is Malformed <==> env::malformed_upto(
                file,
                n,
            ).contains(i + 1)),
        forall|k: int|
            0 <= k < env::malformed_upto(file, n).len() ==> 1 <= #[trigger] env::malformed_upto(
                file,
                n,
            )[k] <= n,
        forall|j: int, k: int|
            0 <= j < k < env::malformed_upto(file, n).len() ==> #[trigger] env::malformed_upto(
                file,
                n,
            )[j] < #[trigger] env::malformed_upto(file, n)[k],
    decreases n,
{
    if n > 0 {
        lemma_malformed_upto(file, n - 1);
        let old_all = env::malformed_upto(file, n - 1);
        let all = env::malformed_upto(file, n);
        assert forall|i: int| 0 <= i < n implies ((#[trigger] file[i]).kind is Malformed
            <==> all.contains(i + 1)) by {
            if old_all.contains(i + 1) {
                let k = choose|k: int| 0 <= k < old_all.len() && old_all[k] == i + 1;
                assert(all[k] == i + 1);
            }
            if all.contains(i + 1) {
                let k = choose|k: int| 0 <= k < all.len() && all[k] == i + 1;
                if k < old_all.len() {
                    assert(old_all[k] == i + 1);
                }
            }
            if i == n - 1 && file[i].kind is Malformed {
                assert(all[all.len() - 1] == n);
            }
        }
    }
}

} // verus!
