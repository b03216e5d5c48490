//! The laws of color schemes as they are shown.

use crate::laws::palette as palette_laws;
use crate::laws::text as text_laws;
use crate::lines::LineModel;
use crate::parsers::generated;
use crate::parsers::generated::Color;
use crate::parsers::palette;
use crate::parsers::palette::Kind;
use crate::search;
use crate::text;
use vstd::prelude::*;

verus! {

/// A key of a file has a value in it.
proof fn lemma_key_has_value(file: Seq<LineModel<Kind>>, n: int, key: Seq<char>)
    requires
        0 <= n <= file.len(),
        palette::keys_upto(file, n).contains(key),
    ensures
        palette::value_of(file, key) is Some,
    decreases n,
{
    let found = palette::keys_upto(file, n);
    let j = choose|j: int| 0 <= j < found.len() && found[j] == key;
    if n > 0 {
        let before = palette::keys_upto(file, n - 1);
        if j < before.len() {
            assert(before[j] == key);
            lemma_key_has_value(file, n - 1, key);
        } else {
            search::lemma_first_where(file.len() as int, palette::entries(file, key));
            assert(palette::entries(file, key)(n - 1));
        }
    }
}

/// A file that is a scheme gives every palette key a color to show, in canonical order, and that is
/// the value which the file gives the key.
pub proof fn scheme_shows_every_color(contents: Seq<char>)
    requires
        generated::swatch_of(contents).validation.is_valid(),
    ensures
        ({
            let colors = generated::swatch_of(contents).colors;
            let schema = palette::schema();
            &&& colors.len() == schema.len()
            &&& forall|i: int|
                0 <= i < schema.len() ==> (#[trigger] colors[i]).key == schema[i]
                    && palette::value_of(palette::parsed(contents), schema[i]) == Some(
                    colors[i].value,
                )
        }),
{
    let file = palette::parsed(contents);
    let schema = palette::schema();
    let keys = palette::keys(file);
    palette_laws::valid_means_each_key_once(keys);
    assert forall|i: int| 0 <= i < schema.len() implies palette::value_of(
        file,
        #[trigger] schema[i],
    ) is Some by {
        assert(schema.contains(schema[i]));
        palette_laws::lemma_times(keys, schema[i]);
        lemma_key_has_value(file, file.len() as int, schema[i]);
    }
    lemma_all_shown(file, schema.len() as int);
}

proof fn lemma_all_shown(file: Seq<LineModel<Kind>>, n: int)
    requires
        0 <= n <= palette::schema().len(),
        forall|i: int|
            0 <= i < palette::schema().len() ==> palette::value_of(
                file,
                #[trigger] palette::schema()[i],
            ) is Some,
    ensures
        ({
            let colors: Seq<Color> = generated::colors_upto(file, n);
            &&& colors.len() == n
            &&& forall|i: int|
                0 <= i < n ==> (#[trigger] colors[i]).key == palette::schema()[i]
                    && palette::value_of(file, palette::schema()[i]) == Some(colors[i].value)
        }),
    decreases n,
{
    if n > 0 {
        lemma_all_shown(file, n - 1);
        assert(palette::value_of(file, palette::schema()[n - 1]) is Some);
    }
}

/// A capital letter has the small one of its place in the alphabet, and any other character is as it
/// is.
pub proof fn capitals_become_small(n: int, c: char)
    requires
        0 <= n < 26,
    ensures
        generated::lower("ABCDEFGHIJKLMNOPQRSTUVWXYZ"@[n]) == "abcdefghijklmnopqrstuvwxyz"@[n],
        !"ABCDEFGHIJKLMNOPQRSTUVWXYZ"@.contains(c) ==> generated::lower(c) == c,
{
    reveal_strlit("ABCDEFGHIJKLMNOPQRSTUVWXYZ");
    reveal_strlit("abcdefghijklmnopqrstuvwxyz");
    if 0x41 <= c as u32 <= 0x5a {
        assert("ABCDEFGHIJKLMNOPQRSTUVWXYZ"@[c as u32 - 0x41] == c);
    }
}

/// A text in small letters is the text with each of its characters in its small form.
pub proof fn small_letters_are_those_of_the_characters(s: Seq<char>, i: int)
    requires
        0 <= i < s.len(),
    ensures
        generated::lowercase(s).len() == s.len(),
        generated::lowercase(s)[i] == generated::lower(s[i]),
{
}

/// Whether a text is a word: it is not empty and holds no white space.
pub open spec fn is_word(s: Seq<char>) -> bool {
    s.len() > 0 && forall|i: int|
        0 <= i < s.len() ==> !text_laws::blanks().contains(#[trigger] s[i])
}

/// Whether a text can follow a word: it is empty or begins with white space.
pub open spec fn ends_a_word(s: Seq<char>) -> bool {
    s.len() > 0 ==> text_laws::blanks().contains(s[0])
}

/// The first word of a text is the first stretch without white space.
proof fn lemma_first_word(before: Seq<char>, word: Seq<char>, rest: Seq<char>)
    requires
        text_laws::is_blank(before),
        is_word(word),
        ends_a_word(rest),
    ensures
        generated::first_word(before + word + rest) == word,
        generated::after_word(before + word + rest) == rest,
{
    let s = before + (word + rest);
    assert(s =~= before + word + rest);
    let body = word + rest;
    assert(body[0] == word[0]);
    text_laws::lemma_body(before, body);
    generated::lemma_word_len(body);
    let n = generated::word_len(body);
    if n < word.len() {
        assert(body[n] == word[n]);
        text_laws::white_space_is_listed(word[n]);
    }
    if n > word.len() {
        assert(body[word.len() as int] == rest[0]);
        text_laws::white_space_is_listed(rest[0]);
    }
    assert(body.take(word.len() as int) =~= word);
    assert(body.skip(word.len() as int) =~= rest);
}

/// A comment whose first two words are `Generated from`, in letters of any case, names the scheme
/// that follows `colors/` in its third word. It names none where its first two words are others, or
/// where its third word does not begin with `colors/` or ends with it.
pub proof fn header_names_its_scheme(
    before: Seq<char>,
    gap: Seq<char>,
    first: Seq<char>,
    gap_after_first: Seq<char>,
    second: Seq<char>,
    gap_after_second: Seq<char>,
    path: Seq<char>,
    rest: Seq<char>,
)
    requires
        text_laws::is_blank(before),
        text_laws::is_blank(gap),
        is_word(first),
        gap_after_first.len() > 0,
        text_laws::is_blank(gap_after_first),
        is_word(second),
        gap_after_second.len() > 0,
        text_laws::is_blank(gap_after_second),
        is_word(path),
        ends_a_word(rest),
    ensures
        ({
            let line = before + seq!['#'] + gap + first + gap_after_first + second
                + gap_after_second + path + rest;
            let heads = generated::lowercase(first) == "generated"@ && generated::lowercase(second)
                == "from"@;
            &&& !heads ==> generated::scheme_of(line) is None
            &&& path.len() <= 7 ==> generated::scheme_of(line) is None
            &&& path.len() > 7 && generated::lowercase(path.take(7)) != "colors/"@
                ==> generated::scheme_of(line) is None
            &&& heads && path.len() > 7 && generated::lowercase(path.take(7)) == "colors/"@
                ==> generated::scheme_of(line) == Some(path.skip(7))
        }),
{
    let third = gap_after_second + path + rest;
    let second_on = gap_after_first + second + third;
    let first_on = gap + first + second_on;
    let body = seq!['#'] + first_on;
    let line = before + seq!['#'] + gap + first + gap_after_first + second + gap_after_second + path
        + rest;
    assert(line =~= before + body);
    text_laws::white_space_is_listed('#');
    text_laws::lemma_body(before, body);
    assert(body.skip(1) =~= first_on);
    assert(third[0] == gap_after_second[0]);
    assert(second_on[0] == gap_after_first[0]);
    lemma_first_word(gap, first, second_on);
    lemma_first_word(gap_after_first, second, third);
    lemma_first_word(gap_after_second, path, rest);
}

/// A line that does not begin with `#`, white space aside, names no scheme.
pub proof fn only_comments_name_schemes(before: Seq<char>, rest: Seq<char>)
    requires
        text_laws::is_blank(before),
        rest.len() > 0 ==> rest[0] != '#' && !text_laws::blanks().contains(rest[0]),
    ensures
        generated::scheme_of(before + rest) is None,
{
    text_laws::lemma_body(before, rest);
}

/// The scheme of a text is that of the first line that names one, and there is none where no line
/// does.
pub proof fn first_header_counts(contents: Seq<char>)
    ensures
        ({
            let lines = text::split_lines(contents);
            &&& (forall|i: int|
                0 <= i < lines.len() ==> generated::scheme_of(#[trigger] lines[i]) is None)
                <==> generated::detected(contents) is None
            &&& forall|i: int|
                0 <= i < lines.len() && generated::scheme_of(#[trigger] lines[i]) is Some && (
                forall|j: int|
                    0 <= j < i ==> generated::scheme_of(#[trigger] lines[j]) is None)
                    ==> generated::detected(contents) == generated::scheme_of(lines[i])
        }),
{
    let lines = text::split_lines(contents);
    let n = lines.len() as int;
    let p = generated::naming(lines);
    search::lemma_first_where(n, p);
    if let Some(i) = search::first_where(n, p) {
        assert(p(i));
        assert(generated::scheme_of(lines[i]) is Some);
    } else {
        assert forall|i: int| 0 <= i < n implies generated::scheme_of(#[trigger] lines[i]) is None by {
            assert(!p(i));
        }
    }
    assert forall|i: int|
        0 <= i < lines.len() && generated::scheme_of(#[trigger] lines[i]) is Some && (forall|j: int|
            0 <= j < i ==> generated::scheme_of(#[trigger] lines[j]) is None) implies
        generated::detected(contents) == generated::scheme_of(lines[i]) by {
        assert forall|j: int| 0 <= j < i implies !#[trigger] p(j) by {
            assert(generated::scheme_of(lines[j]) is None);
        }
        assert(p(i));
        search::lemma_first_where_is(n, p, i);
    }
}

/// What a file shows of a palette key is the value that it gives the key; a key without a value is
/// not shown, and the others stand in the order of a scheme.
pub proof fn shown_colors_are_those_of_the_file(contents: Seq<char>, i: int)
    requires
        0 <= i < palette::schema().len(),
    ensures
        ({
            let file = palette::parsed(contents);
            let colors = generated::swatch_of(contents).colors;
            let key = palette::schema()[i];
            &&& palette::value_of(file, key) matches Some(value) ==> colors.contains(
                Color { key, value },
            )
            &&& palette::value_of(file, key) is None ==> forall|k: int|
                0 <= k < colors.len() ==> (#[trigger] colors[k]).key != key
        }),
{
    let file = palette::parsed(contents);
    let n = palette::schema().len() as int;
    let key = palette::schema()[i];
    if let Some(value) = palette::value_of(file, key) {
        lemma_shown(file, n, i);
    } else {
        lemma_not_shown(file, n, key);
    }
}

proof fn lemma_shown(file: Seq<LineModel<Kind>>, n: int, i: int)
    requires
        0 <= i < n <= palette::schema().len(),
        palette::value_of(file, palette::schema()[i]) is Some,
    ensures
        generated::colors_upto(file, n).contains(
            Color {
                key: palette::schema()[i],
                value: palette::value_of(file, palette::schema()[i])->0,
            },
        ),
    decreases n,
{
    let color = Color {
        key: palette::schema()[i],
        value: palette::value_of(file, palette::schema()[i])->0,
    };
    let all = generated::colors_upto(file, n);
    if i < n - 1 {
        lemma_shown(file, n - 1, i);
        let before = generated::colors_upto(file, n - 1);
        let k = choose|k: int| 0 <= k < before.len() && before[k] == color;
        assert(all[k] == color);
    } else {
        assert(all[all.len() - 1] == color);
    }
}

proof fn lemma_not_shown(file: Seq<LineModel<Kind>>, n: int, key: Seq<char>)
    requires
        palette::value_of(file, key) is None,
    ensures
        forall|k: int|
            0 <= k < generated::colors_upto(file, n).len() ==> (#[trigger] generated::colors_upto(
                file,
                n,
            )[k]).key != key,
    decreases n,
{
    if n > 0 {
        lemma_not_shown(file, n - 1, key);
        let before = generated::colors_upto(file, n - 1);
        let all = generated::colors_upto(file, n);
        assert forall|k: int| 0 <= k < all.len() implies (#[trigger] all[k]).key != key by {
            if k < before.len() {
                assert(all[k] == before[k]);
            }
        }
    }
}

} // verus!
