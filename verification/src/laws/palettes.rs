//! The laws of the palettes to switch to.

use crate::disk;
use crate::laws::palette as palette_laws;
use crate::laws::text as text_laws;
use crate::parsers::generated;
use crate::parsers::generated::Color;
use crate::parsers::palette;
use crate::search;
use crate::text;
use crate::theme::discovery;
use crate::theme::palettes;
use crate::theme::palettes::{Candidate, Palette, SchemeModel};
use vstd::prelude::*;

verus! {

/// Whether schemes are in order of their names.
pub open spec fn is_sorted(schemes: Seq<SchemeModel>) -> bool {
    forall|i: int, j: int|
        0 <= i < j < schemes.len() ==> !discovery::before(
            (#[trigger] schemes[j]).name,
            (#[trigger] schemes[i]).name,
        )
}

/// The schemes of a directory are in order of their names, whatever the order of its entries.
pub proof fn schemes_are_sorted(entries: Seq<Candidate>, disk: Seq<(Seq<char>, Seq<u8>)>)
    ensures
        is_sorted(palettes::schemes_in(entries, disk)),
{
    lemma_sorted_upto(entries, disk, entries.len() as int);
}

proof fn lemma_sorted_upto(entries: Seq<Candidate>, disk: Seq<(Seq<char>, Seq<u8>)>, n: int)
    ensures
        is_sorted(palettes::schemes_upto(entries, disk, n)),
    decreases n,
{
    if n > 0 {
        lemma_sorted_upto(entries, disk, n - 1);
        let schemes = palettes::schemes_upto(entries, disk, n - 1);
        if let Some(scheme) = palettes::scheme_of(entries[n - 1], disk) {
            lemma_insert_sorted(schemes, scheme);
        }
    }
}

proof fn lemma_insert_sorted(schemes: Seq<SchemeModel>, scheme: SchemeModel)
    requires
        is_sorted(schemes),
    ensures
        0 <= palettes::place_for(schemes, scheme.name) <= schemes.len(),
        is_sorted(schemes.insert(palettes::place_for(schemes, scheme.name), scheme)),
{
    let name = scheme.name;
    let later = palettes::later(schemes, name);
    search::lemma_first_where(schemes.len() as int, later);
    let k = palettes::place_for(schemes, name);
    let after = schemes.insert(k, scheme);
    assert forall|i: int, j: int| 0 <= i < j < after.len() implies !discovery::before(
        (#[trigger] after[j]).name,
        (#[trigger] after[i]).name,
    ) by {
        if j < k {
            assert(after[i] == schemes[i] && after[j] == schemes[j]);
        } else if j == k {
            assert(after[i] == schemes[i]);
            assert(!later(i));
        } else if i < k {
            assert(after[i] == schemes[i] && after[j] == schemes[j - 1]);
        } else if i > k {
            assert(after[i] == schemes[i - 1] && after[j] == schemes[j - 1]);
        } else {
            assert(after[j] == schemes[j - 1]);
            assert(later(k));
            let last = schemes[j - 1].name;
            if discovery::before(last, name) {
                discovery::lemma_before_total(last, name);
                discovery::lemma_before_transitive(last, name, schemes[k].name);
                if j - 1 > k {
                    assert(!discovery::before(schemes[j - 1].name, schemes[k].name));
                } else {
                    discovery::lemma_before_total(last, last);
                }
            }
        }
    }
}

/// The schemes of a directory are those of its entries that are schemes, and no others.
pub proof fn schemes_are_those_of_the_entries(
    entries: Seq<Candidate>,
    disk: Seq<(Seq<char>, Seq<u8>)>,
    scheme: SchemeModel,
)
    ensures
        palettes::schemes_in(entries, disk).contains(scheme) <==> exists|i: int|
            0 <= i < entries.len() && palettes::scheme_of(#[trigger] entries[i], disk) == Some(
                scheme,
            ),
{
    lemma_members_upto(entries, disk, entries.len() as int, scheme);
}

proof fn lemma_members_upto(
    entries: Seq<Candidate>,
    disk: Seq<(Seq<char>, Seq<u8>)>,
    n: int,
    scheme: SchemeModel,
)
    requires
        0 <= n <= entries.len(),
    ensures
        palettes::schemes_upto(entries, disk, n).contains(scheme) <==> exists|i: int|
            0 <= i < n && palettes::scheme_of(#[trigger] entries[i], disk) == Some(scheme),
    decreases n,
{
    if n > 0 {
        lemma_members_upto(entries, disk, n - 1, scheme);
        let schemes = palettes::schemes_upto(entries, disk, n - 1);
        let after = palettes::schemes_upto(entries, disk, n);
        let found = palettes::scheme_of(entries[n - 1], disk);
        if let Some(new) = found {
            search::lemma_first_where(schemes.len() as int, palettes::later(schemes, new.name));
            let k = palettes::place_for(schemes, new.name);
            assert(after[k] == new);
            if schemes.contains(scheme) {
                let i = choose|i: int| 0 <= i < schemes.len() && schemes[i] == scheme;
                assert(after[search::shifted(i, k)] == scheme);
            }
            if after.contains(scheme) {
                let j = choose|j: int| 0 <= j < after.len() && after[j] == scheme;
                if j < k {
                    assert(schemes[j] == scheme);
                } else if j > k {
                    assert(schemes[j - 1] == scheme);
                }
            }
        }
        if exists|i: int|
            0 <= i < n && palettes::scheme_of(#[trigger] entries[i], disk) == Some(scheme) {
            let i = choose|i: int|
                0 <= i < n && palettes::scheme_of(#[trigger] entries[i], disk) == Some(scheme);
            if i < n - 1 {
                assert(palettes::scheme_of(entries[i], disk) == Some(scheme));
            }
        }
        if after.contains(scheme) && !schemes.contains(scheme) {
            assert(palettes::scheme_of(entries[n - 1], disk) == Some(scheme));
        }
    }
}

/// Whether a pending switch is one, to a scheme that there is.
pub open spec fn is_sound(palette: Palette) -> bool {
    palette.staged matches Some(name) ==> palette.active != Some(name) && palettes::scheme_index(
        palette.schemes,
        name,
    ) is Some
}

/// A pending switch is always one, and to a scheme that there is: none is pending at first, and
/// staging, forgetting and making a switch leave it so.
pub proof fn pending_switch_stays_sound(palette: Palette, name: Seq<char>)
    ensures
        palette.staged is None ==> is_sound(palette),
        is_sound(palette) ==> is_sound(palette.stage(name)),
        is_sound(palette.reset()),
        is_sound(palette.commit()),
{
}

/// A scheme that is chosen is the one that will be in use; forgetting the choice gives the one in
/// use, and making the switch keeps the choice. A name that no scheme has changes nothing.
pub proof fn chosen_scheme_is_selected(palette: Palette, name: Seq<char>)
    ensures
        palettes::scheme_index(palette.schemes, name) is Some ==> palette.stage(name).selected()
            == Some(name),
        palettes::scheme_index(palette.schemes, name) is None ==> palette.stage(name) == palette,
        palette.active == Some(name) ==> palette.stage(name).staged is None || palette.stage(name)
            == palette,
        palette.reset().selected() == palette.active,
        palette.commit().selected() == palette.selected(),
        palette.commit().active == palette.selected(),
        palette.commit().staged is None,
{
}

/// The channels of a color are bytes.
pub proof fn channels_are_bytes(hex: Seq<char>)
    ensures
        palettes::rgb_of(hex) matches Some((r, g, b)) ==> 0 <= r < 256 && 0 <= g < 256 && 0 <= b
            < 256,
{
    if palettes::rgb_of(hex) is Some {
        lemma_digit(hex[0]);
        lemma_digit(hex[1]);
        lemma_digit(hex[2]);
        lemma_digit(hex[3]);
        lemma_digit(hex[4]);
        lemma_digit(hex[5]);
    }
}

proof fn lemma_digit(c: char)
    requires
        text::is_hex_digit(c),
    ensures
        0 <= palettes::hex_value(c) < 16,
{
}

/// The sixteen digits `0` to `9` and `a` to `f` stand for 0 to 15 in order, and a capital letter for
/// what its small one does.
pub proof fn digits_stand_for_their_places(n: int)
    requires
        0 <= n < 16,
    ensures
        palettes::hex_value("0123456789abcdef"@[n]) == n,
        palettes::hex_value("0123456789ABCDEF"@[n]) == n,
{
    reveal_strlit("0123456789abcdef");
    reveal_strlit("0123456789ABCDEF");
}

/// The digit for a number below sixteen, a letter small or capital.
pub open spec fn digit(n: int, capital: bool) -> char {
    if capital {
        "0123456789ABCDEF"@[n]
    } else {
        "0123456789abcdef"@[n]
    }
}

/// A byte as two hexadecimal digits, the sixteens first.
pub open spec fn byte_text(n: int, capital: bool) -> Seq<char> {
    seq![digit(n / 16, capital), digit(n % 16, capital)]
}

proof fn lemma_byte_text(n: int, capital: bool)
    requires
        0 <= n < 256,
    ensures
        text::is_hex_digit(byte_text(n, capital)[0]),
        text::is_hex_digit(byte_text(n, capital)[1]),
        palettes::channel(byte_text(n, capital), 0) == n,
{
    digits_stand_for_their_places(n / 16);
    digits_stand_for_their_places(n % 16);
    reveal_strlit("0123456789abcdef");
    reveal_strlit("0123456789ABCDEF");
}

/// Writing red, green and blue as two hexadecimal digits each, with letters of either case, and
/// reading the color gives the three back.
pub proof fn written_color_is_read_back(
    red: int,
    green: int,
    blue: int,
    capital_red: bool,
    capital_green: bool,
    capital_blue: bool,
)
    requires
        0 <= red < 256,
        0 <= green < 256,
        0 <= blue < 256,
    ensures
        palettes::rgb_of(
            byte_text(red, capital_red) + byte_text(green, capital_green) + byte_text(
                blue,
                capital_blue,
            ),
        ) == Some((red, green, blue)),
{
    let hex = byte_text(red, capital_red) + byte_text(green, capital_green) + byte_text(
        blue,
        capital_blue,
    );
    lemma_byte_text(red, capital_red);
    lemma_byte_text(green, capital_green);
    lemma_byte_text(blue, capital_blue);
    assert(hex[0] == byte_text(red, capital_red)[0] && hex[1] == byte_text(red, capital_red)[1]);
    assert(hex[2] == byte_text(green, capital_green)[0] && hex[3] == byte_text(
        green,
        capital_green,
    )[1]);
    assert(hex[4] == byte_text(blue, capital_blue)[0] && hex[5] == byte_text(
        blue,
        capital_blue,
    )[1]);
    assert forall|i: int| 0 <= i < hex.len() implies text::is_hex_digit(#[trigger] hex[i]) by {
        assert(0 <= i < 6);
    }
}

/// Six hexadecimal digits are a color, and nothing else is.
pub proof fn colors_are_six_digits(hex: Seq<char>)
    ensures
        palettes::rgb_of(hex) is Some <==> hex.len() == 6 && forall|i: int|
            0 <= i < hex.len() ==> "0123456789abcdefABCDEF"@.contains(#[trigger] hex[i]),
{
    assert forall|i: int| 0 <= i < hex.len() implies text::is_hex_digit(#[trigger] hex[i])
        == "0123456789abcdefABCDEF"@.contains(hex[i]) by {
        text_laws::hexadecimal_digits_are_listed(hex[i]);
    }
}

/// The preview of a scheme shows the colors that are well-formed, each once for every time that it
/// is given and in their order: the colors before one are shown before it.
pub proof fn preview_shows_the_colors(colors: Seq<Color>, more: Color)
    ensures
        palettes::preview_of(Seq::<Color>::empty()) == Seq::<(int, int, int)>::empty(),
        palettes::rgb_of(more.value) matches Some(rgb) ==> palettes::preview_of(colors.push(more))
            == palettes::preview_of(colors).push(rgb),
        palettes::rgb_of(more.value) is None ==> palettes::preview_of(colors.push(more))
            == palettes::preview_of(colors),
{
    let all = colors.push(more);
    lemma_preview_of_prefix(colors, all, colors.len() as int);
}

proof fn lemma_preview_of_prefix(a: Seq<Color>, b: Seq<Color>, n: int)
    requires
        n <= a.len(),
        n <= b.len(),
        forall|i: int| 0 <= i < n ==> #[trigger] a[i] == b[i],
    ensures
        palettes::preview_upto(a, n) == palettes::preview_upto(b, n),
    decreases n,
{
    if n > 0 {
        lemma_preview_of_prefix(a, b, n - 1);
        assert(a[n - 1] == b[n - 1]);
    }
}

/// A hidden entry is no scheme, nor is one that is no regular file or cannot be read. Any other is a
/// scheme under its own name exactly where each palette key stands in it once and no other key does.
pub proof fn schemes_define_every_key(entry: Candidate, disk: Seq<(Seq<char>, Seq<u8>)>)
    ensures
        entry.name.len() > 0 && entry.name[0] == '.' ==> palettes::scheme_of(entry, disk) is None,
        !entry.is_file ==> palettes::scheme_of(entry, disk) is None,
        disk::text_of(disk, entry.path) is None ==> palettes::scheme_of(entry, disk) is None,
        !(entry.name.len() > 0 && entry.name[0] == '.') && entry.is_file ==> (disk::text_of(
            disk,
            entry.path,
        ) matches Some(contents) ==> {
            let keys = palette::keys(palette::parsed(contents));
            palettes::scheme_of(entry, disk) is Some <==> {
                &&& forall|key: Seq<char>| #[trigger]
                    palette::schema().contains(key) ==> text::times(keys, key) == 1
                &&& forall|key: Seq<char>| #[trigger]
                    keys.contains(key) ==> palette::schema().contains(key)
            }
        }),
        palettes::scheme_of(entry, disk) matches Some(scheme) ==> scheme.name == entry.name,
{
    if let Some(contents) = disk::text_of(disk, entry.path) {
        palette_laws::valid_means_each_key_once(palette::keys(palette::parsed(contents)));
    }
}

/// A scheme is found by its name: at the first place where one of that name stands, and nowhere
/// where none does.
pub proof fn scheme_is_found_by_its_name(schemes: Seq<SchemeModel>, name: Seq<char>)
    ensures
        palettes::scheme_index(schemes, name) is None <==> forall|i: int|
            0 <= i < schemes.len() ==> (#[trigger] schemes[i]).name != name,
        palettes::scheme_index(schemes, name) matches Some(i) ==> {
            &&& 0 <= i < schemes.len()
            &&& schemes[i].name == name
            &&& forall|j: int| 0 <= j < i ==> (#[trigger] schemes[j]).name != name
        },
{
    let n = schemes.len() as int;
    let p = palettes::called(schemes, name);
    search::lemma_first_where(n, p);
    match palettes::scheme_index(schemes, name) {
        Some(i) => {
            assert(p(i));
            assert forall|j: int| 0 <= j < i implies (#[trigger] schemes[j]).name != name by {
                assert(!p(j));
            }
        },
        None => {
            assert forall|i: int| 0 <= i < n implies (#[trigger] schemes[i]).name != name by {
                assert(!p(i));
            }
        },
    }
}

/// The scheme in use is the one that the generated file names, where that can be read.
pub proof fn active_scheme_is_that_of_the_file(
    disk: Seq<(Seq<char>, Seq<u8>)>,
    path: Seq<char>,
    contents: Seq<char>,
)
    ensures
        disk::text_of(disk, path) is None ==> generated::detected_at(disk, path) is None,
        disk::text_of(disk, path) == Some(contents) ==> generated::detected_at(disk, path)
            == generated::detected(contents),
{
}

} // verus!
