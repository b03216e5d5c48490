//! The laws of the themes that directories hold.

use crate::theme::discovery;
use crate::theme::discovery::Entry;
use vstd::prelude::*;

verus! {

/// Whether a GTK theme of this name is offered.
pub open spec fn offers_gtk_theme(entries: Seq<Entry>, name: Seq<char>) -> bool {
    discovery::found(entries, discovery::gtk_themes(), name) || discovery::is_builtin(name)
}

/// Whether an icon theme of this name is offered.
pub open spec fn offers_icon_theme(entries: Seq<Entry>, name: Seq<char>) -> bool {
    discovery::found(entries, discovery::icon_themes(), name)
}

/// Whether a cursor theme of this name is offered.
pub open spec fn offers_cursor_theme(entries: Seq<Entry>, name: Seq<char>) -> bool {
    discovery::found(entries, discovery::cursor_themes(), name)
}

/// Whether an entry has a directory of this name.
pub open spec fn holds(entry: Entry, subdir: Seq<char>) -> bool {
    exists|k: int| 0 <= k < entry.subdirs.len() && #[trigger] entry.subdirs[k] == subdir
}

/// Whether an entry is a directory whose name does not begin with a dot.
pub open spec fn is_visible_directory(entry: Entry) -> bool {
    entry.is_dir && (entry.name.len() == 0 || entry.name[0] != '.')
}

/// An entry with one more directory in it.
pub open spec fn with_subdir(entry: Entry, subdir: Seq<char>) -> Entry {
    Entry { subdirs: entry.subdirs.push(subdir), ..entry }
}

/// The GTK themes that are part of GTK are offered whatever is installed.
pub proof fn builtin_gtk_themes_are_offered(entries: Seq<Entry>)
    ensures
        offers_gtk_theme(entries, "Adwaita"@),
        offers_gtk_theme(entries, "Adwaita-dark"@),
{
}

/// Every directory that is not hidden and holds a directory `gtk-3.0` is offered as a GTK theme, and
/// so is every one that holds `gtk-4.0`, whatever else it holds.
pub proof fn gtk_directory_is_offered(entries: Seq<Entry>, i: int)
    requires
        0 <= i < entries.len(),
        is_visible_directory(entries[i]),
    ensures
        holds(entries[i], "gtk-3.0"@) ==> offers_gtk_theme(entries, entries[i].name),
        holds(entries[i], "gtk-4.0"@) ==> offers_gtk_theme(entries, entries[i].name),
{
    let entry = entries[i];
    if holds(entry, "gtk-3.0"@) {
        assert(entry.subdirs.contains("gtk-3.0"@));
        assert(discovery::gtk_themes()(entries[i]));
    }
    if holds(entry, "gtk-4.0"@) {
        assert(entry.subdirs.contains("gtk-4.0"@));
        assert(discovery::gtk_themes()(entries[i]));
    }
}

/// A GTK theme that is offered is part of GTK, or a directory that is not hidden holds it.
pub proof fn offered_gtk_theme_is_installed(entries: Seq<Entry>, name: Seq<char>)
    requires
        offers_gtk_theme(entries, name),
        name != "Adwaita"@,
        name != "Adwaita-dark"@,
    ensures
        exists|i: int|
            0 <= i < entries.len() && (#[trigger] entries[i]).name == name && is_visible_directory(
                entries[i],
            ) && (holds(entries[i], "gtk-3.0"@) || holds(entries[i], "gtk-4.0"@)),
{
    let themes = discovery::gtk_themes();
    let i = choose|i: int|
        0 <= i < entries.len() && themes(#[trigger] entries[i]) && entries[i].name == name;
    let entry = entries[i];
    if entry.subdirs.contains("gtk-3.0"@) {
        let k = choose|k: int| 0 <= k < entry.subdirs.len() && entry.subdirs[k] == "gtk-3.0"@;
        assert(entry.subdirs[k] == "gtk-3.0"@);
    } else {
        let k = choose|k: int| 0 <= k < entry.subdirs.len() && entry.subdirs[k] == "gtk-4.0"@;
        assert(entry.subdirs[k] == "gtk-4.0"@);
    }
    assert(entries[i].name == name);
}

/// Every directory that is not hidden and holds a directory `cursors` is offered as a cursor theme,
/// and nothing else is.
pub proof fn cursor_themes_hold_cursors(entries: Seq<Entry>, name: Seq<char>)
    ensures
        offers_cursor_theme(entries, name) <==> exists|i: int|
            0 <= i < entries.len() && (#[trigger] entries[i]).name == name && is_visible_directory(
                entries[i],
            ) && holds(entries[i], "cursors"@),
{
    let themes = discovery::cursor_themes();
    if offers_cursor_theme(entries, name) {
        let i = choose|i: int|
            0 <= i < entries.len() && themes(#[trigger] entries[i]) && entries[i].name == name;
        let subdirs = entries[i].subdirs;
        let k = choose|k: int| 0 <= k < subdirs.len() && subdirs[k] == "cursors"@;
        assert(subdirs[k] == "cursors"@);
        assert(entries[i].name == name && is_visible_directory(entries[i]) && holds(
            entries[i],
            "cursors"@,
        ));
    }
    if exists|i: int|
        0 <= i < entries.len() && (#[trigger] entries[i]).name == name && is_visible_directory(
            entries[i],
        ) && holds(entries[i], "cursors"@) {
        let i = choose|i: int|
            0 <= i < entries.len() && (#[trigger] entries[i]).name == name && is_visible_directory(
                entries[i],
            ) && holds(entries[i], "cursors"@);
        assert(entries[i].subdirs.contains("cursors"@));
        assert(themes(entries[i]));
    }
}

/// Every directory that is not hidden, has an index and holds a directory of another name than
/// `cursors` is offered as an icon theme, and nothing else is.
pub proof fn icon_themes_hold_icons(entries: Seq<Entry>, name: Seq<char>)
    ensures
        offers_icon_theme(entries, name) <==> exists|i: int, k: int|
            0 <= i < entries.len() && 0 <= k < entries[i].subdirs.len() && entries[i].name == name
                && is_visible_directory(entries[i]) && entries[i].has_index
                && #[trigger] entries[i].subdirs[k] != "cursors"@,
{
    let themes = discovery::icon_themes();
    if offers_icon_theme(entries, name) {
        let i = choose|i: int|
            0 <= i < entries.len() && themes(#[trigger] entries[i]) && entries[i].name == name;
        let k = choose|k: int|
            0 <= k < entries[i].subdirs.len() && #[trigger] entries[i].subdirs[k] != "cursors"@;
        assert(entries[i].subdirs[k] != "cursors"@);
    }
    if exists|i: int, k: int|
        0 <= i < entries.len() && 0 <= k < entries[i].subdirs.len() && entries[i].name == name
            && is_visible_directory(entries[i]) && entries[i].has_index
            && #[trigger] entries[i].subdirs[k] != "cursors"@ {
        let (i, k) = choose|i: int, k: int|
            0 <= i < entries.len() && 0 <= k < entries[i].subdirs.len() && entries[i].name == name
                && is_visible_directory(entries[i]) && entries[i].has_index
                && #[trigger] entries[i].subdirs[k] != "cursors"@;
        assert(discovery::has_icons(entries[i]));
        assert(themes(entries[i]));
    }
}

/// One more directory in an entry takes no theme off any of the lists.
pub proof fn further_subdir_keeps_the_themes(
    entries: Seq<Entry>,
    i: int,
    subdir: Seq<char>,
    name: Seq<char>,
)
    requires
        0 <= i < entries.len(),
    ensures
        ({
            let more = entries.update(i, with_subdir(entries[i], subdir));
            &&& offers_gtk_theme(entries, name) ==> offers_gtk_theme(more, name)
            &&& offers_icon_theme(entries, name) ==> offers_icon_theme(more, name)
            &&& offers_cursor_theme(entries, name) ==> offers_cursor_theme(more, name)
        }),
{
    let entry = entries[i];
    let wider = with_subdir(entry, subdir);
    let more = entries.update(i, wider);
    assert forall|s: Seq<char>| entry.subdirs.contains(s) implies #[trigger] wider.subdirs.contains(
        s,
    ) by {
        let k = choose|k: int| 0 <= k < entry.subdirs.len() && entry.subdirs[k] == s;
        assert(wider.subdirs[k] == s);
    }
    if discovery::has_icons(entry) {
        let k = choose|k: int|
            0 <= k < entry.subdirs.len() && #[trigger] entry.subdirs[k] != "cursors"@;
        assert(wider.subdirs[k] != "cursors"@);
    }
    lemma_found_stays(entries, i, wider, discovery::gtk_themes(), name);
    lemma_found_stays(entries, i, wider, discovery::icon_themes(), name);
    lemma_found_stays(entries, i, wider, discovery::cursor_themes(), name);
}

proof fn lemma_found_stays(
    entries: Seq<Entry>,
    i: int,
    wider: Entry,
    is_theme: spec_fn(Entry) -> bool,
    name: Seq<char>,
)
    requires
        0 <= i < entries.len(),
        is_theme(entries[i]) ==> is_theme(wider),
        entries[i].name == wider.name,
    ensures
        discovery::found(entries, is_theme, name) ==> discovery::found(
            entries.update(i, wider),
            is_theme,
            name,
        ),
{
    let more = entries.update(i, wider);
    if discovery::found(entries, is_theme, name) {
        let j = choose|j: int|
            0 <= j < entries.len() && is_theme(#[trigger] entries[j]) && entries[j].name == name;
        assert(is_theme(more[j]) && more[j].name == name);
    }
}

/// One more entry takes no theme off any of the lists.
pub proof fn further_entry_keeps_the_themes(entries: Seq<Entry>, entry: Entry, name: Seq<char>)
    ensures
        offers_gtk_theme(entries, name) ==> offers_gtk_theme(entries.push(entry), name),
        offers_icon_theme(entries, name) ==> offers_icon_theme(entries.push(entry), name),
        offers_cursor_theme(entries, name) ==> offers_cursor_theme(entries.push(entry), name),
{
    lemma_found_among_more(entries, entry, discovery::gtk_themes(), name);
    lemma_found_among_more(entries, entry, discovery::icon_themes(), name);
    lemma_found_among_more(entries, entry, discovery::cursor_themes(), name);
}

proof fn lemma_found_among_more(
    entries: Seq<Entry>,
    entry: Entry,
    is_theme: spec_fn(Entry) -> bool,
    name: Seq<char>,
)
    ensures
        discovery::found(entries, is_theme, name) ==> discovery::found(
            entries.push(entry),
            is_theme,
            name,
        ),
{
    if discovery::found(entries, is_theme, name) {
        let j = choose|j: int|
            0 <= j < entries.len() && is_theme(#[trigger] entries[j]) && entries[j].name == name;
        assert(entries.push(entry)[j] == entries[j]);
    }
}

/// Whether two texts agree up to `n`.
pub open spec fn agree_up_to(a: Seq<char>, b: Seq<char>, n: int) -> bool {
    &&& 0 <= n <= a.len()
    &&& n <= b.len()
    &&& forall|i: int| 0 <= i < n ==> #[trigger] a[i] == b[i]
}

/// A name comes before another where it is a beginning of it, or where at the first place at which
/// the two differ it has the smaller character; and only there.
pub proof fn names_are_in_the_order_of_characters(a: Seq<char>, b: Seq<char>, n: int)
    requires
        agree_up_to(a, b, n),
    ensures
        n == a.len() && n < b.len() ==> discovery::before(a, b),
        n == b.len() ==> !discovery::before(a, b),
        n < a.len() && n < b.len() && a[n] < b[n] ==> discovery::before(a, b),
        n < a.len() && n < b.len() && a[n] > b[n] ==> !discovery::before(a, b),
    decreases n,
{
    if n > 0 {
        let x = a.drop_first();
        let y = b.drop_first();
        assert(a[0] == b[0]);
        assert forall|i: int| 0 <= i < n - 1 implies #[trigger] x[i] == y[i] by {
            assert(a[i + 1] == b[i + 1]);
        }
        names_are_in_the_order_of_characters(x, y, n - 1);
    }
}

/// Names that are sorted stand in the order of their first characters, and none stands twice.
pub proof fn sorted_names_ascend(names: Seq<Seq<char>>, i: int, j: int)
    requires
        discovery::is_sorted(names),
        0 <= i < j < names.len(),
    ensures
        names[i] != names[j],
        names[i].len() > 0 ==> names[j].len() > 0 && names[i][0] <= names[j][0],
{
    let a = names[i];
    let b = names[j];
    assert(discovery::before(a, b));
    if a == b {
        names_are_in_the_order_of_characters(a, b, a.len() as int);
    }
    names_are_in_the_order_of_characters(a, b, 0);
}

} // verus!
