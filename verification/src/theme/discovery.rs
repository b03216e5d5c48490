//! Finding the installed themes in the listings of the directories that hold them.

use crate::text;
use crate::text::chars;
use vstd::prelude::*;

verus! {

/// An entry of a directory that holds themes.
#[derive(Debug)]
pub struct DirEntry {
    /// The entry's name.
    pub name: String,
    /// Whether it is a directory.
    pub is_dir: bool,
    /// Whether it holds a file `index.theme`.
    pub has_index: bool,
    /// The names of the directories in it.
    pub subdirs: Vec<String>,
}

/// The mathematical counterpart of [`DirEntry`].
pub struct Entry {
    /// The entry's name.
    pub name: Seq<char>,
    /// Whether it is a directory.
    pub is_dir: bool,
    /// Whether it holds a file `index.theme`.
    pub has_index: bool,
    /// The names of the directories in it.
    pub subdirs: Seq<Seq<char>>,
}

impl View for DirEntry {
    type V = Entry;

    open spec fn view(&self) -> Entry {
        Entry {
            name: self.name@,
            is_dir: self.is_dir,
            has_index: self.has_index,
            subdirs: text::views(self.subdirs@),
        }
    }
}

/// The models of the given entries.
pub open spec fn entry_models(entries: Seq<DirEntry>) -> Seq<Entry> {
    entries.map_values(|entry: DirEntry| entry@)
}

/// Whether an entry can be a theme at all: a directory that is not hidden.
pub open spec fn is_candidate(entry: Entry) -> bool {
    entry.is_dir && !(entry.name.len() > 0 && entry.name[0] == '.')
}

/// Whether an entry is a GTK theme.
pub open spec fn is_gtk_theme(entry: Entry) -> bool {
    is_candidate(entry) && (entry.subdirs.contains("gtk-3.0"@) || entry.subdirs.contains(
        "gtk-4.0"@,
    ))
}

/// Whether an entry is a cursor theme.
pub open spec fn is_cursor_theme(entry: Entry) -> bool {
    is_candidate(entry) && entry.subdirs.contains("cursors"@)
}

/// Whether an entry holds a directory other than that of its cursors.
pub open spec fn has_icons(entry: Entry) -> bool {
    exists|i: int| 0 <= i < entry.subdirs.len() && #[trigger] entry.subdirs[i] != "cursors"@
}

/// Whether an entry is an icon theme. It can be a cursor theme as well.
pub open spec fn is_icon_theme(entry: Entry) -> bool {
    is_candidate(entry) && entry.has_index && has_icons(entry)
}

/// Whether a GTK theme of this name is part of GTK itself.
pub open spec fn is_builtin(name: Seq<char>) -> bool {
    name == "Adwaita"@ || name == "Adwaita-dark"@
}

/// Whether `a` comes before `b` in the order of their characters.
pub open spec fn before(a: Seq<char>, b: Seq<char>) -> bool
    decreases a.len(),
{
    if b.len() == 0 {
        false
    } else if a.len() == 0 {
        true
    } else if a[0] != b[0] {
        (a[0] as int) < (b[0] as int)
    } else {
        before(a.drop_first(), b.drop_first())
    }
}

/// Whether the given names are in order, each once.
pub open spec fn is_sorted(names: Seq<Seq<char>>) -> bool {
    forall|i: int, j: int|
        0 <= i < j < names.len() ==> before(#[trigger] names[i], #[trigger] names[j])
}

pub proof fn lemma_before_total(a: Seq<char>, b: Seq<char>)
    ensures
        !(before(a, b) && before(b, a)),
        before(a, b) || before(b, a) || a == b,
        !before(a, a),
    decreases a.len(),
{
    if a.len() == 0 || b.len() == 0 {
        if a.len() == 0 && b.len() == 0 {
            assert(a =~= b);
        }
    } else {
        lemma_before_total(a.drop_first(), b.drop_first());
        if a[0] == b[0] && a.drop_first() == b.drop_first() {
            assert(a =~= seq![a[0]] + a.drop_first());
            assert(b =~= seq![b[0]] + b.drop_first());
            assert(a == b);
        }
    }
    if a.len() > 0 {
        lemma_before_total(a.drop_first(), a.drop_first());
    }
}

pub proof fn lemma_before_transitive(a: Seq<char>, b: Seq<char>, c: Seq<char>)
    requires
        before(a, b),
        before(b, c),
    ensures
        before(a, c),
    decreases a.len(),
{
    if a.len() > 0 && a[0] == b[0] && b[0] == c[0] {
        lemma_before_transitive(a.drop_first(), b.drop_first(), c.drop_first());
    }
}

fn precedes(a: char, b: char) -> (r: bool)
    ensures
        r == ((a as int) < (b as int)),
{
    (a as u32) < (b as u32)
}

/// Decides [`before`].
pub fn comes_before(a: &str, b: &str) -> (r: bool)
    ensures
        r == before(a@, b@),
{
    let left = chars(a);
    let right = chars(b);
    let mut i: usize = 0;
    assert(a@.skip(0) =~= a@);
    assert(b@.skip(0) =~= b@);
    while i < left.len() && i < right.len()
        invariant
            i <= left.len(),
            i <= right.len(),
            left@ == a@,
            right@ == b@,
            before(a@, b@) == before(a@.skip(i as int), b@.skip(i as int)),
        decreases left.len() - i,
    {
        let ghost x = a@.skip(i as int);
        let ghost y = b@.skip(i as int);
        assert(x[0] == left@[i as int] && y[0] == right@[i as int]);
        if left[i] != right[i] {
            return precedes(left[i], right[i]);
        }
        assert(x.drop_first() =~= a@.skip(i + 1));
        assert(y.drop_first() =~= b@.skip(i + 1));
        i += 1;
    }
    i < right.len()
}

/// Adds a name in its place, unless it is there.
fn insert_name(names: &mut Vec<String>, name: &str)
    requires
        is_sorted(text::views(old(names)@)),
    ensures
        is_sorted(text::views(final(names)@)),
        forall|n: Seq<char>| #[trigger]
            text::views(final(names)@).contains(n) <==> text::views(old(names)@).contains(n) || n
                == name@,
{
    let ghost old_names = text::views(names@);
    let mut i: usize = 0;
    while i < names.len() && comes_before(names[i].as_str(), name)
        invariant
            i <= names.len(),
            old_names == text::views(names@),
            forall|j: int| 0 <= j < i ==> before(#[trigger] old_names[j], name@),
        decreases names.len() - i,
    {
        assert(old_names[i as int] == names@[i as int]@);
        i += 1;
    }
    let n: usize = names.len();
    assert(i < n ==> old_names[i as int] == names@[i as int]@);
    if i < n && text::same_text(names[i].as_str(), name) {
        assert(old_names[i as int] == name@);
        return ;
    }
    let owned = name.to_owned();
    names.insert(i, owned);
    let ghost new_names = text::views(names@);
    assert(new_names =~= old_names.insert(i as int, name@));
    proof {
        if i < n {
            lemma_before_total(old_names[i as int], name@);
        }
        assert forall|j: int| i <= j < n implies before(name@, #[trigger] old_names[j]) by {
            if j > i {
                lemma_before_transitive(name@, old_names[i as int], old_names[j]);
            }
        }
        assert forall|j: int, k: int| 0 <= j < k < new_names.len() implies before(
            #[trigger] new_names[j],
            #[trigger] new_names[k],
        ) by {
            let jj = if j < i {
                j
            } else {
                j - 1
            };
            let kk = if k < i {
                k
            } else {
                k - 1
            };
            if j != i {
                assert(new_names[j] == old_names[jj]);
            }
            if k != i {
                assert(new_names[k] == old_names[kk]);
            }
        }
        assert forall|m: Seq<char>| #[trigger]
            new_names.contains(m) <==> old_names.contains(m) || m == name@ by {
            if old_names.contains(m) {
                let j = choose|j: int| 0 <= j < old_names.len() && old_names[j] == m;
                assert(new_names[if j < i {
                    j
                } else {
                    j + 1
                }] == m);
            }
            if m == name@ {
                assert(new_names[i as int] == m);
            }
            if new_names.contains(m) && m != name@ {
                let j = choose|j: int| 0 <= j < new_names.len() && new_names[j] == m;
                assert(old_names[if j < i {
                    j
                } else {
                    j - 1
                }] == m);
            }
        }
    }
}

/// Whether one of the first `n` entries has this name and is a theme by `is_theme`.
pub open spec fn found_upto(
    entries: Seq<Entry>,
    is_theme: spec_fn(Entry) -> bool,
    n: int,
    name: Seq<char>,
) -> bool {
    exists|i: int| 0 <= i < n && is_theme(#[trigger] entries[i]) && entries[i].name == name
}

/// Whether one of the entries has this name and is a theme by `is_theme`.
pub open spec fn found(
    entries: Seq<Entry>,
    is_theme: spec_fn(Entry) -> bool,
    name: Seq<char>,
) -> bool {
    found_upto(entries, is_theme, entries.len() as int, name)
}

/// The condition [`is_gtk_theme`].
pub open spec fn gtk_themes() -> spec_fn(Entry) -> bool {
    |entry: Entry| is_gtk_theme(entry)
}

/// The condition [`is_icon_theme`].
pub open spec fn icon_themes() -> spec_fn(Entry) -> bool {
    |entry: Entry| is_icon_theme(entry)
}

/// The condition [`is_cursor_theme`].
pub open spec fn cursor_themes() -> spec_fn(Entry) -> bool {
    |entry: Entry| is_cursor_theme(entry)
}

fn candidate(entry: &DirEntry) -> (r: bool)
    ensures
        r == is_candidate(entry@),
{
    let name = chars(entry.name.as_str());
    entry.is_dir && !(name.len() > 0 && name[0] == '.')
}

fn has_non_cursor_subdir(entry: &DirEntry) -> (r: bool)
    ensures
        r == has_icons(entry@),
{
    let mut i: usize = 0;
    while i < entry.subdirs.len()
        invariant
            i <= entry.subdirs.len(),
            forall|j: int| 0 <= j < i ==> #[trigger] entry@.subdirs[j] == "cursors"@,
        decreases entry.subdirs.len() - i,
    {
        assert(entry@.subdirs[i as int] == entry.subdirs@[i as int]@);
        if !text::same_text(entry.subdirs[i].as_str(), "cursors") {
            return true;
        }
        i += 1;
    }
    false
}

proof fn lemma_found_one_more(
    entries: Seq<Entry>,
    is_theme: spec_fn(Entry) -> bool,
    n: int,
    name: Seq<char>,
)
    requires
        0 <= n < entries.len(),
    ensures
        found_upto(entries, is_theme, n + 1, name) <==> found_upto(entries, is_theme, n, name) || (
        is_theme(entries[n]) && entries[n].name == name),
{
    if found_upto(entries, is_theme, n + 1, name) {
        let i = choose|i: int|
            0 <= i < n + 1 && is_theme(#[trigger] entries[i]) && entries[i].name == name;
        assert(i == n || found_upto(entries, is_theme, n, name));
    }
}

/// The GTK themes among the given entries and those of GTK itself, in order, each once.
pub fn discover_gtk_themes(entries: &Vec<DirEntry>) -> (r: Vec<String>)
    ensures
        is_sorted(text::views(r@)),
        forall|name: Seq<char>| #[trigger]
            text::views(r@).contains(name) <==> found(
                entry_models(entries@),
                gtk_themes(),
                name,
            ) || is_builtin(name),
{
    let ghost all = entry_models(entries@);
    let mut r: Vec<String> = Vec::new();
    insert_name(&mut r, "Adwaita");
    insert_name(&mut r, "Adwaita-dark");
    let mut i: usize = 0;
    while i < entries.len()
        invariant
            i <= entries.len(),
            all == entry_models(entries@),
            is_sorted(text::views(r@)),
            forall|name: Seq<char>| #[trigger]
                text::views(r@).contains(name) <==> found_upto(all, gtk_themes(), i as int, name)
                    || is_builtin(name),
        decreases entries.len() - i,
    {
        let entry = &entries[i];
        assert(all[i as int] == entry@);
        let ghost before = text::views(r@);
        let is_theme = candidate(entry) && (text::contains_text(&entry.subdirs, "gtk-3.0")
            || text::contains_text(&entry.subdirs, "gtk-4.0"));
        assert(is_theme == gtk_themes()(all[i as int]));
        if is_theme {
            insert_name(&mut r, entry.name.as_str());
        }
        assert forall|name: Seq<char>| #[trigger]
            text::views(r@).contains(name) <==> found_upto(all, gtk_themes(), i + 1, name)
                || is_builtin(name) by {
            lemma_found_one_more(all, gtk_themes(), i as int, name);
            assert(before.contains(name) <==> found_upto(all, gtk_themes(), i as int, name)
                || is_builtin(name));
        }
        i += 1;
    }
    r
}

/// The icon themes and the cursor themes among the given entries, each list in order and each
/// name once.
pub fn discover_icon_and_cursor_themes(entries: &Vec<DirEntry>) -> (r: (Vec<String>, Vec<String>))
    ensures
        is_sorted(text::views(r.0@)),
        is_sorted(text::views(r.1@)),
        forall|name: Seq<char>| #[trigger]
            text::views(r.0@).contains(name) <==> found(
                entry_models(entries@),
                icon_themes(),
                name,
            ),
        forall|name: Seq<char>| #[trigger]
            text::views(r.1@).contains(name) <==> found(
                entry_models(entries@),
                cursor_themes(),
                name,
            ),
{
    let ghost all = entry_models(entries@);
    let mut icons: Vec<String> = Vec::new();
    let mut cursors: Vec<String> = Vec::new();
    let mut i: usize = 0;
    while i < entries.len()
        invariant
            i <= entries.len(),
            all == entry_models(entries@),
            is_sorted(text::views(icons@)),
            is_sorted(text::views(cursors@)),
            forall|name: Seq<char>| #[trigger]
                text::views(icons@).contains(name) <==> found_upto(
                    all,
                    icon_themes(),
                    i as int,
                    name,
                ),
            forall|name: Seq<char>| #[trigger]
                text::views(cursors@).contains(name) <==> found_upto(
                    all,
                    cursor_themes(),
                    i as int,
                    name,
                ),
        decreases entries.len() - i,
    {
        let entry = &entries[i];
        assert(all[i as int] == entry@);
        let ghost old_icons = text::views(icons@);
        let ghost old_cursors = text::views(cursors@);
        let possible = candidate(entry);
        let is_cursor = possible && text::contains_text(&entry.subdirs, "cursors");
        let is_icon = possible && entry.has_index && has_non_cursor_subdir(entry);
        assert(is_cursor == cursor_themes()(all[i as int]));
        assert(is_icon == icon_themes()(all[i as int]));
        if is_cursor {
            insert_name(&mut cursors, entry.name.as_str());
        }
        if is_icon {
            insert_name(&mut icons, entry.name.as_str());
        }
        assert forall|name: Seq<char>| #[trigger]
            text::views(icons@).contains(name) <==> found_upto(all, icon_themes(), i + 1, name) by {
            lemma_found_one_more(all, icon_themes(), i as int, name);
            assert(old_icons.contains(name) <==> found_upto(all, icon_themes(), i as int, name));
        }
        assert forall|name: Seq<char>| #[trigger]
            text::views(cursors@).contains(name) <==> found_upto(
                all,
                cursor_themes(),
                i + 1,
                name,
            ) by {
            lemma_found_one_more(all, cursor_themes(), i as int, name);
            assert(old_cursors.contains(name) <==> found_upto(
                all,
                cursor_themes(),
                i as int,
                name,
            ));
        }
        i += 1;
    }
    (icons, cursors)
}

} // verus!
