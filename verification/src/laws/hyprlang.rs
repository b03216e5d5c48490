//! The laws of the hyprlang format.

use crate::lines;
use crate::lines::LineModel;
use crate::parsers::hyprlang;
use crate::parsers::hyprlang::{Address, Kind, Plan, Step, Target, Warning};
use crate::search;
use crate::text;
use vstd::prelude::*;

verus! {

/// Whether the positions recorded for every line lie inside it.
pub open spec fn all_fit(lines: Seq<LineModel<Kind>>) -> bool {
    forall|i: int| 0 <= i < lines.len() ==> hyprlang::spans_fit(#[trigger] lines[i])
}

/// A file that was only read is written back as it was.
pub proof fn round_trip(input: Seq<char>)
    ensures
        lines::emitted(hyprlang::parsed(input)) == input,
{
    assert(lines::raws(hyprlang::parsed(input)) =~= text::split_lines(input));
    text::lemma_join_split_lines(input);
}

/// An edit of a value that exists replaces the characters of that value and leaves every
/// other character of the file.
pub proof fn edit_replaces_one_value(
    lines: Seq<LineModel<Kind>>,
    path: Address,
    value: Seq<char>,
)
    requires
        all_fit(lines),
        hyprlang::value_of(lines, path) is Some,
        is_plain(value),
    ensures
        exists|before: Seq<char>, after: Seq<char>| #![trigger before + value + after]
            {
                &&& lines::emitted(lines) == before + hyprlang::value_of(lines, path)->0 + after
                &&& lines::emitted(hyprlang::after_set(lines, path, value)) == before + value + after
            },
{
    lemma_plain(value);
    lemma_resolved_entry(lines, path);
    let i = hyprlang::resolved(lines, path)->Entry_0;
    let start = lines[i].kind->value_start;
    let end = lines[i].kind->value_end;
    let edited = hyprlang::with_value(lines[i], start, value);
    assert(hyprlang::spans_fit(lines[i]));
    lines::lemma_emitted_splice(lines, i, start, end, value, edited.kind);
    let before = lines::text_before(lines, i, start);
    let after = lines::text_after(lines, i, end);
    assert(lines::emitted(hyprlang::after_set(lines, path, value)) == before + value + after);
}

/// An assignment added inside a section stands before the line that closes it, and every
/// character of the file stays.
pub proof fn append_inserts_one_line(
    lines: Seq<LineModel<Kind>>,
    path: Address,
    value: Seq<char>,
)
    requires
        is_plain(value),
        hyprlang::resolved(lines, path) is Append,
        hyprlang::resolved(lines, path)->Append_0.index < lines.len(),
    ensures
        ({
            let i = hyprlang::resolved(lines, path)->Append_0.index;
            &&& lines[i].kind is SectionClose
            &&& hyprlang::sections(lines.take(i)) == path.sections
            &&& lines::emitted(lines) == lines::emitted(lines.take(i)) + lines::emitted(
                lines.skip(i),
            )
            &&& lines::emitted(hyprlang::after_set(lines, path, value)) == lines::emitted(lines.take(i))
                + hyprlang::after_set(lines, path, value)[i].raw + lines::emitted(lines.skip(i))
        }),
{
    let i = hyprlang::resolved(lines, path)->Append_0.index;
    lemma_plain(value);
    search::lemma_first_where(lines.len() as int, hyprlang::closers(lines, path.sections));
    lines::lemma_emitted_insert(lines, i, hyprlang::after_set(lines, path, value)[i]);
}

/// An assignment added at the end of a file follows the whole text, after the terminator of
/// a last line that had none.
pub proof fn append_at_end_keeps_the_text(
    lines: Seq<LineModel<Kind>>,
    path: Address,
    value: Seq<char>,
)
    requires
        is_plain(value),
        hyprlang::resolved(lines, path) is Append,
        hyprlang::resolved(lines, path)->Append_0.index == lines.len(),
    ensures
        ({
            let line = hyprlang::after_set(lines, path, value).last();
            let end = lines::terminator(lines);
            lines::emitted(hyprlang::after_set(lines, path, value)) == if lines.len() > 0
                && !text::ends_line(lines.last().raw) {
                lines::emitted(lines) + end + line.raw
            } else {
                lines::emitted(lines) + line.raw
            }
        }),
{
    let end = lines::terminator(lines);
    lemma_plain(value);
    lines::lemma_emitted_terminated(lines, end);
    lines::lemma_emitted_push(
        lines::terminated(lines, end),
        hyprlang::after_set(lines, path, value).last(),
    );
}

/// Whether an assignment that would be added for an address would lie in the sections of the
/// address: at the end of a file, those that are open there. A top-level key added behind a section
/// that is never closed lies inside that section.
pub open spec fn lands_inside(lines: Seq<LineModel<Kind>>, path: Address) -> bool {
    hyprlang::resolved(lines, path) matches Target::Append(plan) ==> plan.index < lines.len()
        || hyprlang::sections(lines) == path.sections
}

/// What was set is read back.
pub proof fn read_after_set(lines: Seq<LineModel<Kind>>, path: Address, value: Seq<char>)
    requires
        all_fit(lines),
        hyprlang::accepts(lines, path, value),
        lands_inside(lines, path),
    ensures
        hyprlang::value_of(hyprlang::after_set(lines, path, value), path) == Some(value),
{
    let after = hyprlang::after_set(lines, path, value);
    match hyprlang::resolved(lines, path) {
        Target::Entry(i) => {
            lemma_resolved_entry(lines, path);
            assert(hyprlang::spans_fit(lines[i]));
            assert(outline(after) =~= outline(lines));
            lemma_same_outline(lines, after, path);
            assert(hyprlang::value_at(after[i]) =~= value);
        },
        Target::Append(plan) => {
            lemma_append_plan(lines, path, plan);
            lemma_append_resolves(lines, path, value, plan);
            assert(hyprlang::value_at(after[plan.index]) =~= value);
        },
        Target::Missing => {},
    }
}

/// Setting one value changes no other.
pub proof fn set_keeps_other_values(
    lines: Seq<LineModel<Kind>>,
    path: Address,
    value: Seq<char>,
    other: Address,
)
    requires
        all_fit(lines),
        other != path,
        lands_inside(lines, path),
    ensures
        hyprlang::value_of(hyprlang::after_set(lines, path, value), other) == hyprlang::value_of(
            lines,
            other,
        ),
{
    let after = hyprlang::after_set(lines, path, value);
    match hyprlang::resolved(lines, path) {
        Target::Entry(i) => {
            lemma_resolved_entry(lines, path);
            assert(outline(after) =~= outline(lines));
            lemma_same_outline(lines, after, other);
            if hyprlang::resolved(lines, other) is Entry {
                lemma_resolved_entry(lines, other);
                let k = hyprlang::resolved(lines, other)->Entry_0;
                if k == i {
                    assert(path == other);
                }
            }
        },
        Target::Append(plan) => {
            lemma_append_keeps(lines, path, value, plan, other);
        },
        Target::Missing => {},
    }
}

/// Setting a value to what it is leaves the file as it is.
pub proof fn setting_the_current_value_changes_nothing(
    lines: Seq<LineModel<Kind>>,
    path: Address,
)
    requires
        all_fit(lines),
        hyprlang::value_of(lines, path) is Some,
    ensures
        hyprlang::after_set(lines, path, hyprlang::value_of(lines, path)->0) == lines,
{
    lemma_resolved_entry(lines, path);
    let i = hyprlang::resolved(lines, path)->Entry_0;
    let line = lines[i];
    assert(hyprlang::spans_fit(line));
    let value = hyprlang::value_at(line);
    let start = line.kind->value_start;
    assert(text::splice(line.raw, start, line.kind->value_end, value) =~= line.raw);
    assert(hyprlang::after_set(lines, path, value) =~= lines);
}

/// The parts of a line that decide what addresses lead to.
pub open spec fn shape(kind: Kind) -> Kind {
    match kind {
        Kind::Entry { key, key_start, value_start, value_end } => Kind::Entry {
            key,
            key_start: 0,
            value_start: 0,
            value_end: 0,
        },
        _ => kind,
    }
}

/// Those parts of every line.
pub open spec fn outline(lines: Seq<LineModel<Kind>>) -> Seq<Kind> {
    lines.map_values(|line: LineModel<Kind>| shape(line.kind))
}

proof fn lemma_resolved_entry(lines: Seq<LineModel<Kind>>, path: Address)
    ensures
        hyprlang::resolved(lines, path) matches Target::Entry(i) ==> {
            &&& 0 <= i < lines.len()
            &&& hyprlang::named(lines, path)(i)
        },
{
    let end = hyprlang::end_of(lines, path.sections);
    search::lemma_first_where(lines.len() as int, hyprlang::closers(lines, path.sections));
    search::lemma_first_where(end, hyprlang::named(lines, path));
}

pub proof fn lemma_sections_of_outline(a: Seq<LineModel<Kind>>, b: Seq<LineModel<Kind>>)
    requires
        outline(a) == outline(b),
    ensures
        hyprlang::sections(a) == hyprlang::sections(b),
        forall|parent: Seq<Step>, name: Seq<char>| #[trigger]
            hyprlang::opened(a, parent, name) == hyprlang::opened(b, parent, name),
    decreases a.len(),
{
    assert(outline(a).len() == a.len());
    assert(outline(b).len() == b.len());
    if a.len() > 0 {
        let n = a.len() - 1;
        assert(outline(a.drop_last()) =~= outline(a).drop_last());
        assert(outline(b.drop_last()) =~= outline(b).drop_last());
        lemma_sections_of_outline(a.drop_last(), b.drop_last());
        assert(outline(a)[n] == shape(a.last().kind));
        assert(outline(b)[n] == shape(b.last().kind));
        assert(shape(a.last().kind) == shape(b.last().kind));
        lemma_one_more(a, b);
    }
}

proof fn lemma_one_more(a: Seq<LineModel<Kind>>, b: Seq<LineModel<Kind>>)
    requires
        a.len() > 0,
        b.len() > 0,
        shape(a.last().kind) == shape(b.last().kind),
        hyprlang::sections(a.drop_last()) == hyprlang::sections(b.drop_last()),
        forall|parent: Seq<Step>, name: Seq<char>| #[trigger]
            hyprlang::opened(a.drop_last(), parent, name) == hyprlang::opened(
                b.drop_last(),
                parent,
                name,
            ),
    ensures
        hyprlang::sections(a) == hyprlang::sections(b),
        forall|parent: Seq<Step>, name: Seq<char>| #[trigger]
            hyprlang::opened(b, parent, name) == hyprlang::opened(a, parent, name),
{
    if a.last().kind is SectionOpen {
        assert(a.last().kind == b.last().kind);
        let name = a.last().kind->name;
        let parent = hyprlang::sections(a.drop_last());
        assert(hyprlang::opened(a.drop_last(), parent, name) == hyprlang::opened(
            b.drop_last(),
            parent,
            name,
        ));
    }
    assert forall|parent: Seq<Step>, name: Seq<char>| #[trigger]
        hyprlang::opened(b, parent, name) == hyprlang::opened(a, parent, name) by {
        assert(hyprlang::opened(a.drop_last(), parent, name) == hyprlang::opened(
            b.drop_last(),
            parent,
            name,
        ));
    }
}

pub proof fn lemma_prefix_of_outline(a: Seq<LineModel<Kind>>, b: Seq<LineModel<Kind>>, n: int)
    requires
        0 <= n <= a.len(),
        n <= b.len(),
        outline(a).take(n) == outline(b).take(n),
    ensures
        hyprlang::sections(a.take(n)) == hyprlang::sections(b.take(n)),
{
    assert(outline(a.take(n)) =~= outline(a).take(n));
    assert(outline(b.take(n)) =~= outline(b).take(n));
    lemma_sections_of_outline(a.take(n), b.take(n));
}

proof fn lemma_same_outline(a: Seq<LineModel<Kind>>, b: Seq<LineModel<Kind>>, path: Address)
    requires
        outline(a) == outline(b),
    ensures
        hyprlang::resolved(a, path) is Entry <==> hyprlang::resolved(b, path) is Entry,
        hyprlang::resolved(a, path) is Entry ==> hyprlang::resolved(a, path)
            == hyprlang::resolved(b, path),
{
    let n = a.len() as int;
    assert(outline(a).len() == a.len());
    assert(outline(b).len() == b.len());
    assert forall|i: int| 0 <= i <= n implies #[trigger] hyprlang::sections(a.take(i))
        == hyprlang::sections(b.take(i)) by {
        lemma_prefix_of_outline(a, b, i);
    }
    assert forall|i: int| 0 <= i < n implies shape(#[trigger] a[i].kind) == shape(b[i].kind) by {
        assert(outline(a)[i] == shape(a[i].kind));
        assert(outline(b)[i] == shape(b[i].kind));
    }
    let sections = path.sections;
    assert forall|i: int| 0 <= i < n implies #[trigger] hyprlang::closers(a, sections)(i)
        == hyprlang::closers(b, sections)(i) by {
        assert(shape(a[i].kind) == shape(b[i].kind));
        assert(hyprlang::sections(a.take(i)) == hyprlang::sections(b.take(i)));
    }
    search::lemma_first_where_agrees(n, hyprlang::closers(a, sections), hyprlang::closers(b, sections));
    search::lemma_first_where(n, hyprlang::closers(a, sections));
    let end = hyprlang::end_of(a, sections);
    assert(end == hyprlang::end_of(b, sections));
    assert forall|i: int| 0 <= i < end implies #[trigger] hyprlang::named(a, path)(i)
        == hyprlang::named(b, path)(i) by {
        assert(shape(a[i].kind) == shape(b[i].kind));
        assert(hyprlang::sections(a.take(i)) == hyprlang::sections(b.take(i)));
    }
    search::lemma_first_where_agrees(end, hyprlang::named(a, path), hyprlang::named(b, path));
}

proof fn lemma_sections_past_insert(
    a: Seq<LineModel<Kind>>,
    b: Seq<LineModel<Kind>>,
    k: int,
    entry: Kind,
    j: int,
)
    requires
        0 <= k <= j <= a.len(),
        entry is Entry,
        outline(b) == outline(a).insert(k, entry),
    ensures
        hyprlang::sections(b.take(j + 1)) == hyprlang::sections(a.take(j)),
        forall|parent: Seq<Step>, name: Seq<char>| #[trigger]
            hyprlang::opened(b.take(j + 1), parent, name) == hyprlang::opened(
                a.take(j),
                parent,
                name,
            ),
    decreases j,
{
    assert(outline(a).len() == a.len());
    assert(outline(b).len() == b.len());
    let next = b.take(j + 1);
    assert(next.drop_last() =~= b.take(j));
    assert(outline(b)[j] == shape(b[j].kind));
    if j == k {
        assert(outline(a.take(k)) =~= outline(b.take(k))) by {
            assert forall|i: int| 0 <= i < k implies outline(a.take(k))[i] == outline(b.take(k))[i] by {
                assert(outline(b)[i] == outline(a)[i]);
            }
        }
        lemma_sections_of_outline(b.take(k), a.take(k));
        assert(next.last() == b[k]);
        assert forall|parent: Seq<Step>, name: Seq<char>| #[trigger]
            hyprlang::opened(next, parent, name) == hyprlang::opened(a.take(j), parent, name) by {
            assert(hyprlang::opened(b.take(k), parent, name) == hyprlang::opened(
                a.take(k),
                parent,
                name,
            ));
        }
    } else {
        lemma_sections_past_insert(a, b, k, entry, j - 1);
        assert(a.take(j).drop_last() =~= a.take(j - 1));
        assert(outline(b)[j] == outline(a)[j - 1]);
        assert(outline(a)[j - 1] == shape(a[j - 1].kind));
        assert(a.take(j).last() == a[j - 1]);
        assert(next.last() == b[j]);
        lemma_one_more(a.take(j), next);
    }
}

proof fn lemma_insert_moves(
    a: Seq<LineModel<Kind>>,
    b: Seq<LineModel<Kind>>,
    k: int,
    entry: Kind,
    other: Address,
)
    requires
        0 <= k <= a.len(),
        entry is Entry,
        outline(b) == outline(a).insert(k, entry),
        !hyprlang::named(b, other)(k),
    ensures
        match hyprlang::resolved(a, other) {
            Target::Entry(i) => hyprlang::resolved(b, other) == Target::Entry(search::shifted(i, k)),
            _ => !(hyprlang::resolved(b, other) is Entry),
        },
{
    let n = a.len() as int;
    assert(outline(a).len() == n);
    assert(outline(b).len() == b.len());
    assert forall|i: int| 0 <= i <= k implies #[trigger] hyprlang::sections(a.take(i))
        == hyprlang::sections(b.take(i)) by {
        assert(outline(a).take(i) =~= outline(b).take(i));
        lemma_prefix_of_outline(a, b, i);
    }
    assert forall|i: int| k <= i <= n implies #[trigger] hyprlang::sections(a.take(i))
        == hyprlang::sections(b.take(i + 1)) by {
        lemma_sections_past_insert(a, b, k, entry, i);
    }
    assert forall|i: int| 0 <= i < n implies shape(#[trigger] a[i].kind) == shape(
        b[search::shifted(i, k)].kind,
    ) by {
        assert(outline(b)[search::shifted(i, k)] == outline(a)[i]);
    }
    assert(shape(b[k].kind) == entry) by {
        assert(outline(b)[k] == entry);
    }
    let sections = other.sections;
    let p = hyprlang::closers(a, sections);
    let q = hyprlang::closers(b, sections);
    assert forall|i: int| 0 <= i < n implies #[trigger] p(i) == q(search::shifted(i, k)) by {
        assert(shape(a[i].kind) == shape(b[search::shifted(i, k)].kind));
        assert(hyprlang::sections(a.take(i)) == hyprlang::sections(
            b.take(search::shifted(i, k)),
        ));
    }
    search::lemma_first_where_shifts(n, p, q, k);
    search::lemma_first_where(n, p);
    let end = hyprlang::end_of(a, sections);
    let later = hyprlang::end_of(b, sections);
    assert(later == search::shifted(end, k));
    let u = hyprlang::named(a, other);
    let v = hyprlang::named(b, other);
    assert forall|i: int| 0 <= i < n implies #[trigger] u(i) == v(search::shifted(i, k)) by {
        assert(shape(a[i].kind) == shape(b[search::shifted(i, k)].kind));
        assert(hyprlang::sections(a.take(i)) == hyprlang::sections(
            b.take(search::shifted(i, k)),
        ));
    }
    search::lemma_first_where(end, u);
    if end < k {
        search::lemma_first_where_agrees(end, u, v);
    } else {
        search::lemma_first_where_shifts(end, u, v, k);
    }
}

proof fn lemma_append_outline(
    lines: Seq<LineModel<Kind>>,
    key: Seq<char>,
    value: Seq<char>,
    plan: Plan,
)
    requires
        0 <= plan.index <= lines.len(),
    ensures
        ({
            let after = hyprlang::appended(lines, key, value, plan);
            let entry = Kind::Entry { key, key_start: 0, value_start: 0, value_end: 0 };
            outline(after) == outline(lines).insert(plan.index, entry)
        }),
{
    let after = hyprlang::appended(lines, key, value, plan);
    let entry = Kind::Entry { key, key_start: 0, value_start: 0, value_end: 0 };
    assert(outline(after) =~= outline(lines).insert(plan.index, entry));
}

proof fn lemma_append_plan(lines: Seq<LineModel<Kind>>, path: Address, plan: Plan)
    requires
        hyprlang::resolved(lines, path) == Target::Append(plan),
    ensures
        plan.index == hyprlang::end_of(lines, path.sections),
        0 <= plan.index <= lines.len(),
        plan.index < lines.len() ==> hyprlang::sections(lines.take(plan.index)) == path.sections,
        forall|i: int| 0 <= i < plan.index ==> !#[trigger] hyprlang::named(lines, path)(i),
{
    search::lemma_first_where(lines.len() as int, hyprlang::closers(lines, path.sections));
    search::lemma_first_where(plan.index, hyprlang::named(lines, path));
}

proof fn lemma_append_here(
    lines: Seq<LineModel<Kind>>,
    path: Address,
    value: Seq<char>,
    plan: Plan,
)
    requires
        hyprlang::resolved(lines, path) == Target::Append(plan),
        plan.index < lines.len() || hyprlang::sections(lines) == path.sections,
    ensures
        hyprlang::sections(hyprlang::appended(lines, path.key, value, plan).take(plan.index))
            == path.sections,
{
    let after = hyprlang::appended(lines, path.key, value, plan);
    lemma_append_plan(lines, path, plan);
    lemma_append_outline(lines, path.key, value, plan);
    assert(outline(lines).take(plan.index) =~= outline(after).take(plan.index));
    lemma_prefix_of_outline(lines, after, plan.index);
    assert(lines.take(lines.len() as int) =~= lines);
}

proof fn lemma_append_resolves(
    lines: Seq<LineModel<Kind>>,
    path: Address,
    value: Seq<char>,
    plan: Plan,
)
    requires
        hyprlang::resolved(lines, path) == Target::Append(plan),
        plan.index < lines.len() || hyprlang::sections(lines) == path.sections,
    ensures
        hyprlang::resolved(hyprlang::appended(lines, path.key, value, plan), path)
            == Target::Entry(plan.index),
{
    let after = hyprlang::appended(lines, path.key, value, plan);
    let k = plan.index;
    lemma_append_plan(lines, path, plan);
    lemma_append_here(lines, path, value, plan);
    lemma_append_outline(lines, path.key, value, plan);
    assert forall|i: int| 0 <= i < k implies !#[trigger] hyprlang::named(after, path)(i) by {
        assert(outline(lines).take(i) =~= outline(after).take(i));
        lemma_prefix_of_outline(lines, after, i);
        assert(outline(after)[i] == outline(lines)[i]);
        assert(!hyprlang::named(lines, path)(i));
    }
    assert(hyprlang::named(after, path)(k));
    if path.sections.len() > 0 {
        search::lemma_first_where(after.len() as int, hyprlang::closers(after, path.sections));
        search::lemma_first_where(lines.len() as int, hyprlang::closers(lines, path.sections));
        assert forall|i: int| 0 <= i <= k implies !#[trigger] hyprlang::closers(
            after,
            path.sections,
        )(i) by {
            if i < k {
                assert(outline(lines).take(i) =~= outline(after).take(i));
                lemma_prefix_of_outline(lines, after, i);
                assert(outline(after)[i] == outline(lines)[i]);
                assert(!hyprlang::closers(lines, path.sections)(i));
            }
        }
    }
    search::lemma_first_where_is(
        hyprlang::end_of(after, path.sections),
        hyprlang::named(after, path),
        k,
    );
}

proof fn lemma_append_keeps(
    lines: Seq<LineModel<Kind>>,
    path: Address,
    value: Seq<char>,
    plan: Plan,
    other: Address,
)
    requires
        all_fit(lines),
        other != path,
        hyprlang::resolved(lines, path) == Target::Append(plan),
        plan.index < lines.len() || hyprlang::sections(lines) == path.sections,
    ensures
        hyprlang::value_of(hyprlang::appended(lines, path.key, value, plan), other)
            == hyprlang::value_of(lines, other),
{
    let after = hyprlang::appended(lines, path.key, value, plan);
    let k = plan.index;
    let entry = Kind::Entry { key: path.key, key_start: 0, value_start: 0, value_end: 0 };
    lemma_append_plan(lines, path, plan);
    lemma_append_here(lines, path, value, plan);
    lemma_append_outline(lines, path.key, value, plan);
    assert(!hyprlang::named(after, other)(k));
    lemma_insert_moves(lines, after, k, entry, other);
    if hyprlang::resolved(lines, other) is Entry {
        lemma_resolved_entry(lines, other);
        let i = hyprlang::resolved(lines, other)->Entry_0;
        assert(hyprlang::spans_fit(lines[i]));
        assert(after[search::shifted(i, k)].kind == lines[i].kind);
        assert(hyprlang::value_at(after[search::shifted(i, k)]) =~= hyprlang::value_at(lines[i]));
    }
}

/// Whether a line is what its text says: an assignment's key and `=` stand before any comment, its
/// value behind them with nothing but white space around it, and any other line is what it is taken
/// for.
pub open spec fn sound(line: LineModel<Kind>) -> bool {
    let body = lines::body(line.raw);
    let hash = text::find_char(body, '#');
    let code = hyprlang::code_of(body);
    let eq = text::find_char(code, '=');
    &&& lines::is_line(line.raw)
    &&& match line.kind {
        Kind::Entry { key, key_start, value_start, value_end } => {
            &&& eq < code.len()
            &&& key == hyprlang::key_of(code)
            &&& hyprlang::is_key(key)
            &&& key_start == text::leading_space(body)
            &&& eq < value_start <= value_end <= hash
            &&& text::spaces(body, eq + 1, value_start)
            &&& text::spaces(body, value_end, hash)
        },
        kind => kind == hyprlang::classify(line.raw),
    }
}

/// Whether the lines are those of a file, and each is what its text says.
pub open spec fn sound_file(file: Seq<LineModel<Kind>>) -> bool {
    &&& lines::is_file(lines::raws(file))
    &&& forall|i: int| 0 <= i < file.len() ==> sound(#[trigger] file[i])
}

/// Where things stand in a text that assigns.
proof fn lemma_code(body: Seq<char>)
    requires
        text::find_char(hyprlang::code_of(body), '=') < hyprlang::code_of(body).len(),
        hyprlang::is_key(hyprlang::key_of(hyprlang::code_of(body))),
    ensures
        ({
            let hash = text::find_char(body, '#');
            let code = hyprlang::code_of(body);
            let eq = text::find_char(code, '=');
            let key = hyprlang::key_of(code);
            let start = text::leading_space(body);
            &&& code.len() == hash
            &&& 0 <= start
            &&& start + key.len() <= eq < hash <= body.len()
            &&& body[eq] == '='
            &&& key == body.subrange(start, start + key.len())
            &&& text::spaces(body, 0, start)
            &&& text::spaces(body, start + key.len(), eq)
            &&& forall|i: int| 0 <= i < hash ==> #[trigger] body[i] != '#'
            &&& forall|i: int| 0 <= i < eq ==> #[trigger] body[i] != '='
            &&& hash < body.len() ==> body[hash] == '#'
        }),
{
    let hash = text::find_char(body, '#');
    text::lemma_find_char(body, '#');
    let code = hyprlang::code_of(body);
    let eq = text::find_char(code, '=');
    text::lemma_find_char(code, '=');
    let before = code.take(eq);
    text::lemma_trim_bounds(before);
    assert(before =~= body.take(eq));
    text::lemma_leading_space_take(body, eq);
    let key = hyprlang::key_of(code);
    let start = text::leading_space(body);
    assert(body.subrange(start, start + key.len()) =~= before.subrange(start, start + key.len()));
    assert forall|i: int| 0 <= i < eq implies #[trigger] body[i] != '=' by {
        assert(code[i] == body[i]);
    }
    assert forall|i: int| 0 <= i < start implies text::is_space(#[trigger] body[i]) by {
        assert(before[i] == body[i]);
    }
    assert forall|i: int| start + key.len() <= i < eq implies text::is_space(
        #[trigger] body[i],
    ) by {
        assert(before[i] == body[i]);
    }
}

/// What stands where decides what a text assigns to.
proof fn lemma_code_is(body: Seq<char>, start: int, end: int, eq: int, hash: int)
    requires
        0 <= start < end <= eq < hash <= body.len(),
        text::spaces(body, 0, start),
        text::spaces(body, end, eq),
        body[eq] == '=',
        forall|i: int| 0 <= i < hash ==> #[trigger] body[i] != '#',
        forall|i: int| 0 <= i < eq ==> #[trigger] body[i] != '=',
        hash < body.len() ==> body[hash] == '#',
        hyprlang::is_key(body.subrange(start, end)),
    ensures
        text::find_char(body, '#') == hash,
        text::find_char(hyprlang::code_of(body), '=') == eq,
        hyprlang::key_of(hyprlang::code_of(body)) == body.subrange(start, end),
        text::leading_space(body) == start,
{
    text::lemma_find_char_is(body, '#', hash);
    let code = hyprlang::code_of(body);
    assert forall|i: int| 0 <= i < eq implies code[i] != '=' by {
        assert(code[i] == body[i]);
    }
    text::lemma_find_char_is(code, '=', eq);
    let before = code.take(eq);
    assert(before =~= body.take(eq));
    assert forall|i: int| 0 <= i < start implies text::is_space(#[trigger] before[i]) by {
        assert(before[i] == body[i]);
    }
    assert forall|i: int| end <= i < before.len() implies text::is_space(#[trigger] before[i]) by {
        assert(before[i] == body[i]);
    }
    let key = body.subrange(start, end);
    assert(key[0] == before[start]);
    assert(key[end - start - 1] == before[end - 1]);
    text::lemma_trim_is(before, start, end);
    assert(before.subrange(start, end) =~= key);
    text::lemma_leading_space_take(body, eq);
}

/// An assignment is taken for one.
proof fn lemma_code_is_entry(raw: Seq<char>)
    requires
        ({
            let code = hyprlang::code_of(text::strip_terminator(raw));
            &&& text::find_char(code, '=') < code.len()
            &&& hyprlang::is_key(hyprlang::key_of(code))
        }),
    ensures
        hyprlang::classify(raw) is Entry,
{
    let content = text::strip_terminator(raw);
    lemma_code(content);
    let code = hyprlang::code_of(content);
    let eq = text::find_char(code, '=');
    let start = text::leading_space(content);
    text::lemma_leading_space(content);
    let body = text::trim_start(content);
    assert(body[0] == content[start]);
    assert(content[start] != '#');
    assert(code[eq] == '=');
    text::lemma_trim_keeps(code, eq);
    let token = text::trim(code);
    text::lemma_trim_bounds(code);
    let at = eq - text::leading_space(code);
    assert(token[at] == '=');
    assert(token != seq!['}']) by {
        if token == seq!['}'] {
            assert(token[at] == seq!['}'][at]);
        }
    }
    if token.len() > 0 && token.last() == '{' {
        let named = token.drop_last();
        assert(named[at] == '=');
        text::lemma_trim_keeps(named, at);
    }
}

/// A carriage return at the end of a text does not change what it assigns.
proof fn lemma_same_code(content: Seq<char>, body: Seq<char>)
    requires
        content == body || content.push('\r') == body,
    ensures
        ({
            let a = hyprlang::code_of(content);
            let b = hyprlang::code_of(body);
            &&& a == b || a.push('\r') == b
            &&& text::trim(a) == text::trim(b)
            &&& text::find_char(a, '=') < a.len() <==> text::find_char(b, '=') < b.len()
            &&& text::find_char(a, '=') < a.len() ==> {
                &&& text::find_char(a, '=') == text::find_char(b, '=')
                &&& hyprlang::key_of(a) == hyprlang::key_of(b)
                &&& text::trim(hyprlang::after_equals(a)) == text::trim(hyprlang::after_equals(b))
            }
        }),
{
    let a = hyprlang::code_of(content);
    let b = hyprlang::code_of(body);
    text::lemma_find_char(content, '#');
    text::lemma_find_char(body, '#');
    if content != body {
        let n = text::find_char(content, '#');
        if n < content.len() {
            assert forall|i: int| 0 <= i < n implies body[i] != '#' by {
                assert(body[i] == content[i]);
            }
            text::lemma_find_char_is(body, '#', n);
            assert(a =~= b);
        } else {
            assert forall|i: int| 0 <= i < body.len() implies body[i] != '#' by {
                if i < n {
                    assert(body[i] == content[i]);
                }
            }
            text::lemma_find_char_is(body, '#', body.len() as int);
            assert(b =~= a.push('\r'));
        }
    }
    if a != b {
        text::lemma_trim_return(a);
        text::lemma_find_char(a, '=');
        let eq = text::find_char(a, '=');
        if eq < a.len() {
            assert forall|i: int| 0 <= i < eq implies b[i] != '=' by {
                assert(b[i] == a[i]);
            }
            text::lemma_find_char_is(b, '=', eq);
            assert(a.take(eq) =~= b.take(eq));
            assert(hyprlang::after_equals(b) =~= hyprlang::after_equals(a).push('\r'));
            text::lemma_trim_return(hyprlang::after_equals(a));
        } else {
            assert forall|i: int| 0 <= i < b.len() implies b[i] != '=' by {
                if i < a.len() {
                    assert(b[i] == a[i]);
                }
            }
            text::lemma_find_char_is(b, '=', b.len() as int);
        }
    }
}

proof fn lemma_read_line_is_sound(raw: Seq<char>)
    requires
        lines::is_line(raw),
    ensures
        sound(LineModel { raw, kind: hyprlang::classify(raw) }),
{
    let kind = hyprlang::classify(raw);
    if kind is Entry {
        let content = text::strip_terminator(raw);
        let body = lines::body(raw);
        lines::lemma_content_of_body(raw);
        lemma_same_code(content, body);
        lemma_code(body);
        lemma_code(content);
        let code = hyprlang::code_of(content);
        let hash = text::find_char(body, '#');
        let eq = text::find_char(code, '=');
        let after = hyprlang::after_equals(code);
        text::lemma_trim_bounds(after);
        assert(text::leading_space(content) == text::leading_space(body)) by {
            text::lemma_leading_space(content);
            text::lemma_leading_space(body);
            let a = text::leading_space(content);
            let b = text::leading_space(body);
            assert(content[a] == body[a] && content[b] == body[b]);
        }
        let start = kind->value_start;
        let end = kind->value_end;
        assert forall|i: int| eq + 1 <= i < start implies text::is_space(#[trigger] body[i]) by {
            assert(after[i - eq - 1] == content[i]);
        }
        assert forall|i: int| end <= i < hash implies text::is_space(#[trigger] body[i]) by {
            if i < code.len() {
                assert(after[i - eq - 1] == content[i]);
            }
        }
    }
}

/// A file that was read is sound.
pub proof fn parsed_is_sound(input: Seq<char>)
    ensures
        sound_file(hyprlang::parsed(input)),
{
    let file = hyprlang::parsed(input);
    let raws = text::split_lines(input);
    lines::lemma_split_is_file(input);
    assert(lines::raws(file) =~= raws);
    assert forall|i: int| 0 <= i < file.len() implies sound(#[trigger] file[i]) by {
        assert(lines::is_line(raws[i]));
        lemma_read_line_is_sound(raws[i]);
    }
}

/// A line that is what its text says has its positions inside it.
pub proof fn sound_fits(file: Seq<LineModel<Kind>>)
    requires
        sound_file(file),
    ensures
        all_fit(file),
{
    assert forall|i: int| 0 <= i < file.len() implies hyprlang::spans_fit(#[trigger] file[i]) by {
        assert(sound(file[i]));
        if file[i].kind is Entry {
            lemma_code(lines::body(file[i].raw));
        }
    }
}

/// Reading a sound line again gives the same line, with an assignment's value trimmed.
#[verifier::rlimit(40)]
pub proof fn lemma_reread_line(line: LineModel<Kind>)
    requires
        sound(line),
    ensures
        shape(hyprlang::classify(line.raw)) == shape(line.kind),
        line.kind is Entry ==> hyprlang::value_at(
            LineModel { raw: line.raw, kind: hyprlang::classify(line.raw) },
        ) == text::trim(hyprlang::value_at(line)),
{
    if line.kind is Entry {
        let raw = line.raw;
        let content = text::strip_terminator(raw);
        let body = lines::body(raw);
        lines::lemma_content_of_body(raw);
        lemma_same_code(content, body);
        lemma_code(body);
        lemma_code_is_entry(raw);
        let code = hyprlang::code_of(body);
        let hash = text::find_char(body, '#');
        let eq = text::find_char(code, '=');
        let behind = hyprlang::after_equals(code);
        let from = line.kind->value_start - eq - 1;
        let to = line.kind->value_end - eq - 1;
        assert forall|i: int| 0 <= i < from implies text::is_space(#[trigger] behind[i]) by {
            assert(behind[i] == body[i + eq + 1]);
        }
        assert forall|i: int| to <= i < behind.len() implies text::is_space(#[trigger] behind[i]) by {
            assert(behind[i] == body[i + eq + 1]);
        }
        text::lemma_trim_pad(behind, from, to);
        assert(behind.subrange(from, to) =~= hyprlang::value_at(line));
        let again = LineModel { raw, kind: hyprlang::classify(raw) };
        let after = hyprlang::after_equals(hyprlang::code_of(content));
        text::lemma_trim_bounds(after);
        lemma_code(content);
        assert(hyprlang::value_at(again) =~= text::trim(after));
    }
}

/// What an address leads to in a file that is written and read again is what it led to, its value
/// trimmed.
pub proof fn reread(file: Seq<LineModel<Kind>>, path: Address)
    requires
        sound_file(file),
    ensures
        hyprlang::value_of(hyprlang::parsed(lines::emitted(file)), path)
            == match hyprlang::value_of(file, path) {
            Some(value) => Some(text::trim(value)),
            None => None,
        },
{
    let again = hyprlang::parsed(lines::emitted(file));
    lemma_reread_outline(file);
    lemma_same_outline(file, again, path);
    lemma_resolved_entry(file, path);
    if hyprlang::resolved(file, path) is Entry {
        let i = hyprlang::resolved(file, path)->Entry_0;
        assert(sound(file[i]));
        lemma_reread_line(file[i]);
    }
}

/// A file that is written and read again opens the sections that it opened.
pub proof fn reread_sections(file: Seq<LineModel<Kind>>, parent: Seq<Step>, name: Seq<char>)
    requires
        sound_file(file),
    ensures
        hyprlang::opened(hyprlang::parsed(lines::emitted(file)), parent, name)
            == hyprlang::opened(file, parent, name),
{
    lemma_reread_outline(file);
    lemma_sections_of_outline(file, hyprlang::parsed(lines::emitted(file)));
}

pub proof fn lemma_reread_outline(file: Seq<LineModel<Kind>>)
    requires
        sound_file(file),
    ensures
        ({
            let again = hyprlang::parsed(lines::emitted(file));
            &&& again.len() == file.len()
            &&& outline(again) == outline(file)
            &&& forall|i: int|
                0 <= i < file.len() ==> #[trigger] again[i] == (LineModel {
                    raw: file[i].raw,
                    kind: hyprlang::classify(file[i].raw),
                })
        }),
{
    let again = hyprlang::parsed(lines::emitted(file));
    lines::lemma_split_join(lines::raws(file));
    assert(again.len() == file.len());
    assert forall|i: int| 0 <= i < file.len() implies #[trigger] again[i] == (LineModel {
        raw: file[i].raw,
        kind: hyprlang::classify(file[i].raw),
    }) by {
        assert(lines::raws(file)[i] == file[i].raw);
    }
    assert forall|i: int| 0 <= i < file.len() implies outline(again)[i] == outline(file)[i] by {
        assert(again[i].raw == file[i].raw);
        assert(sound(file[i]));
        lemma_reread_line(file[i]);
    }
    assert(outline(again) =~= outline(file));
}

/// Whether a new assignment to `key` is read as one: it is a token without braces, `=` or `#`.
pub open spec fn is_writable_key(key: Seq<char>) -> bool {
    &&& hyprlang::is_key(key)
    &&& !key.contains('=')
    &&& !key.contains('#')
}

proof fn lemma_edit_is_sound(line: LineModel<Kind>, from: int, value: Seq<char>)
    requires
        sound(line),
        line.kind is Entry,
        line.kind->value_start <= from <= line.kind->value_end,
        !hyprlang::is_unsafe(value),
    ensures
        sound(hyprlang::with_value(line, from, value)),
        text::ends_line(hyprlang::with_value(line, from, value).raw) == text::ends_line(line.raw),
        hyprlang::value_at(hyprlang::with_value(line, from, value)) == hyprlang::value_at(
            line,
        ).take(from - line.kind->value_start) + value,
{
    let end = line.kind->value_end;
    let body = lines::body(line.raw);
    let hash = text::find_char(body, '#');
    let eq = text::find_char(hyprlang::code_of(body), '=');
    let key = hyprlang::key_of(hyprlang::code_of(body));
    let start = text::leading_space(body);
    lemma_code(body);
    lines::lemma_line_splice(line.raw, from, end, value);
    let edited = hyprlang::with_value(line, from, value);
    let after = lines::body(edited.raw);
    assert(after == text::splice(body, from, end, value));
    let moved = hash - (end - from) + value.len();
    assert forall|i: int| 0 <= i < from implies after[i] == #[trigger] body[i] by {}
    assert forall|i: int| 0 <= i < moved implies #[trigger] after[i] != '#' by {
        if i < from {
            assert(after[i] == body[i]);
        } else if i < from + value.len() {
            assert(after[i] == value[i - from]);
            assert(value.contains(value[i - from]));
        } else {
            assert(after[i] == body[i - from - value.len() + end]);
        }
    }
    assert forall|i: int| 0 <= i < eq implies #[trigger] after[i] != '=' by {
        assert(after[i] == body[i]);
    }
    assert forall|i: int| 0 <= i < start implies text::is_space(#[trigger] after[i]) by {
        assert(after[i] == body[i]);
    }
    assert forall|i: int| start + key.len() <= i < eq implies text::is_space(
        #[trigger] after[i],
    ) by {
        assert(after[i] == body[i]);
    }
    if moved < after.len() {
        assert(after[moved as int] == body[hash]);
    }
    assert(after.subrange(start, start + key.len()) =~= key);
    lemma_code_is(after, start, start + key.len(), eq, moved as int);
    let value_start = line.kind->value_start;
    assert forall|i: int| eq + 1 <= i < value_start implies text::is_space(#[trigger] after[i]) by {
        assert(after[i] == body[i]);
    }
    assert forall|i: int| from + value.len() <= i < moved implies text::is_space(
        #[trigger] after[i],
    ) by {
        assert(after[i] == body[i - from - value.len() + end]);
    }
    assert(hyprlang::value_at(edited) =~= hyprlang::value_at(line).take(from - value_start)
        + value);
}

spec fn is_end(end: Seq<char>) -> bool {
    end == seq!['\n'] || end == seq!['\r', '\n']
}

/// Whether a text is white space without a line feed.
spec fn is_indent(s: Seq<char>) -> bool {
    text::spaces(s, 0, s.len() as int) && !s.contains('\n')
}

/// Whether a text is one `=` among white space without a line feed.
spec fn is_separator(s: Seq<char>, at: int) -> bool {
    &&& 0 <= at < s.len()
    &&& s[at] == '='
    &&& text::spaces(s, 0, at)
    &&& text::spaces(s, at + 1, s.len() as int)
    &&& !s.contains('\n')
}

proof fn lemma_new_entry_is_sound(
    indent: Seq<char>,
    key: Seq<char>,
    separator: Seq<char>,
    at: int,
    value: Seq<char>,
    end: Seq<char>,
)
    requires
        is_indent(indent),
        is_separator(separator, at),
        is_writable_key(key),
        !hyprlang::is_unsafe(value),
        is_end(end),
    ensures
        sound(hyprlang::new_entry(indent, key, separator, value, end)),
        text::ends_line(hyprlang::new_entry(indent, key, separator, value, end).raw),
{
    let line = hyprlang::new_entry(indent, key, separator, value, end);
    let head = indent + key + separator;
    let s = head + value;
    let raw = line.raw;
    let a = indent.len() as int;
    let b = a + key.len();
    let c = head.len() as int;
    let eq = b + at;
    assert forall|i: int| 0 <= i < s.len() implies #[trigger] s[i] != '\n' && s[i] != '#' by {
        if i < a {
            assert(s[i] == indent[i]);
            assert(indent.contains(indent[i]));
        } else if i < b {
            assert(s[i] == key[i - a]);
            assert(key.contains(key[i - a]));
        } else if i < c {
            assert(s[i] == separator[i - b]);
            assert(separator.contains(separator[i - b]));
        } else {
            assert(s[i] == value[i - c]);
            assert(value.contains(value[i - c]));
        }
    }
    assert forall|i: int| 0 <= i < raw.len() - 1 implies #[trigger] raw[i] != '\n' by {
        if i < s.len() {
            assert(raw[i] == s[i]);
        }
    }
    let body = lines::body(raw);
    if end == seq!['\n'] {
        assert(body =~= s);
    } else {
        assert(body =~= s.push('\r'));
    }
    assert forall|i: int| 0 <= i < s.len() implies body[i] == #[trigger] s[i] by {}
    assert forall|i: int| 0 <= i < body.len() implies #[trigger] body[i] != '#' by {
        if i < s.len() {
            assert(body[i] == s[i]);
        }
    }
    assert forall|i: int| 0 <= i < eq implies #[trigger] body[i] != '=' by {
        assert(body[i] == s[i]);
        if i < a {
            assert(s[i] == indent[i]);
        } else if i < b {
            assert(s[i] == key[i - a]);
            assert(key.contains(key[i - a]));
        } else {
            assert(s[i] == separator[i - b]);
        }
    }
    assert forall|i: int| 0 <= i < a implies text::is_space(#[trigger] body[i]) by {
        assert(body[i] == s[i] && s[i] == indent[i]);
    }
    assert forall|i: int| b <= i < eq implies text::is_space(#[trigger] body[i]) by {
        assert(body[i] == s[i] && s[i] == separator[i - b]);
    }
    assert(body[eq] == s[eq] && s[eq] == separator[at]);
    assert(body.subrange(a, b) =~= key) by {
        assert forall|i: int| a <= i < b implies body[i] == key[i - a] by {
            assert(body[i] == s[i]);
        }
    }
    lemma_code_is(body, a, b, eq, body.len() as int);
    assert forall|i: int| eq + 1 <= i < c implies text::is_space(#[trigger] body[i]) by {
        assert(body[i] == s[i] && s[i] == separator[i - b]);
    }
}

/// Where the layout of a new assignment has its `=`.
spec fn equals_in_layout(lines: Seq<LineModel<Kind>>, plan: Plan) -> int {
    match plan.sibling {
        Some(i) => text::find_char(hyprlang::code_of(lines::body(lines[i].raw)), '=')
            - lines[i].kind->key_start - lines[i].kind->Entry_key.len(),
        None => 1,
    }
}

proof fn lemma_layout(file: Seq<LineModel<Kind>>, path: Address, plan: Plan)
    requires
        sound_file(file),
        hyprlang::resolved(file, path) == Target::Append(plan),
    ensures
        is_indent(hyprlang::indent_for(file, plan)),
        is_separator(hyprlang::separator_for(file, plan), equals_in_layout(file, plan)),
{
    reveal_strlit("    ");
    reveal_strlit(" = ");
    let indent = hyprlang::indent_for(file, plan);
    let separator = hyprlang::separator_for(file, plan);
    let at = equals_in_layout(file, plan);
    lemma_append_plan(file, path, plan);
    search::lemma_last_where(plan.index, hyprlang::children(file, path.sections));
    search::lemma_first_where(plan.index, hyprlang::headers(file, path.sections));
    match plan.sibling {
        Some(i) => {
            let line = file[i];
            assert(sound(line));
            let body = lines::body(line.raw);
            lemma_code(body);
            let start = line.kind->key_start;
            let from = start + line.kind->Entry_key.len();
            assert forall|j: int| 0 <= j < body.len() implies #[trigger] body[j] != '\n' by {
                assert(body[j] == line.raw[j]);
            }
            assert forall|j: int| 0 <= j < indent.len() implies text::is_space(#[trigger] indent[j])
                && indent[j] != '\n' by {
                assert(indent[j] == body[j]);
            }
            assert forall|j: int| 0 <= j < separator.len() implies #[trigger] separator[j]
                == body[from + j] && separator[j] != '\n' by {}
            assert(separator[at] == '=');
        },
        None => {
            if let Some(i) = plan.header {
                let raw = file[i].raw;
                assert(sound(file[i]));
                let content = text::strip_terminator(raw);
                text::lemma_leading_space(content);
                text::lemma_leading_space(raw);
                let n = text::leading_space(content);
                assert(content[n] == raw[n]);
                let m = text::leading_space(raw);
                assert forall|j: int| 0 <= j < indent.len() implies text::is_space(
                    #[trigger] indent[j],
                ) && indent[j] != '\n' by {
                    if j < m {
                        assert(indent[j] == raw[j]);
                    }
                }
            }
        },
    }
}

proof fn lemma_ended_is_sound(line: LineModel<Kind>, end: Seq<char>)
    requires
        sound(line),
        !text::ends_line(line.raw),
        is_end(end),
    ensures
        sound(LineModel { raw: line.raw + end, kind: line.kind }),
        text::ends_line(line.raw + end),
{
    let raw = line.raw + end;
    lines::lemma_line_ended(line.raw, end);
    let body = line.raw;
    let after = lines::body(raw);
    lemma_same_code(body, after);
    if line.kind is Entry {
        lemma_code(body);
        lemma_code(after);
        let hash = text::find_char(body, '#');
        let moved = text::find_char(after, '#');
        let eq = text::find_char(hyprlang::code_of(body), '=');
        text::lemma_leading_space(body);
        text::lemma_leading_space(after);
        let a = text::leading_space(body);
        let b = text::leading_space(after);
        assert(body[a] == after[a] && body[b] == after[b]);
        let start = line.kind->value_start;
        let to = line.kind->value_end;
        assert forall|i: int| eq + 1 <= i < start implies text::is_space(#[trigger] after[i]) by {
            assert(after[i] == body[i]);
        }
        assert forall|i: int| to <= i < moved implies text::is_space(#[trigger] after[i]) by {
            if i < hash {
                assert(after[i] == body[i]);
            } else {
                assert(moved == hash + 1);
            }
        }
    } else {
        let p = text::strip_terminator(line.raw);
        let q = text::strip_terminator(raw);
        assert(q =~= p || q =~= p.push('\r'));
        lemma_same_code(p, q);
        text::lemma_trim_start_return(p, q);
        if hyprlang::classify(raw) is Entry {
            lemma_code(q);
            lemma_code_is_entry(line.raw);
        }
    }
}

/// Setting a value leaves a sound file sound, where a key that is added can be read.
pub proof fn set_keeps_sound(file: Seq<LineModel<Kind>>, path: Address, value: Seq<char>)
    requires
        sound_file(file),
        hyprlang::resolved(file, path) is Append ==> is_writable_key(path.key),
    ensures
        sound_file(hyprlang::after_set(file, path, value)),
{
    if hyprlang::accepts(file, path, value) {
        let after = hyprlang::after_set(file, path, value);
        let end = lines::terminator(file);
        match hyprlang::resolved(file, path) {
            Target::Entry(i) => {
                lemma_resolved_entry(file, path);
                lemma_update_is_sound(file, i, file[i].kind->value_start, value);
            },
            Target::Append(plan) => {
                lemma_append_plan(file, path, plan);
                lemma_layout(file, path, plan);
                let indent = hyprlang::indent_for(file, plan);
                let separator = hyprlang::separator_for(file, plan);
                let line = hyprlang::new_entry(indent, path.key, separator, value, end);
                lemma_new_entry_is_sound(
                    indent,
                    path.key,
                    separator,
                    equals_in_layout(file, plan),
                    value,
                    end,
                );
                let base = if plan.index < file.len() {
                    file
                } else {
                    lines::terminated(file, end)
                };
                if plan.index == file.len() {
                    lemma_terminated(file, end);
                    if file.len() > 0 {
                        assert(lines::raws(base)[base.len() - 1] == base.last().raw);
                    }
                }
                assert(after =~= base.insert(plan.index, line));
                lines::lemma_file_insert(lines::raws(base), plan.index, line.raw);
                assert(lines::raws(after) =~= lines::raws(base).insert(plan.index, line.raw));
                assert forall|j: int| 0 <= j < after.len() implies sound(#[trigger] after[j]) by {
                    if j < plan.index {
                        assert(sound(base[j]));
                    } else if j > plan.index {
                        assert(sound(base[j - 1]));
                    }
                }
            },
            Target::Missing => {},
        }
    }
}

proof fn lemma_terminated(file: Seq<LineModel<Kind>>, end: Seq<char>)
    requires
        sound_file(file),
        is_end(end),
    ensures
        sound_file(lines::terminated(file, end)),
        file.len() > 0 ==> text::ends_line(lines::terminated(file, end).last().raw),
{
    let ended = lines::terminated(file, end);
    if file.len() > 0 {
        let n = file.len() - 1;
        assert(sound(file[n]));
        assert(lines::raws(file)[n] == file[n].raw);
        if !text::ends_line(file[n].raw) {
            lemma_ended_is_sound(file[n], end);
            lines::lemma_file_update(lines::raws(file), n, file[n].raw + end);
            assert(lines::raws(ended) =~= lines::raws(file).update(n, file[n].raw + end));
            assert forall|j: int| 0 <= j < ended.len() implies sound(#[trigger] ended[j]) by {
                assert(sound(file[j]));
            }
        }
    }
}

pub proof fn lemma_update_is_sound(
    file: Seq<LineModel<Kind>>,
    i: int,
    from: int,
    value: Seq<char>,
)
    requires
        sound_file(file),
        0 <= i < file.len(),
        file[i].kind is Entry,
        file[i].kind->value_start <= from <= file[i].kind->value_end,
        !hyprlang::is_unsafe(value),
    ensures
        sound_file(file.update(i, hyprlang::with_value(file[i], from, value))),
{
    let edited = hyprlang::with_value(file[i], from, value);
    let after = file.update(i, edited);
    assert(sound(file[i]));
    lemma_edit_is_sound(file[i], from, value);
    assert(lines::raws(file)[i] == file[i].raw);
    lines::lemma_file_update(lines::raws(file), i, edited.raw);
    assert(lines::raws(after) =~= lines::raws(file).update(i, edited.raw));
    assert forall|j: int| 0 <= j < after.len() implies sound(#[trigger] after[j]) by {
        assert(sound(file[j]));
    }
}

/// What was set is read back from the file as it is written, trimmed.
pub proof fn written_value_is_read_back(
    file: Seq<LineModel<Kind>>,
    path: Address,
    value: Seq<char>,
)
    requires
        sound_file(file),
        hyprlang::accepts(file, path, value),
        hyprlang::resolved(file, path) is Append ==> is_writable_key(path.key),
        lands_inside(file, path),
    ensures
        hyprlang::value_of(
            hyprlang::parsed(lines::emitted(hyprlang::after_set(file, path, value))),
            path,
        ) == Some(text::trim(value)),
{
    sound_fits(file);
    set_keeps_sound(file, path, value);
    read_after_set(file, path, value);
    reread(hyprlang::after_set(file, path, value), path);
}

/// The values of a file that was read are without white space around them.
pub proof fn parsed_values_are_trimmed(input: Seq<char>, path: Address)
    ensures
        hyprlang::value_of(hyprlang::parsed(input), path) matches Some(value) ==> text::trim(value)
            == value,
{
    parsed_is_sound(input);
    round_trip(input);
    reread(hyprlang::parsed(input), path);
}

/// Where every section of a file is closed, an assignment that is added inside sections lands
/// inside them.
pub proof fn closed_file_takes_assignments_inside(file: Seq<LineModel<Kind>>, path: Address)
    requires
        hyprlang::sections(file).len() == 0,
    ensures
        lands_inside(file, path),
{
    if let Target::Append(plan) = hyprlang::resolved(file, path) {
        let target = path.sections;
        if target.len() == 0 {
            assert(hyprlang::sections(file) =~= target);
        } else if plan.index == file.len() {
            let n = file.len() as int;
            search::lemma_first_where(n, hyprlang::headers(file, target));
            search::lemma_first_where(n, hyprlang::closers(file, target));
            let h = plan.header->0;
            assert(hyprlang::headers(file, target)(h));
            lemma_stays_open(file, target, h + 1, n);
            assert(file.take(n) =~= file);
        } else {
            lemma_append_plan(file, path, plan);
        }
    }
}

/// Whether a warning is that of a section that is never closed.
pub open spec fn is_unclosed(warning: Warning) -> bool {
    warning.kind is UnclosedSection
}

/// A file that gives no warning of a section that is never closed leaves no section open, and one
/// that leaves a section open gives such a warning.
pub proof fn closed_file_has_no_unclosed_section(file: Seq<LineModel<Kind>>)
    ensures
        hyprlang::sections(file).len() == 0 <==> forall|k: int|
            0 <= k < hyprlang::warnings(file).len() ==> !is_unclosed(
                #[trigger] hyprlang::warnings(file)[k],
            ),
{
    let n = file.len() as int;
    let all = hyprlang::warnings(file);
    assert(file.take(n) =~= file);
    if hyprlang::sections(file).len() > 0 {
        let i = lemma_last_outside(file, n);
        assert(file.take(i + 1).drop_last() =~= file.take(i));
        assert(hyprlang::nesting(file, i + 1) > 0);
        assert(hyprlang::never_closed(file, i));
        lemma_warned(file, n, i);
        let k = choose|k: int|
            0 <= k < all.len() && hyprlang::warning_at(file, i) == Some(#[trigger] all[k]);
        assert(is_unclosed(all[k]));
    } else {
        assert forall|k: int| 0 <= k < all.len() implies !is_unclosed(#[trigger] all[k]) by {
            lemma_warning_is_of_a_line(file, n, k);
            let i = choose|i: int|
                0 <= i < n && #[trigger] hyprlang::warning_at(file, i) == Some(all[k]);
            if is_unclosed(all[k]) {
                assert(hyprlang::nesting(file, n) > hyprlang::nesting(file, i));
            }
        }
    }
}

/// The last place before `n` where no section is open, in front of a place where one is.
proof fn lemma_last_outside(file: Seq<LineModel<Kind>>, n: int) -> (i: int)
    requires
        0 <= n <= file.len(),
        hyprlang::nesting(file, n) > 0,
    ensures
        0 <= i < n,
        hyprlang::nesting(file, i) == 0,
        forall|j: int| i < j <= n ==> #[trigger] hyprlang::nesting(file, j) > 0,
    decreases n,
{
    assert(file.take(0) =~= Seq::empty());
    if hyprlang::nesting(file, n - 1) == 0 {
        n - 1
    } else {
        lemma_last_outside(file, n - 1)
    }
}

/// What is wrong with a line is among what is wrong with the file.
proof fn lemma_warned(file: Seq<LineModel<Kind>>, n: int, i: int)
    requires
        0 <= i < n,
        hyprlang::warning_at(file, i) is Some,
    ensures
        exists|k: int|
            0 <= k < hyprlang::warnings_upto(file, n).len() && hyprlang::warning_at(file, i) == Some(
                #[trigger] hyprlang::warnings_upto(file, n)[k],
            ),
    decreases n,
{
    let all = hyprlang::warnings_upto(file, n);
    if i < n - 1 {
        lemma_warned(file, n - 1, i);
        let before = hyprlang::warnings_upto(file, n - 1);
        let k = choose|k: int|
            0 <= k < before.len() && hyprlang::warning_at(file, i) == Some(#[trigger] before[k]);
        assert(all[k] == before[k]);
    } else {
        assert(Some(all[all.len() - 1]) == hyprlang::warning_at(file, i));
    }
}

/// What is wrong with the file is wrong with one of its lines.
proof fn lemma_warning_is_of_a_line(file: Seq<LineModel<Kind>>, n: int, k: int)
    requires
        0 <= k < hyprlang::warnings_upto(file, n).len(),
    ensures
        exists|i: int|
            0 <= i < n && #[trigger] hyprlang::warning_at(file, i) == Some(
                hyprlang::warnings_upto(file, n)[k],
            ),
    decreases n,
{
    let all = hyprlang::warnings_upto(file, n);
    let before = hyprlang::warnings_upto(file, n - 1);
    if k < before.len() {
        lemma_warning_is_of_a_line(file, n - 1, k);
        let i = choose|i: int|
            0 <= i < n - 1 && #[trigger] hyprlang::warning_at(file, i) == Some(before[k]);
        assert(hyprlang::warning_at(file, i) == Some(all[k]));
    } else {
        assert(hyprlang::warning_at(file, n - 1) == Some(all[k]));
    }
}

/// Whether a file has the section that a step of an address names: the file opens more sections of
/// the step's name, inside the sections before the step, than the step passes over.
pub open spec fn has_step(file: Seq<LineModel<Kind>>, target: Seq<Step>, k: int) -> bool {
    0 <= target[k].occurrence < hyprlang::opened(file, target.take(k), target[k].name)
}

/// Whether a file has the sections of an address.
pub open spec fn has_sections(file: Seq<LineModel<Kind>>, target: Seq<Step>) -> bool {
    forall|k: int| 0 <= k < target.len() ==> #[trigger] has_step(file, target, k)
}

/// An address leads nowhere exactly where the file lacks a section that one of its steps names.
pub proof fn section_is_missing_where_a_step_is(file: Seq<LineModel<Kind>>, path: Address)
    ensures
        hyprlang::resolved(file, path) is Missing <==> !has_sections(file, path.sections),
{
    let target = path.sections;
    let n = file.len() as int;
    let end = hyprlang::end_of(file, target);
    search::lemma_first_where(n, hyprlang::closers(file, target));
    search::lemma_first_where(end, hyprlang::named(file, path));
    search::lemma_first_where(end, hyprlang::headers(file, target));
    if target.len() > 0 {
        let last = target.len() - 1;
        if has_sections(file, target) {
            assert(has_step(file, target, last));
            lemma_opening(file, target.take(last), target[last].name, target[last].occurrence);
            let h = choose|h: int| #[trigger]
                is_opening(file, target.take(last), target[last].name, target[last].occurrence, h);
            assert(file.take(h + 1).drop_last() =~= file.take(h));
            assert(file.take(h + 1).last() == file[h]);
            assert(hyprlang::sections(file.take(h + 1)) =~= target);
            assert(hyprlang::headers(file, target)(h));
        }
        if !(hyprlang::resolved(file, path) is Missing) {
            match hyprlang::resolved(file, path) {
                Target::Entry(i) => {
                    assert(hyprlang::named(file, path)(i));
                    lemma_open_sections_exist(file, i);
                },
                _ => {
                    match search::first_where(end, hyprlang::headers(file, target)) {
                        Some(h) => {
                            assert(hyprlang::headers(file, target)(h));
                            lemma_open_sections_exist(file, h + 1);
                        },
                        None => {
                            assert(hyprlang::closers(file, target)(end));
                            lemma_open_sections_exist(file, end);
                        },
                    }
                },
            }
        }
    }
}

/// Whether line `h` opens the section of a name that comes after `count` of that name in the same
/// sections.
spec fn is_opening(
    file: Seq<LineModel<Kind>>,
    parent: Seq<Step>,
    name: Seq<char>,
    count: int,
    h: int,
) -> bool {
    &&& 0 <= h < file.len()
    &&& file[h].kind == (Kind::SectionOpen { name })
    &&& hyprlang::sections(file.take(h)) == parent
    &&& hyprlang::opened(file.take(h), parent, name) == count
}

/// Where more sections are opened than some number, one is opened after that many.
proof fn lemma_opening(
    file: Seq<LineModel<Kind>>,
    parent: Seq<Step>,
    name: Seq<char>,
    count: int,
)
    requires
        0 <= count < hyprlang::opened(file, parent, name),
    ensures
        exists|h: int| #[trigger] is_opening(file, parent, name, count, h),
    decreases file.len(),
{
    let before = file.drop_last();
    let n = before.len() as int;
    assert(file.take(n) =~= before);
    if count < hyprlang::opened(before, parent, name) {
        lemma_opening(before, parent, name, count);
        let h = choose|h: int| #[trigger] is_opening(before, parent, name, count, h);
        assert(before.take(h) =~= file.take(h));
        assert(is_opening(file, parent, name, count, h));
    } else {
        assert(is_opening(file, parent, name, count, n));
    }
}

/// More lines open no fewer sections.
proof fn lemma_opened_grows(
    file: Seq<LineModel<Kind>>,
    parent: Seq<Step>,
    name: Seq<char>,
    n: int,
)
    requires
        0 <= n <= file.len(),
    ensures
        0 <= hyprlang::opened(file.take(n), parent, name) <= hyprlang::opened(file, parent, name),
    decreases file.len(),
{
    if n < file.len() {
        let before = file.drop_last();
        assert(before.take(n) =~= file.take(n));
        lemma_opened_grows(before, parent, name, n);
    } else {
        assert(file.take(n) =~= file);
        if n > 0 {
            lemma_opened_grows(file.drop_last(), parent, name, n - 1);
        }
    }
}

/// A file has the sections that are open somewhere in it.
proof fn lemma_open_sections_exist(file: Seq<LineModel<Kind>>, n: int)
    requires
        0 <= n <= file.len(),
    ensures
        has_sections(file, hyprlang::sections(file.take(n))),
{
    let target = hyprlang::sections(file.take(n));
    assert forall|k: int| 0 <= k < target.len() implies #[trigger] has_step(file, target, k) by {
        hyprlang::lemma_open_steps_counted(file.take(n), k);
        lemma_opened_grows(file, target.take(k), target[k].name, n);
        lemma_open_steps_are_counts(file.take(n), k);
    }
}

proof fn lemma_open_steps_are_counts(file: Seq<LineModel<Kind>>, k: int)
    requires
        0 <= k < hyprlang::sections(file).len(),
    ensures
        hyprlang::sections(file)[k].occurrence >= 0,
    decreases file.len(),
{
    let before = file.drop_last();
    if k < hyprlang::sections(before).len() {
        lemma_open_steps_are_counts(before, k);
    }
    if let Kind::SectionOpen { name } = file.last().kind {
        lemma_opened_grows(before, hyprlang::sections(before), name, before.len() as int);
        assert(before.take(before.len() as int) =~= before);
    }
}

/// What setting a value does in a file that was read without a warning of an unclosed section. It
/// succeeds exactly where the value neither breaks its line nor begins a comment and the file has
/// the sections of the address; then the value is read back. Otherwise the file stays as it was.
pub proof fn set_in_a_closed_file(input: Seq<char>, path: Address, value: Seq<char>)
    requires
        forall|k: int|
            0 <= k < hyprlang::warnings(hyprlang::parsed(input)).len() ==> !is_unclosed(
                #[trigger] hyprlang::warnings(hyprlang::parsed(input))[k],
            ),
    ensures
        ({
            let file = hyprlang::parsed(input);
            let after = hyprlang::after_set(file, path, value);
            &&& hyprlang::accepts(file, path, value) <==> is_plain(value)
                && has_sections(file, path.sections)
            &&& hyprlang::accepts(file, path, value) ==> hyprlang::value_of(after, path) == Some(
                value,
            )
            &&& !hyprlang::accepts(file, path, value) ==> after == file && lines::emitted(after)
                == input
            &&& hyprlang::accepts(file, path, value) ==> (hyprlang::resolved(
                file,
                path,
            ) matches Target::Entry(i) ==> {
                let line = file[i];
                &&& after == file.update(i, after[i])
                &&& after[i].raw == line.raw.take(line.kind->value_start) + value + line.raw.skip(
                    line.kind->value_end,
                )
            })
        }),
{
    let file = hyprlang::parsed(input);
    lemma_plain(value);
    closed_file_has_no_unclosed_section(file);
    closed_file_takes_assignments_inside(file, path);
    section_is_missing_where_a_step_is(file, path);
    parsed_is_sound(input);
    sound_fits(file);
    round_trip(input);
    if hyprlang::accepts(file, path, value) {
        read_after_set(file, path, value);
        lemma_resolved_entry(file, path);
    }
}

/// Sections that no line closes stay open.
proof fn lemma_stays_open(file: Seq<LineModel<Kind>>, target: Seq<Step>, from: int, to: int)
    requires
        0 <= from <= to <= file.len(),
        hyprlang::sections(file.take(from)) == target,
        forall|i: int| from <= i < to ==> !#[trigger] hyprlang::closers(file, target)(i),
    ensures
        hyprlang::sections(file.take(to)).len() >= target.len(),
        hyprlang::sections(file.take(to)).take(target.len() as int) == target,
    decreases to - from,
{
    let after = hyprlang::sections(file.take(to));
    if from < to {
        lemma_stays_open(file, target, from, to - 1);
        let before = hyprlang::sections(file.take(to - 1));
        assert(file.take(to).drop_last() =~= file.take(to - 1));
        assert(file.take(to).last() == file[to - 1]);
        assert(!hyprlang::closers(file, target)(to - 1));
        if file[to - 1].kind is SectionClose {
            if before.len() == target.len() {
                assert(before =~= before.take(target.len() as int));
            }
        }
        assert(after.take(target.len() as int) =~= before.take(target.len() as int));
    } else {
        assert(target.take(target.len() as int) =~= target);
    }
}

/// Setting a value opens and closes no section.
pub proof fn set_keeps_sections(file: Seq<LineModel<Kind>>, path: Address, value: Seq<char>)
    ensures
        hyprlang::sections(hyprlang::after_set(file, path, value)) == hyprlang::sections(file),
{
    let after = hyprlang::after_set(file, path, value);
    if hyprlang::accepts(file, path, value) {
        match hyprlang::resolved(file, path) {
            Target::Entry(i) => {
                lemma_resolved_entry(file, path);
                assert(outline(after) =~= outline(file));
                lemma_sections_of_outline(file, after);
            },
            Target::Append(plan) => {
                let n = file.len() as int;
                let entry = Kind::Entry {
                    key: path.key,
                    key_start: 0,
                    value_start: 0,
                    value_end: 0,
                };
                lemma_append_plan(file, path, plan);
                lemma_append_outline(file, path.key, value, plan);
                lemma_sections_past_insert(file, after, plan.index, entry, n);
                assert(outline(after).len() == after.len());
                assert(after.take(n + 1) =~= after);
                assert(file.take(n) =~= file);
            },
            Target::Missing => {},
        }
    }
}

/// Whether a value stays on its line and begins no comment: none of its characters is a line feed,
/// a carriage return or `#`.
pub open spec fn is_plain(value: Seq<char>) -> bool {
    forall|i: int|
        0 <= i < value.len() ==> #[trigger] value[i] != '\n' && value[i] != '\r' && value[i] != '#'
}

/// What can be written is a matter of the characters alone.
pub proof fn lemma_plain(value: Seq<char>)
    ensures
        hyprlang::is_unsafe(value) <==> !is_plain(value),
{
    if hyprlang::is_unsafe(value) {
        let c = if value.contains('\n') {
            '\n'
        } else if value.contains('\r') {
            '\r'
        } else {
            '#'
        };
        let i = choose|i: int| 0 <= i < value.len() && value[i] == c;
        assert(value[i] == c);
    }
    if !is_plain(value) {
        let i = choose|i: int|
            0 <= i < value.len() && !(#[trigger] value[i] != '\n' && value[i] != '\r' && value[i]
                != '#');
        assert(value.contains(value[i]));
    }
}

/// A value whose characters are neither line feed nor carriage return nor `#` is accepted wherever
/// the sections of the address exist, and is then read back. Any other value, and any value for an
/// address whose sections do not exist, is refused and leaves the file as it was.
pub proof fn plain_value_is_set(file: Seq<LineModel<Kind>>, path: Address, value: Seq<char>)
    requires
        all_fit(file),
        lands_inside(file, path),
    ensures
        ({
            let after = hyprlang::after_set(file, path, value);
            &&& is_plain(value) && has_sections(file, path.sections) ==> hyprlang::accepts(
                file,
                path,
                value,
            ) && hyprlang::value_of(after, path) == Some(value)
            &&& !is_plain(value) || !has_sections(file, path.sections) ==> !hyprlang::accepts(
                file,
                path,
                value,
            ) && after == file
        }),
{
    lemma_plain(value);
    section_is_missing_where_a_step_is(file, path);
    if hyprlang::accepts(file, path, value) {
        read_after_set(file, path, value);
    }
}

/// A key outside every section can be given any value whose characters are neither line feed nor
/// carriage return nor `#`, whatever the file holds.
pub proof fn plain_value_is_set_at_the_top(input: Seq<char>, key: Seq<char>, value: Seq<char>)
    ensures
        ({
            let file = hyprlang::parsed(input);
            let path = Address { sections: Seq::empty(), key };
            hyprlang::accepts(file, path, value) <==> is_plain(value)
        }),
{
    let file = hyprlang::parsed(input);
    let path = Address { sections: Seq::empty(), key };
    lemma_plain(value);
    section_is_missing_where_a_step_is(file, path);
}

/// A value can be set where a value can be read: an address that leads to a value leads to its
/// sections.
pub proof fn value_that_is_read_can_be_set(
    file: Seq<LineModel<Kind>>,
    path: Address,
    value: Seq<char>,
)
    requires
        all_fit(file),
        hyprlang::value_of(file, path) is Some,
        is_plain(value),
    ensures
        hyprlang::accepts(file, path, value),
        hyprlang::value_of(hyprlang::after_set(file, path, value), path) == Some(value),
{
    lemma_plain(value);
    read_after_set(file, path, value);
}

} // verus!
