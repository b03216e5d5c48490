//! The hyprlang format: nested `name { … }` sections, `key = value` assignments and `#`
//! comments.
//!
//! A value is addressed in one of two ways:
//!
//! - by a [`KeyPath`]: a path of sections, each with its occurrence among the siblings of
//!   the same name, and a key inside the innermost one;
//! - by a repeatable top-level key and the first comma-separated field of its value, as in
//!   `env = XCURSOR_THEME,Nordic`.
//!
//! Setting a key that does not exist adds an assignment at the end of its section: before
//! the closing brace, or at the end of the file for a top-level key. The new line takes
//! the indentation and the separator of the last assignment already in that section.

use crate::lines;
use crate::lines::{Line, LineModel};
use crate::search;
use crate::text;
use crate::text::{
    chars, count_leading_space, has_char, index_of, is_whitespace, lines_of, trimmed,
    trimmed_start, without_terminator,
};
use vstd::prelude::*;
use vstd::slice::slice_subrange;

verus! {

/// What a line was taken for.
#[derive(Debug)]
pub enum LineKind {
    /// Nothing but white space.
    Blank,
    /// The first character that is not white space is `#`.
    Comment,
    /// A section header `name {`.
    SectionOpen {
        /// The section's name.
        name: String,
    },
    /// A `}` on its own.
    SectionClose,
    /// An assignment `key = value`.
    Entry {
        /// The key.
        key: String,
        /// Where in the line the key begins.
        key_start: usize,
        /// Where in the line the value begins.
        value_start: usize,
        /// Where in the line the value ends.
        value_end: usize,
    },
    /// Anything else.
    Malformed,
}

/// The mathematical counterpart of [`LineKind`].
pub enum Kind {
    /// Nothing but white space.
    Blank,
    /// The first character that is not white space is `#`.
    Comment,
    /// A section header with this name.
    SectionOpen {
        /// The section's name.
        name: Seq<char>,
    },
    /// A `}` on its own.
    SectionClose,
    /// An assignment.
    Entry {
        /// The key.
        key: Seq<char>,
        /// Where in the line the key begins.
        key_start: int,
        /// Where in the line the value begins.
        value_start: int,
        /// Where in the line the value ends.
        value_end: int,
    },
    /// Anything else.
    Malformed,
}

impl View for LineKind {
    type V = Kind;

    open spec fn view(&self) -> Kind {
        match *self {
            LineKind::Blank => Kind::Blank,
            LineKind::Comment => Kind::Comment,
            LineKind::SectionOpen { name } => Kind::SectionOpen { name: name@ },
            LineKind::SectionClose => Kind::SectionClose,
            LineKind::Entry { key, key_start, value_start, value_end } => Kind::Entry {
                key: key@,
                key_start: key_start as int,
                value_start: value_start as int,
                value_end: value_end as int,
            },
            LineKind::Malformed => Kind::Malformed,
        }
    }
}

impl Clone for LineKind {
    fn clone(&self) -> (r: Self)
        ensures
            r@ == self@,
    {
        match self {
            LineKind::Blank => LineKind::Blank,
            LineKind::Comment => LineKind::Comment,
            LineKind::SectionOpen { name } => LineKind::SectionOpen { name: name.clone() },
            LineKind::SectionClose => LineKind::SectionClose,
            LineKind::Entry { key, key_start, value_start, value_end } => LineKind::Entry {
                key: key.clone(),
                key_start: *key_start,
                value_start: *value_start,
                value_end: *value_end,
            },
            LineKind::Malformed => LineKind::Malformed,
        }
    }
}

/// The part of a line before its inline comment.
pub open spec fn code_of(content: Seq<char>) -> Seq<char> {
    content.take(text::find_char(content, '#'))
}

/// Whether `code`, trimmed, is a section header: a name without `=` and an opening brace.
pub open spec fn is_header(code: Seq<char>) -> bool {
    &&& code.len() > 0
    &&& code.last() == '{'
    &&& text::trim(code.drop_last()).len() > 0
    &&& !text::trim(code.drop_last()).contains('=')
}

/// Whether `key` can be the key of an assignment: a token without white space or braces.
pub open spec fn is_key(key: Seq<char>) -> bool {
    &&& key.len() > 0
    &&& forall|i: int|
        0 <= i < key.len() ==> !text::is_space(#[trigger] key[i]) && key[i] != '{' && key[i] != '}'
}

/// The key that `code` assigns to: the text before its first `=`, trimmed.
pub open spec fn key_of(code: Seq<char>) -> Seq<char> {
    text::trim(code.take(text::find_char(code, '=')))
}

/// The text after the first `=` of `code`.
pub open spec fn after_equals(code: Seq<char>) -> Seq<char> {
    code.skip(text::find_char(code, '=') + 1)
}

/// What a line, terminator included, is taken for.
pub open spec fn classify(raw: Seq<char>) -> Kind {
    let content = text::strip_terminator(raw);
    let body = text::trim_start(content);
    let code = code_of(content);
    let eq = text::find_char(code, '=');
    if body.len() == 0 {
        Kind::Blank
    } else if body[0] == '#' {
        Kind::Comment
    } else if text::trim(code) == seq!['}'] {
        Kind::SectionClose
    } else if is_header(text::trim(code)) {
        Kind::SectionOpen { name: text::trim(text::trim(code).drop_last()) }
    } else if eq < code.len() && is_key(key_of(code)) {
        let start = eq + 1 + text::leading_space(after_equals(code));
        Kind::Entry {
            key: key_of(code),
            key_start: text::leading_space(content),
            value_start: start,
            value_end: start + text::trim(after_equals(code)).len(),
        }
    } else {
        Kind::Malformed
    }
}

/// Whether the positions recorded for a line lie inside it, in their order.
pub open spec fn spans_fit(line: LineModel<Kind>) -> bool {
    match line.kind {
        Kind::Entry { key, key_start, value_start, value_end } => {
            &&& 0 <= key_start
            &&& key_start + key.len() <= value_start
            &&& value_start <= value_end
            &&& value_end <= line.raw.len()
        },
        _ => true,
    }
}

/// The file that a text is: its lines, each classified.
pub open spec fn parsed(input: Seq<char>) -> Seq<LineModel<Kind>> {
    text::split_lines(input).map_values(
        |raw: Seq<char>| LineModel { raw, kind: classify(raw) },
    )
}

pub proof fn lemma_classify_fits(raw: Seq<char>)
    ensures
        spans_fit(LineModel { raw, kind: classify(raw) }),
{
    let content = text::strip_terminator(raw);
    let code = code_of(content);
    let eq = text::find_char(code, '=');
    text::lemma_find_char(content, '#');
    text::lemma_find_char(code, '=');
    text::lemma_leading_space(content);
    if classify(raw) is Entry {
        let before = code.take(eq);
        text::lemma_trim(before);
        text::lemma_trim(after_equals(code));
        text::lemma_leading_space_take(code, eq);
        text::lemma_leading_space_take(content, text::find_char(content, '#'));
    }
}

fn plain_key(key: &[char]) -> (r: bool)
    ensures
        r == is_key(key@),
{
    if key.len() == 0 {
        return false;
    }
    let mut i: usize = 0;
    while i < key.len()
        invariant
            i <= key.len(),
            forall|j: int|
                0 <= j < i ==> !text::is_space(#[trigger] key@[j]) && key@[j] != '{' && key@[j]
                    != '}',
        decreases key.len() - i,
    {
        if is_whitespace(key[i]) || key[i] == '{' || key[i] == '}' {
            return false;
        }
        i += 1;
    }
    true
}

/// Classifies one line, terminator included.
fn classify_line(raw: &str) -> (r: LineKind)
    ensures
        r@ == classify(raw@),
{
    let all = chars(raw);
    let content = without_terminator(all.as_slice());
    let body = trimmed_start(content);
    if body.len() == 0 {
        return LineKind::Blank;
    }
    if body[0] == '#' {
        return LineKind::Comment;
    }
    proof {
        text::lemma_find_char(content@, '#');
    }
    let code = match index_of(content, '#') {
        Some(hash) => slice_subrange(content, 0, hash),
        None => content,
    };
    assert(code@ =~= code_of(content@));
    let token = trimmed(code);
    if token.len() == 1 && token[0] == '}' {
        assert(token@ =~= seq!['}']);
        return LineKind::SectionClose;
    }
    if token.len() > 0 && token[token.len() - 1] == '{' {
        let before = slice_subrange(token, 0, token.len() - 1);
        assert(before@ =~= token@.drop_last());
        let name = trimmed(before);
        if name.len() > 0 && !has_char(name, '=') {
            return LineKind::SectionOpen { name: text::text(name) };
        }
    }
    let end: usize = code.len();
    if let Some(eq) = index_of(code, '=') {
        let before = slice_subrange(code, 0, eq);
        assert(before@ =~= code@.take(eq as int));
        let key = trimmed(before);
        if plain_key(key) {
            let after = slice_subrange(code, eq + 1, end);
            assert(after@ =~= after_equals(code@));
            proof {
                text::lemma_trim(after@);
            }
            let key_start: usize = count_leading_space(content);
            let value_start: usize = eq + 1 + count_leading_space(after);
            let value_end: usize = value_start + trimmed(after).len();
            return LineKind::Entry { key: text::text(key), key_start, value_start, value_end };
        }
    }
    LineKind::Malformed
}

/// One step of a [`KeyPath`]: a section, chosen among the siblings of the same name.
#[derive(Clone, Debug, PartialEq, Eq)]
pub struct SectionStep {
    name: String,
    occurrence: usize,
}

/// The mathematical counterpart of [`SectionStep`].
pub struct Step {
    /// The section's name.
    pub name: Seq<char>,
    /// How many siblings of the same name stand before it.
    pub occurrence: int,
}

impl View for SectionStep {
    type V = Step;

    closed spec fn view(&self) -> Step {
        Step { name: self.name@, occurrence: self.occurrence as int }
    }
}

/// The models of the given steps.
pub open spec fn steps(path: Seq<SectionStep>) -> Seq<Step> {
    path.map_values(|step: SectionStep| step@)
}

impl SectionStep {
    /// The first section named `name`.
    pub fn first(name: &str) -> (r: Self)
        ensures
            r@ == (Step { name: name@, occurrence: 0 }),
    {
        SectionStep { name: name.to_owned(), occurrence: 0 }
    }

    /// The section named `name` with `occurrence` siblings of that name before it.
    pub fn nth(name: &str, occurrence: usize) -> (r: Self)
        ensures
            r@ == (Step { name: name@, occurrence: occurrence as int }),
    {
        SectionStep { name: name.to_owned(), occurrence }
    }
}

/// The address of a value: the sections that enclose it, outermost first, and its key.
#[derive(Clone, Debug, PartialEq, Eq)]
pub struct KeyPath {
    sections: Vec<SectionStep>,
    key: String,
}

/// The mathematical counterpart of [`KeyPath`].
pub struct Address {
    /// The enclosing sections, outermost first; none for a top-level key.
    pub sections: Seq<Step>,
    /// The key inside the innermost section.
    pub key: Seq<char>,
}

impl View for KeyPath {
    type V = Address;

    closed spec fn view(&self) -> Address {
        Address { sections: steps(self.sections@), key: self.key@ }
    }
}

/// The steps to the first section of each of the given names.
pub open spec fn first_steps(names: Seq<&str>) -> Seq<Step> {
    names.map_values(|name: &str| Step { name: name@, occurrence: 0 })
}

/// How a path of sections is written: each step by its name, with its occurrence in
/// brackets unless it is the first, and a dot.
pub open spec fn path_text(sections: Seq<Step>) -> Seq<char>
    decreases sections.len(),
{
    if sections.len() == 0 {
        Seq::empty()
    } else {
        let step = sections.last();
        path_text(sections.drop_last()) + (if step.occurrence == 0 {
            step.name + "."@
        } else {
            step.name + "["@ + text::decimal(step.occurrence) + "]."@
        })
    }
}

/// How an address is written.
pub open spec fn address_text(path: Address) -> Seq<char> {
    path_text(path.sections) + path.key
}

impl KeyPath {
    /// A key outside every section.
    pub fn top_level(key: &str) -> (r: Self)
        ensures
            r@.sections == Seq::<Step>::empty(),
            r@.key == key@,
    {
        let r = KeyPath { sections: Vec::new(), key: key.to_owned() };
        assert(r@.sections =~= Seq::<Step>::empty());
        r
    }

    /// A key inside the first section of each of the given names.
    pub fn at(section_names: &[&str], key: &str) -> (r: Self)
        ensures
            r@.sections == first_steps(section_names@),
            r@.key == key@,
    {
        let mut sections: Vec<SectionStep> = Vec::new();
        let mut i: usize = 0;
        while i < section_names.len()
            invariant
                i <= section_names.len(),
                steps(sections@) == first_steps(section_names@).take(i as int),
            decreases section_names.len() - i,
        {
            let ghost before = steps(sections@);
            let step = SectionStep::first(section_names[i]);
            let ghost all = first_steps(section_names@);
            assert(step@ == all[i as int]);
            sections.push(step);
            assert(steps(sections@) =~= before.push(step@));
            assert(all.take(i + 1) =~= all.take(i as int).push(all[i as int]));
            i += 1;
        }
        assert(first_steps(section_names@).take(section_names@.len() as int) =~= first_steps(
            section_names@,
        ));
        KeyPath { sections, key: key.to_owned() }
    }

    /// A key inside the given sections.
    pub fn new(sections: Vec<SectionStep>, key: &str) -> (r: Self)
        ensures
            r@.sections == steps(sections@),
            r@.key == key@,
    {
        KeyPath { sections, key: key.to_owned() }
    }

    /// Writes the address as a dotted path.
    pub fn to_string(&self) -> (r: String)
        ensures
            r@ == address_text(self@),
    {
        let mut r = String::new();
        let mut i: usize = 0;
        while i < self.sections.len()
            invariant
                i <= self.sections.len(),
                r@ == path_text(self@.sections.take(i as int)),
            decreases self.sections.len() - i,
        {
            let ghost before = r@;
            let ghost step = self@.sections[i as int];
            assert(self@.sections.take(i + 1).drop_last() =~= self@.sections.take(i as int));
            r.append(self.sections[i].name.as_str());
            if self.sections[i].occurrence == 0 {
                r.append(".");
                assert(r@ =~= before + (step.name + "."@));
            } else {
                r.append("[");
                r.append(text::decimal_text(self.sections[i].occurrence).as_str());
                r.append("].");
                assert(r@ =~= before + (step.name + "["@ + text::decimal(step.occurrence)
                    + "]."@));
            }
            i += 1;
        }
        assert(self@.sections.take(self.sections@.len() as int) =~= self@.sections);
        r.append(self.key.as_str());
        r
    }
}

/// The sections that are open after the given lines, outermost first.
pub open spec fn sections(lines: Seq<LineModel<Kind>>) -> Seq<Step>
    decreases lines.len(),
{
    if lines.len() == 0 {
        Seq::empty()
    } else {
        let before = lines.drop_last();
        match lines.last().kind {
            Kind::SectionOpen { name } => sections(before).push(
                Step { name, occurrence: opened(before, sections(before), name) },
            ),
            Kind::SectionClose => if sections(before).len() == 0 {
                sections(before)
            } else {
                sections(before).drop_last()
            },
            _ => sections(before),
        }
    }
}

/// How many sections named `name` the given lines open directly inside `parent`.
pub open spec fn opened(lines: Seq<LineModel<Kind>>, parent: Seq<Step>, name: Seq<char>) -> int
    decreases lines.len(),
{
    if lines.len() == 0 {
        0
    } else {
        let before = lines.drop_last();
        opened(before, parent, name) + (if lines.last().kind == (Kind::SectionOpen { name })
            && sections(before) == parent {
            1int
        } else {
            0
        })
    }
}

/// How many of the given names are `name`.
spec fn occurrences(names: Seq<String>, name: Seq<char>) -> int
    decreases names.len(),
{
    if names.len() == 0 {
        0
    } else {
        occurrences(names.drop_last(), name) + (if names.last()@ == name {
            1int
        } else {
            0
        })
    }
}

/// A section that is open is among those that were opened.
pub proof fn lemma_open_steps_counted(lines: Seq<LineModel<Kind>>, d: int)
    requires
        0 <= d < sections(lines).len(),
    ensures
        sections(lines)[d].occurrence < opened(
            lines,
            sections(lines).take(d),
            sections(lines)[d].name,
        ),
    decreases lines.len(),
{
    let before = lines.drop_last();
    if lines.len() > 0 {
        let old = sections(before);
        let now = sections(lines);
        if d < old.len() {
            lemma_open_steps_counted(before, d);
            assert(now.take(d) =~= old.take(d));
        } else {
            assert(now.take(d) =~= old);
        }
    }
}

proof fn lemma_new_section_is_empty(
    lines: Seq<LineModel<Kind>>,
    parent: Seq<Step>,
    step: Step,
    name: Seq<char>,
)
    requires
        opened(lines, parent, step.name) <= step.occurrence,
    ensures
        opened(lines, parent.push(step), name) == 0,
    decreases lines.len(),
{
    if lines.len() > 0 {
        let before = lines.drop_last();
        lemma_new_section_is_empty(before, parent, step, name);
        if sections(before) == parent.push(step) {
            lemma_open_steps_counted(before, parent.len() as int);
            assert(parent.push(step).take(parent.len() as int) =~= parent);
        }
    }
}

/// The walk over a file's lines: the open sections, and for each of them and for the top
/// level the names of the sections opened directly inside it.
struct Walk {
    path: Vec<SectionStep>,
    children: Vec<Vec<String>>,
}

impl Walk {
    spec fn stands_after(self, lines: Seq<LineModel<Kind>>) -> bool {
        &&& steps(self.path@) == sections(lines)
        &&& self.children@.len() == self.path@.len() + 1
        &&& forall|d: int, name: Seq<char>|
            0 <= d <= self.path@.len() ==> #[trigger] occurrences(self.children@[d]@, name)
                == opened(lines, sections(lines).take(d), name)
    }

    fn start() -> (r: Self)
        ensures
            r.stands_after(Seq::empty()),
    {
        let mut children: Vec<Vec<String>> = Vec::new();
        children.push(Vec::new());
        let r = Walk { path: Vec::new(), children };
        assert(steps(r.path@) =~= Seq::<Step>::empty());
        r
    }

    fn open(&mut self, name: &String, Ghost(lines): Ghost<Seq<LineModel<Kind>>>)
        requires
            old(self).stands_after(lines.drop_last()),
            lines.len() > 0,
            lines.last().kind == (Kind::SectionOpen { name: name@ }),
        ensures
            final(self).stands_after(lines),
    {
        let ghost before = lines.drop_last();
        let ghost parent = sections(before);
        let ghost depth = self.path@.len() as int;
        let top: usize = self.path.len();
        assert(parent.take(depth) =~= parent);
        let ghost siblings = self.children@[depth]@;
        assert(occurrences(siblings, name@) == opened(before, parent.take(depth), name@));
        let occurrence: usize = count_name(&self.children[top], name);
        let ghost step = Step { name: name@, occurrence: occurrence as int };
        let mut counted = self.children.pop().unwrap();
        assert(counted@ == siblings);
        counted.push(name.clone());
        assert(counted@.drop_last() =~= siblings);
        self.children.push(counted);
        self.children.push(Vec::new());
        self.path.push(SectionStep { name: name.clone(), occurrence });
        assert(steps(self.path@) =~= sections(lines));
        assert forall|d: int, n: Seq<char>| 0 <= d <= self.path@.len() implies #[trigger] occurrences(
            self.children@[d]@,
            n,
        ) == opened(lines, sections(lines).take(d), n) by {
            if d < depth {
                assert(self.children@[d] == old(self).children@[d]);
                assert(occurrences(old(self).children@[d]@, n) == opened(before, parent.take(d), n));
                assert(sections(lines).take(d) =~= parent.take(d));
            } else if d == depth {
                assert(sections(lines).take(d) =~= parent);
                assert(occurrences(siblings, n) == opened(before, parent.take(depth), n));
            } else {
                lemma_new_section_is_empty(before, parent, step, n);
                assert(sections(lines).take(d) =~= parent.push(step));
                assert(parent.len() != parent.push(step).len());
            }
        }
    }

    fn close(&mut self, Ghost(lines): Ghost<Seq<LineModel<Kind>>>)
        requires
            old(self).stands_after(lines.drop_last()),
            lines.len() > 0,
            lines.last().kind is SectionClose,
        ensures
            final(self).stands_after(lines),
    {
        let ghost before = lines.drop_last();
        let ghost parent = sections(before);
        if self.path.len() > 0 {
            self.path.pop();
            self.children.pop();
            assert(steps(self.path@) =~= sections(lines));
        }
        assert forall|d: int, n: Seq<char>| 0 <= d <= self.path@.len() implies #[trigger] occurrences(
            self.children@[d]@,
            n,
        ) == opened(lines, sections(lines).take(d), n) by {
            assert(self.children@[d] == old(self).children@[d]);
            assert(occurrences(old(self).children@[d]@, n) == opened(before, parent.take(d), n));
            assert(sections(lines).take(d) =~= parent.take(d));
        }
    }

    fn pass(&self, Ghost(lines): Ghost<Seq<LineModel<Kind>>>)
        requires
            self.stands_after(lines.drop_last()),
            lines.len() > 0,
            !(lines.last().kind is SectionOpen),
            !(lines.last().kind is SectionClose),
        ensures
            self.stands_after(lines),
    {
        assert forall|d: int, n: Seq<char>| 0 <= d <= self.path@.len() implies #[trigger] occurrences(
            self.children@[d]@,
            n,
        ) == opened(lines, sections(lines).take(d), n) by {
            assert(occurrences(self.children@[d]@, n) == opened(
                lines.drop_last(),
                sections(lines.drop_last()).take(d),
                n,
            ));
        }
    }

    fn stands_in(&self, target: &[SectionStep], Ghost(lines): Ghost<Seq<LineModel<Kind>>>) -> (r:
        bool)
        requires
            self.stands_after(lines),
        ensures
            r == (sections(lines) == steps(target@)),
    {
        if self.path.len() != target.len() {
            assert(sections(lines).len() == self.path@.len());
            assert(steps(target@).len() == target@.len());
            return false;
        }
        let mut i: usize = 0;
        while i < target.len()
            invariant
                i <= target.len(),
                target.len() == self.path.len(),
                steps(self.path@) == sections(lines),
                forall|j: int| 0 <= j < i ==> #[trigger] self.path@[j]@ == target@[j]@,
            decreases target.len() - i,
        {
            if self.path[i].name != target[i].name || self.path[i].occurrence
                != target[i].occurrence {
                assert(sections(lines)[i as int] == self.path@[i as int]@);
                assert(steps(target@)[i as int] == target@[i as int]@);
                return false;
            }
            i += 1;
        }
        assert(sections(lines) =~= steps(target@));
        true
    }
}

fn count_name(names: &Vec<String>, name: &String) -> (r: usize)
    ensures
        r == occurrences(names@, name@),
        r <= names@.len(),
{
    let mut r: usize = 0;
    let mut i: usize = 0;
    while i < names.len()
        invariant
            i <= names.len(),
            r <= i,
            r == occurrences(names@.take(i as int), name@),
        decreases names.len() - i,
    {
        assert(names@.take(i + 1).drop_last() =~= names@.take(i as int));
        if names[i] == *name {
            r += 1;
        }
        i += 1;
    }
    assert(names@.take(names@.len() as int) =~= names@);
    r
}

/// A problem noticed while parsing. The line it concerns is kept as it is.
#[derive(Clone, Debug, PartialEq, Eq)]
pub struct ParseWarning {
    line: usize,
    kind: ParseWarningKind,
}

/// What is wrong with the line of a [`ParseWarning`].
#[derive(Clone, Debug, PartialEq, Eq)]
pub enum ParseWarningKind {
    /// The line is not blank, a comment, a section header, a closing brace or an assignment.
    MalformedLine,
    /// A closing brace outside every section.
    StrayClosingBrace,
    /// A section that the file never closes.
    UnclosedSection {
        /// The section's name.
        name: String,
    },
}

/// The mathematical counterpart of [`ParseWarning`].
pub struct Warning {
    /// The line's number, counted from one.
    pub line: int,
    /// What is wrong with it.
    pub kind: WarningKind,
}

/// The mathematical counterpart of [`ParseWarningKind`].
pub enum WarningKind {
    /// The line is not blank, a comment, a section header, a closing brace or an assignment.
    MalformedLine,
    /// A closing brace outside every section.
    StrayClosingBrace,
    /// A section that the file never closes.
    UnclosedSection {
        /// The section's name.
        name: Seq<char>,
    },
}

impl View for ParseWarningKind {
    type V = WarningKind;

    open spec fn view(&self) -> WarningKind {
        match *self {
            ParseWarningKind::MalformedLine => WarningKind::MalformedLine,
            ParseWarningKind::StrayClosingBrace => WarningKind::StrayClosingBrace,
            ParseWarningKind::UnclosedSection { name } => WarningKind::UnclosedSection {
                name: name@,
            },
        }
    }
}

impl View for ParseWarning {
    type V = Warning;

    closed spec fn view(&self) -> Warning {
        Warning { line: self.line as int, kind: self.kind@ }
    }
}

/// The models of the given warnings.
pub open spec fn warning_models(warnings: Seq<ParseWarning>) -> Seq<Warning> {
    warnings.map_values(|warning: ParseWarning| warning@)
}

/// How a warning is put into words.
pub open spec fn warning_text(warning: Warning) -> Seq<char> {
    "line "@ + text::decimal(warning.line) + match warning.kind {
        WarningKind::MalformedLine =>
            ": not a comment, blank line, section header, or key = value entry"@,
        WarningKind::StrayClosingBrace => ": `}` with no matching section header"@,
        WarningKind::UnclosedSection { name } => ": section `"@ + name
            + "` opened here is never closed"@,
    }
}

impl ParseWarning {
    /// The number of the line, counted from one.
    pub fn line(&self) -> (r: usize)
        ensures
            r == self@.line,
    {
        self.line
    }

    /// What is wrong with the line.
    pub fn kind(&self) -> (r: &ParseWarningKind)
        ensures
            r@ == self@.kind,
    {
        &self.kind
    }

    /// Puts the warning into words.
    pub fn to_string(&self) -> (r: String)
        ensures
            r@ == warning_text(self@),
    {
        let mut r = "line ".to_owned();
        r.append(text::decimal_text(self.line).as_str());
        let ghost head = r@;
        match &self.kind {
            ParseWarningKind::MalformedLine => {
                r.append(": not a comment, blank line, section header, or key = value entry");
            },
            ParseWarningKind::StrayClosingBrace => {
                r.append(": `}` with no matching section header");
            },
            ParseWarningKind::UnclosedSection { name } => {
                r.append(": section `");
                r.append(name.as_str());
                r.append("` opened here is never closed");
                assert(r@ =~= head + (": section `"@ + name@ + "` opened here is never closed"@));
            },
        }
        r
    }
}

/// How many sections are open after the first `i` lines.
pub open spec fn nesting(lines: Seq<LineModel<Kind>>, i: int) -> int {
    sections(lines.take(i)).len() as int
}

/// Whether the section that line `i` opens is open until the end of the file: the nesting
/// never falls back to what it was before that line.
pub open spec fn never_closed(lines: Seq<LineModel<Kind>>, i: int) -> bool {
    forall|j: int| i < j <= lines.len() ==> nesting(lines, i) < #[trigger] nesting(lines, j)
}

/// What is wrong with line `i`, if anything.
pub open spec fn warning_at(lines: Seq<LineModel<Kind>>, i: int) -> Option<Warning> {
    match lines[i].kind {
        Kind::Malformed => Some(Warning { line: i + 1, kind: WarningKind::MalformedLine }),
        Kind::SectionClose => if nesting(lines, i) == 0 {
            Some(Warning { line: i + 1, kind: WarningKind::StrayClosingBrace })
        } else {
            None
        },
        Kind::SectionOpen { name } => if never_closed(lines, i) {
            Some(Warning { line: i + 1, kind: WarningKind::UnclosedSection { name } })
        } else {
            None
        },
        _ => None,
    }
}

/// What is wrong with the first `n` lines, in the order of the lines.
pub open spec fn warnings_upto(lines: Seq<LineModel<Kind>>, n: int) -> Seq<Warning>
    decreases n,
{
    if n <= 0 {
        Seq::empty()
    } else {
        match warning_at(lines, n - 1) {
            Some(warning) => warnings_upto(lines, n - 1).push(warning),
            None => warnings_upto(lines, n - 1),
        }
    }
}

/// What is wrong with a file.
pub open spec fn warnings(lines: Seq<LineModel<Kind>>) -> Seq<Warning> {
    warnings_upto(lines, lines.len() as int)
}

/// Computes [`nesting`] for every number of lines from none to all.
fn nesting_levels(file: &Vec<Line<LineKind>>) -> (r: Vec<usize>)
    ensures
        r@.len() == file@.len() + 1,
        forall|i: int| 0 <= i <= file@.len() ==> #[trigger] r@[i] == nesting(lines::models(file@), i),
{
    let ghost all = lines::models(file@);
    let mut r: Vec<usize> = Vec::new();
    let mut depth: usize = 0;
    r.push(0);
    let mut i: usize = 0;
    assert(nesting(all, 0) == 0);
    while i < file.len()
        invariant
            i <= file.len(),
            all == lines::models(file@),
            r@.len() == i + 1,
            depth <= i,
            depth == nesting(all, i as int),
            forall|j: int| 0 <= j <= i ==> #[trigger] r@[j] == nesting(all, j),
        decreases file.len() - i,
    {
        assert(all.take(i + 1).drop_last() =~= all.take(i as int));
        assert(all.take(i + 1).last() == file@[i as int]@);
        match &file[i].kind {
            LineKind::SectionOpen { name } => {
                depth += 1;
            },
            LineKind::SectionClose => {
                if depth > 0 {
                    depth -= 1;
                }
            },
            _ => {},
        }
        i += 1;
        r.push(depth);
    }
    r
}

fn stays_open(levels: &Vec<usize>, i: usize) -> (r: bool)
    requires
        i < levels@.len(),
    ensures
        r == (forall|j: int| i < j < levels@.len() ==> levels@[i as int] < #[trigger] levels@[j]),
{
    let end: usize = levels.len();
    let mut j: usize = i + 1;
    while j < end
        invariant
            i < j <= end,
            end == levels@.len(),
            forall|k: int| i < k < j ==> levels@[i as int] < #[trigger] levels@[k],
        decreases end - j,
    {
        if levels[j] <= levels[i] {
            assert(!(levels@[i as int] < levels@[j as int]));
            return false;
        }
        j += 1;
    }
    true
}

fn collect_warnings(file: &Vec<Line<LineKind>>) -> (r: Vec<ParseWarning>)
    ensures
        warning_models(r@) == warnings(lines::models(file@)),
{
    let ghost all = lines::models(file@);
    let levels = nesting_levels(file);
    let mut r: Vec<ParseWarning> = Vec::new();
    let mut i: usize = 0;
    while i < file.len()
        invariant
            i <= file.len(),
            all == lines::models(file@),
            levels@.len() == file@.len() + 1,
            forall|j: int| 0 <= j <= file@.len() ==> #[trigger] levels@[j] == nesting(all, j),
            warning_models(r@) == warnings_upto(all, i as int),
        decreases file.len() - i,
    {
        let ghost before = warning_models(r@);
        assert(all[i as int] == file@[i as int]@);
        let number: usize = i + 1;
        match &file[i].kind {
            LineKind::Malformed => {
                r.push(ParseWarning { line: number, kind: ParseWarningKind::MalformedLine });
                assert(warning_models(r@) =~= before.push(r@.last()@));
            },
            LineKind::SectionClose => {
                if levels[i] == 0 {
                    r.push(
                        ParseWarning { line: number, kind: ParseWarningKind::StrayClosingBrace },
                    );
                    assert(warning_models(r@) =~= before.push(r@.last()@));
                }
            },
            LineKind::SectionOpen { name } => {
                let unclosed = stays_open(&levels, i);
                assert(unclosed == never_closed(all, i as int)) by {
                    assert(levels@[i as int] == nesting(all, i as int));
                    if unclosed {
                        assert forall|j: int| i < j <= all.len() implies nesting(all, i as int)
                            < #[trigger] nesting(all, j) by {
                            assert(levels@[j] == nesting(all, j));
                        }
                    } else {
                        let j = choose|j: int|
                            i < j < levels@.len() && !(levels@[i as int] < #[trigger] levels@[j]);
                        assert(levels@[j] == nesting(all, j));
                    }
                }
                if unclosed {
                    r.push(
                        ParseWarning {
                            line: number,
                            kind: ParseWarningKind::UnclosedSection { name: name.clone() },
                        },
                    );
                    assert(warning_models(r@) =~= before.push(r@.last()@));
                }
            },
            _ => {},
        }
        i += 1;
    }
    r
}

/// Whether line `i` is an assignment directly inside the sections `target`.
pub open spec fn is_child(lines: Seq<LineModel<Kind>>, target: Seq<Step>, i: int) -> bool {
    lines[i].kind is Entry && sections(lines.take(i)) == target
}

/// The assignments directly inside the sections `target`.
pub open spec fn children(lines: Seq<LineModel<Kind>>, target: Seq<Step>) -> spec_fn(int) -> bool {
    |i: int| is_child(lines, target, i)
}

/// The assignments that an address names.
pub open spec fn named(lines: Seq<LineModel<Kind>>, path: Address) -> spec_fn(int) -> bool {
    |i: int| is_child(lines, path.sections, i) && lines[i].kind->key == path.key
}

/// The lines that open the sections `target`.
pub open spec fn headers(lines: Seq<LineModel<Kind>>, target: Seq<Step>) -> spec_fn(int) -> bool {
    |i: int| lines[i].kind is SectionOpen && sections(lines.take(i + 1)) == target
}

/// The lines that close the innermost of the sections `target`.
pub open spec fn closers(lines: Seq<LineModel<Kind>>, target: Seq<Step>) -> spec_fn(int) -> bool {
    |i: int| lines[i].kind is SectionClose && sections(lines.take(i)) == target
}

/// Where the contents of the sections `target` end: at the closing brace of the innermost,
/// or at the end of the file for the top level and for a section that is never closed.
pub open spec fn end_of(lines: Seq<LineModel<Kind>>, target: Seq<Step>) -> int {
    if target.len() == 0 {
        lines.len() as int
    } else {
        match search::first_where(lines.len() as int, closers(lines, target)) {
            Some(i) => i,
            None => lines.len() as int,
        }
    }
}

/// Where a new assignment goes, and which lines it takes its layout from.
pub struct Plan {
    /// The index the new line gets.
    pub index: int,
    /// The last assignment in the same sections, if there is one.
    pub sibling: Option<int>,
    /// The header of the innermost section, unless the key is a top-level one.
    pub header: Option<int>,
}

/// What an address leads to.
pub enum Target {
    /// The assignment on this line.
    Entry(int),
    /// A place for a new assignment.
    Append(Plan),
    /// Nothing: there is no such section.
    Missing,
}

/// What an address leads to in a file: the first assignment that it names before the end of
/// its sections, else the end of its sections, where they exist.
pub open spec fn resolved(lines: Seq<LineModel<Kind>>, path: Address) -> Target {
    let end = end_of(lines, path.sections);
    match search::first_where(end, named(lines, path)) {
        Some(i) => Target::Entry(i),
        None => {
            let sibling = search::last_where(end, children(lines, path.sections));
            let header = search::first_where(end, headers(lines, path.sections));
            if path.sections.len() == 0 {
                Target::Append(Plan { index: end, sibling, header: None })
            } else if header is Some || end < lines.len() {
                Target::Append(Plan { index: end, sibling, header })
            } else {
                Target::Missing
            }
        },
    }
}

/// The value of an assignment.
pub open spec fn value_at(line: LineModel<Kind>) -> Seq<char> {
    line.raw.subrange(line.kind->value_start, line.kind->value_end)
}

/// The value that an address leads to, if there is one.
pub open spec fn value_of(lines: Seq<LineModel<Kind>>, path: Address) -> Option<Seq<char>> {
    match resolved(lines, path) {
        Target::Entry(i) => Some(value_at(lines[i])),
        _ => None,
    }
}

/// An assignment with its value replaced from `from` on.
pub open spec fn with_value(line: LineModel<Kind>, from: int, value: Seq<char>) -> LineModel<Kind> {
    match line.kind {
        Kind::Entry { key, key_start, value_start, value_end } => LineModel {
            raw: text::splice(line.raw, from, value_end, value),
            kind: Kind::Entry { key, key_start, value_start, value_end: from + value.len() },
        },
        _ => line,
    }
}

/// The indentation that a new assignment gets.
pub open spec fn indent_for(lines: Seq<LineModel<Kind>>, plan: Plan) -> Seq<char> {
    match plan.sibling {
        Some(i) => lines[i].raw.take(lines[i].kind->key_start),
        None => match plan.header {
            Some(i) => lines[i].raw.take(text::leading_space(lines[i].raw)) + "    "@,
            None => Seq::empty(),
        },
    }
}

/// The text between key and value that a new assignment gets.
pub open spec fn separator_for(lines: Seq<LineModel<Kind>>, plan: Plan) -> Seq<char> {
    match plan.sibling {
        Some(i) => lines[i].raw.subrange(
            lines[i].kind->key_start + lines[i].kind->Entry_key.len(),
            lines[i].kind->value_start,
        ),
        None => " = "@,
    }
}

/// A new assignment.
pub open spec fn new_entry(
    indent: Seq<char>,
    key: Seq<char>,
    separator: Seq<char>,
    value: Seq<char>,
    end: Seq<char>,
) -> LineModel<Kind> {
    let start = (indent + key + separator).len() as int;
    LineModel {
        raw: indent + key + separator + value + end,
        kind: Kind::Entry {
            key,
            key_start: indent.len() as int,
            value_start: start,
            value_end: start + value.len(),
        },
    }
}

/// A file with a new assignment.
pub open spec fn appended(
    lines: Seq<LineModel<Kind>>,
    key: Seq<char>,
    value: Seq<char>,
    plan: Plan,
) -> Seq<LineModel<Kind>> {
    let end = lines::terminator(lines);
    let line = new_entry(
        indent_for(lines, plan),
        key,
        separator_for(lines, plan),
        value,
        end,
    );
    if plan.index < lines.len() {
        lines.insert(plan.index, line)
    } else {
        lines::terminated(lines, end).push(line)
    }
}

/// Whether a value cannot be written: it would break its line, or begin a comment.
pub open spec fn is_unsafe(value: Seq<char>) -> bool {
    value.contains('\n') || value.contains('\r') || value.contains('#')
}

/// The first comma-separated field of a value.
pub open spec fn first_field(value: Seq<char>) -> Seq<char> {
    text::trim(value.take(text::find_char(value, ',')))
}

/// The top-level assignments to `key` whose first field is `field`.
pub open spec fn repeated(
    lines: Seq<LineModel<Kind>>,
    key: Seq<char>,
    field: Seq<char>,
) -> spec_fn(int) -> bool {
    |i: int|
        is_child(lines, Seq::empty(), i) && lines[i].kind->key == key && first_field(
            value_at(lines[i]),
        ) == field
}

/// The first of them.
pub open spec fn repeated_at(
    lines: Seq<LineModel<Kind>>,
    key: Seq<char>,
    field: Seq<char>,
) -> Option<int> {
    search::first_where(lines.len() as int, repeated(lines, key, field))
}

/// Where in a value the portion after its first comma begins, white space skipped.
pub open spec fn portion_start(value: Seq<char>) -> int {
    let after = text::find_char(value, ',') + 1;
    after + text::leading_space(value.skip(after))
}

/// The portion of a value after its first comma, if it has one.
pub open spec fn portion_of(value: Seq<char>) -> Option<Seq<char>> {
    if value.contains(',') {
        Some(value.skip(portion_start(value)))
    } else {
        None
    }
}

/// The portion after the first comma of the first top-level assignment to `key` whose first field
/// is `field`, if there is one.
pub open spec fn field_of(
    lines: Seq<LineModel<Kind>>,
    key: Seq<char>,
    field: Seq<char>,
) -> Option<Seq<char>> {
    match repeated_at(lines, key, field) {
        Some(i) => portion_of(value_at(lines[i])),
        None => None,
    }
}

/// Whether the value at an address can be set.
pub open spec fn accepts(lines: Seq<LineModel<Kind>>, path: Address, value: Seq<char>) -> bool {
    !is_unsafe(value) && !(resolved(lines, path) is Missing)
}

/// A file after setting the value at an address, as it was where that cannot be done.
pub open spec fn after_set(
    lines: Seq<LineModel<Kind>>,
    path: Address,
    value: Seq<char>,
) -> Seq<LineModel<Kind>> {
    if !accepts(lines, path, value) {
        lines
    } else {
        match resolved(lines, path) {
            Target::Entry(i) => lines.update(
                i,
                with_value(lines[i], lines[i].kind->value_start, value),
            ),
            Target::Append(plan) => appended(lines, path.key, value, plan),
            Target::Missing => lines,
        }
    }
}

/// Whether the portion after the first field of a repeatable key can be set.
pub open spec fn accepts_field(
    lines: Seq<LineModel<Kind>>,
    key: Seq<char>,
    field: Seq<char>,
    value: Seq<char>,
) -> bool {
    &&& !is_unsafe(value)
    &&& repeated_at(lines, key, field) matches Some(i) && value_at(lines[i]).contains(',')
}

/// A file after setting the portion after the first field of a repeatable key, as it was where
/// that cannot be done.
pub open spec fn after_set_field(
    lines: Seq<LineModel<Kind>>,
    key: Seq<char>,
    field: Seq<char>,
    value: Seq<char>,
) -> Seq<LineModel<Kind>> {
    match repeated_at(lines, key, field) {
        Some(i) => if accepts_field(lines, key, field, value) {
            lines.update(
                i,
                with_value(
                    lines[i],
                    lines[i].kind->value_start + portion_start(value_at(lines[i])),
                    value,
                ),
            )
        } else {
            lines
        },
        None => lines,
    }
}

/// A failed edit. The file is as it was.
#[derive(Clone, Debug, PartialEq, Eq)]
pub enum EditError {
    /// There is no such section; the address is given as it is written.
    SectionNotFound(String),
    /// There is no top-level assignment to `key` with that first field.
    RepeatableKeyNotFound {
        /// The key.
        key: String,
        /// The first field.
        field: String,
    },
    /// The assignment has no comma, so nothing stands after its first field.
    NoValuePortion {
        /// The key.
        key: String,
        /// The first field.
        field: String,
    },
    /// The value would break its line, or begin a comment.
    InvalidValue(String),
}

/// How a failed edit is put into words.
pub open spec fn error_text(error: EditError) -> Seq<char> {
    match error {
        EditError::SectionNotFound(path) => "no section for `"@ + path@
            + "` to edit or append into"@,
        EditError::RepeatableKeyNotFound { key, field } => "no `"@ + key@
            + "` entry whose first field is `"@ + field@ + "` to edit"@,
        EditError::NoValuePortion { key, field } => "the `"@ + key@ + "` entry with first field `"@
            + field@ + "` has no comma, so no value portion to edit"@,
        EditError::InvalidValue(value) => "`"@ + value@
            + "` contains a newline or `#`, which would break hyprlang parsing"@,
    }
}

impl EditError {
    /// Puts the failure into words.
    pub fn to_string(&self) -> (r: String)
        ensures
            r@ == error_text(*self),
    {
        match self {
            EditError::SectionNotFound(path) => {
                let mut r = "no section for `".to_owned();
                r.append(path.as_str());
                r.append("` to edit or append into");
                r
            },
            EditError::RepeatableKeyNotFound { key, field } => {
                let mut r = "no `".to_owned();
                r.append(key.as_str());
                r.append("` entry whose first field is `");
                r.append(field.as_str());
                r.append("` to edit");
                r
            },
            EditError::NoValuePortion { key, field } => {
                let mut r = "the `".to_owned();
                r.append(key.as_str());
                r.append("` entry with first field `");
                r.append(field.as_str());
                r.append("` has no comma, so no value portion to edit");
                r
            },
            EditError::InvalidValue(value) => {
                let mut r = "`".to_owned();
                r.append(value.as_str());
                r.append("` contains a newline or `#`, which would break hyprlang parsing");
                r
            },
        }
    }
}

/// Where a new assignment goes: see [`Plan`].
struct AppendPlan {
    index: usize,
    sibling: Option<usize>,
    header: Option<usize>,
}

impl AppendPlan {
    spec fn model(self) -> Plan {
        Plan {
            index: self.index as int,
            sibling: match self.sibling {
                Some(i) => Some(i as int),
                None => None,
            },
            header: match self.header {
                Some(i) => Some(i as int),
                None => None,
            },
        }
    }
}

/// What an address leads to: see [`Target`].
enum Resolution {
    Entry(usize),
    Append(AppendPlan),
    SectionMissing,
}

impl Resolution {
    spec fn model(self) -> Target {
        match self {
            Resolution::Entry(i) => Target::Entry(i as int),
            Resolution::Append(plan) => Target::Append(plan.model()),
            Resolution::SectionMissing => Target::Missing,
        }
    }
}

spec fn optional(i: Option<usize>) -> Option<int> {
    match i {
        Some(i) => Some(i as int),
        None => None,
    }
}

fn unsafe_value(value: &str) -> (r: bool)
    ensures
        r == is_unsafe(value@),
{
    let cs = chars(value);
    has_char(cs.as_slice(), '\n') || has_char(cs.as_slice(), '\r') || has_char(cs.as_slice(), '#')
}

fn leading_field(value: &str) -> (r: String)
    ensures
        r@ == first_field(value@),
{
    let cs = chars(value);
    let n: usize = cs.len();
    let end: usize = match index_of(cs.as_slice(), ',') {
        Some(comma) => comma,
        None => n,
    };
    let field = slice_subrange(cs.as_slice(), 0, end);
    assert(field@ =~= value@.take(end as int));
    text::text(trimmed(field))
}

fn portion_from(value: &str) -> (r: Option<usize>)
    ensures
        match r {
            Some(start) => value@.contains(',') && start == portion_start(value@) && start
                <= value@.len(),
            None => !value@.contains(','),
        },
{
    let cs = chars(value);
    let n: usize = cs.len();
    proof {
        text::lemma_find_char(value@, ',');
    }
    match index_of(cs.as_slice(), ',') {
        Some(comma) => {
            let after = slice_subrange(cs.as_slice(), comma + 1, n);
            assert(after@ =~= value@.skip(comma + 1));
            assert(value@[comma as int] == ',');
            Some(comma + 1 + count_leading_space(after))
        },
        None => None,
    }
}

/// A hyprlang file.
#[derive(Debug)]
pub struct HyprlangFile {
    lines: Vec<Line<LineKind>>,
}

impl View for HyprlangFile {
    type V = Seq<LineModel<Kind>>;

    closed spec fn view(&self) -> Seq<LineModel<Kind>> {
        lines::models(self.lines@)
    }
}

impl Clone for HyprlangFile {
    fn clone(&self) -> (r: Self)
        ensures
            r@ == self@,
    {
        proof {
            use_type_invariant(self);
        }
        let lines = lines::copy_lines(&self.lines);
        assert forall|i: int| 0 <= i < lines@.len() implies spans_fit(#[trigger] lines@[i]@) by {
            assert(spans_fit(self.lines@[i]@));
        }
        HyprlangFile { lines }
    }
}

impl HyprlangFile {
    #[verifier::type_invariant]
    spec fn well_formed(&self) -> bool {
        forall|i: int| 0 <= i < self.lines@.len() ==> spans_fit(#[trigger] self.lines@[i]@)
    }

    /// Reads a file. Every text is one; what is wrong with it comes as warnings.
    pub fn parse(input: &str) -> (r: (Self, Vec<ParseWarning>))
        ensures
            r.0@ == parsed(input@),
            warning_models(r.1@) == warnings(parsed(input@)),
    {
        let raws = lines_of(input);
        let ghost all = text::split_lines(input@);
        let mut file: Vec<Line<LineKind>> = Vec::new();
        let mut i: usize = 0;
        while i < raws.len()
            invariant
                i <= raws.len(),
                all == text::split_lines(input@),
                all == text::views(raws@),
                lines::models(file@) == parsed(input@).take(i as int),
                forall|j: int| 0 <= j < file@.len() ==> spans_fit(#[trigger] file@[j]@),
            decreases raws.len() - i,
        {
            let raw = &raws[i];
            let line = Line { raw: raw.clone(), kind: classify_line(raw.as_str()) };
            proof {
                lemma_classify_fits(raw@);
                assert(all[i as int] == raw@);
                assert(parsed(input@)[i as int] == line@);
            }
            let ghost before = lines::models(file@);
            file.push(line);
            assert(lines::models(file@) =~= before.push(line@));
            assert(parsed(input@).take(i + 1) =~= parsed(input@).take(i as int).push(line@));
            i += 1;
        }
        assert(parsed(input@).take(all.len() as int) =~= parsed(input@));
        let found = collect_warnings(&file);
        (HyprlangFile { lines: file }, found)
    }

    /// Writes the file back.
    pub fn emit(&self) -> (r: String)
        ensures
            r@ == lines::emitted(self@),
    {
        lines::emit_lines(&self.lines)
    }

    /// The value that an address leads to, if there is one.
    pub fn value(&self, path: &KeyPath) -> (r: Option<&str>)
        ensures
            match r {
                Some(value) => value_of(self@, path@) == Some(value@),
                None => value_of(self@, path@) is None,
            },
    {
        match self.resolve_path(path) {
            Resolution::Entry(i) => self.entry_value(i),
            Resolution::Append(_) => None,
            Resolution::SectionMissing => None,
        }
    }

    fn entry_value(&self, index: usize) -> (r: Option<&str>)
        requires
            index < self@.len(),
        ensures
            match r {
                Some(value) => self@[index as int].kind is Entry && value@ == value_at(
                    self@[index as int],
                ),
                None => !(self@[index as int].kind is Entry),
            },
    {
        proof {
            use_type_invariant(&*self);
            assert(spans_fit(self.lines@[index as int]@));
        }
        let line = &self.lines[index];
        match &line.kind {
            LineKind::Entry { key, key_start, value_start, value_end } => Some(
                line.raw.as_str().substring_char(*value_start, *value_end),
            ),
            _ => None,
        }
    }

    fn resolve_path(&self, path: &KeyPath) -> (r: Resolution)
        ensures
            r.model() == resolved(self@, path@),
            match r {
                Resolution::Entry(i) => i < self@.len() && self@[i as int].kind is Entry,
                Resolution::Append(plan) => {
                    &&& plan.index <= self@.len()
                    &&& plan.sibling matches Some(i) ==> i < self@.len()
                        && self@[i as int].kind is Entry
                    &&& plan.header matches Some(i) ==> i < self@.len()
                },
                Resolution::SectionMissing => true,
            },
    {
        let target = path.sections.as_slice();
        let top_level = target.len() == 0;
        let ghost all = self@;
        let ghost n = self@.len() as int;
        let ghost sections_of = steps(target@);
        let ghost address = path@;
        assert(address.sections == sections_of);
        let mut walk = Walk::start();
        let mut sibling: Option<usize> = None;
        let mut header: Option<usize> = None;
        let mut i: usize = 0;
        assert(all.take(0) =~= Seq::empty());
        while i < self.lines.len()
            invariant
                i <= self.lines.len(),
                all == lines::models(self.lines@),
                n == all.len(),
                target@ == path.sections@,
                top_level == (target@.len() == 0),
                address == path@,
                sections_of == steps(target@),
                address.sections == sections_of,
                walk.stands_after(all.take(i as int)),
                optional(sibling) == search::last_where(i as int, children(all, sections_of)),
                sibling matches Some(k) ==> k < i && all[k as int].kind is Entry,
                top_level ==> header is None,
                !top_level ==> optional(header) == search::first_where(
                    i as int,
                    headers(all, sections_of),
                ),
                header matches Some(k) ==> k < i,
                forall|j: int| 0 <= j < i ==> !#[trigger] named(all, address)(j),
                !top_level ==> forall|j: int|
                    0 <= j < i ==> !#[trigger] closers(all, sections_of)(j),
            decreases self.lines.len() - i,
        {
            let ghost done = all.take(i as int);
            let ghost next = all.take(i + 1);
            assert(next.drop_last() =~= done);
            assert(next.last() == all[i as int]);
            assert(all[i as int] == self.lines@[i as int]@);
            let here = walk.stands_in(target, Ghost(done));
            match &self.lines[i].kind {
                LineKind::SectionOpen { name } => {
                    walk.open(name, Ghost(next));
                    if !top_level {
                        let opens = walk.stands_in(target, Ghost(next));
                        if opens && header.is_none() {
                            header = Some(i);
                        }
                    }
                },
                LineKind::SectionClose => {
                    if !top_level && here {
                        proof {
                            assert(closers(all, sections_of)(i as int));
                            search::lemma_first_where_is(n, closers(all, sections_of), i as int);
                            search::lemma_first_where(i as int, named(all, address));
                        }
                        return Resolution::Append(AppendPlan { index: i, sibling, header });
                    }
                    walk.close(Ghost(next));
                },
                LineKind::Entry { key, key_start, value_start, value_end } => {
                    if here {
                        if *key == path.key {
                            proof {
                                self.lemma_entry_before_end(address, i as int);
                            }
                            return Resolution::Entry(i);
                        }
                        sibling = Some(i);
                    }
                    walk.pass(Ghost(next));
                },
                _ => {
                    walk.pass(Ghost(next));
                },
            }
            i += 1;
        }
        proof {
            search::lemma_first_where(n, named(all, address));
            search::lemma_first_where(n, closers(all, sections_of));
        }
        if top_level || header.is_some() {
            Resolution::Append(AppendPlan { index: i, sibling, header })
        } else {
            Resolution::SectionMissing
        }
    }

    /// Sets the value that an address leads to, or adds an assignment where there is none.
    pub fn set_value(&mut self, path: &KeyPath, value: &str) -> (r: Result<(), EditError>)
        ensures
            r is Ok <==> accepts(old(self)@, path@, value@),
            final(self)@ == after_set(old(self)@, path@, value@),
            is_unsafe(value@) ==> {
                &&& r matches Err(EditError::InvalidValue(s)) && s@ == value@
                &&& final(self)@ == old(self)@
            },
            !is_unsafe(value@) ==> match resolved(old(self)@, path@) {
                Target::Entry(i) => {
                    &&& r is Ok
                    &&& final(self)@ == old(self)@.update(
                        i,
                        with_value(old(self)@[i], old(self)@[i].kind->value_start, value@),
                    )
                },
                Target::Append(plan) => {
                    &&& r is Ok
                    &&& final(self)@ == appended(old(self)@, path@.key, value@, plan)
                },
                Target::Missing => {
                    &&& r matches Err(EditError::SectionNotFound(s)) && s@ == address_text(path@)
                    &&& final(self)@ == old(self)@
                },
            },
    {
        if unsafe_value(value) {
            return Err(EditError::InvalidValue(value.to_owned()));
        }
        match self.resolve_path(path) {
            Resolution::Entry(i) => {
                self.replace_value(i, value);
                Ok(())
            },
            Resolution::Append(plan) => {
                self.append_entry(path.key.as_str(), value, &plan);
                Ok(())
            },
            Resolution::SectionMissing => Err(EditError::SectionNotFound(path.to_string())),
        }
    }

    fn replace_value(&mut self, index: usize, value: &str)
        requires
            index < old(self)@.len(),
            old(self)@[index as int].kind is Entry,
        ensures
            final(self)@ == old(self)@.update(
                index as int,
                with_value(
                    old(self)@[index as int],
                    old(self)@[index as int].kind->value_start,
                    value@,
                ),
            ),
    {
        proof {
            use_type_invariant(&*self);
            assert(spans_fit(self.lines@[index as int]@));
        }
        if let LineKind::Entry { key: _, key_start: _, value_start, value_end: _ } =
            &self.lines[index].kind {
            let from: usize = *value_start;
            self.replace_from(index, from, value);
        }
    }

    fn replace_from(&mut self, index: usize, from: usize, value: &str)
        requires
            index < old(self)@.len(),
            old(self)@[index as int].kind is Entry,
            old(self)@[index as int].kind->value_start <= from
                <= old(self)@[index as int].kind->value_end,
        ensures
            final(self)@ == old(self)@.update(
                index as int,
                with_value(old(self)@[index as int], from as int, value@),
            ),
    {
        proof {
            use_type_invariant(&*self);
            assert(spans_fit(self.lines@[index as int]@));
        }
        let ghost before = self@;
        let line = &self.lines[index];
        if let LineKind::Entry { key, key_start, value_start, value_end } = &line.kind {
            let raw = text::spliced(line.raw.as_str(), from, *value_end, value);
            let rest: usize = line.raw.as_str().unicode_len() - *value_end;
            let end: usize = raw.as_str().unicode_len() - rest;
            let edited = Line {
                raw,
                kind: LineKind::Entry {
                    key: key.clone(),
                    key_start: *key_start,
                    value_start: *value_start,
                    value_end: end,
                },
            };
            assert(edited@ == with_value(before[index as int], from as int, value@));
            let mut file = self.take_lines();
            file.set(index, edited);
            assert(lines::models(file@) =~= before.update(index as int, edited@));
            self.lines = file;
        }
    }

    fn append_entry(&mut self, key: &str, value: &str, plan: &AppendPlan)
        requires
            plan.index <= old(self)@.len(),
            plan.sibling matches Some(i) ==> i < old(self)@.len()
                && old(self)@[i as int].kind is Entry,
            plan.header matches Some(i) ==> i < old(self)@.len(),
        ensures
            final(self)@ == appended(old(self)@, key@, value@, plan.model()),
    {
        let ghost before = self@;
        let ghost model = plan.model();
        let (indent, separator) = self.layout_for(plan);
        let end = lines::line_terminator(&self.lines);
        let key_start: usize = indent.as_str().unicode_len();
        let mut raw = indent;
        raw.append(key);
        raw.append(separator.as_str());
        let value_start: usize = raw.as_str().unicode_len();
        raw.append(value);
        let value_end: usize = raw.as_str().unicode_len();
        raw.append(end);
        let line = Line {
            raw,
            kind: LineKind::Entry { key: key.to_owned(), key_start, value_start, value_end },
        };
        assert(line@ == new_entry(
            indent_for(before, model),
            key@,
            separator_for(before, model),
            value@,
            lines::terminator(before),
        ));
        proof {
            use_type_invariant(&*self);
        }
        let ghost fitting = self.lines@;
        let mut file = self.take_lines();
        if plan.index < file.len() {
            file.insert(plan.index, line);
            assert(lines::models(file@) =~= before.insert(plan.index as int, line@));
        } else {
            lines::terminate(&mut file, end);
            let ghost ended = lines::models(file@);
            assert(ended.len() == fitting.len());
            assert forall|i: int| 0 <= i < file@.len() implies spans_fit(#[trigger] file@[i]@) by {
                assert(ended[i] == file@[i]@);
                assert(spans_fit(fitting[i]@));
            }
            file.push(line);
            assert(lines::models(file@) =~= ended.push(line@));
        }
        self.lines = file;
    }

    fn take_lines(&mut self) -> (r: Vec<Line<LineKind>>)
        ensures
            r == old(self).lines,
    {
        let mut r: Vec<Line<LineKind>> = Vec::new();
        core::mem::swap(&mut self.lines, &mut r);
        r
    }

    fn layout_for(&self, plan: &AppendPlan) -> (r: (String, String))
        requires
            plan.sibling matches Some(i) ==> i < self@.len() && self@[i as int].kind is Entry,
            plan.header matches Some(i) ==> i < self@.len(),
        ensures
            r.0@ == indent_for(self@, plan.model()),
            r.1@ == separator_for(self@, plan.model()),
    {
        proof {
            use_type_invariant(&*self);
        }
        if let Some(i) = plan.sibling {
            assert(spans_fit(self.lines@[i as int]@));
            let line = &self.lines[i];
            if let LineKind::Entry { key, key_start, value_start, value_end } = &line.kind {
                let raw = line.raw.as_str();
                let key_end: usize = *key_start + key.as_str().unicode_len();
                let indent = raw.substring_char(0, *key_start).to_owned();
                let separator = raw.substring_char(key_end, *value_start).to_owned();
                assert(indent@ =~= self@[i as int].raw.take(*key_start as int));
                return (indent, separator);
            }
        }
        match plan.header {
            Some(i) => {
                let raw = self.lines[i].raw.as_str();
                let cs = chars(raw);
                let n: usize = count_leading_space(cs.as_slice());
                let mut indent = raw.substring_char(0, n).to_owned();
                assert(indent@ =~= self@[i as int].raw.take(n as int));
                indent.append("    ");
                (indent, " = ".to_owned())
            },
            None => (String::new(), " = ".to_owned()),
        }
    }

    /// The portion after the first comma of the first top-level assignment to `key` whose
    /// first field is `first_field`, if there is such a portion.
    pub fn repeatable_field_value(&self, key: &str, first_field: &str) -> (r: Option<&str>)
        ensures
            match field_of(self@, key@, first_field@) {
                Some(portion) => r matches Some(s) && s@ == portion,
                None => r is None,
            },
    {
        proof {
            use_type_invariant(&*self);
        }
        let i: usize = match self.find_repeatable(key, first_field) {
            Some(i) => i,
            None => {
                return None;
            },
        };
        assert(spans_fit(self.lines@[i as int]@));
        let line = &self.lines[i];
        if let LineKind::Entry { key: _, key_start: _, value_start, value_end } = &line.kind {
            let value = line.raw.as_str().substring_char(*value_start, *value_end);
            match portion_from(value) {
                Some(start) => {
                    let n: usize = value.unicode_len();
                    let portion = value.substring_char(start, n);
                    assert(portion@ =~= value@.skip(start as int));
                    Some(portion)
                },
                None => None,
            }
        } else {
            None
        }
    }

    /// Replaces the portion after the first comma of the first top-level assignment to `key`
    /// whose first field is `first_field`.
    pub fn set_repeatable_field_value(
        &mut self,
        key: &str,
        first_field: &str,
        value: &str,
    ) -> (r: Result<(), EditError>)
        ensures
            r is Ok <==> accepts_field(old(self)@, key@, first_field@, value@),
            final(self)@ == after_set_field(old(self)@, key@, first_field@, value@),
            is_unsafe(value@) ==> {
                &&& r matches Err(EditError::InvalidValue(s)) && s@ == value@
                &&& final(self)@ == old(self)@
            },
            !is_unsafe(value@) ==> match repeated_at(old(self)@, key@, first_field@) {
                Some(i) => if value_at(old(self)@[i]).contains(',') {
                    &&& r is Ok
                    &&& final(self)@ == old(self)@.update(
                        i,
                        with_value(
                            old(self)@[i],
                            old(self)@[i].kind->value_start + portion_start(
                                value_at(old(self)@[i]),
                            ),
                            value@,
                        ),
                    )
                } else {
                    &&& r matches Err(EditError::NoValuePortion { key: k, field: f }) && k@ == key@
                        && f@ == first_field@
                    &&& final(self)@ == old(self)@
                },
                None => {
                    &&& r matches Err(EditError::RepeatableKeyNotFound { key: k, field: f })
                        && k@ == key@ && f@ == first_field@
                    &&& final(self)@ == old(self)@
                },
            },
    {
        if unsafe_value(value) {
            return Err(EditError::InvalidValue(value.to_owned()));
        }
        let i: usize = match self.find_repeatable(key, first_field) {
            Some(i) => i,
            None => {
                return Err(
                    EditError::RepeatableKeyNotFound {
                        key: key.to_owned(),
                        field: first_field.to_owned(),
                    },
                );
            },
        };
        proof {
            use_type_invariant(&*self);
            assert(spans_fit(self.lines@[i as int]@));
        }
        let line = &self.lines[i];
        if let LineKind::Entry { key: _, key_start: _, value_start, value_end } = &line.kind {
            let current = line.raw.as_str().substring_char(*value_start, *value_end);
            if let Some(start) = portion_from(current) {
                let from: usize = *value_start + start;
                self.replace_from(i, from, value);
                return Ok(());
            }
        }
        Err(EditError::NoValuePortion { key: key.to_owned(), field: first_field.to_owned() })
    }

    /// Whether the file has an entry of a repeated key outside every section whose value begins
    /// with the given field.
    pub fn has_repeatable(&self, key: &str, first_field: &str) -> (r: bool)
        ensures
            r == (repeated_at(self@, key@, first_field@) is Some),
    {
        self.find_repeatable(key, first_field).is_some()
    }

    fn find_repeatable(&self, key: &str, first_field: &str) -> (r: Option<usize>)
        ensures
            optional(r) == repeated_at(self@, key@, first_field@),
            r matches Some(i) ==> i < self@.len() && self@[i as int].kind is Entry,
    {
        let ghost all = self@;
        let ghost wanted = repeated(all, key@, first_field@);
        proof {
            use_type_invariant(&*self);
        }
        let levels = nesting_levels(&self.lines);
        let mut i: usize = 0;
        while i < self.lines.len()
            invariant
                i <= self.lines.len(),
                all == lines::models(self.lines@),
                wanted == repeated(all, key@, first_field@),
                levels@.len() == self.lines@.len() + 1,
                forall|j: int| 0 <= j <= self.lines@.len() ==> #[trigger] levels@[j] == nesting(all, j),
                forall|j: int| 0 <= j < self.lines@.len() ==> spans_fit(#[trigger] self.lines@[j]@),
                forall|j: int| 0 <= j < i ==> !#[trigger] wanted(j),
            decreases self.lines.len() - i,
        {
            let line = &self.lines[i];
            let level: usize = levels[i];
            assert(all[i as int] == line@);
            assert(spans_fit(self.lines@[i as int]@));
            assert(level == nesting(all, i as int));
            assert(level == 0 <==> sections(all.take(i as int)) =~= Seq::empty());
            if let LineKind::Entry { key: entry_key, key_start: _, value_start, value_end } =
                &line.kind {
                let value = line.raw.as_str().substring_char(*value_start, *value_end);
                if level == 0 && text::same_text(entry_key.as_str(), key) && text::same_text(
                    leading_field(value).as_str(),
                    first_field,
                ) {
                    proof {
                        search::lemma_first_where_is(all.len() as int, wanted, i as int);
                    }
                    return Some(i);
                }
            }
            i += 1;
        }
        proof {
            search::lemma_first_where(all.len() as int, wanted);
        }
        None
    }

    /// How many sections named `name` stand directly inside `parent`.
    pub fn section_count(&self, parent: &[SectionStep], name: &str) -> (r: usize)
        ensures
            r == opened(self@, steps(parent@), name@),
    {
        let ghost all = self@;
        let mut walk = Walk::start();
        let mut count: usize = 0;
        let mut i: usize = 0;
        assert(all.take(0) =~= Seq::empty());
        while i < self.lines.len()
            invariant
                i <= self.lines.len(),
                all == lines::models(self.lines@),
                walk.stands_after(all.take(i as int)),
                count <= i,
                count == opened(all.take(i as int), steps(parent@), name@),
            decreases self.lines.len() - i,
        {
            let ghost done = all.take(i as int);
            let ghost next = all.take(i + 1);
            assert(next.drop_last() =~= done);
            assert(next.last() == self.lines@[i as int]@);
            match &self.lines[i].kind {
                LineKind::SectionOpen { name: section_name } => {
                    let inside = walk.stands_in(parent, Ghost(done));
                    if inside && text::same_text(section_name.as_str(), name) {
                        count += 1;
                    }
                    walk.open(section_name, Ghost(next));
                },
                LineKind::SectionClose => {
                    walk.close(Ghost(next));
                },
                _ => {
                    walk.pass(Ghost(next));
                },
            }
            i += 1;
        }
        assert(all.take(all.len() as int) =~= all);
        count
    }

    proof fn lemma_entry_before_end(&self, path: Address, i: int)
        requires
            0 <= i < self@.len(),
            named(self@, path)(i),
            forall|j: int| 0 <= j < i ==> !#[trigger] named(self@, path)(j),
            path.sections.len() > 0 ==> forall|j: int|
                0 <= j < i ==> !#[trigger] closers(self@, path.sections)(j),
        ensures
            resolved(self@, path) == Target::Entry(i),
    {
        let end = end_of(self@, path.sections);
        if path.sections.len() > 0 {
            search::lemma_first_where(self@.len() as int, closers(self@, path.sections));
            assert(!closers(self@, path.sections)(i));
        }
        search::lemma_first_where_is(end, named(self@, path), i);
    }
}

} // verus!
