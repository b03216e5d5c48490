//! The color palette: which schemes there are, which one is in use, and which one to switch
//! to.
//!
//! A scheme is a file of colors under `colors/`. Switching writes no file: the palette
//! generator does that.

use crate::apply::PaletteSwitch;
use crate::disk;
use crate::disk::Files;
use crate::parsers::generated;
use crate::parsers::generated::{read_active_scheme, read_scheme_swatch, Color, SwatchColor};
use crate::parsers::palette;
use crate::parsers::palette::is_bare_hex;
use crate::search;
use crate::text;
use crate::text::chars;
use crate::theme::discovery;
use crate::theme::discovery::comes_before;
use vstd::prelude::*;

verus! {

/// The number that a hexadecimal digit stands for.
pub open spec fn hex_value(c: char) -> int {
    let n = c as int;
    if n <= 0x39 {
        n - 0x30
    } else if n <= 0x46 {
        n - 0x41 + 10
    } else {
        n - 0x61 + 10
    }
}

/// The channel that two hexadecimal digits of a color give.
pub open spec fn channel(hex: Seq<char>, at: int) -> int {
    hex_value(hex[at]) * 16 + hex_value(hex[at + 1])
}

/// The red, green and blue of a color, each from 0 to 255; nothing where the value is not six
/// hexadecimal digits.
pub open spec fn rgb_of(hex: Seq<char>) -> Option<(int, int, int)> {
    if palette::is_color(hex) {
        Some((channel(hex, 0), channel(hex, 2), channel(hex, 4)))
    } else {
        None
    }
}

fn digit_of(c: char) -> (r: u8)
    requires
        text::is_hex_digit(c),
    ensures
        r == hex_value(c),
        r < 16,
{
    let n: u32 = c as u32;
    if n <= 0x39 {
        (n - 0x30) as u8
    } else if n <= 0x46 {
        (n - 0x41 + 10) as u8
    } else {
        (n - 0x61 + 10) as u8
    }
}

/// Computes [`rgb_of`].
pub fn parse_hex_rgb(hex: &str) -> (r: Option<(u8, u8, u8)>)
    ensures
        match r {
            Some(rgb) => rgb_of(hex@) == Some((rgb.0 as int, rgb.1 as int, rgb.2 as int)),
            None => rgb_of(hex@) is None,
        },
{
    if !is_bare_hex(hex) {
        return None;
    }
    let cs = chars(hex);
    assert(text::is_hex_digit(cs@[0]) && text::is_hex_digit(cs@[1]) && text::is_hex_digit(cs@[2])
        && text::is_hex_digit(cs@[3]) && text::is_hex_digit(cs@[4]) && text::is_hex_digit(cs@[5]));
    Some(
        (
            digit_of(cs[0]) * 16 + digit_of(cs[1]),
            digit_of(cs[2]) * 16 + digit_of(cs[3]),
            digit_of(cs[4]) * 16 + digit_of(cs[5]),
        ),
    )
}

/// A scheme that can be switched to.
#[derive(Debug, PartialEq)]
pub struct Scheme {
    name: String,
    preview: Vec<(u8, u8, u8)>,
}

/// The mathematical counterpart of [`Scheme`].
pub struct SchemeModel {
    /// The scheme's name.
    pub name: Seq<char>,
    /// Its colors, as far as they are well-formed: red, green and blue from 0 to 255.
    pub preview: Seq<(int, int, int)>,
}

/// Colors of bytes as colors of numbers.
pub open spec fn rgb_models(colors: Seq<(u8, u8, u8)>) -> Seq<(int, int, int)> {
    colors.map_values(|rgb: (u8, u8, u8)| (rgb.0 as int, rgb.1 as int, rgb.2 as int))
}

impl View for Scheme {
    type V = SchemeModel;

    closed spec fn view(&self) -> SchemeModel {
        SchemeModel { name: self.name@, preview: rgb_models(self.preview@) }
    }
}

fn copy_colors(colors: &Vec<(u8, u8, u8)>) -> (r: Vec<(u8, u8, u8)>)
    ensures
        r@ == colors@,
{
    let mut r: Vec<(u8, u8, u8)> = Vec::new();
    let mut i: usize = 0;
    while i < colors.len()
        invariant
            i <= colors.len(),
            r@ == colors@.take(i as int),
        decreases colors.len() - i,
    {
        r.push(colors[i]);
        assert(colors@.take(i + 1) =~= colors@.take(i as int).push(colors@[i as int]));
        i += 1;
    }
    assert(colors@.take(colors@.len() as int) =~= colors@);
    r
}

impl Clone for Scheme {
    fn clone(&self) -> (r: Self)
        ensures
            r@ == self@,
    {
        Scheme { name: self.name.clone(), preview: copy_colors(&self.preview) }
    }
}

/// The models of the given schemes.
pub open spec fn scheme_models(schemes: Seq<Scheme>) -> Seq<SchemeModel> {
    schemes.map_values(|scheme: Scheme| scheme@)
}

impl Scheme {
    /// The scheme's name, which is that of its file.
    pub fn name(&self) -> (r: &str)
        ensures
            r@ == self@.name,
    {
        self.name.as_str()
    }

    /// The scheme's colors in the order of the palette: red, green and blue from 0 to 255. A
    /// value that is no color is left out.
    pub fn preview(&self) -> (r: &[(u8, u8, u8)])
        ensures
            rgb_models(r@) == self@.preview,
    {
        self.preview.as_slice()
    }
}

/// An entry of the directory that holds the schemes.
#[derive(Debug)]
pub struct ColorsEntry {
    /// The entry's name.
    pub name: String,
    /// Where the entry is.
    pub path: String,
    /// Whether it is a regular file, links followed.
    pub is_file: bool,
}

/// The mathematical counterpart of [`ColorsEntry`].
pub struct Candidate {
    /// The entry's name.
    pub name: Seq<char>,
    /// Where the entry is.
    pub path: Seq<char>,
    /// Whether it is a regular file, links followed.
    pub is_file: bool,
}

impl View for ColorsEntry {
    type V = Candidate;

    open spec fn view(&self) -> Candidate {
        Candidate { name: self.name@, path: self.path@, is_file: self.is_file }
    }
}

/// The models of the given entries.
pub open spec fn candidates(entries: Seq<ColorsEntry>) -> Seq<Candidate> {
    entries.map_values(|entry: ColorsEntry| entry@)
}

/// The well-formed ones among the first `n` colors.
pub open spec fn preview_upto(colors: Seq<Color>, n: int) -> Seq<(int, int, int)>
    decreases n,
{
    if n <= 0 {
        Seq::empty()
    } else {
        match rgb_of(colors[n - 1].value) {
            Some(rgb) => preview_upto(colors, n - 1).push(rgb),
            None => preview_upto(colors, n - 1),
        }
    }
}

/// The well-formed ones among the given colors.
pub open spec fn preview_of(colors: Seq<Color>) -> Seq<(int, int, int)> {
    preview_upto(colors, colors.len() as int)
}

/// The scheme that an entry is, if it is one: a regular file that is not hidden, can be read
/// and defines the keys of a palette.
pub open spec fn scheme_of(entry: Candidate, disk: Seq<(Seq<char>, Seq<u8>)>) -> Option<
    SchemeModel,
> {
    let hidden = entry.name.len() > 0 && entry.name[0] == '.';
    match disk::text_of(disk, entry.path) {
        Some(contents) => if !hidden && entry.is_file && generated::swatch_of(
            contents,
        ).validation.is_valid() {
            Some(
                SchemeModel {
                    name: entry.name,
                    preview: preview_of(generated::swatch_of(contents).colors),
                },
            )
        } else {
            None
        },
        None => None,
    }
}

/// The schemes whose names come after `name`.
pub open spec fn later(schemes: Seq<SchemeModel>, name: Seq<char>) -> spec_fn(int) -> bool {
    |i: int| discovery::before(name, schemes[i].name)
}

/// Where a scheme goes among others that are in order of their names.
pub open spec fn place_for(schemes: Seq<SchemeModel>, name: Seq<char>) -> int {
    match search::first_where(schemes.len() as int, later(schemes, name)) {
        Some(i) => i,
        None => schemes.len() as int,
    }
}

/// The schemes among the first `n` entries, in order of their names.
pub open spec fn schemes_upto(
    entries: Seq<Candidate>,
    disk: Seq<(Seq<char>, Seq<u8>)>,
    n: int,
) -> Seq<SchemeModel>
    decreases n,
{
    if n <= 0 {
        Seq::empty()
    } else {
        let before = schemes_upto(entries, disk, n - 1);
        match scheme_of(entries[n - 1], disk) {
            Some(scheme) => before.insert(place_for(before, scheme.name), scheme),
            None => before,
        }
    }
}

/// The schemes among the given entries, in order of their names.
pub open spec fn schemes_in(
    entries: Seq<Candidate>,
    disk: Seq<(Seq<char>, Seq<u8>)>,
) -> Seq<SchemeModel> {
    schemes_upto(entries, disk, entries.len() as int)
}

fn preview(colors: &[SwatchColor]) -> (r: Vec<(u8, u8, u8)>)
    ensures
        rgb_models(r@) == preview_of(generated::color_models(colors@)),
{
    let ghost all = generated::color_models(colors@);
    let mut r: Vec<(u8, u8, u8)> = Vec::new();
    let mut i: usize = 0;
    assert(rgb_models(r@) =~= Seq::<(int, int, int)>::empty());
    while i < colors.len()
        invariant
            i <= colors.len(),
            all == generated::color_models(colors@),
            rgb_models(r@) == preview_upto(all, i as int),
        decreases colors.len() - i,
    {
        assert(all[i as int] == colors@[i as int]@);
        if let Some(rgb) = parse_hex_rgb(colors[i].value()) {
            let ghost before = rgb_models(r@);
            r.push(rgb);
            assert(rgb_models(r@) =~= before.push((rgb.0 as int, rgb.1 as int, rgb.2 as int)));
        }
        i += 1;
    }
    r
}

fn read_scheme(entry: &ColorsEntry, disk: &Files) -> (r: Option<Scheme>)
    ensures
        match r {
            Some(scheme) => scheme_of(entry@, disk@) == Some(scheme@),
            None => scheme_of(entry@, disk@) is None,
        },
{
    let cs = chars(entry.name.as_str());
    if cs.len() > 0 && cs[0] == '.' {
        return None;
    }
    if !entry.is_file {
        return None;
    }
    match read_scheme_swatch(entry.path.as_str(), disk) {
        Some(swatch) => {
            if !swatch.validation().is_valid() {
                return None;
            }
            Some(Scheme { name: entry.name.clone(), preview: preview(swatch.colors()) })
        },
        None => None,
    }
}

fn place(schemes: &Vec<Scheme>, name: &str) -> (r: usize)
    ensures
        r == place_for(scheme_models(schemes@), name@),
        r <= schemes@.len(),
{
    let ghost all = scheme_models(schemes@);
    let ghost wanted = later(all, name@);
    let mut i: usize = 0;
    while i < schemes.len()
        invariant
            i <= schemes.len(),
            all == scheme_models(schemes@),
            wanted == later(all, name@),
            forall|j: int| 0 <= j < i ==> !#[trigger] wanted(j),
        decreases schemes.len() - i,
    {
        assert(all[i as int] == schemes@[i as int]@);
        if comes_before(name, schemes[i].name.as_str()) {
            proof {
                search::lemma_first_where_is(all.len() as int, wanted, i as int);
            }
            return i;
        }
        i += 1;
    }
    proof {
        search::lemma_first_where(all.len() as int, wanted);
    }
    schemes.len()
}

/// The schemes among the entries of a directory, in order of their names.
pub fn enumerate_schemes(entries: &Vec<ColorsEntry>, disk: &Files) -> (r: Vec<Scheme>)
    ensures
        scheme_models(r@) == schemes_in(candidates(entries@), disk@),
{
    let ghost all = candidates(entries@);
    let mut r: Vec<Scheme> = Vec::new();
    let mut i: usize = 0;
    assert(scheme_models(r@) =~= Seq::<SchemeModel>::empty());
    while i < entries.len()
        invariant
            i <= entries.len(),
            all == candidates(entries@),
            scheme_models(r@) == schemes_upto(all, disk@, i as int),
        decreases entries.len() - i,
    {
        assert(all[i as int] == entries@[i as int]@);
        if let Some(scheme) = read_scheme(&entries[i], disk) {
            let ghost before = scheme_models(r@);
            let ghost model = scheme@;
            let at: usize = place(&r, scheme.name.as_str());
            r.insert(at, scheme);
            assert(scheme_models(r@) =~= before.insert(at as int, model));
        }
        i += 1;
    }
    r
}

/// The palette, and the pending switch to another.
#[derive(Debug)]
pub struct PaletteModel {
    schemes: Vec<Scheme>,
    active: Option<String>,
    staged: Option<String>,
    generate_colors: String,
}

/// The mathematical counterpart of [`PaletteModel`].
pub struct Palette {
    /// The schemes, in order of their names.
    pub schemes: Seq<SchemeModel>,
    /// The scheme in use, if it is known.
    pub active: Option<Seq<char>>,
    /// The scheme to switch to.
    pub staged: Option<Seq<char>>,
    /// Where the generator is.
    pub generate_colors: Seq<char>,
}

/// The schemes with this name.
pub open spec fn called(schemes: Seq<SchemeModel>, name: Seq<char>) -> spec_fn(int) -> bool {
    |i: int| schemes[i].name == name
}

/// The index of the first scheme with this name, if there is one.
pub open spec fn scheme_index(schemes: Seq<SchemeModel>, name: Seq<char>) -> Option<int> {
    search::first_where(schemes.len() as int, called(schemes, name))
}

impl Palette {
    /// The scheme that will be in use.
    pub open spec fn selected(self) -> Option<Seq<char>> {
        if self.staged is Some {
            self.staged
        } else {
            self.active
        }
    }

    /// With a switch to the named scheme pending: none where that one is in use, and as it was
    /// where there is no such scheme.
    pub open spec fn stage(self, name: Seq<char>) -> Palette {
        if scheme_index(self.schemes, name) is None {
            self
        } else {
            Palette {
                staged: if self.active == Some(name) {
                    None
                } else {
                    Some(name)
                },
                ..self
            }
        }
    }

    /// Without the pending switch.
    pub open spec fn reset(self) -> Palette {
        Palette { staged: None, ..self }
    }

    /// After the pending switch was made.
    pub open spec fn commit(self) -> Palette {
        Palette { active: self.selected(), staged: None, ..self }
    }
}

impl View for PaletteModel {
    type V = Palette;

    closed spec fn view(&self) -> Palette {
        Palette {
            schemes: scheme_models(self.schemes@),
            active: text::optional_view(self.active),
            staged: text::optional_view(self.staged),
            generate_colors: self.generate_colors@,
        }
    }
}

fn copy_schemes(schemes: &Vec<Scheme>) -> (r: Vec<Scheme>)
    ensures
        scheme_models(r@) == scheme_models(schemes@),
{
    let ghost all = scheme_models(schemes@);
    let mut r: Vec<Scheme> = Vec::new();
    let mut i: usize = 0;
    while i < schemes.len()
        invariant
            i <= schemes.len(),
            all == scheme_models(schemes@),
            scheme_models(r@) == all.take(i as int),
        decreases schemes.len() - i,
    {
        let ghost before = scheme_models(r@);
        let scheme = schemes[i].clone();
        r.push(scheme);
        assert(scheme_models(r@) =~= before.push(scheme@));
        assert(all.take(i + 1) =~= all.take(i as int).push(scheme@));
        i += 1;
    }
    assert(all.take(all.len() as int) =~= all);
    r
}

impl Clone for PaletteModel {
    fn clone(&self) -> (r: Self)
        ensures
            r@ == self@,
    {
        PaletteModel {
            schemes: copy_schemes(&self.schemes),
            active: text::copy_option(&self.active),
            staged: text::copy_option(&self.staged),
            generate_colors: self.generate_colors.clone(),
        }
    }
}

fn find_scheme(schemes: &Vec<Scheme>, name: &str) -> (r: Option<usize>)
    ensures
        match r {
            Some(i) => i < schemes@.len() && scheme_index(scheme_models(schemes@), name@) == Some(
                i as int,
            ),
            None => scheme_index(scheme_models(schemes@), name@) is None,
        },
{
    let ghost all = scheme_models(schemes@);
    let ghost wanted = called(all, name@);
    let mut i: usize = 0;
    while i < schemes.len()
        invariant
            i <= schemes.len(),
            all == scheme_models(schemes@),
            wanted == called(all, name@),
            forall|j: int| 0 <= j < i ==> !#[trigger] wanted(j),
        decreases schemes.len() - i,
    {
        assert(all[i as int] == schemes@[i as int]@);
        if text::same_text(schemes[i].name.as_str(), name) {
            proof {
                search::lemma_first_where_is(all.len() as int, wanted, i as int);
            }
            return Some(i);
        }
        i += 1;
    }
    proof {
        search::lemma_first_where(all.len() as int, wanted);
    }
    None
}

impl PaletteModel {
    /// Reads the palette from the entries of the directory that holds the schemes and from the
    /// generated file that names the one in use.
    pub fn load(
        entries: &Vec<ColorsEntry>,
        active_scheme_source: &str,
        generate_colors: String,
        disk: &Files,
    ) -> (r: PaletteModel)
        ensures
            r@ == (Palette {
                schemes: schemes_in(candidates(entries@), disk@),
                active: generated::detected_at(disk@, active_scheme_source@),
                staged: None,
                generate_colors: generate_colors@,
            }),
    {
        let schemes = enumerate_schemes(entries, disk);
        let detected = read_active_scheme(active_scheme_source, disk);
        let active = text::owned(detected.name());
        PaletteModel { schemes, active, staged: None, generate_colors }
    }

    /// The schemes, in order of their names.
    pub fn schemes(&self) -> (r: &[Scheme])
        ensures
            scheme_models(r@) == self@.schemes,
    {
        self.schemes.as_slice()
    }

    /// The scheme in use, if it is known.
    pub fn active(&self) -> (r: Option<&str>)
        ensures
            match r {
                Some(s) => self@.active == Some(s@),
                None => self@.active is None,
            },
    {
        match &self.active {
            Some(s) => Some(s.as_str()),
            None => None,
        }
    }

    /// Whether there is anything to switch to: at least two schemes.
    pub fn is_switchable(&self) -> (r: bool)
        ensures
            r == (self@.schemes.len() >= 2),
    {
        self.schemes.len() >= 2
    }

    /// The scheme that will be in use.
    pub fn selected(&self) -> (r: Option<&str>)
        ensures
            match r {
                Some(s) => self@.selected() == Some(s@),
                None => self@.selected() is None,
            },
    {
        match &self.staged {
            Some(s) => Some(s.as_str()),
            None => self.active(),
        }
    }

    /// Where that scheme stands among the schemes, if it does.
    pub fn selected_index(&self) -> (r: Option<usize>)
        ensures
            match self@.selected() {
                Some(name) => match r {
                    Some(i) => scheme_index(self@.schemes, name) == Some(i as int),
                    None => scheme_index(self@.schemes, name) is None,
                },
                None => r is None,
            },
    {
        match self.selected() {
            Some(name) => find_scheme(&self.schemes, name),
            None => None,
        }
    }

    /// Makes a switch to the named scheme pending; none where that one is in use. A name that
    /// is no scheme's is ignored.
    pub fn stage(&mut self, name: &str)
        ensures
            final(self)@ == old(self)@.stage(name@),
    {
        if find_scheme(&self.schemes, name).is_none() {
            return ;
        }
        let current = match &self.active {
            Some(active) => text::same_text(active.as_str(), name),
            None => false,
        };
        self.staged = if current {
            None
        } else {
            Some(name.to_owned())
        };
    }

    /// Whether a switch is pending.
    pub fn is_dirty(&self) -> (r: bool)
        ensures
            r == (self@.staged is Some),
    {
        self.staged.is_some()
    }

    /// Forgets the pending switch.
    pub fn reset(&mut self)
        ensures
            final(self)@ == old(self)@.reset(),
    {
        self.staged = None;
    }

    /// Takes the pending switch for made.
    pub fn commit(&mut self)
        ensures
            final(self)@ == old(self)@.commit(),
    {
        if let Some(scheme) = self.staged.take() {
            self.active = Some(scheme);
        }
    }

    /// What the pending switch contributes to an Apply, if there is one.
    pub fn apply_contribution(&self) -> (r: Option<PaletteSwitch>)
        ensures
            match self@.staged {
                Some(scheme) => r matches Some(switch) && switch.scheme@ == scheme
                    && switch.generate_colors@ == self@.generate_colors,
                None => r is None,
            },
    {
        match &self.staged {
            Some(scheme) => Some(
                PaletteSwitch {
                    scheme: scheme.clone(),
                    generate_colors: self.generate_colors.clone(),
                },
            ),
            None => None,
        }
    }
}

} // verus!
