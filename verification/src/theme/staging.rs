//! A value that can be changed before the change is written: what the configuration holds,
//! and what it is to hold.

use crate::text;
use vstd::prelude::*;

verus! {

/// A value and its pending change.
#[derive(Debug)]
pub struct Staged {
    original: Option<String>,
    staged: Option<String>,
}

/// The mathematical counterpart of [`Staged`].
pub struct Pending {
    /// What the configuration holds, if anything.
    pub original: Option<Seq<char>>,
    /// What it is to hold, if that is something else.
    pub staged: Option<Seq<char>>,
}

impl Pending {
    /// The value as it will be.
    pub open spec fn effective(self) -> Option<Seq<char>> {
        if self.staged is Some {
            self.staged
        } else {
            self.original
        }
    }

    /// Whether a change is pending.
    pub open spec fn is_changed(self) -> bool {
        self.staged is Some
    }

    /// Whether a pending change is one.
    pub open spec fn is_sound(self) -> bool {
        self.staged is Some ==> self.staged != self.original
    }

    /// The value with a change to `value` pending, which is none where it has that value.
    pub open spec fn stage(self, value: Seq<char>) -> Pending {
        Pending {
            original: self.original,
            staged: if self.original == Some(value) {
                None
            } else {
                Some(value)
            },
        }
    }

    /// The value without its pending change.
    pub open spec fn reset(self) -> Pending {
        Pending { original: self.original, staged: None }
    }

    /// The value after its pending change was written.
    pub open spec fn commit(self) -> Pending {
        Pending { original: self.effective(), staged: None }
    }
}

impl View for Staged {
    type V = Pending;

    closed spec fn view(&self) -> Pending {
        Pending { original: text::optional_view(self.original), staged: text::optional_view(self.staged) }
    }
}

impl Clone for Staged {
    fn clone(&self) -> (r: Self)
        ensures
            r@ == self@,
    {
        Staged {
            original: text::copy_option(&self.original),
            staged: text::copy_option(&self.staged),
        }
    }
}

impl Staged {
    /// A value without a pending change.
    pub fn new(original: Option<String>) -> (r: Self)
        ensures
            r@ == (Pending { original: text::optional_view(original), staged: None }),
    {
        Staged { original, staged: None }
    }

    /// The value as it will be.
    pub fn effective(&self) -> (r: Option<&str>)
        ensures
            match r {
                Some(s) => self@.effective() == Some(s@),
                None => self@.effective() is None,
            },
    {
        match &self.staged {
            Some(s) => Some(s.as_str()),
            None => match &self.original {
                Some(s) => Some(s.as_str()),
                None => None,
            },
        }
    }

    /// What the configuration holds.
    pub fn original(&self) -> (r: Option<&str>)
        ensures
            match r {
                Some(s) => self@.original == Some(s@),
                None => self@.original is None,
            },
    {
        match &self.original {
            Some(s) => Some(s.as_str()),
            None => None,
        }
    }

    /// Makes a change to `value` pending; none where the value is that already.
    pub fn stage(&mut self, value: &str)
        ensures
            final(self)@ == old(self)@.stage(value@),
    {
        let same = match self.original() {
            Some(s) => text::same_text(s, value),
            None => false,
        };
        self.staged = if same {
            None
        } else {
            Some(value.to_owned())
        };
    }

    /// Whether a change is pending.
    pub fn is_changed(&self) -> (r: bool)
        ensures
            r == self@.is_changed(),
    {
        self.staged.is_some()
    }

    /// Forgets the pending change.
    pub fn reset(&mut self)
        ensures
            final(self)@ == old(self)@.reset(),
    {
        self.staged = None;
    }

    /// Takes the pending change for written.
    pub fn commit(&mut self)
        ensures
            final(self)@ == old(self)@.commit(),
    {
        if let Some(value) = self.staged.take() {
            self.original = Some(value);
        }
    }

    /// Takes `value` for what the configuration holds, without a pending change.
    pub fn rebase(&mut self, value: Option<String>)
        ensures
            final(self)@ == (Pending { original: text::optional_view(value), staged: None }),
    {
        self.original = value;
        self.staged = None;
    }
}

/// A value chosen from a list, and its pending change.
#[derive(Debug)]
pub struct Selection {
    options: Vec<String>,
    value: Staged,
}

/// The mathematical counterpart of [`Selection`].
pub struct Choice {
    /// What there is to choose from.
    pub options: Seq<Seq<char>>,
    /// The value.
    pub value: Pending,
}

impl Choice {
    /// Whether `i` is where the value as it will be first stands among the options.
    pub open spec fn is_selected(self, i: int) -> bool {
        &&& 0 <= i < self.options.len()
        &&& self.value.effective() == Some(self.options[i])
        &&& forall|j: int| 0 <= j < i ==> self.value.effective() != Some(#[trigger] self.options[j])
    }

    /// Whether the value as it will be is among the options.
    pub open spec fn is_offered(self) -> bool {
        self.value.effective() is Some && self.options.contains(self.value.effective()->0)
    }

    /// The choice with another value.
    pub open spec fn with(self, value: Pending) -> Choice {
        Choice { options: self.options, value }
    }
}

/// The given options, with the current value in front where it is not among them.
pub open spec fn offering(options: Seq<Seq<char>>, original: Option<Seq<char>>) -> Seq<Seq<char>> {
    match original {
        Some(current) => if options.contains(current) {
            options
        } else {
            options.insert(0, current)
        },
        None => options,
    }
}

impl View for Selection {
    type V = Choice;

    closed spec fn view(&self) -> Choice {
        Choice { options: text::views(self.options@), value: self.value@ }
    }
}

impl Clone for Selection {
    fn clone(&self) -> (r: Self)
        ensures
            r@ == self@,
    {
        Selection { options: text::copy_strings(&self.options), value: self.value.clone() }
    }
}

impl Selection {
    /// A choice from the given options, and the current value in any case.
    pub fn new(options: Vec<String>, original: Option<String>) -> (r: Self)
        ensures
            r@.options == offering(text::views(options@), text::optional_view(original)),
            r@.value == (Pending { original: text::optional_view(original), staged: None }),
    {
        let ghost before = text::views(options@);
        let mut options = options;
        if let Some(current) = &original {
            if !text::contains_text(&options, current.as_str()) {
                options.insert(0, current.clone());
                assert(text::views(options@) =~= before.insert(0, current@));
            }
        }
        Selection { options, value: Staged::new(original) }
    }

    /// What there is to choose from.
    pub fn options(&self) -> (r: &[String])
        ensures
            text::views(r@) == self@.options,
    {
        self.options.as_slice()
    }

    /// The value as it will be.
    pub fn effective(&self) -> (r: Option<&str>)
        ensures
            match r {
                Some(s) => self@.value.effective() == Some(s@),
                None => self@.value.effective() is None,
            },
    {
        self.value.effective()
    }

    /// What the configuration holds.
    pub fn original(&self) -> (r: Option<&str>)
        ensures
            match r {
                Some(s) => self@.value.original == Some(s@),
                None => self@.value.original is None,
            },
    {
        self.value.original()
    }

    /// Where the value as it will be first stands among the options, if it does.
    pub fn selected_index(&self) -> (r: Option<usize>)
        ensures
            match r {
                Some(i) => self@.is_selected(i as int),
                None => !self@.is_offered(),
            },
    {
        match self.value.effective() {
            Some(s) => text::position_of(&self.options, s),
            None => None,
        }
    }

    /// Makes a change to `value` pending; none where the value is that already.
    pub fn stage(&mut self, value: &str)
        ensures
            final(self)@ == old(self)@.with(old(self)@.value.stage(value@)),
    {
        self.value.stage(value);
    }

    /// Whether a change is pending.
    pub fn is_changed(&self) -> (r: bool)
        ensures
            r == self@.value.is_changed(),
    {
        self.value.is_changed()
    }

    /// Forgets the pending change.
    pub fn reset(&mut self)
        ensures
            final(self)@ == old(self)@.with(old(self)@.value.reset()),
    {
        self.value.reset();
    }

    /// Takes the pending change for written.
    pub fn commit(&mut self)
        ensures
            final(self)@ == old(self)@.with(old(self)@.value.commit()),
    {
        self.value.commit();
    }
}

} // verus!
