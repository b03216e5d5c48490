//! Turning the pending changes of one configuration file into a write of it.
//!
//! Where the file cannot be read, or the changes cannot be rendered into it, there is no write
//! and the Apply is to stop: leaving the file out would take values for written that are not.

use crate::apply;
use crate::apply::{BackingFile, FileWrite, WriteValidation};
use crate::disk::copy_bytes;
use crate::model::{SettingId, SettingValue};
use crate::text;
use vstd::prelude::*;

verus! {

/// A file with changes rendered into it.
#[derive(Debug, PartialEq, Eq)]
pub struct RenderedEdit {
    /// What the file is to hold, whole.
    pub contents: Vec<u8>,
    /// What changed in it, in words.
    pub changed_keys: Vec<String>,
}

impl Clone for RenderedEdit {
    fn clone(&self) -> (r: Self)
        ensures
            r.contents@ == self.contents@,
            text::views(r.changed_keys@) == text::views(self.changed_keys@),
    {
        RenderedEdit {
            contents: copy_bytes(&self.contents),
            changed_keys: text::copy_strings(&self.changed_keys),
        }
    }
}

/// A configuration file whose settings are in the store.
#[derive(Debug)]
pub struct StoreBackedFile {
    /// Where the file is.
    pub path: String,
    /// How the file is called in messages.
    pub name: &'static str,
    /// Which configuration file it is.
    pub backing: BackingFile,
    /// Where the values of its writes are validated.
    pub validation: WriteValidation,
    /// What to log where the file cannot be read.
    pub read_failure_log: &'static str,
    /// What to log where changes cannot be rendered into it.
    pub render_failure_log: &'static str,
}

/// Why there is no write. `E` is what went wrong in rendering the changes.
#[derive(Debug, PartialEq, Eq)]
pub enum StoreWriteError<E> {
    /// The file could not be read.
    Read {
        /// How the file is called.
        file: &'static str,
        /// Why, in words.
        error: String,
    },
    /// The changes could not be rendered into it.
    Render {
        /// How the file is called.
        file: &'static str,
        /// Why.
        error: E,
    },
}

/// How a failure is put into words, given those for what went wrong in rendering the changes.
pub open spec fn error_text<E>(error: StoreWriteError<E>, words: Seq<char>) -> Seq<char> {
    match error {
        StoreWriteError::Read { file, error } => file@ + " could not be read: "@ + error@,
        StoreWriteError::Render { file, error } => "the "@ + file@
            + " edit could not be applied: "@ + words,
    }
}

impl<E> StoreWriteError<E> {
    /// Puts the failure into words, given those for what went wrong in rendering the changes.
    pub fn message(&self, words: &str) -> (r: String)
        ensures
            r@ == error_text(*self, words@),
    {
        let mut r = String::new();
        match self {
            StoreWriteError::Read { file, error } => {
                r.append(*file);
                r.append(" could not be read: ");
                r.append(error.as_str());
                assert(r@ =~= error_text(*self, words@));
            },
            StoreWriteError::Render { file, error } => {
                r.append("the ");
                r.append(*file);
                r.append(" edit could not be applied: ");
                r.append(words);
                assert(r@ =~= error_text(*self, words@));
            },
        }
        r
    }
}

impl StoreBackedFile {
    /// What follows from the outcome of rendering changes into the file: no write where nothing
    /// changed, else one of the whole file.
    pub open spec fn gives<E>(
        self,
        outcome: Result<RenderedEdit, E>,
        r: Result<Option<FileWrite>, StoreWriteError<E>>,
    ) -> bool {
        match outcome {
            Err(error) => r == Err::<Option<FileWrite>, StoreWriteError<E>>(
                StoreWriteError::Render { file: self.name, error },
            ),
            Ok(edit) => if edit.changed_keys@.len() == 0 {
                r == Ok::<Option<FileWrite>, StoreWriteError<E>>(None)
            } else {
                &&& r matches Ok(Some(write))
                &&& write@ == apply::Write {
                    path: self.path@,
                    contents: edit.contents@,
                    changed_keys: text::views(edit.changed_keys@),
                    backing: self.backing,
                    validation: self.validation,
                }
            },
        }
    }

    /// Makes the write, given the outcome of rendering changes into the file.
    pub fn write_of<E>(&self, outcome: Result<RenderedEdit, E>) -> (r: Result<
        Option<FileWrite>,
        StoreWriteError<E>,
    >)
        ensures
            self.gives(outcome, r),
    {
        match outcome {
            Err(error) => Err(StoreWriteError::Render { file: self.name, error }),
            Ok(edit) => {
                if edit.changed_keys.len() == 0 {
                    return Ok(None);
                }
                Ok(
                    Some(
                        FileWrite {
                            path: self.path.clone(),
                            contents: edit.contents,
                            changed_keys: edit.changed_keys,
                            backing: self.backing,
                            validation: self.validation,
                        },
                    ),
                )
            },
        }
    }

    /// Renders the pending changes of the file into a write of it. `read` reads what the file
    /// holds, or says in words why it cannot; `render` renders the changes into that. Neither
    /// is called where there is no change, nor `render` where the file cannot be read.
    pub fn render_write<
        E,
        R: FnOnce() -> Result<Vec<u8>, String>,
        F: FnOnce(&Vec<u8>, &Vec<(SettingId, SettingValue)>) -> Result<RenderedEdit, E>,
    >(&self, dirty: &Vec<(SettingId, SettingValue)>, read: R, render: F) -> (r: Result<
        Option<FileWrite>,
        StoreWriteError<E>,
    >)
        requires
            dirty@.len() > 0 ==> call_requires(read, ()),
            dirty@.len() > 0 ==> forall|bytes: Vec<u8>| #[trigger]
                call_ensures(read, (), Ok::<Vec<u8>, String>(bytes)) ==> call_requires(
                    render,
                    (&bytes, dirty),
                ),
        ensures
            dirty@.len() == 0 ==> r == Ok::<Option<FileWrite>, StoreWriteError<E>>(None),
            dirty@.len() > 0 ==> exists|current: Result<Vec<u8>, String>| #[trigger]
                call_ensures(read, (), current) && match current {
                    Err(error) => r == Err::<Option<FileWrite>, StoreWriteError<E>>(
                        StoreWriteError::Read { file: self.name, error },
                    ),
                    Ok(bytes) => exists|outcome: Result<RenderedEdit, E>| #[trigger]
                        call_ensures(render, (&bytes, dirty), outcome) && self.gives(outcome, r),
                },
    {
        if dirty.len() == 0 {
            return Ok(None);
        }
        let current = read();
        match current {
            Err(error) => Err(StoreWriteError::Read { file: self.name, error }),
            Ok(bytes) => {
                let outcome = render(&bytes, dirty);
                self.write_of(outcome)
            },
        }
    }
}

} // verus!
