//! The `config.json` of the swaync notification daemon: one JSON object.
//!
//! JSON has no comments to keep, so the file is read as a whole, changed, and written again in
//! one canonical form: indented by two spaces, its keys in the order in which they stood, with
//! a line feed at the end. A file already in that form is written back as it was.

use crate::table;
use vstd::prelude::*;

verus! {

/// The error of the JSON reader.
#[verifier::external_type_specification]
#[verifier::external_body]
pub struct ExJsonError(serde_json::Error);

/// A JSON value as the JSON crate holds it.
#[verifier::external_type_specification]
#[verifier::external_body]
pub struct ExJsonValue(serde_json::Value);

/// A JSON object as the JSON crate holds it: with the feature `preserve_order`, an index map.
#[verifier::external_type_specification]
#[verifier::external_body]
#[verifier::reject_recursive_types(K)]
#[verifier::reject_recursive_types(V)]
pub struct ExJsonMap<K, V>(serde_json::Map<K, V>);

/// A JSON value.
pub enum Json {
    /// `null`.
    Null,
    /// `true` or `false`.
    Bool(bool),
    /// A number that is held as an integer.
    Integer(int),
    /// A number that is held in floating point, by its bits.
    Real(int),
    /// A string.
    Text(Seq<char>),
    /// An array.
    Array(Seq<Json>),
    /// An object, its keys in order.
    Object(Seq<(Seq<char>, Json)>),
}

/// What a JSON object holds: its keys, each once, in order, with their values.
pub uninterp spec fn entries_of(
    root: serde_json::Map<String, serde_json::Value>,
) -> Seq<(Seq<char>, Json)>;

/// What the JSON reader makes of a text: the JSON value that it is, or in words why it is none.
pub uninterp spec fn document(input: Seq<char>) -> Result<Json, Seq<char>>;

/// A JSON value in canonical form: indented by two spaces.
pub uninterp spec fn pretty(value: Json) -> Seq<char>;

/// How the JSON reader puts an error into words.
pub uninterp spec fn error_words(error: serde_json::Error) -> Seq<char>;

/// Whether a value holds no floating-point number and is nested at most `depth` deep.
pub open spec fn is_plain(value: Json, depth: nat) -> bool
    decreases depth,
{
    match value {
        Json::Real(_) => false,
        Json::Array(items) => depth > 0 && forall|i: int|
            0 <= i < items.len() ==> is_plain(#[trigger] items[i], (depth - 1) as nat),
        Json::Object(entries) => depth > 0 && forall|i: int|
            0 <= i < entries.len() ==> is_plain((#[trigger] entries[i]).1, (depth - 1) as nat),
        _ => true,
    }
}

/// Whether a text with a line feed behind it reads as the given object, where that is one that
/// reading and writing keep.
pub open spec fn reads_back(text: Seq<char>, entries: Seq<(Seq<char>, Json)>) -> bool {
    is_plain(Json::Object(entries), 127) ==> document(text.push('\n')) == Ok::<
        Json,
        Seq<char>,
    >(Json::Object(entries))
}

/// Reads a text as JSON (`serde_json::from_str`) and tells an object from every other value:
/// an error where the text is not JSON, the object that it is, or nothing where it is another
/// value. Which it is, and how the error is put into words, follows from the text alone.
#[verifier::external_body]
fn read_object(input: &str) -> (r: Result<
    Option<serde_json::Map<String, serde_json::Value>>,
    serde_json::Error,
>)
    ensures
        match document(input@) {
            Ok(Json::Object(entries)) => r matches Ok(Some(root)) && entries_of(root) == entries,
            Ok(_) => r matches Ok(None),
            Err(words) => r matches Err(error) && error_words(error) == words,
        },
{
    match serde_json::from_str::<serde_json::Value>(input) {
        Ok(serde_json::Value::Object(root)) => Ok(Some(root)),
        Ok(_) => Ok(None),
        Err(error) => Err(error),
    }
}

/// The string at a key (`serde_json::Map::get`, `serde_json::Value::as_str`): nothing where the
/// key is missing or its value is no string.
#[verifier::external_body]
fn string_at<'a>(root: &'a serde_json::Map<String, serde_json::Value>, key: &str) -> (r: Option<
    &'a str,
>)
    ensures
        match table::lookup(entries_of(*root), key@) {
            Some(Json::Text(s)) => r matches Some(value) && value@ == s,
            _ => r is None,
        },
{
    root.get(key).and_then(serde_json::Value::as_str)
}

/// The integer at a key (`serde_json::Map::get`, `serde_json::Value::as_i64`): nothing where the
/// key is missing, or its value is no number held as an integer, or one too large for `i64`.
#[verifier::external_body]
fn integer_at(root: &serde_json::Map<String, serde_json::Value>, key: &str) -> (r: Option<i64>)
    ensures
        match table::lookup(entries_of(*root), key@) {
            Some(Json::Integer(n)) => if i64::MIN <= n <= i64::MAX {
                r matches Some(value) && value == n
            } else {
                r is None
            },
            _ => r is None,
        },
{
    root.get(key).and_then(serde_json::Value::as_i64)
}

/// The boolean at a key (`serde_json::Map::get`, `serde_json::Value::as_bool`): nothing where
/// the key is missing or its value is no boolean.
#[verifier::external_body]
fn boolean_at(root: &serde_json::Map<String, serde_json::Value>, key: &str) -> (r: Option<bool>)
    ensures
        match table::lookup(entries_of(*root), key@) {
            Some(Json::Bool(b)) => r == Some(b),
            _ => r is None,
        },
{
    root.get(key).and_then(serde_json::Value::as_bool)
}

/// Puts a string at a key (`serde_json::Map::insert`): a key that is there keeps its place, a
/// new one goes to the end.
#[verifier::external_body]
fn put_string(root: &mut serde_json::Map<String, serde_json::Value>, key: &str, value: &str)
    ensures
        entries_of(*final(root)) == table::put(entries_of(*old(root)), key@, Json::Text(value@)),
{
    root.insert(key.to_string(), serde_json::Value::from(value));
}

/// Puts an integer at a key (`serde_json::Map::insert`): a key that is there keeps its place, a
/// new one goes to the end.
#[verifier::external_body]
fn put_integer(root: &mut serde_json::Map<String, serde_json::Value>, key: &str, value: i64)
    ensures
        entries_of(*final(root)) == table::put(entries_of(*old(root)), key@, Json::Integer(value as int)),
{
    root.insert(key.to_string(), serde_json::Value::from(value));
}

/// Puts a boolean at a key (`serde_json::Map::insert`): a key that is there keeps its place, a
/// new one goes to the end.
#[verifier::external_body]
fn put_boolean(root: &mut serde_json::Map<String, serde_json::Value>, key: &str, value: bool)
    ensures
        entries_of(*final(root)) == table::put(entries_of(*old(root)), key@, Json::Bool(value)),
{
    root.insert(key.to_string(), serde_json::Value::from(value));
}

/// Writes an object in canonical form (`serde_json::to_string_pretty`), which cannot fail for
/// an object whose keys are strings. With a line feed behind it the text reads back as the same
/// object, where that holds no floating-point number, which may come back less exact, and is
/// nested no deeper than the reader goes.
#[verifier::external_body]
fn write_object(root: &serde_json::Map<String, serde_json::Value>) -> (r: Result<
    String,
    serde_json::Error,
>)
    ensures
        r is Ok,
        r->Ok_0@ == pretty(Json::Object(entries_of(*root))),
        reads_back(r->Ok_0@, entries_of(*root)),
{
    serde_json::to_string_pretty(root)
}

/// A copy of an object (`serde_json::Map`'s `Clone`): it has the same entries in the same order.
#[verifier::external_body]
fn copy_object(root: &serde_json::Map<String, serde_json::Value>) -> (r: serde_json::Map<
    String,
    serde_json::Value,
>)
    ensures
        entries_of(r) == entries_of(*root),
{
    root.clone()
}

/// How the JSON reader puts an error into words (`serde_json::Error`'s `Display`).
#[verifier::external_body]
fn words_of(error: &serde_json::Error) -> (r: String)
    ensures
        r@ == error_words(*error),
{
    error.to_string()
}

/// Why a text is no configuration.
#[derive(Debug)]
pub enum ParseError {
    /// It is not JSON.
    InvalidJson(serde_json::Error),
    /// It is JSON, but not an object.
    NotAnObject,
}

impl ParseError {
    /// Puts the failure into words, given those of the JSON reader.
    pub fn message(&self, words: &str) -> (r: String)
        ensures
            r@ == match *self {
                ParseError::InvalidJson(_) => "swaync config is not valid JSON: "@ + words@,
                ParseError::NotAnObject =>
                    "swaync config's top-level JSON value is not an object"@,
            },
    {
        match self {
            ParseError::InvalidJson(_) => {
                let mut r = "swaync config is not valid JSON: ".to_owned();
                r.append(words);
                r
            },
            ParseError::NotAnObject => {
                "swaync config's top-level JSON value is not an object".to_owned()
            },
        }
    }

    /// Puts the failure into words.
    pub fn to_string(&self) -> (r: String)
        ensures
            r@ == match *self {
                ParseError::InvalidJson(error) => "swaync config is not valid JSON: "@
                    + error_words(error),
                ParseError::NotAnObject =>
                    "swaync config's top-level JSON value is not an object"@,
            },
    {
        match self {
            ParseError::InvalidJson(error) => self.message(words_of(error).as_str()),
            ParseError::NotAnObject => self.message(""),
        }
    }
}

/// A swaync configuration.
#[derive(Debug)]
pub struct SwayncConfigFile {
    root: serde_json::Map<String, serde_json::Value>,
}

impl View for SwayncConfigFile {
    type V = Seq<(Seq<char>, Json)>;

    closed spec fn view(&self) -> Seq<(Seq<char>, Json)> {
        entries_of(self.root)
    }
}

impl Clone for SwayncConfigFile {
    fn clone(&self) -> (r: Self)
        ensures
            r@ == self@,
    {
        SwayncConfigFile { root: copy_object(&self.root) }
    }
}

impl SwayncConfigFile {
    /// Reads a configuration.
    pub fn parse(input: &str) -> (r: Result<Self, ParseError>)
        ensures
            match document(input@) {
                Ok(Json::Object(entries)) => r matches Ok(file) && file@ == entries,
                Ok(_) => r matches Err(ParseError::NotAnObject),
                Err(words) => r matches Err(ParseError::InvalidJson(error)) && error_words(error)
                    == words,
            },
    {
        SwayncConfigFile::from_document(read_object(input))
    }

    /// Takes what the JSON reader made of a text: an object is a configuration.
    pub fn from_document(
        read: Result<Option<serde_json::Map<String, serde_json::Value>>, serde_json::Error>,
    ) -> (r: Result<Self, ParseError>)
        ensures
            match read {
                Ok(Some(root)) => r matches Ok(file) && file@ == entries_of(root),
                Ok(None) => r matches Err(ParseError::NotAnObject),
                Err(error) => r == Err::<Self, ParseError>(ParseError::InvalidJson(error)),
            },
    {
        match read {
            Ok(Some(root)) => Ok(SwayncConfigFile { root }),
            Ok(None) => Err(ParseError::NotAnObject),
            Err(error) => Err(ParseError::InvalidJson(error)),
        }
    }

    /// Writes the configuration in canonical form.
    pub fn emit(&self) -> (r: String)
        ensures
            r@ == pretty(Json::Object(self@)).push('\n'),
            is_plain(Json::Object(self@), 127) ==> document(r@) == Ok::<Json, Seq<char>>(
                Json::Object(self@),
            ),
    {
        match write_object(&self.root) {
            Ok(mut r) => {
                r.push('\n');
                r
            },
            Err(_) => {
                assert(false);
                String::new()
            },
        }
    }

    /// The string at a top-level key, if there is one.
    pub fn string(&self, key: &str) -> (r: Option<&str>)
        ensures
            match table::lookup(self@, key@) {
                Some(Json::Text(s)) => r matches Some(value) && value@ == s,
                _ => r is None,
            },
    {
        string_at(&self.root, key)
    }

    /// The integer at a top-level key, if there is one that `i64` can hold.
    pub fn integer(&self, key: &str) -> (r: Option<i64>)
        ensures
            match table::lookup(self@, key@) {
                Some(Json::Integer(n)) => if i64::MIN <= n <= i64::MAX {
                    r matches Some(value) && value == n
                } else {
                    r is None
                },
                _ => r is None,
            },
    {
        integer_at(&self.root, key)
    }

    /// The boolean at a top-level key, if there is one.
    pub fn boolean(&self, key: &str) -> (r: Option<bool>)
        ensures
            match table::lookup(self@, key@) {
                Some(Json::Bool(b)) => r == Some(b),
                _ => r is None,
            },
    {
        boolean_at(&self.root, key)
    }

    /// Sets a top-level key to a string.
    pub fn set_string(&mut self, key: &str, value: &str)
        ensures
            final(self)@ == table::put(old(self)@, key@, Json::Text(value@)),
    {
        put_string(&mut self.root, key, value);
    }

    /// Sets a top-level key to an integer.
    pub fn set_integer(&mut self, key: &str, value: i64)
        ensures
            final(self)@ == table::put(old(self)@, key@, Json::Integer(value as int)),
    {
        put_integer(&mut self.root, key, value);
    }

    /// Sets a top-level key to a boolean.
    pub fn set_boolean(&mut self, key: &str, value: bool)
        ensures
            final(self)@ == table::put(old(self)@, key@, Json::Bool(value)),
    {
        put_boolean(&mut self.root, key, value);
    }
}

} // verus!
