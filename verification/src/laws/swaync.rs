//! The laws of the swaync configuration.

use crate::parsers::swaync;
use crate::parsers::swaync::Json;
use crate::search;
use crate::table;
use vstd::prelude::*;

verus! {

/// Whether a value is one that a key can be set to.
pub open spec fn is_settable(value: Json) -> bool {
    value is Text || value is Integer || value is Bool
}

/// What was set is read back, and no other key changes.
pub proof fn read_after_set(
    file: Seq<(Seq<char>, Json)>,
    key: Seq<char>,
    value: Json,
    other: Seq<char>,
)
    ensures
        table::lookup(table::put(file, key, value), key) == Some(value),
        other != key ==> table::lookup(table::put(file, key, value), other) == table::lookup(
            file,
            other,
        ),
{
    table::lemma_lookup_put(file, key, value, other);
}

/// The keys keep their order: one that is set stays in its place, and a new one goes to the end.
pub proof fn set_keeps_the_order_of_keys(
    file: Seq<(Seq<char>, Json)>,
    key: Seq<char>,
    value: Json,
)
    ensures
        ({
            let after = table::put(file, key, value);
            &&& forall|i: int| 0 <= i < file.len() ==> (#[trigger] after[i]).0 == file[i].0
            &&& table::lookup(file, key) is Some ==> after.len() == file.len()
            &&& table::lookup(file, key) is None ==> after == file.push((key, value))
        }),
{
    table::lemma_put_keeps_order(file, key, value);
}

/// Setting a key to what it is leaves the file as it is.
pub proof fn setting_the_current_value_changes_nothing(
    file: Seq<(Seq<char>, Json)>,
    key: Seq<char>,
)
    requires
        table::lookup(file, key) is Some,
    ensures
        table::put(file, key, table::lookup(file, key)->0) == file,
{
    search::lemma_first_where(file.len() as int, table::keyed(file, key));
    assert(table::put(file, key, table::lookup(file, key)->0) =~= file);
}

proof fn lemma_settable(value: Json, depth: nat)
    requires
        is_settable(value),
    ensures
        swaync::is_plain(value, depth),
{
}

proof fn lemma_plain(entries: Seq<(Seq<char>, Json)>, depth: nat)
    requires
        depth > 0,
    ensures
        swaync::is_plain(Json::Object(entries), depth) <==> forall|i: int|
            0 <= i < entries.len() ==> swaync::is_plain(
                (#[trigger] entries[i]).1,
                (depth - 1) as nat,
            ),
{
    let value = Json::Object(entries);
    assert(value->Object_0 == entries);
    assert forall|i: int|
        0 <= i < entries.len() && swaync::is_plain(value, depth) implies swaync::is_plain(
        (#[trigger] entries[i]).1,
        (depth - 1) as nat,
    ) by {
        assert(swaync::is_plain(value->Object_0[i].1, (depth - 1) as nat));
    }
}

/// A file that reading and writing keep stays such a file when a key is set.
pub proof fn set_keeps_plain(file: Seq<(Seq<char>, Json)>, key: Seq<char>, value: Json)
    requires
        swaync::is_plain(Json::Object(file), 127),
        is_settable(value),
    ensures
        swaync::is_plain(Json::Object(table::put(file, key, value)), 127),
{
    let after = table::put(file, key, value);
    search::lemma_first_where(file.len() as int, table::keyed(file, key));
    lemma_plain(file, 127);
    lemma_plain(after, 127);
    assert forall|i: int| 0 <= i < after.len() implies swaync::is_plain(
        (#[trigger] after[i]).1,
        126,
    ) by {
        if i < file.len() {
            assert(swaync::is_plain(file[i].1, 126));
        }
        if after[i].1 == value {
            lemma_settable(value, 126);
        }
    }
}

/// What was set is read back from the text that writing the file gives, and so is every other
/// key. The text is that of [`swaync::SwayncConfigFile::emit`], whose contract the second condition
/// repeats.
pub proof fn written_value_is_read_back(
    file: Seq<(Seq<char>, Json)>,
    key: Seq<char>,
    value: Json,
    other: Seq<char>,
    written: Seq<char>,
)
    requires
        swaync::is_plain(Json::Object(file), 127),
        is_settable(value),
        swaync::is_plain(Json::Object(table::put(file, key, value)), 127) ==> swaync::document(
            written,
        ) == Ok::<Json, Seq<char>>(Json::Object(table::put(file, key, value))),
    ensures
        swaync::document(written) is Ok,
        swaync::document(written)->Ok_0 is Object,
        table::lookup(swaync::document(written)->Ok_0->Object_0, key) == Some(value),
        other != key ==> table::lookup(swaync::document(written)->Ok_0->Object_0, other)
            == table::lookup(file, other),
{
    set_keeps_plain(file, key, value);
    read_after_set(file, key, value, other);
}

/// A text in canonical form is written back as it was: reading what was written and writing it
/// again gives the same text.
pub proof fn canonical_text_is_kept(
    file: Seq<(Seq<char>, Json)>,
    written: Seq<char>,
    again: Seq<(Seq<char>, Json)>,
)
    requires
        swaync::is_plain(Json::Object(file), 127),
        written == swaync::pretty(Json::Object(file)).push('\n'),
        swaync::is_plain(Json::Object(file), 127) ==> swaync::document(written) == Ok::<
            Json,
            Seq<char>,
        >(Json::Object(file)),
        swaync::document(written) == Ok::<Json, Seq<char>>(Json::Object(again)),
    ensures
        again == file,
        swaync::pretty(Json::Object(again)).push('\n') == written,
{
}

} // verus!
