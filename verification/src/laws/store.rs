//! The laws of the settings store.

use crate::freshness;
use crate::freshness::ConflictReason;
use crate::laws::backing as backing_laws;
use crate::model;
use crate::model::{Content, SettingId};
use crate::search;
use crate::store;
use crate::store::{Reading, Setting, Store};
use crate::table;
use vstd::prelude::*;

verus! {

/// Whether the store holds settings of files only, none of the running session.
pub open spec fn is_file_backed(store: Store) -> bool {
    forall|id: SettingId| #[trigger]
        store.settings.contains_key(id) ==> !(id.lives_in() is RuntimeOnly)
}

/// A setting of the running session never gets into the store.
pub proof fn session_settings_stay_out(
    store: Store,
    path: Seq<char>,
    reading: Reading,
    id: SettingId,
    value: Content,
)
    requires
        is_file_backed(store),
    ensures
        is_file_backed(store.ingest(path, reading)),
        store.settings.contains_key(id) ==> is_file_backed(store.stage(id, value)),
        is_file_backed(store.reset()),
{
    lemma_ingest_upto(store, reading, reading.values.len() as int);
}

proof fn lemma_ingest_upto(store: Store, reading: Reading, n: int)
    requires
        is_file_backed(store),
    ensures
        forall|id: SettingId| #[trigger]
            store::with_originals_upto(store.settings, reading.values, n).contains_key(id)
                ==> !(id.lives_in() is RuntimeOnly),
    decreases n,
{
    if n > 0 {
        lemma_ingest_upto(store, reading, n - 1);
        let before = store::with_originals_upto(store.settings, reading.values, n - 1);
        let after = store::with_originals_upto(store.settings, reading.values, n);
        assert forall|id: SettingId| #[trigger] after.contains_key(id) implies !(
        id.lives_in() is RuntimeOnly) by {
            if id != reading.values[n - 1].0 {
                assert(before.contains_key(id));
            }
        }
    }
}

/// Forgetting the pending changes leaves none, and gives every setting the value that its file
/// holds.
pub proof fn reset_leaves_no_change(store: Store, id: SettingId)
    ensures
        !store.reset().is_dirty(),
        store.reset().settings.dom() == store.settings.dom(),
        store.settings.contains_key(id) ==> store.reset().settings[id].effective()
            == store.settings[id].original,
        store.reset().baselines == store.baselines,
{
    assert forall|other: SettingId| !store.reset().is_dirty_at(other) by {}
}

/// A change that is made pending is what the setting will be, and changes no other setting. It is
/// pending unless it is the value that the file holds.
pub proof fn staged_value_is_effective(
    store: Store,
    id: SettingId,
    value: Content,
    other: SettingId,
)
    requires
        store.settings.contains_key(id),
    ensures
        store.stage(id, value).settings[id].effective() == value,
        store.stage(id, value).is_dirty_at(id) <==> !model::equal(
            value,
            store.settings[id].original,
        ),
        store.stage(id, value).settings[id].original == store.settings[id].original,
        other != id ==> store.stage(id, value).settings[other] == store.settings[other],
        other != id ==> store.stage(id, value).is_dirty_at(other) == store.is_dirty_at(other),
{
}

/// Equality of values holds of a value and itself, but for what is no number.
pub proof fn equality_is_reflexive(value: Content)
    ensures
        !(value matches Content::Float(bits) && model::is_nan(bits)) ==> model::equal(value, value),
{
}

/// Whether every pending change is to a value that equals itself: none is to what is no number, nor
/// to an infinity.
pub open spec fn stages_numbers(store: Store) -> bool {
    forall|id: SettingId|
        store.settings.contains_key(id) ==> {
            (#[trigger] store.settings[id]).staged matches Some(value) ==> !model::not_finite(value)
        }
}

/// What is no number never gets into a pending change: the empty store has none, reading files and
/// forgetting changes adds none, and a change is made pending only where it is to a finite number or
/// to something else than a number. So a change to the value that the file holds is none.
pub proof fn nan_is_never_staged(
    store: Store,
    path: Seq<char>,
    reading: Reading,
    disk: Seq<(Seq<char>, Seq<u8>)>,
    readings: Seq<(Seq<char>, Reading)>,
    id: SettingId,
    value: Content,
)
    requires
        stages_numbers(store),
    ensures
        stages_numbers(Store { settings: Map::empty(), baselines: Seq::empty() }),
        stages_numbers(store.ingest(path, reading)),
        stages_numbers(store::refreshed(store, disk, readings).0),
        stages_numbers(store.reset()),
        store.settings.contains_key(id) && !model::not_finite(value) ==> stages_numbers(
            store.stage(id, value),
        ),
        store.settings.contains_key(id) && store.settings[id].staged == Some(
            store.settings[id].original,
        ) ==> !store.is_dirty_at(id),
{
    lemma_ingest_stages_numbers(store.settings, reading.values, reading.values.len() as int);
    let changed = freshness::conflicts(store.baselines, disk);
    lemma_refresh_stages_numbers(store, changed, readings, changed.len() as int);
}

proof fn lemma_ingest_stages_numbers(
    settings: Map<SettingId, Setting>,
    values: Seq<(SettingId, Content)>,
    n: int,
)
    requires
        stages_numbers(Store { settings, baselines: Seq::empty() }),
    ensures
        stages_numbers(
            Store {
                settings: store::with_originals_upto(settings, values, n),
                baselines: Seq::empty(),
            },
        ),
    decreases n,
{
    if n > 0 {
        lemma_ingest_stages_numbers(settings, values, n - 1);
        let before = store::with_originals_upto(settings, values, n - 1);
        let after = store::with_originals_upto(settings, values, n);
        assert forall|id: SettingId|
            after.contains_key(id) && (#[trigger] after[id]).staged is Some implies !model::not_finite(
            after[id].staged->0,
        ) by {
            assert(before.contains_key(id) && before[id].staged == after[id].staged);
        }
    }
}

proof fn lemma_refresh_stages_numbers(
    store: Store,
    changed: Seq<(Seq<char>, ConflictReason)>,
    readings: Seq<(Seq<char>, Reading)>,
    n: int,
)
    requires
        stages_numbers(store),
    ensures
        stages_numbers(store::refreshed_upto(store, changed, readings, n).0),
    decreases n,
{
    if n > 0 {
        lemma_refresh_stages_numbers(store, changed, readings, n - 1);
        let before = store::refreshed_upto(store, changed, readings, n - 1).0;
        if let Some(reading) = table::lookup(readings, changed[n - 1].0) {
            lemma_ingest_stages_numbers(
                before.settings,
                reading.values,
                reading.values.len() as int,
            );
        }
    }
}

/// The store is changed exactly where one of its pages is.
pub proof fn dirty_store_has_a_dirty_page(store: Store)
    ensures
        store.is_dirty() <==> exists|category: model::Category| #[trigger]
            store.is_category_dirty(category),
{
    if store.is_dirty() {
        let id = choose|id: SettingId| store.is_dirty_at(id);
        assert(store.is_category_dirty(id.page()));
    }
}

/// Reading a file again keeps every pending change.
pub proof fn reading_again_keeps_pending_changes(
    store: Store,
    path: Seq<char>,
    reading: Reading,
    id: SettingId,
)
    requires
        store.settings.contains_key(id),
    ensures
        store.ingest(path, reading).settings.contains_key(id),
        store.ingest(path, reading).settings[id].staged == store.settings[id].staged,
{
    lemma_ingest_keeps_staged(store.settings, reading.values, reading.values.len() as int, id);
}

proof fn lemma_ingest_keeps_staged(
    settings: Map<SettingId, Setting>,
    values: Seq<(SettingId, Content)>,
    n: int,
    id: SettingId,
)
    requires
        settings.contains_key(id),
    ensures
        store::with_originals_upto(settings, values, n).contains_key(id),
        store::with_originals_upto(settings, values, n)[id].staged == settings[id].staged,
    decreases n,
{
    if n > 0 {
        lemma_ingest_keeps_staged(settings, values, n - 1, id);
    }
}

/// A value that a file holds once is what the store then has for it.
pub proof fn read_value_is_held(
    store: Store,
    path: Seq<char>,
    reading: Reading,
    i: int,
)
    requires
        0 <= i < reading.values.len(),
        !(reading.values[i].0.lives_in() is RuntimeOnly),
        forall|j: int|
            i < j < reading.values.len() ==> (#[trigger] reading.values[j]).0
                != reading.values[i].0,
    ensures
        ({
            let (id, value) = reading.values[i];
            let after = store.ingest(path, reading);
            &&& after.settings.contains_key(id)
            &&& after.settings[id].original == value
        }),
{
    lemma_last_value_counts(store.settings, reading.values, i, reading.values.len() as int);
}

proof fn lemma_last_value_counts(
    settings: Map<SettingId, Setting>,
    values: Seq<(SettingId, Content)>,
    i: int,
    n: int,
)
    requires
        0 <= i < n <= values.len(),
        !(values[i].0.lives_in() is RuntimeOnly),
        forall|j: int| i < j < n ==> (#[trigger] values[j]).0 != values[i].0,
    ensures
        store::with_originals_upto(settings, values, n).contains_key(values[i].0),
        store::with_originals_upto(settings, values, n)[values[i].0].original == values[i].1,
    decreases n,
{
    if n - 1 > i {
        lemma_last_value_counts(settings, values, i, n - 1);
        assert(values[n - 1].0 != values[i].0);
    }
}

/// A refresh keeps every pending change.
pub proof fn refresh_keeps_pending_changes(
    store: Store,
    disk: Seq<(Seq<char>, Seq<u8>)>,
    readings: Seq<(Seq<char>, Reading)>,
    id: SettingId,
)
    requires
        store.settings.contains_key(id),
    ensures
        store::refreshed(store, disk, readings).0.settings.contains_key(id),
        store::refreshed(store, disk, readings).0.settings[id].staged == store.settings[id].staged,
{
    let changed = freshness::conflicts(store.baselines, disk);
    lemma_refresh_keeps_staged(store, changed, readings, changed.len() as int, id);
}

proof fn lemma_refresh_keeps_staged(
    store: Store,
    changed: Seq<(Seq<char>, ConflictReason)>,
    readings: Seq<(Seq<char>, Reading)>,
    n: int,
    id: SettingId,
)
    requires
        store.settings.contains_key(id),
    ensures
        ({
            let after = store::refreshed_upto(store, changed, readings, n).0;
            &&& after.settings.contains_key(id)
            &&& after.settings[id].staged == store.settings[id].staged
        }),
    decreases n,
{
    if n > 0 {
        lemma_refresh_keeps_staged(store, changed, readings, n - 1, id);
        let before = store::refreshed_upto(store, changed, readings, n - 1).0;
        let (path, reason) = changed[n - 1];
        if let Some(reading) = table::lookup(readings, path) {
            reading_again_keeps_pending_changes(before, path, reading, id);
        }
    }
}

/// A refresh of files that are as they were changes nothing and reports nothing.
pub proof fn refresh_without_changes_is_quiet(
    store: Store,
    disk: Seq<(Seq<char>, Seq<u8>)>,
    readings: Seq<(Seq<char>, Reading)>,
)
    requires
        freshness::unchanged(store.baselines, disk),
    ensures
        store::refreshed(store, disk, readings).0 == store,
        store::refreshed(store, disk, readings).1.reloaded.len() == 0,
        store::refreshed(store, disk, readings).1.failed.len() == 0,
{
    freshness::lemma_no_conflicts(store.baselines, disk);
}

/// Whether a refresh reads a file again: it holds something else than it did, and was read.
pub open spec fn is_read_again(
    store: Store,
    disk: Seq<(Seq<char>, Seq<u8>)>,
    readings: Seq<(Seq<char>, Reading)>,
    path: Seq<char>,
) -> bool {
    &&& table::lookup(store.baselines, path) matches Some(bytes)
    &&& table::lookup(disk, path) matches Some(found)
    &&& found != bytes
    &&& table::lookup(readings, path) is Some
}

/// Whether a refresh fails to read a file again: it is gone, or it holds something else than it did
/// and was not read.
pub open spec fn is_failed(
    store: Store,
    disk: Seq<(Seq<char>, Seq<u8>)>,
    readings: Seq<(Seq<char>, Reading)>,
    path: Seq<char>,
) -> bool {
    &&& table::lookup(store.baselines, path) matches Some(bytes)
    &&& match table::lookup(disk, path) {
        Some(found) => found != bytes && table::lookup(readings, path) is None,
        None => true,
    }
}

/// Whether what was read of a file gives a setting another value than the given one.
pub open spec fn gives_another(reading: Reading, id: SettingId, value: Content) -> bool {
    exists|i: int|
        0 <= i < reading.values.len() && (#[trigger] reading.values[i]).0 == id && reading.values[i].1
            != value
}

/// Whether what was read of a file gives a setting a value.
pub open spec fn gives(reading: Reading, id: SettingId) -> bool {
    exists|i: int| 0 <= i < reading.values.len() && (#[trigger] reading.values[i]).0 == id
}

/// A refresh reports each file for itself, whatever becomes of the others: as read again where it
/// changed and was read, as failed where it changed and was not. What was read is then what the file
/// is known to hold; any other file is known as before.
pub proof fn refresh_reports_each_file(
    store: Store,
    disk: Seq<(Seq<char>, Seq<u8>)>,
    readings: Seq<(Seq<char>, Reading)>,
    path: Seq<char>,
)
    requires
        backing_laws::distinct(store.baselines),
    ensures
        ({
            let (after, report) = store::refreshed(store, disk, readings);
            &&& report.reloaded.contains(path) <==> is_read_again(store, disk, readings, path)
            &&& report.failed.contains(path) <==> is_failed(store, disk, readings, path)
            &&& table::lookup(after.baselines, path) == if is_read_again(
                store,
                disk,
                readings,
                path,
            ) {
                Some(table::lookup(readings, path)->0.bytes)
            } else {
                table::lookup(store.baselines, path)
            }
            &&& backing_laws::distinct(after.baselines)
        }),
{
    let changed = freshness::conflicts(store.baselines, disk);
    let n = changed.len() as int;
    lemma_reported(store, changed, readings, n, path);
    lemma_known(store, changed, readings, n, path);
    lemma_listed(store.baselines, disk, path, ConflictReason::ContentChanged);
    lemma_listed(store.baselines, disk, path, ConflictReason::Unreadable);
    if lists(changed, n, path, ConflictReason::ContentChanged) && lists(
        changed,
        n,
        path,
        ConflictReason::Unreadable,
    ) {
        assert(false);
    }
}

/// A file that a refresh read again is reported so and not as failed. It gives its settings, those
/// that no other file read again gives another value, the values that it holds, and leaves their
/// pending changes. What becomes of the other files does not matter.
pub proof fn file_read_again_gives_its_values(
    store: Store,
    disk: Seq<(Seq<char>, Seq<u8>)>,
    readings: Seq<(Seq<char>, Reading)>,
    path: Seq<char>,
    i: int,
)
    requires
        backing_laws::distinct(store.baselines),
        is_read_again(store, disk, readings, path),
        ({
            let values = table::lookup(readings, path)->0.values;
            &&& 0 <= i < values.len()
            &&& !(values[i].0.lives_in() is RuntimeOnly)
            &&& forall|j: int| i < j < values.len() ==> (#[trigger] values[j]).0 != values[i].0
            &&& forall|other: Seq<char>|
                other != path && #[trigger] is_read_again(store, disk, readings, other)
                    ==> !gives_another(
                    table::lookup(readings, other)->0,
                    values[i].0,
                    values[i].1,
                )
        }),
    ensures
        ({
            let (id, value) = table::lookup(readings, path)->0.values[i];
            let (after, report) = store::refreshed(store, disk, readings);
            &&& report.reloaded.contains(path)
            &&& !report.failed.contains(path)
            &&& after.settings.contains_key(id)
            &&& after.settings[id].original == value
            &&& store.settings.contains_key(id) ==> after.settings[id].staged
                == store.settings[id].staged
            &&& store.settings.contains_key(id) && store.settings[id].staged is Some
                ==> after.settings[id].effective() == store.settings[id].effective()
        }),
{
    let changed = freshness::conflicts(store.baselines, disk);
    let n = changed.len() as int;
    let (id, value) = table::lookup(readings, path)->0.values[i];
    refresh_reports_each_file(store, disk, readings, path);
    assert forall|j: int|
        0 <= j < n && (#[trigger] changed[j]).0 != path && changed[j].1 is ContentChanged
            && table::lookup(readings, changed[j].0) is Some implies !gives_another(
        table::lookup(readings, changed[j].0)->0,
        id,
        value,
    ) by {
        lemma_listed(store.baselines, disk, changed[j].0, ConflictReason::ContentChanged);
        assert(lists(changed, n, changed[j].0, ConflictReason::ContentChanged));
        assert(is_read_again(store, disk, readings, changed[j].0));
    }
    lemma_listed(store.baselines, disk, path, ConflictReason::ContentChanged);
    lemma_value_taken(store, changed, readings, n, path, i);
    if store.settings.contains_key(id) {
        refresh_keeps_pending_changes(store, disk, readings, id);
    }
}

/// A file that a refresh could not read again is reported as failed, and its settings, those that no
/// file read again gives a value, keep their values and their pending changes.
pub proof fn failed_file_keeps_its_values(
    store: Store,
    disk: Seq<(Seq<char>, Seq<u8>)>,
    readings: Seq<(Seq<char>, Reading)>,
    path: Seq<char>,
    id: SettingId,
)
    requires
        backing_laws::distinct(store.baselines),
        is_failed(store, disk, readings, path),
        forall|other: Seq<char>| #[trigger]
            is_read_again(store, disk, readings, other) ==> !gives(
                table::lookup(readings, other)->0,
                id,
            ),
    ensures
        ({
            let (after, report) = store::refreshed(store, disk, readings);
            &&& report.failed.contains(path)
            &&& !report.reloaded.contains(path)
            &&& after.settings.contains_key(id) == store.settings.contains_key(id)
            &&& after.settings[id] == store.settings[id]
        }),
{
    refresh_reports_each_file(store, disk, readings, path);
    let changed = freshness::conflicts(store.baselines, disk);
    let n = changed.len() as int;
    assert forall|j: int|
        0 <= j < n && (#[trigger] changed[j]).1 is ContentChanged && table::lookup(
            readings,
            changed[j].0,
        ) is Some implies !gives(table::lookup(readings, changed[j].0)->0, id) by {
        lemma_listed(store.baselines, disk, changed[j].0, ConflictReason::ContentChanged);
        assert(lists(changed, n, changed[j].0, ConflictReason::ContentChanged));
        assert(is_read_again(store, disk, readings, changed[j].0));
    }
    lemma_setting_kept(store, changed, readings, n, id);
}

/// A change that was taken in is not reported again: a second refresh says nothing of a file that
/// the first one read as it is on disk, whatever becomes of the other files.
pub proof fn file_read_again_is_not_reported_again(
    store: Store,
    disk: Seq<(Seq<char>, Seq<u8>)>,
    readings: Seq<(Seq<char>, Reading)>,
    later: Seq<(Seq<char>, Reading)>,
    path: Seq<char>,
)
    requires
        backing_laws::distinct(store.baselines),
        is_read_again(store, disk, readings, path),
        table::lookup(disk, path) == Some(table::lookup(readings, path)->0.bytes),
    ensures
        ({
            let after = store::refreshed(store, disk, readings).0;
            let report = store::refreshed(after, disk, later).1;
            &&& !report.reloaded.contains(path)
            &&& !report.failed.contains(path)
        }),
{
    let after = store::refreshed(store, disk, readings).0;
    refresh_reports_each_file(store, disk, readings, path);
    refresh_reports_each_file(after, disk, later, path);
}

/// Whether the first `n` changes hold the given change of the file at a path.
spec fn lists(
    changed: Seq<(Seq<char>, ConflictReason)>,
    n: int,
    path: Seq<char>,
    reason: ConflictReason,
) -> bool {
    exists|j: int| 0 <= j < n && #[trigger] changed[j] == (path, reason)
}

/// Whether a change is taken in.
spec fn is_taken(
    changed: Seq<(Seq<char>, ConflictReason)>,
    readings: Seq<(Seq<char>, Reading)>,
    n: int,
    path: Seq<char>,
) -> bool {
    lists(changed, n, path, ConflictReason::ContentChanged) && table::lookup(readings, path) is Some
}

/// One more change in the list.
proof fn lemma_lists_step(
    changed: Seq<(Seq<char>, ConflictReason)>,
    n: int,
    path: Seq<char>,
    reason: ConflictReason,
)
    requires
        n > 0,
    ensures
        lists(changed, n, path, reason) == (lists(changed, n - 1, path, reason) || changed[n - 1]
            == (path, reason)),
{
    if lists(changed, n - 1, path, reason) {
        let j = choose|j: int| 0 <= j < n - 1 && #[trigger] changed[j] == (path, reason);
        assert(changed[j] == (path, reason));
    }
    if lists(changed, n, path, reason) {
        let j = choose|j: int| 0 <= j < n && #[trigger] changed[j] == (path, reason);
        assert(changed[j] == (path, reason));
    }
    if changed[n - 1] == (path, reason) {
        assert(lists(changed, n, path, reason));
    }
}

proof fn lemma_push_contains(s: Seq<Seq<char>>, last: Seq<char>, x: Seq<char>)
    ensures
        s.push(last).contains(x) == (s.contains(x) || x == last),
{
    let all = s.push(last);
    if s.contains(x) {
        let i = choose|i: int| 0 <= i < s.len() && s[i] == x;
        assert(all[i] == x);
    }
    assert(all[s.len() as int] == last);
    if all.contains(x) {
        let i = choose|i: int| 0 <= i < all.len() && all[i] == x;
        if i < s.len() {
            assert(s[i] == x);
        }
    }
}

proof fn lemma_reported(
    store: Store,
    changed: Seq<(Seq<char>, ConflictReason)>,
    readings: Seq<(Seq<char>, Reading)>,
    n: int,
    path: Seq<char>,
)
    requires
        n >= 0,
    ensures
        ({
            let report = store::refreshed_upto(store, changed, readings, n).1;
            &&& report.reloaded.contains(path) == is_taken(changed, readings, n, path)
            &&& report.failed.contains(path) == (lists(
                changed,
                n,
                path,
                ConflictReason::Unreadable,
            ) || lists(changed, n, path, ConflictReason::ContentChanged) && table::lookup(
                readings,
                path,
            ) is None)
        }),
    decreases n,
{
    if n > 0 {
        lemma_reported(store, changed, readings, n - 1, path);
        lemma_lists_step(changed, n, path, ConflictReason::ContentChanged);
        lemma_lists_step(changed, n, path, ConflictReason::Unreadable);
        let before = store::refreshed_upto(store, changed, readings, n - 1).1;
        lemma_push_contains(before.reloaded, changed[n - 1].0, path);
        lemma_push_contains(before.failed, changed[n - 1].0, path);
    }
}

proof fn lemma_known(
    store: Store,
    changed: Seq<(Seq<char>, ConflictReason)>,
    readings: Seq<(Seq<char>, Reading)>,
    n: int,
    path: Seq<char>,
)
    requires
        n >= 0,
        backing_laws::distinct(store.baselines),
    ensures
        ({
            let after = store::refreshed_upto(store, changed, readings, n).0;
            &&& table::lookup(after.baselines, path) == if is_taken(changed, readings, n, path) {
                Some(table::lookup(readings, path)->0.bytes)
            } else {
                table::lookup(store.baselines, path)
            }
            &&& backing_laws::distinct(after.baselines)
        }),
    decreases n,
{
    if n > 0 {
        lemma_known(store, changed, readings, n - 1, path);
        lemma_lists_step(changed, n, path, ConflictReason::ContentChanged);
        let before = store::refreshed_upto(store, changed, readings, n - 1).0;
        let changed_path = changed[n - 1].0;
        if let Some(reading) = table::lookup(readings, changed_path) {
            table::lemma_lookup_put(before.baselines, changed_path, reading.bytes, path);
            baselines_stay_distinct(before, changed_path, reading);
        }
    }
}

/// A change is listed exactly where the file differs so from its baseline.
proof fn lemma_listed(
    baselines: Seq<(Seq<char>, Seq<u8>)>,
    disk: Seq<(Seq<char>, Seq<u8>)>,
    path: Seq<char>,
    reason: ConflictReason,
)
    requires
        backing_laws::distinct(baselines),
    ensures
        ({
            let changed = freshness::conflicts(baselines, disk);
            lists(changed, changed.len() as int, path, reason) == match table::lookup(
                baselines,
                path,
            ) {
                Some(bytes) => freshness::change_of((path, bytes), disk) == Some(reason),
                None => false,
            }
        }),
{
    let n = baselines.len() as int;
    lemma_listed_upto(baselines, disk, n, path, reason);
    search::lemma_first_where(n, table::keyed(baselines, path));
    match table::index_of(baselines, path) {
        Some(k) => {
            assert(baselines[k].0 == path);
            assert(differs_at(baselines, disk, k, path, reason) == (freshness::change_of(
                (path, baselines[k].1),
                disk,
            ) == Some(reason)));
            assert forall|i: int| 0 <= i < n && i != k implies !differs_at(
                baselines,
                disk,
                i,
                path,
                reason,
            ) by {
                if i < k {
                    assert(baselines[i].0 != baselines[k].0);
                } else {
                    assert(baselines[k].0 != baselines[i].0);
                }
            }
        },
        None => {
            assert forall|i: int| 0 <= i < n implies !differs_at(
                baselines,
                disk,
                i,
                path,
                reason,
            ) by {
                assert(!table::keyed(baselines, path)(i));
            }
        },
    }
}

spec fn differs_at(
    baselines: Seq<(Seq<char>, Seq<u8>)>,
    disk: Seq<(Seq<char>, Seq<u8>)>,
    i: int,
    path: Seq<char>,
    reason: ConflictReason,
) -> bool {
    baselines[i].0 == path && freshness::change_of(baselines[i], disk) == Some(reason)
}

proof fn lemma_listed_upto(
    baselines: Seq<(Seq<char>, Seq<u8>)>,
    disk: Seq<(Seq<char>, Seq<u8>)>,
    n: int,
    path: Seq<char>,
    reason: ConflictReason,
)
    requires
        0 <= n <= baselines.len(),
    ensures
        ({
            let changed = freshness::conflicts_upto(baselines, disk, n);
            lists(changed, changed.len() as int, path, reason) == exists|i: int|
                0 <= i < n && differs_at(baselines, disk, i, path, reason)
        }),
    decreases n,
{
    let changed = freshness::conflicts_upto(baselines, disk, n);
    if n > 0 {
        lemma_listed_upto(baselines, disk, n - 1, path, reason);
        let before = freshness::conflicts_upto(baselines, disk, n - 1);
        let m = before.len() as int;
        if freshness::change_of(baselines[n - 1], disk) is Some {
            lemma_lists_step(changed, m + 1, path, reason);
            assert(lists(changed, m, path, reason) == lists(before, m, path, reason)) by {
                assert forall|j: int| 0 <= j < m implies changed[j] == before[j] by {}
                if lists(changed, m, path, reason) {
                    let j = choose|j: int| 0 <= j < m && #[trigger] changed[j] == (path, reason);
                    assert(before[j] == (path, reason));
                }
                if lists(before, m, path, reason) {
                    let j = choose|j: int| 0 <= j < m && #[trigger] before[j] == (path, reason);
                    assert(changed[j] == (path, reason));
                }
            }
        }
        if differs_at(baselines, disk, n - 1, path, reason) {
            assert(changed.last() == (path, reason));
        }
        if exists|i: int| 0 <= i < n && differs_at(baselines, disk, i, path, reason) {
            let i = choose|i: int| 0 <= i < n && differs_at(baselines, disk, i, path, reason);
            if i < n - 1 {
                assert(differs_at(baselines, disk, i, path, reason));
            }
        }
    }
}

/// Values that are not of a setting leave it alone, and those that are the value it has leave that.
proof fn lemma_other_values(
    settings: Map<SettingId, Setting>,
    values: Seq<(SettingId, Content)>,
    n: int,
    id: SettingId,
)
    requires
        0 <= n <= values.len(),
    ensures
        ({
            let after = store::with_originals_upto(settings, values, n);
            &&& (forall|i: int| 0 <= i < n ==> (#[trigger] values[i]).0 != id) ==> {
                &&& after.contains_key(id) == settings.contains_key(id)
                &&& after[id] == settings[id]
            }
            &&& settings.contains_key(id) && (forall|i: int|
                0 <= i < n && (#[trigger] values[i]).0 == id ==> values[i].1
                    == settings[id].original) ==> {
                &&& after.contains_key(id)
                &&& after[id].original == settings[id].original
            }
        }),
    decreases n,
{
    if n > 0 {
        lemma_other_values(settings, values, n - 1, id);
        if forall|i: int| 0 <= i < n ==> (#[trigger] values[i]).0 != id {
            assert(values[n - 1].0 != id);
        }
    }
}

proof fn lemma_setting_kept(
    store: Store,
    changed: Seq<(Seq<char>, ConflictReason)>,
    readings: Seq<(Seq<char>, Reading)>,
    n: int,
    id: SettingId,
)
    requires
        0 <= n <= changed.len(),
        forall|j: int|
            0 <= j < n && (#[trigger] changed[j]).1 is ContentChanged && table::lookup(
                readings,
                changed[j].0,
            ) is Some ==> !gives(table::lookup(readings, changed[j].0)->0, id),
    ensures
        ({
            let after = store::refreshed_upto(store, changed, readings, n).0;
            &&& after.settings.contains_key(id) == store.settings.contains_key(id)
            &&& after.settings[id] == store.settings[id]
        }),
    decreases n,
{
    if n > 0 {
        lemma_setting_kept(store, changed, readings, n - 1, id);
        let before = store::refreshed_upto(store, changed, readings, n - 1).0;
        assert(changed[n - 1] == changed[n - 1]);
        if let Some(reading) = table::lookup(readings, changed[n - 1].0) {
            if changed[n - 1].1 is ContentChanged {
                assert(!gives(reading, id));
                lemma_other_values(
                    before.settings,
                    reading.values,
                    reading.values.len() as int,
                    id,
                );
            }
        }
    }
}

proof fn lemma_value_taken(
    store: Store,
    changed: Seq<(Seq<char>, ConflictReason)>,
    readings: Seq<(Seq<char>, Reading)>,
    n: int,
    path: Seq<char>,
    i: int,
)
    requires
        0 <= n <= changed.len(),
        is_taken(changed, readings, n, path),
        ({
            let values = table::lookup(readings, path)->0.values;
            &&& 0 <= i < values.len()
            &&& !(values[i].0.lives_in() is RuntimeOnly)
            &&& forall|j: int| i < j < values.len() ==> (#[trigger] values[j]).0 != values[i].0
            &&& forall|j: int|
                0 <= j < n && (#[trigger] changed[j]).0 != path && changed[j].1 is ContentChanged
                    && table::lookup(readings, changed[j].0) is Some ==> !gives_another(
                    table::lookup(readings, changed[j].0)->0,
                    values[i].0,
                    values[i].1,
                )
        }),
    ensures
        ({
            let (id, value) = table::lookup(readings, path)->0.values[i];
            let after = store::refreshed_upto(store, changed, readings, n).0;
            &&& after.settings.contains_key(id)
            &&& after.settings[id].original == value
        }),
    decreases n,
{
    if n > 0 {
        let (id, value) = table::lookup(readings, path)->0.values[i];
        let before = store::refreshed_upto(store, changed, readings, n - 1).0;
        let last = changed[n - 1];
        lemma_lists_step(changed, n, path, ConflictReason::ContentChanged);
        if last == (path, ConflictReason::ContentChanged) {
            read_value_is_held(before, path, table::lookup(readings, path)->0, i);
        } else {
            lemma_value_taken(store, changed, readings, n - 1, path, i);
            if let Some(reading) = table::lookup(readings, last.0) {
                if last.1 is ContentChanged {
                    assert(!gives_another(reading, id, value));
                    lemma_other_values(
                        before.settings,
                        reading.values,
                        reading.values.len() as int,
                        id,
                    );
                }
            }
        }
    }
}

/// Whether every file that changed was read again as it is on disk.
pub open spec fn all_reread(
    changed: Seq<(Seq<char>, ConflictReason)>,
    readings: Seq<(Seq<char>, Reading)>,
    disk: Seq<(Seq<char>, Seq<u8>)>,
) -> bool {
    forall|j: int|
        0 <= j < changed.len() ==> {
            let (path, reason) = #[trigger] changed[j];
            &&& reason is ContentChanged
            &&& table::lookup(readings, path) matches Some(reading)
            &&& table::lookup(disk, path) == Some(reading.bytes)
        }
}

/// A change that was taken in is not reported again: after a refresh that read every changed file
/// again, a second one is quiet.
pub proof fn second_refresh_is_quiet(
    store: Store,
    disk: Seq<(Seq<char>, Seq<u8>)>,
    readings: Seq<(Seq<char>, Reading)>,
)
    requires
        backing_laws::distinct(store.baselines),
        all_reread(freshness::conflicts(store.baselines, disk), readings, disk),
    ensures
        ({
            let (after, report) = store::refreshed(store, disk, readings);
            &&& report.failed.len() == 0
            &&& freshness::unchanged(after.baselines, disk)
            &&& store::refreshed(after, disk, readings).0 == after
        }),
{
    let changed = freshness::conflicts(store.baselines, disk);
    let n = changed.len() as int;
    let after = store::refreshed(store, disk, readings).0;
    lemma_refreshed_baselines(store, changed, readings, disk, n);
    assert forall|i: int| 0 <= i < after.baselines.len() implies freshness::change_of(
        #[trigger] after.baselines[i],
        disk,
    ) is None by {
        if freshness::change_of(store.baselines[i], disk) is Some {
            lemma_change_is_listed(store.baselines, disk, store.baselines.len() as int, i);
            assert(was_changed(changed, n, store.baselines[i].0));
        }
    }
    refresh_without_changes_is_quiet(after, disk, readings);
}

/// Whether the first `n` changes hold one of the file at a path.
spec fn was_changed(
    changed: Seq<(Seq<char>, ConflictReason)>,
    n: int,
    path: Seq<char>,
) -> bool {
    exists|j: int| 0 <= j < n && (#[trigger] changed[j]).0 == path
}

proof fn lemma_change_is_listed(
    baselines: Seq<(Seq<char>, Seq<u8>)>,
    disk: Seq<(Seq<char>, Seq<u8>)>,
    n: int,
    i: int,
)
    requires
        0 <= i < n <= baselines.len(),
        freshness::change_of(baselines[i], disk) is Some,
    ensures
        ({
            let listed = freshness::conflicts_upto(baselines, disk, n);
            exists|j: int| 0 <= j < listed.len() && (#[trigger] listed[j]).0 == baselines[i].0
        }),
    decreases n,
{
    let listed = freshness::conflicts_upto(baselines, disk, n);
    if i < n - 1 {
        lemma_change_is_listed(baselines, disk, n - 1, i);
        let before = freshness::conflicts_upto(baselines, disk, n - 1);
        let j = choose|j: int| 0 <= j < before.len() && (#[trigger] before[j]).0 == baselines[i].0;
        assert(listed[j] == before[j]);
    } else {
        assert(listed.last().0 == baselines[i].0);
    }
}

proof fn lemma_refreshed_baselines(
    store: Store,
    changed: Seq<(Seq<char>, ConflictReason)>,
    readings: Seq<(Seq<char>, Reading)>,
    disk: Seq<(Seq<char>, Seq<u8>)>,
    n: int,
)
    requires
        0 <= n <= changed.len(),
        backing_laws::distinct(store.baselines),
        changed == freshness::conflicts(store.baselines, disk),
        all_reread(changed, readings, disk),
    ensures
        ({
            let (after, report) = store::refreshed_upto(store, changed, readings, n);
            &&& report.failed.len() == 0
            &&& after.baselines.len() == store.baselines.len()
            &&& forall|i: int|
                0 <= i < store.baselines.len() ==> {
                    &&& (#[trigger] after.baselines[i]).0 == store.baselines[i].0
                    &&& if was_changed(changed, n, store.baselines[i].0) {
                        table::lookup(disk, store.baselines[i].0) == Some(after.baselines[i].1)
                    } else {
                        after.baselines[i] == store.baselines[i]
                    }
                }
        }),
    decreases n,
{
    if n > 0 {
        lemma_refreshed_baselines(store, changed, readings, disk, n - 1);
        let before = store::refreshed_upto(store, changed, readings, n - 1).0;
        let after = store::refreshed_upto(store, changed, readings, n).0;
        let (path, reason) = changed[n - 1];
        let reading = table::lookup(readings, path)->0;
        lemma_listed_has_baseline(store.baselines, disk, store.baselines.len() as int, n - 1);
        let at = choose|i: int| 0 <= i < store.baselines.len() && (#[trigger] store.baselines[i]).0
            == path;
        assert(before.baselines[at].0 == path);
        search::lemma_first_where(
            before.baselines.len() as int,
            table::keyed(before.baselines, path),
        );
        assert(table::keyed(before.baselines, path)(at));
        let k = table::index_of(before.baselines, path)->0;
        assert(before.baselines[k].0 == path);
        assert forall|i: int| 0 <= i < store.baselines.len() implies {
            &&& (#[trigger] after.baselines[i]).0 == store.baselines[i].0
            &&& if was_changed(changed, n, store.baselines[i].0) {
                table::lookup(disk, store.baselines[i].0) == Some(after.baselines[i].1)
            } else {
                after.baselines[i] == store.baselines[i]
            }
        } by {
            assert(before.baselines[i].0 == store.baselines[i].0);
            if i == k {
                assert(changed[n - 1].0 == path);
                assert(was_changed(changed, n, path));
            } else {
                assert(store.baselines[i].0 != store.baselines[k].0);
                assert(was_changed(changed, n, store.baselines[i].0) == was_changed(
                    changed,
                    n - 1,
                    store.baselines[i].0,
                )) by {
                    if was_changed(changed, n - 1, store.baselines[i].0) {
                        let j = choose|j: int|
                            0 <= j < n - 1 && (#[trigger] changed[j]).0 == store.baselines[i].0;
                        assert(changed[j].0 == store.baselines[i].0);
                    }
                }
            }
        }
    }
}

/// A file that is listed as changed has a baseline.
proof fn lemma_listed_has_baseline(
    baselines: Seq<(Seq<char>, Seq<u8>)>,
    disk: Seq<(Seq<char>, Seq<u8>)>,
    n: int,
    j: int,
)
    requires
        0 <= n <= baselines.len(),
        0 <= j < freshness::conflicts_upto(baselines, disk, n).len(),
    ensures
        exists|i: int|
            0 <= i < n && (#[trigger] baselines[i]).0 == freshness::conflicts_upto(
                baselines,
                disk,
                n,
            )[j].0,
    decreases n,
{
    let listed = freshness::conflicts_upto(baselines, disk, n);
    if n > 0 {
        let before = freshness::conflicts_upto(baselines, disk, n - 1);
        if j < before.len() {
            lemma_listed_has_baseline(baselines, disk, n - 1, j);
            let i = choose|i: int| 0 <= i < n - 1 && (#[trigger] baselines[i]).0 == before[j].0;
            assert(baselines[i].0 == listed[j].0);
        } else {
            assert(baselines[n - 1].0 == listed[j].0);
        }
    }
}

/// No path has two baselines in a store, whatever files are read.
pub proof fn baselines_stay_distinct(store: Store, path: Seq<char>, reading: Reading)
    requires
        backing_laws::distinct(store.baselines),
    ensures
        backing_laws::distinct(store.ingest(path, reading).baselines),
{
    backing_laws::baselines_stay_distinct(store.baselines, path, reading.bytes);
}

/// Reading a file leaves every setting that the file gives no value as it was, and is then known to
/// be of that file's bytes. A setting that was not in the store comes in without a pending change.
pub proof fn reading_changes_what_the_file_gives(
    store: Store,
    path: Seq<char>,
    reading: Reading,
    id: SettingId,
)
    ensures
        !gives(reading, id) ==> {
            let after = store.ingest(path, reading);
            &&& after.settings.contains_key(id) == store.settings.contains_key(id)
            &&& after.settings[id] == store.settings[id]
        },
        !store.settings.contains_key(id) && store.ingest(path, reading).settings.contains_key(id)
            ==> store.ingest(path, reading).settings[id].staged is None,
        table::lookup(store.ingest(path, reading).baselines, path) == Some(reading.bytes),
{
    table::lemma_lookup_put(store.baselines, path, reading.bytes, path);
    lemma_reading_changes(store.settings, reading, reading.values.len() as int, id);
}

proof fn lemma_reading_changes(
    settings: Map<SettingId, Setting>,
    reading: Reading,
    n: int,
    id: SettingId,
)
    requires
        n <= reading.values.len(),
    ensures
        ({
            let after = store::with_originals_upto(settings, reading.values, n);
            &&& !gives(reading, id) ==> {
                &&& after.contains_key(id) == settings.contains_key(id)
                &&& after[id] == settings[id]
            }
            &&& !settings.contains_key(id) && after.contains_key(id) ==> after[id].staged is None
        }),
    decreases n,
{
    if n > 0 {
        lemma_reading_changes(settings, reading, n - 1, id);
        if reading.values[n - 1].0 == id {
            assert(gives(reading, id));
        }
    }
}

} // verus!
