//! The settings that live in configuration files: the value of each as its file has it, and
//! the pending change.
//!
//! A setting that lives in the running session alone is never in the store: a change of it
//! takes effect at once.

use crate::disk::Files;
use crate::freshness;
use crate::freshness::{ConflictReason, FreshnessTracker};
use crate::model;
use crate::model::{Backing, Category, Content, SettingId, SettingValue, ValidationError};
use crate::search;
use crate::table;
use crate::text;
use vstd::prelude::*;

verus! {

/// What a file holds: its bytes, and the values of settings in it.
#[derive(Debug)]
pub struct FileValues {
    /// The bytes.
    pub bytes: Vec<u8>,
    /// The values.
    pub values: Vec<(SettingId, SettingValue)>,
}

/// The mathematical counterpart of [`FileValues`].
pub struct Reading {
    /// The bytes.
    pub bytes: Seq<u8>,
    /// The values.
    pub values: Seq<(SettingId, Content)>,
}

impl View for FileValues {
    type V = Reading;

    open spec fn view(&self) -> Reading {
        Reading { bytes: self.bytes@, values: model::value_models(self.values@) }
    }
}

/// What a file held when it was read again.
#[derive(Debug)]
pub struct Reread {
    /// Where the file is.
    pub path: String,
    /// What it held.
    pub values: FileValues,
}

/// What files held when they were read again, by their paths.
pub open spec fn rereads(readings: Seq<Reread>) -> Seq<(Seq<char>, Reading)> {
    readings.map_values(|reading: Reread| (reading.path@, reading.values@))
}

/// What became of a change.
#[derive(Clone, Copy, Debug, PartialEq, Eq, Structural)]
pub enum StageOutcome {
    /// It is pending.
    Staged,
    /// Nothing: the setting lives in the running session, where the change is to be made at
    /// once.
    RuntimeBypass,
}

/// Why a change was refused.
#[derive(Debug)]
pub enum StageError {
    /// The value is not valid.
    Invalid(ValidationError),
    /// The setting is not in the store.
    NotLoaded(SettingId),
}

/// How a refusal is put into words.
pub open spec fn error_text(error: StageError) -> Seq<char> {
    match error {
        StageError::Invalid(error) => error.message@,
        StageError::NotLoaded(id) => "setting "@ + id.spelled()
            + " is not loaded, so it cannot be staged"@,
    }
}

impl StageError {
    /// Puts the refusal into words.
    pub fn to_string(&self) -> (r: String)
        ensures
            r@ == error_text(*self),
    {
        match self {
            StageError::Invalid(error) => error.to_string(),
            StageError::NotLoaded(id) => {
                let mut r = "setting ".to_owned();
                r.append(id.name());
                r.append(" is not loaded, so it cannot be staged");
                r
            },
        }
    }
}

impl From<ValidationError> for StageError {
    fn from(error: ValidationError) -> (r: Self) {
        StageError::Invalid(error)
    }
}

impl vstd::std_specs::convert::FromSpecImpl<ValidationError> for StageError {
    open spec fn obeys_from_spec() -> bool {
        true
    }

    open spec fn from_spec(error: ValidationError) -> Self {
        StageError::Invalid(error)
    }
}

/// The files that changed on disk.
#[derive(Debug)]
pub struct RefreshReport {
    reloaded: Vec<String>,
    failed: Vec<String>,
}

/// The mathematical counterpart of [`RefreshReport`].
pub struct Report {
    /// The files whose values were read again.
    pub reloaded: Seq<Seq<char>>,
    /// The files that could not be read again.
    pub failed: Seq<Seq<char>>,
}

impl View for RefreshReport {
    type V = Report;

    closed spec fn view(&self) -> Report {
        Report { reloaded: text::views(self.reloaded@), failed: text::views(self.failed@) }
    }
}

impl Default for RefreshReport {
    /// No file changed.
    fn default() -> (r: Self)
        ensures
            r@ == (Report { reloaded: Seq::empty(), failed: Seq::empty() }),
    {
        let r = RefreshReport { reloaded: Vec::new(), failed: Vec::new() };
        assert(r@.reloaded =~= Seq::<Seq<char>>::empty());
        assert(r@.failed =~= Seq::<Seq<char>>::empty());
        r
    }
}

impl RefreshReport {
    /// Whether no file changed.
    pub fn is_empty(&self) -> (r: bool)
        ensures
            r == (self@.reloaded.len() == 0 && self@.failed.len() == 0),
    {
        self.reloaded.len() == 0 && self.failed.len() == 0
    }

    /// The files whose values were read again.
    pub fn reloaded(&self) -> (r: &[String])
        ensures
            text::views(r@) == self@.reloaded,
    {
        self.reloaded.as_slice()
    }

    /// The files that changed but could not be read again.
    pub fn failed(&self) -> (r: &[String])
        ensures
            text::views(r@) == self@.failed,
    {
        self.failed.as_slice()
    }
}

/// A setting in the store.
#[derive(Debug)]
struct Slot {
    id: SettingId,
    original: SettingValue,
    staged: Option<SettingValue>,
}

/// A setting's value and its pending change.
pub struct Setting {
    /// The value as the file has it.
    pub original: Content,
    /// The value to be.
    pub staged: Option<Content>,
}

impl Setting {
    /// The value as it will be.
    pub open spec fn effective(self) -> Content {
        match self.staged {
            Some(value) => value,
            None => self.original,
        }
    }

    /// Whether the pending change is one.
    pub open spec fn is_dirty(self) -> bool {
        self.staged matches Some(value) && !model::equal(value, self.original)
    }

    /// Without its pending change.
    pub open spec fn reset(self) -> Setting {
        Setting { original: self.original, staged: None }
    }
}

/// The mathematical counterpart of [`SettingsStore`].
pub struct Store {
    /// The settings.
    pub settings: Map<SettingId, Setting>,
    /// What each file held when it was last read.
    pub baselines: Seq<(Seq<char>, Seq<u8>)>,
}

/// The settings with one value taken for what its file holds. A pending change stays.
pub open spec fn with_original(
    settings: Map<SettingId, Setting>,
    entry: (SettingId, Content),
) -> Map<SettingId, Setting> {
    if entry.0.lives_in() is RuntimeOnly {
        settings
    } else if settings.contains_key(entry.0) {
        settings.insert(entry.0, Setting { original: entry.1, staged: settings[entry.0].staged })
    } else {
        settings.insert(entry.0, Setting { original: entry.1, staged: None })
    }
}

/// The settings with the first `n` of the given values taken for what the file holds.
pub open spec fn with_originals_upto(
    settings: Map<SettingId, Setting>,
    values: Seq<(SettingId, Content)>,
    n: int,
) -> Map<SettingId, Setting>
    decreases n,
{
    if n <= 0 {
        settings
    } else {
        with_original(with_originals_upto(settings, values, n - 1), values[n - 1])
    }
}

/// The settings with the given values taken for what the file holds.
pub open spec fn with_originals(
    settings: Map<SettingId, Setting>,
    values: Seq<(SettingId, Content)>,
) -> Map<SettingId, Setting> {
    with_originals_upto(settings, values, values.len() as int)
}

impl Store {
    /// After a file was read.
    pub open spec fn ingest(self, path: Seq<char>, reading: Reading) -> Store {
        Store {
            settings: with_originals(self.settings, reading.values),
            baselines: table::put(self.baselines, path, reading.bytes),
        }
    }

    /// With a change of a setting in the store pending.
    pub open spec fn stage(self, id: SettingId, value: Content) -> Store {
        Store {
            settings: self.settings.insert(
                id,
                Setting { original: self.settings[id].original, staged: Some(value) },
            ),
            ..self
        }
    }

    /// Without pending changes.
    pub open spec fn reset(self) -> Store {
        Store { settings: self.settings.map_values(|setting: Setting| setting.reset()), ..self }
    }

    /// Whether a change of a setting is pending.
    pub open spec fn is_dirty_at(self, id: SettingId) -> bool {
        self.settings.contains_key(id) && self.settings[id].is_dirty()
    }

    /// Whether a change is pending.
    pub open spec fn is_dirty(self) -> bool {
        exists|id: SettingId| self.is_dirty_at(id)
    }

    /// Whether a change on a page is pending.
    pub open spec fn is_category_dirty(self, category: Category) -> bool {
        exists|id: SettingId| #[trigger] self.is_dirty_at(id) && id.page() == category
    }
}

/// The store and the report after the first `n` of the files that changed were looked at.
pub open spec fn refreshed_upto(
    store: Store,
    changed: Seq<(Seq<char>, ConflictReason)>,
    readings: Seq<(Seq<char>, Reading)>,
    n: int,
) -> (Store, Report)
    decreases n,
{
    if n <= 0 {
        (store, Report { reloaded: Seq::empty(), failed: Seq::empty() })
    } else {
        let (before, report) = refreshed_upto(store, changed, readings, n - 1);
        let (path, reason) = changed[n - 1];
        match (reason, table::lookup(readings, path)) {
            (ConflictReason::ContentChanged, Some(reading)) => (
                before.ingest(path, reading),
                Report { reloaded: report.reloaded.push(path), ..report },
            ),
            _ => (before, Report { failed: report.failed.push(path), ..report }),
        }
    }
}

/// The store and the report after every file that changed was looked at: what was read of it
/// again is taken for what it holds; a file that was not read again keeps its values and is
/// reported as failed.
pub open spec fn refreshed(
    store: Store,
    disk: Seq<(Seq<char>, Seq<u8>)>,
    readings: Seq<(Seq<char>, Reading)>,
) -> (Store, Report) {
    let changed = freshness::conflicts(store.baselines, disk);
    refreshed_upto(store, changed, readings, changed.len() as int)
}

spec fn optional_content(value: Option<SettingValue>) -> Option<Content> {
    match value {
        Some(value) => Some(value@),
        None => None,
    }
}

spec fn slot_model(slot: Slot) -> Setting {
    Setting { original: slot.original@, staged: optional_content(slot.staged) }
}

spec fn in_order(slots: Seq<Slot>) -> bool {
    forall|i: int, j: int|
        0 <= i < j < slots.len() ==> (#[trigger] slots[i]).id.rank() < (#[trigger] slots[j]).id.rank()
}

spec fn stands_at(slots: Seq<Slot>, id: SettingId, i: int) -> bool {
    0 <= i < slots.len() && slots[i].id == id
}

spec fn index_of(slots: Seq<Slot>, id: SettingId) -> int {
    choose|i: int| stands_at(slots, id, i)
}

spec fn settings_of(slots: Seq<Slot>) -> Map<SettingId, Setting> {
    Map::new(
        |id: SettingId| exists|i: int| stands_at(slots, id, i),
        |id: SettingId| slot_model(slots[index_of(slots, id)]),
    )
}

proof fn lemma_slot(slots: Seq<Slot>, i: int)
    requires
        in_order(slots),
        0 <= i < slots.len(),
    ensures
        settings_of(slots).contains_key(slots[i].id),
        settings_of(slots)[slots[i].id] == slot_model(slots[i]),
{
    let id = slots[i].id;
    assert(stands_at(slots, id, i));
    let k = index_of(slots, id);
    assert(stands_at(slots, id, k));
    if k < i {
        assert(slots[k].id.rank() < slots[i].id.rank());
    } else if i < k {
        assert(slots[i].id.rank() < slots[k].id.rank());
    }
}

proof fn lemma_setting(slots: Seq<Slot>, id: SettingId)
    requires
        in_order(slots),
        settings_of(slots).contains_key(id),
    ensures
        stands_at(slots, id, index_of(slots, id)),
        settings_of(slots)[id] == slot_model(slots[index_of(slots, id)]),
{
    let i = choose|i: int| stands_at(slots, id, i);
    assert(stands_at(slots, id, i));
}

proof fn lemma_rank_tells(a: SettingId, b: SettingId)
    requires
        a.rank() == b.rank(),
    ensures
        a == b,
{
}

spec fn agree_at(a: Map<SettingId, Setting>, b: Map<SettingId, Setting>, id: SettingId) -> bool {
    a.contains_key(id) == b.contains_key(id) && (b.contains_key(id) ==> a[id] == b[id])
}

proof fn lemma_same_settings(a: Map<SettingId, Setting>, b: Map<SettingId, Setting>)
    requires
        forall|id: SettingId| agree_at(a, b, id),
    ensures
        a == b,
{
    assert forall|id: SettingId| a.dom().contains(id) == b.dom().contains(id) by {
        assert(agree_at(a, b, id));
    }
    assert(a.dom() =~= b.dom());
    assert forall|id: SettingId| a.dom().contains(id) implies a[id] == b[id] by {
        assert(agree_at(a, b, id));
    }
    assert(a =~= b);
}

/// Where a setting stands among the slots, or where it would.
fn find(slots: &Vec<Slot>, id: SettingId) -> (r: (usize, bool))
    requires
        in_order(slots@),
    ensures
        r.1 == settings_of(slots@).contains_key(id),
        r.0 <= slots@.len(),
        r.1 ==> r.0 < slots@.len() && slots@[r.0 as int].id == id,
        forall|j: int| 0 <= j < r.0 ==> (#[trigger] slots@[j]).id.rank() < id.rank(),
        forall|j: int| r.0 < j < slots@.len() ==> id.rank() < (#[trigger] slots@[j]).id.rank(),
        !r.1 ==> (r.0 < slots@.len() ==> id.rank() < slots@[r.0 as int].id.rank()),
{
    let mut i: usize = 0;
    while i < slots.len() && slots[i].id.position() < id.position()
        invariant
            i <= slots@.len(),
            forall|j: int| 0 <= j < i ==> (#[trigger] slots@[j]).id.rank() < id.rank(),
        decreases slots@.len() - i,
    {
        i += 1;
    }
    if i < slots.len() && slots[i].id.position() == id.position() {
        proof {
            lemma_rank_tells(slots@[i as int].id, id);
            lemma_slot(slots@, i as int);
        }
        (i, true)
    } else {
        proof {
            if settings_of(slots@).contains_key(id) {
                lemma_setting(slots@, id);
                let k = index_of(slots@, id);
                assert(slots@[k].id == id);
                if i < k {
                    assert(slots@[i as int].id.rank() < slots@[k].id.rank());
                }
            }
        }
        (i, false)
    }
}

/// Puts a setting in its place.
fn put(slots: &mut Vec<Slot>, slot: Slot)
    requires
        in_order(old(slots)@),
    ensures
        in_order(final(slots)@),
        settings_of(final(slots)@) == settings_of(old(slots)@).insert(slot.id, slot_model(slot)),
{
    let ghost before = slots@;
    let ghost id = slot.id;
    let ghost model = slot_model(slot);
    let (at, there) = find(slots, slot.id);
    if there {
        slots.set(at, slot);
    } else {
        slots.insert(at, slot);
    }
    let ghost after = slots@;
    proof {
        assert(after[at as int].id == id);
        if there {
            assert forall|i: int, j: int| 0 <= i < j < after.len() implies (
            #[trigger] after[i]).id.rank() < (#[trigger] after[j]).id.rank() by {
                assert(after[i].id == before[i].id && after[j].id == before[j].id);
            }
        } else {
            assert forall|i: int, j: int| 0 <= i < j < after.len() implies (
            #[trigger] after[i]).id.rank() < (#[trigger] after[j]).id.rank() by {
                if i != at {
                    assert(after[i] == before[if i < at {
                        i
                    } else {
                        i - 1
                    }]);
                }
                if j != at {
                    assert(after[j] == before[if j < at {
                        j
                    } else {
                        j - 1
                    }]);
                }
            }
        }
        let shift: int = if there {
            0
        } else {
            1
        };
        let expected = settings_of(before).insert(id, model);
        assert forall|other: SettingId| agree_at(settings_of(after), expected, other) by {
            if other == id {
                lemma_slot(after, at as int);
            } else {
                if settings_of(before).contains_key(other) {
                    lemma_setting(before, other);
                    let k = index_of(before, other);
                    let m: int = if k < at {
                        k
                    } else {
                        k + shift
                    };
                    assert(after[m] == before[k]);
                    lemma_slot(after, m);
                }
                if settings_of(after).contains_key(other) {
                    lemma_setting(after, other);
                    let m = index_of(after, other);
                    let k: int = if m < at {
                        m
                    } else {
                        m - shift
                    };
                    assert(after[m] == before[k]);
                    lemma_slot(before, k);
                }
            }
        }
        lemma_same_settings(settings_of(after), expected);
    }
}

fn copy_staged(value: &Option<SettingValue>) -> (r: Option<SettingValue>)
    ensures
        optional_content(r) == optional_content(*value),
{
    match value {
        Some(value) => Some(value.clone()),
        None => None,
    }
}

fn slot_is_dirty(slot: &Slot) -> (r: bool)
    ensures
        r == slot_model(*slot).is_dirty(),
{
    match &slot.staged {
        Some(value) => !value.same(&slot.original),
        None => false,
    }
}

fn find_reading(readings: &Vec<Reread>, path: &str) -> (r: Option<usize>)
    ensures
        match r {
            Some(i) => i < readings@.len() && table::lookup(rereads(readings@), path@) == Some(
                readings@[i as int].values@,
            ),
            None => table::lookup(rereads(readings@), path@) is None,
        },
{
    let ghost all = rereads(readings@);
    let ghost wanted = table::keyed(all, path@);
    let mut i: usize = 0;
    while i < readings.len()
        invariant
            i <= readings.len(),
            all == rereads(readings@),
            wanted == table::keyed(all, path@),
            forall|j: int| 0 <= j < i ==> !#[trigger] wanted(j),
        decreases readings.len() - i,
    {
        assert(all[i as int].0 == readings@[i as int].path@);
        if text::same_text(readings[i].path.as_str(), path) {
            proof {
                search::lemma_first_where_is(all.len() as int, wanted, i as int);
            }
            return Some(i);
        }
        i += 1;
    }
    proof {
        search::lemma_first_where(all.len() as int, wanted);
    }
    None
}

/// The settings that live in configuration files, with their pending changes.
#[derive(Debug)]
pub struct SettingsStore {
    slots: Vec<Slot>,
    freshness: FreshnessTracker,
}

impl View for SettingsStore {
    type V = Store;

    closed spec fn view(&self) -> Store {
        Store { settings: settings_of(self.slots@), baselines: self.freshness@ }
    }
}

impl SettingsStore {
    #[verifier::type_invariant]
    spec fn well_formed(&self) -> bool {
        in_order(self.slots@)
    }

    /// No setting.
    pub fn new() -> (r: Self)
        ensures
            r@ == (Store { settings: Map::empty(), baselines: Seq::empty() }),
    {
        let slots: Vec<Slot> = Vec::new();
        assert(settings_of(slots@) =~= Map::<SettingId, Setting>::empty());
        SettingsStore { slots, freshness: FreshnessTracker::new() }
    }

    fn take_slots(&mut self) -> (r: Vec<Slot>)
        ensures
            r@ == old(self).slots@,
            in_order(r@),
            final(self).slots@.len() == 0,
            final(self).freshness == old(self).freshness,
    {
        proof {
            use_type_invariant(&*self);
        }
        let mut slots: Vec<Slot> = Vec::new();
        core::mem::swap(&mut slots, &mut self.slots);
        slots
    }

    /// Takes the values that were read from a file into the store.
    pub fn load_file(&mut self, path: &str, initial: &FileValues)
        ensures
            final(self)@ == old(self)@.ingest(path@, initial@),
    {
        self.ingest(path, initial);
    }

    fn ingest(&mut self, path: &str, values: &FileValues)
        ensures
            final(self)@ == old(self)@.ingest(path@, values@),
    {
        let ghost before = settings_of(self.slots@);
        let ghost all = model::value_models(values.values@);
        proof {
            use_type_invariant(&*self);
        }
        let mut tracker = FreshnessTracker::new();
        core::mem::swap(&mut tracker, &mut self.freshness);
        tracker.record_bytes(path, &values.bytes);
        self.freshness = tracker;
        let mut slots = self.take_slots();
        let mut i: usize = 0;
        while i < values.values.len()
            invariant
                i <= values.values@.len(),
                all == model::value_models(values.values@),
                in_order(slots@),
                settings_of(slots@) == with_originals_upto(before, all, i as int),
            decreases values.values@.len() - i,
        {
            let id = values.values[i].0;
            let original = values.values[i].1.clone();
            assert(all[i as int] == (id, original@));
            if id.backing() == Backing::FileBacked {
                let (at, there) = find(&slots, id);
                let staged = if there {
                    proof {
                        lemma_slot(slots@, at as int);
                    }
                    copy_staged(&slots[at].staged)
                } else {
                    None
                };
                put(&mut slots, Slot { id, original, staged });
            }
            i += 1;
        }
        self.slots = slots;
    }

    /// Makes a change pending, if the value was found valid and the setting is in the store. A
    /// floating-point value that is infinite or no number is refused in any case: no setting's
    /// range holds it, and what is no number would equal nothing that a file can hold. A setting
    /// that lives in the running session is left to the caller.
    pub fn stage(
        &mut self,
        id: SettingId,
        value: SettingValue,
        validity: Result<(), ValidationError>,
    ) -> (r: Result<StageOutcome, StageError>)
        ensures
            match validity {
                Err(error) => r == Err::<StageOutcome, StageError>(StageError::Invalid(error))
                    && final(self)@ == old(self)@,
                Ok(_) => if model::not_finite(value@) {
                    &&& r matches Err(StageError::Invalid(error))
                    &&& error.message@ == "not a finite number"@
                    &&& final(self)@ == old(self)@
                } else if id.lives_in() is RuntimeOnly {
                    r == Ok::<StageOutcome, StageError>(StageOutcome::RuntimeBypass) && final(self)@
                        == old(self)@
                } else if old(self)@.settings.contains_key(id) {
                    r == Ok::<StageOutcome, StageError>(StageOutcome::Staged) && final(self)@ == old(
                        self,
                    )@.stage(id, value@)
                } else {
                    r == Err::<StageOutcome, StageError>(StageError::NotLoaded(id)) && final(self)@
                        == old(self)@
                },
            },
    {
        if let Err(error) = validity {
            return Err(StageError::from(error));
        }
        if value.is_not_finite() {
            return Err(
                StageError::from(ValidationError { message: "not a finite number".to_owned() }),
            );
        }
        if id.backing() == Backing::RuntimeOnly {
            return Ok(StageOutcome::RuntimeBypass);
        }
        proof {
            use_type_invariant(&*self);
        }
        let (at, there) = find(&self.slots, id);
        if !there {
            return Err(StageError::NotLoaded(id));
        }
        proof {
            lemma_slot(self.slots@, at as int);
        }
        let mut slots = self.take_slots();
        let original = slots[at].original.clone();
        put(&mut slots, Slot { id, original, staged: Some(value) });
        self.slots = slots;
        Ok(StageOutcome::Staged)
    }

    /// Forgets the pending changes.
    pub fn reset(&mut self)
        ensures
            final(self)@ == old(self)@.reset(),
    {
        let ghost before = self.slots@;
        let mut slots = self.take_slots();
        let n: usize = slots.len();
        let mut i: usize = 0;
        while i < n
            invariant
                i <= n,
                n == slots@.len(),
                n == before.len(),
                in_order(before),
                forall|j: int| 0 <= j < n ==> (#[trigger] slots@[j]).id == before[j].id,
                forall|j: int|
                    0 <= j < i ==> slot_model(#[trigger] slots@[j]) == slot_model(before[j]).reset(),
                forall|j: int| i <= j < n ==> #[trigger] slots@[j] == before[j],
            decreases n - i,
        {
            let id = slots[i].id;
            let original = slots[i].original.clone();
            slots.set(i, Slot { id, original, staged: None });
            i += 1;
        }
        proof {
            let after = slots@;
            assert(in_order(after)) by {
                assert forall|a: int, b: int| 0 <= a < b < after.len() implies (
                #[trigger] after[a]).id.rank() < (#[trigger] after[b]).id.rank() by {
                    assert(before[a].id.rank() < before[b].id.rank());
                }
            }
            let expected = settings_of(before).map_values(|setting: Setting| setting.reset());
            assert forall|id: SettingId| agree_at(settings_of(after), expected, id) by {
                if settings_of(before).contains_key(id) {
                    lemma_setting(before, id);
                    let k = index_of(before, id);
                    assert(after[k].id == before[k].id);
                    lemma_slot(after, k);
                }
                if settings_of(after).contains_key(id) {
                    lemma_setting(after, id);
                    let k = index_of(after, id);
                    assert(after[k].id == before[k].id);
                    lemma_slot(before, k);
                }
            }
            lemma_same_settings(settings_of(after), expected);
        }
        self.slots = slots;
    }

    /// Whether a change is pending.
    pub fn is_dirty(&self) -> (r: bool)
        ensures
            r == self@.is_dirty(),
    {
        proof {
            use_type_invariant(self);
        }
        let mut i: usize = 0;
        while i < self.slots.len()
            invariant
                i <= self.slots@.len(),
                in_order(self.slots@),
                forall|j: int| 0 <= j < i ==> !slot_model(#[trigger] self.slots@[j]).is_dirty(),
            decreases self.slots@.len() - i,
        {
            if slot_is_dirty(&self.slots[i]) {
                proof {
                    lemma_slot(self.slots@, i as int);
                    assert(self@.is_dirty_at(self.slots@[i as int].id));
                }
                return true;
            }
            i += 1;
        }
        proof {
            if self@.is_dirty() {
                let id = choose|id: SettingId| self@.is_dirty_at(id);
                lemma_setting(self.slots@, id);
            }
        }
        false
    }

    /// Whether a change on a page is pending.
    pub fn is_category_dirty(&self, category: Category) -> (r: bool)
        ensures
            r == self@.is_category_dirty(category),
    {
        proof {
            use_type_invariant(self);
        }
        let mut i: usize = 0;
        while i < self.slots.len()
            invariant
                i <= self.slots@.len(),
                in_order(self.slots@),
                forall|j: int|
                    0 <= j < i ==> !(slot_model(#[trigger] self.slots@[j]).is_dirty()
                        && self.slots@[j].id.page() == category),
            decreases self.slots@.len() - i,
        {
            if self.slots[i].id.category() == category && slot_is_dirty(&self.slots[i]) {
                proof {
                    lemma_slot(self.slots@, i as int);
                    assert(self@.is_dirty_at(self.slots@[i as int].id));
                }
                return true;
            }
            i += 1;
        }
        proof {
            if self@.is_category_dirty(category) {
                let id = choose|id: SettingId|
                    #[trigger] self@.is_dirty_at(id) && id.page() == category;
                lemma_setting(self.slots@, id);
            }
        }
        false
    }

    /// The settings of which a change is pending, in their order.
    pub fn dirty_ids(&self) -> (r: Vec<SettingId>)
        ensures
            forall|i: int, j: int|
                0 <= i < j < r@.len() ==> (#[trigger] r@[i]).rank() < (#[trigger] r@[j]).rank(),
            forall|id: SettingId| #[trigger] r@.contains(id) <==> self@.is_dirty_at(id),
    {
        proof {
            use_type_invariant(self);
        }
        let mut r: Vec<SettingId> = Vec::new();
        let mut i: usize = 0;
        while i < self.slots.len()
            invariant
                i <= self.slots@.len(),
                in_order(self.slots@),
                forall|a: int, b: int|
                    0 <= a < b < r@.len() ==> (#[trigger] r@[a]).rank() < (#[trigger] r@[b]).rank(),
                forall|a: int, j: int|
                    0 <= a < r@.len() && i <= j < self.slots@.len() ==> (#[trigger] r@[a]).rank()
                        < (#[trigger] self.slots@[j]).id.rank(),
                forall|a: int| 0 <= a < r@.len() ==> self@.is_dirty_at(#[trigger] r@[a]),
                forall|j: int|
                    0 <= j < i && slot_model(#[trigger] self.slots@[j]).is_dirty() ==> r@.contains(
                        self.slots@[j].id,
                    ),
            decreases self.slots@.len() - i,
        {
            let ghost before = r@;
            if slot_is_dirty(&self.slots[i]) {
                r.push(self.slots[i].id);
                proof {
                    lemma_slot(self.slots@, i as int);
                    assert(r@.last() == self.slots@[i as int].id);
                    assert(r@.contains(self.slots@[i as int].id));
                    assert forall|j: int|
                        0 <= j < i && slot_model(#[trigger] self.slots@[j]).is_dirty() implies r@.contains(
                    self.slots@[j].id) by {
                        let a = choose|a: int|
                            0 <= a < before.len() && before[a] == self.slots@[j].id;
                        assert(r@[a] == self.slots@[j].id);
                    }
                }
            }
            i += 1;
        }
        proof {
            assert forall|id: SettingId| #[trigger] r@.contains(id) <==> self@.is_dirty_at(id) by {
                if self@.is_dirty_at(id) {
                    lemma_setting(self.slots@, id);
                    assert(slot_model(self.slots@[index_of(self.slots@, id)]).is_dirty());
                }
            }
        }
        r
    }

    /// The value of a setting as it will be, if the setting is in the store.
    pub fn value(&self, id: SettingId) -> (r: Option<&SettingValue>)
        ensures
            match r {
                Some(value) => self@.settings.contains_key(id) && value@
                    == self@.settings[id].effective(),
                None => !self@.settings.contains_key(id),
            },
    {
        proof {
            use_type_invariant(self);
        }
        let (at, there) = find(&self.slots, id);
        if !there {
            return None;
        }
        proof {
            lemma_slot(self.slots@, at as int);
        }
        match &self.slots[at].staged {
            Some(value) => Some(value),
            None => Some(&self.slots[at].original),
        }
    }

    /// The value of a setting as its file has it, if the setting is in the store.
    pub fn original(&self, id: SettingId) -> (r: Option<&SettingValue>)
        ensures
            match r {
                Some(value) => self@.settings.contains_key(id) && value@
                    == self@.settings[id].original,
                None => !self@.settings.contains_key(id),
            },
    {
        proof {
            use_type_invariant(self);
        }
        let (at, there) = find(&self.slots, id);
        if !there {
            return None;
        }
        proof {
            lemma_slot(self.slots@, at as int);
        }
        Some(&self.slots[at].original)
    }

    /// Looks for files that changed on disk and takes what was read of them again into the
    /// store. Pending changes stay.
    pub fn refresh(&mut self, disk: &Files, readings: &Vec<Reread>) -> (r: RefreshReport)
        ensures
            (final(self)@, r@) == refreshed(old(self)@, disk@, rereads(readings@)),
    {
        let ghost before = self@;
        let found = self.freshness.check_conflicts(disk);
        let ghost changed = freshness::conflict_models(found@);
        let ghost all = rereads(readings@);
        let RefreshReport { mut reloaded, mut failed } = RefreshReport::default();
        let mut i: usize = 0;
        while i < found.len()
            invariant
                i <= found@.len(),
                changed == freshness::conflict_models(found@),
                all == rereads(readings@),
                self@ == refreshed_upto(before, changed, all, i as int).0,
                text::views(reloaded@) == refreshed_upto(before, changed, all, i as int).1.reloaded,
                text::views(failed@) == refreshed_upto(before, changed, all, i as int).1.failed,
            decreases found@.len() - i,
        {
            assert(changed[i as int] == found@[i as int]@);
            let path = found[i].path();
            let reading = match found[i].reason() {
                ConflictReason::ContentChanged => find_reading(readings, path),
                ConflictReason::Unreadable => None,
            };
            let ghost old_reloaded = text::views(reloaded@);
            let ghost old_failed = text::views(failed@);
            match reading {
                Some(k) => {
                    self.ingest(path, &readings[k].values);
                    reloaded.push(path.to_owned());
                    assert(text::views(reloaded@) =~= old_reloaded.push(path@));
                },
                None => {
                    failed.push(path.to_owned());
                    assert(text::views(failed@) =~= old_failed.push(path@));
                },
            }
            i += 1;
        }
        RefreshReport { reloaded, failed }
    }
}

} // verus!
