//! The laws of settings and their values: when two values are equal, and when a change is one.

use crate::model;
use crate::model::{Backing, Category, Content, SettingId};
use crate::store::{Setting, Store};
use vstd::prelude::*;

verus! {

/// Two values of which one is no floating-point number are equal exactly where they are the same:
/// the same integer, the same truth value or the same text.
pub proof fn values_are_equal_where_they_are_the_same(a: Content, b: Content)
    requires
        !(a is Float),
    ensures
        model::equal(a, b) <==> a == b,
        model::equal(b, a) <==> a == b,
{
}

/// Integers are equal only where they are the same number, texts only where they have the same
/// characters, and values of different types never are.
pub proof fn plain_values_differ(m: int, n: int, s: Seq<char>, t: Seq<char>, p: bool, bits: u64)
    ensures
        m != n ==> !model::equal(Content::Integer(m), Content::Integer(n)),
        model::equal(Content::Integer(n), Content::Integer(n)),
        s != t ==> !model::equal(Content::Text(s), Content::Text(t)),
        model::equal(Content::Text(s), Content::Text(s)),
        !model::equal(Content::Bool(p), Content::Bool(!p)),
        model::equal(Content::Bool(p), Content::Bool(p)),
        !model::equal(Content::Integer(n), Content::Text(s)),
        !model::equal(Content::Integer(n), Content::Bool(p)),
        !model::equal(Content::Text(s), Content::Bool(p)),
        !model::equal(Content::Float(bits), Content::Integer(n)),
        !model::equal(Content::Float(bits), Content::Text(s)),
        !model::equal(Content::Float(bits), Content::Bool(p)),
{
}

/// Equality holds both ways.
pub proof fn equality_is_symmetric(a: Content, b: Content)
    ensures
        model::equal(a, b) == model::equal(b, a),
{
}

/// The values that equal one value equal each other.
pub proof fn equality_is_transitive(a: Content, b: Content, c: Content)
    requires
        model::equal(a, b),
        model::equal(b, c),
    ensures
        model::equal(a, c),
{
}

/// The exponent of a floating-point number, as its bits hold it.
pub open spec fn exponent(bits: u64) -> int {
    bits as int / 0x10_0000_0000_0000 % 0x800
}

/// The fraction of a floating-point number, as its bits hold it.
pub open spec fn fraction(bits: u64) -> int {
    bits as int % 0x10_0000_0000_0000
}

/// Of the floating-point values those with the largest exponent are no finite numbers: infinities
/// where the fraction is zero, else no numbers at all.
pub proof fn largest_exponent_is_no_number(bits: u64)
    ensures
        model::is_nan(bits) <==> exponent(bits) == 0x7ff && fraction(bits) != 0,
        model::is_finite(bits) <==> exponent(bits) != 0x7ff,
        model::not_finite(Content::Float(bits)) <==> exponent(bits) == 0x7ff,
{
    let n = bits as int;
    let m = model::magnitude(bits);
    let sign = n / 0x8000_0000_0000_0000;
    assert(n == sign * 0x8000_0000_0000_0000 + m);
    assert(0 <= sign <= 1);
    let e = m / 0x10_0000_0000_0000;
    let f = m % 0x10_0000_0000_0000;
    assert(0 <= e < 0x800);
    assert(n == (sign * 0x800 + e) * 0x10_0000_0000_0000 + f);
    assert(n / 0x10_0000_0000_0000 == sign * 0x800 + e);
    assert((sign * 0x800 + e) % 0x800 == e);
    assert(exponent(bits) == e);
    assert(fraction(bits) == f);
}

/// Only a floating-point value can fail to be a finite number.
pub proof fn other_values_are_finite(value: Content)
    requires
        !(value is Float),
    ensures
        !model::not_finite(value),
{
}

/// Two finite floating-point values are equal exactly where they have the same bits, or one is the
/// zero and the other the negative zero.
pub proof fn floats_are_equal_as_numbers(x: u64, y: u64)
    ensures
        exponent(x) != 0x7ff && exponent(y) != 0x7ff ==> (model::equal(
            Content::Float(x),
            Content::Float(y),
        ) <==> x == y || ((x == 0 || x == 0x8000_0000_0000_0000) && (y == 0 || y
            == 0x8000_0000_0000_0000))),
        exponent(x) == 0x7ff && fraction(x) != 0 ==> !model::equal(
            Content::Float(x),
            Content::Float(y),
        ),
{
    largest_exponent_is_no_number(x);
    largest_exponent_is_no_number(y);
}

/// A change to anything but a floating-point number is pending exactly where it is to another value
/// than the file holds: an integer that is one off, a text with one other character, the other truth
/// value.
pub proof fn staged_other_value_is_dirty(store: Store, id: SettingId, value: Content)
    requires
        store.settings.contains_key(id),
        !(value is Float),
    ensures
        store.stage(id, value).is_dirty_at(id) <==> value != store.settings[id].original,
        value != store.settings[id].original ==> store.stage(id, value).is_dirty()
            && store.stage(id, value).is_category_dirty(id.page()),
        store.stage(id, value).settings[id].effective() == value,
{
    let after = store.stage(id, value);
    if value != store.settings[id].original {
        assert(after.is_dirty_at(id));
    }
}

/// A setting without a pending change is not changed, and one whose pending change is to the value
/// that the file holds is not either.
pub proof fn change_to_the_original_is_none(setting: Setting)
    ensures
        setting.staged is None ==> !setting.is_dirty() && setting.effective() == setting.original,
        setting.staged == Some(setting.original) && !model::not_finite(setting.original)
            ==> !setting.is_dirty(),
        setting.is_dirty() && !model::not_finite(setting.original) ==> setting.staged is Some
            && setting.effective() != setting.original,
{
}

/// Of the settings the switch of the laptop's display lives in the running session, and all others
/// in files.
pub proof fn only_the_display_switch_lives_in_the_session(id: SettingId)
    ensures
        id.lives_in() == Backing::RuntimeOnly <==> id == SettingId::LaptopDisplayEnabled,
        id.lives_in() == Backing::FileBacked <==> id != SettingId::LaptopDisplayEnabled,
{
}

/// Which settings a page has.
pub proof fn pages_hold_their_settings(id: SettingId)
    ensures
        id.page() == Category::Display <==> id == SettingId::MonitorScale || id
            == SettingId::LaptopDisplayEnabled,
        id.page() == Category::Theme <==> id == SettingId::WallpaperPath || id
            == SettingId::LockBackgroundPath,
        id.page() == Category::Input <==> id == SettingId::MouseSensitivity,
        id.page() == Category::Notifications <==> id == SettingId::NotificationTimeout,
{
}

/// The settings stand in one order, no two in one place.
pub proof fn settings_stand_in_one_order(a: SettingId, b: SettingId)
    ensures
        a.rank() == b.rank() <==> a == b,
        SettingId::MonitorScale.rank() < SettingId::LaptopDisplayEnabled.rank()
            < SettingId::WallpaperPath.rank() < SettingId::LockBackgroundPath.rank()
            < SettingId::MouseSensitivity.rank() < SettingId::NotificationTimeout.rank(),
{
}

/// A page of which no setting is changed is not changed, whatever is changed on the others.
pub proof fn page_is_changed_by_its_settings_alone(store: Store, category: Category)
    ensures
        (forall|id: SettingId| id.page() == category ==> !#[trigger] store.is_dirty_at(id))
            ==> !store.is_category_dirty(category),
        (exists|id: SettingId| #[trigger] store.is_dirty_at(id) && id.page() == category)
            ==> store.is_category_dirty(category),
        (forall|id: SettingId| !#[trigger] store.is_dirty_at(id)) ==> !store.is_dirty(),
{
}

/// A setting that is not in the store is not changed.
pub proof fn absent_setting_is_not_changed(store: Store, id: SettingId)
    requires
        !store.settings.contains_key(id),
    ensures
        !store.is_dirty_at(id),
{
}

} // verus!
