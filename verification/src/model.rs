//! What can be set: the settings, the pages they are on, and their values.

use crate::text;
use vstd::prelude::*;

verus! {

/// A setting.
#[derive(Clone, Copy, Debug, PartialEq, Eq, Structural)]
pub enum SettingId {
    /// The scale of a monitor.
    MonitorScale,
    /// Whether the built-in display of a laptop is on.
    LaptopDisplayEnabled,
    /// The wallpaper image.
    WallpaperPath,
    /// The image behind the lock screen.
    LockBackgroundPath,
    /// How fast the pointer follows the mouse.
    MouseSensitivity,
    /// How long a notification stays.
    NotificationTimeout,
}

/// A page of settings.
#[derive(Clone, Copy, Debug, PartialEq, Eq, Structural)]
pub enum Category {
    /// Displays.
    Display,
    /// Colors, themes and images.
    Theme,
    /// Keyboard, mouse and touchpad.
    Input,
    /// Notifications.
    Notifications,
}

/// Where a setting lives.
#[derive(Clone, Copy, Debug, PartialEq, Eq, Structural)]
pub enum Backing {
    /// In a configuration file.
    FileBacked,
    /// In the running session alone, where a change takes effect at once.
    RuntimeOnly,
}

impl SettingId {
    /// The setting's place in the order of the settings.
    pub open spec fn rank(self) -> int {
        match self {
            SettingId::MonitorScale => 0,
            SettingId::LaptopDisplayEnabled => 1,
            SettingId::WallpaperPath => 2,
            SettingId::LockBackgroundPath => 3,
            SettingId::MouseSensitivity => 4,
            SettingId::NotificationTimeout => 5,
        }
    }

    /// Where the setting lives.
    pub open spec fn lives_in(self) -> Backing {
        match self {
            SettingId::LaptopDisplayEnabled => Backing::RuntimeOnly,
            _ => Backing::FileBacked,
        }
    }

    /// The page that the setting is on.
    pub open spec fn page(self) -> Category {
        match self {
            SettingId::MonitorScale => Category::Display,
            SettingId::LaptopDisplayEnabled => Category::Display,
            SettingId::WallpaperPath => Category::Theme,
            SettingId::LockBackgroundPath => Category::Theme,
            SettingId::MouseSensitivity => Category::Input,
            SettingId::NotificationTimeout => Category::Notifications,
        }
    }

    /// The setting's name.
    pub open spec fn spelled(self) -> Seq<char> {
        match self {
            SettingId::MonitorScale => "MonitorScale"@,
            SettingId::LaptopDisplayEnabled => "LaptopDisplayEnabled"@,
            SettingId::WallpaperPath => "WallpaperPath"@,
            SettingId::LockBackgroundPath => "LockBackgroundPath"@,
            SettingId::MouseSensitivity => "MouseSensitivity"@,
            SettingId::NotificationTimeout => "NotificationTimeout"@,
        }
    }

    /// Computes [`SettingId::rank`].
    pub fn position(self) -> (r: u8)
        ensures
            r == self.rank(),
    {
        match self {
            SettingId::MonitorScale => 0,
            SettingId::LaptopDisplayEnabled => 1,
            SettingId::WallpaperPath => 2,
            SettingId::LockBackgroundPath => 3,
            SettingId::MouseSensitivity => 4,
            SettingId::NotificationTimeout => 5,
        }
    }

    /// Where the setting lives.
    pub fn backing(self) -> (r: Backing)
        ensures
            r == self.lives_in(),
    {
        match self {
            SettingId::LaptopDisplayEnabled => Backing::RuntimeOnly,
            _ => Backing::FileBacked,
        }
    }

    /// The page that the setting is on.
    pub fn category(self) -> (r: Category)
        ensures
            r == self.page(),
    {
        match self {
            SettingId::MonitorScale => Category::Display,
            SettingId::LaptopDisplayEnabled => Category::Display,
            SettingId::WallpaperPath => Category::Theme,
            SettingId::LockBackgroundPath => Category::Theme,
            SettingId::MouseSensitivity => Category::Input,
            SettingId::NotificationTimeout => Category::Notifications,
        }
    }

    /// The setting's name.
    pub fn name(self) -> (r: &'static str)
        ensures
            r@ == self.spelled(),
    {
        match self {
            SettingId::MonitorScale => "MonitorScale",
            SettingId::LaptopDisplayEnabled => "LaptopDisplayEnabled",
            SettingId::WallpaperPath => "WallpaperPath",
            SettingId::LockBackgroundPath => "LockBackgroundPath",
            SettingId::MouseSensitivity => "MouseSensitivity",
            SettingId::NotificationTimeout => "NotificationTimeout",
        }
    }
}

/// The value of a setting.
#[derive(Debug, PartialEq, Eq)]
pub enum SettingValue {
    /// A truth value.
    Bool(bool),
    /// A whole number.
    Integer(i64),
    /// A floating-point number of 64 bits, by its bits: sign, exponent and fraction in the
    /// layout of IEEE 754.
    Float {
        /// The bits.
        bits: u64,
    },
    /// A text.
    Text(String),
}

/// The mathematical counterpart of [`SettingValue`].
pub enum Content {
    /// A truth value.
    Bool(bool),
    /// A whole number.
    Integer(int),
    /// A floating-point number, by its bits.
    Float(u64),
    /// A text.
    Text(Seq<char>),
}

impl View for SettingValue {
    type V = Content;

    open spec fn view(&self) -> Content {
        match *self {
            SettingValue::Bool(b) => Content::Bool(b),
            SettingValue::Integer(n) => Content::Integer(n as int),
            SettingValue::Float { bits } => Content::Float(bits),
            SettingValue::Text(s) => Content::Text(s@),
        }
    }
}

/// The bits of a floating-point number without its sign.
pub open spec fn magnitude(bits: u64) -> int {
    bits as int % 0x8000_0000_0000_0000
}

/// Whether the bits are those of no number.
pub open spec fn is_nan(bits: u64) -> bool {
    magnitude(bits) > 0x7ff0_0000_0000_0000
}

/// Whether the bits are those of a finite number.
pub open spec fn is_finite(bits: u64) -> bool {
    magnitude(bits) < 0x7ff0_0000_0000_0000
}

/// Whether a value is no finite number though it is a floating-point one.
pub open spec fn not_finite(value: Content) -> bool {
    value matches Content::Float(bits) && !is_finite(bits)
}

/// Whether two values are equal. Floating-point values are where they are the same number: the
/// two zeros are one, and what is no number equals nothing.
pub open spec fn equal(a: Content, b: Content) -> bool {
    match (a, b) {
        (Content::Float(x), Content::Float(y)) => {
            &&& !is_nan(x)
            &&& !is_nan(y)
            &&& x == y || (magnitude(x) == 0 && magnitude(y) == 0)
        },
        _ => a == b,
    }
}

fn unsigned_bits(bits: u64) -> (r: u64)
    ensures
        r == magnitude(bits),
{
    bits % 0x8000_0000_0000_0000
}

impl SettingValue {
    /// Decides [`not_finite`].
    pub fn is_not_finite(&self) -> (r: bool)
        ensures
            r == not_finite(self@),
    {
        match self {
            SettingValue::Float { bits } => unsigned_bits(*bits) >= 0x7ff0_0000_0000_0000,
            _ => false,
        }
    }

    /// Decides [`equal`].
    pub fn same(&self, other: &SettingValue) -> (r: bool)
        ensures
            r == equal(self@, other@),
    {
        match (self, other) {
            (SettingValue::Bool(a), SettingValue::Bool(b)) => *a == *b,
            (SettingValue::Integer(a), SettingValue::Integer(b)) => *a == *b,
            (SettingValue::Float { bits: a }, SettingValue::Float { bits: b }) => {
                let x: u64 = unsigned_bits(*a);
                let y: u64 = unsigned_bits(*b);
                x <= 0x7ff0_0000_0000_0000 && y <= 0x7ff0_0000_0000_0000 && (*a == *b || (x == 0
                    && y == 0))
            },
            (SettingValue::Text(a), SettingValue::Text(b)) => text::same_text(a.as_str(), b.as_str()),
            _ => false,
        }
    }
}

impl Clone for SettingValue {
    fn clone(&self) -> (r: Self)
        ensures
            r@ == self@,
    {
        match self {
            SettingValue::Bool(b) => SettingValue::Bool(*b),
            SettingValue::Integer(n) => SettingValue::Integer(*n),
            SettingValue::Float { bits } => SettingValue::Float { bits: *bits },
            SettingValue::Text(s) => SettingValue::Text(s.clone()),
        }
    }
}

/// Why a value cannot be set, in words.
#[derive(Debug, PartialEq, Eq)]
pub struct ValidationError {
    /// The words.
    pub message: String,
}

impl ValidationError {
    /// Puts the reason into words.
    pub fn to_string(&self) -> (r: String)
        ensures
            r@ == self.message@,
    {
        self.message.clone()
    }
}

/// The models of values by their settings.
pub open spec fn value_models(values: Seq<(SettingId, SettingValue)>) -> Seq<(SettingId, Content)> {
    values.map_values(|entry: (SettingId, SettingValue)| (entry.0, entry.1@))
}

} // verus!
