//! The icon set and the battery icon's level.

use vstd::prelude::*;

verus! {

/// The icons of the brief.
#[derive(Clone, Copy, Debug, PartialEq, Eq, Structural)]
pub enum Icon {
    /// Battery at a level 0–4 (quarters).
    Battery(u8),
    /// Charging bolt.
    Charging,
    /// Wi-Fi.
    Wifi,
    /// Wi-Fi off.
    WifiOff,
    /// Bookmark outline.
    Bookmark,
    /// Bookmark filled.
    BookmarkSet,
    /// Clock.
    Clock,
    /// Moon.
    Moon,
    /// Sun.
    Sun,
    /// Check mark.
    Check,
    /// Close cross.
    Close,
    /// Chevron left.
    ChevronLeft,
    /// Chevron right.
    ChevronRight,
    /// Chevron up.
    ChevronUp,
    /// Chevron down.
    ChevronDown,
    /// Arrow left.
    ArrowLeft,
    /// Arrow right.
    ArrowRight,
    /// Arrow up.
    ArrowUp,
    /// Arrow down.
    ArrowDown,
    /// Lock.
    Lock,
    /// Warning triangle.
    Warning,
}

/// Battery icon level from a percentage: 0 up to 10 %, then a quarter each up to 37,
/// 62 and 87 %, and full above.
pub fn battery_level(percent: u8) -> (l: u8)
    ensures
        l == (if percent <= 10 {
            0u8
        } else if percent <= 37 {
            1u8
        } else if percent <= 62 {
            2u8
        } else if percent <= 87 {
            3u8
        } else {
            4u8
        }),
{
    if percent <= 10 {
        0
    } else if percent <= 37 {
        1
    } else if percent <= 62 {
        2
    } else if percent <= 87 {
        3
    } else {
        4
    }
}

} // verus!
