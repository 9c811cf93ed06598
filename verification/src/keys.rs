//! The seven keys, key events, and the device state the screens read.

use vstd::prelude::*;

verus! {

/// The seven keys.
#[derive(Clone, Copy, Debug, PartialEq, Eq, Hash, Structural)]
pub enum Key {
    /// Bottom, outer left.
    Left,
    /// Bottom, inner left.
    Back,
    /// Bottom, inner right.
    Confirm,
    /// Bottom, outer right.
    Right,
    /// Right edge, upper.
    Up,
    /// Right edge, lower.
    Down,
    /// Top.
    Power,
}

/// What happened to a key.
#[derive(Clone, Copy, Debug, PartialEq, Eq, Structural)]
pub enum KeyKind {
    /// Pressed and released before the long-press threshold.
    Press,
    /// Held past 500 ms (fires once).
    Long,
    /// Still held: fires 5 times a second after the long press.
    Repeat,
    /// Released after a Long (or Repeats).
    Release,
}

/// A key event.
#[derive(Clone, Copy, Debug, PartialEq, Eq, Structural)]
pub struct KeyEvent {
    /// The key.
    pub key: Key,
    /// What happened.
    pub kind: KeyKind,
}

impl KeyEvent {
    /// A short press.
    pub fn press(key: Key) -> (ev: KeyEvent)
        ensures
            ev == (KeyEvent { key, kind: KeyKind::Press }),
    {
        KeyEvent { key, kind: KeyKind::Press }
    }

    /// A long press.
    pub fn long(key: Key) -> (ev: KeyEvent)
        ensures
            ev == (KeyEvent { key, kind: KeyKind::Long }),
    {
        KeyEvent { key, kind: KeyKind::Long }
    }

    /// True for a short press of `key`.
    pub fn is(&self, key: Key) -> (b: bool)
        ensures
            b == (self.key == key && self.kind == KeyKind::Press),
    {
        self.key == key && self.kind == KeyKind::Press
    }

    /// True for a long press of `key`.
    pub fn is_long(&self, key: Key) -> (b: bool)
        ensures
            b == (self.key == key && self.kind == KeyKind::Long),
    {
        self.key == key && self.kind == KeyKind::Long
    }
}

/// How the panel should refresh after a draw.
#[derive(Clone, Copy, Debug, PartialEq, Eq, PartialOrd, Ord)]
pub enum Refresh {
    /// Nothing changed.
    Unchanged,
    /// Partial (DU) refresh, ~380 ms, no flash.
    Du,
    /// Full (GC) refresh with a black-white flash.
    Gc,
}

/// Battery state.
#[derive(Clone, Copy, Debug, PartialEq, Eq, Default)]
pub struct Battery {
    /// Percent 0–100.
    pub percent: u8,
    /// Whether charging.
    pub charging: bool,
    /// Estimated days left, if known.
    pub days_left: Option<u16>,
    /// Cycle count, if known.
    pub cycles: Option<u16>,
    /// Health percent, if known.
    pub health: Option<u8>,
    /// Voltage in mV.
    pub millivolts: u16,
}

/// Wi-Fi state.
#[derive(Clone, Debug, PartialEq, Eq)]
pub enum WifiState {
    /// Radio off.
    Off,
    /// Trying to join.
    Connecting(String),
    /// Joined.
    Connected {
        /// Network name.
        ssid: String,
        /// IP address text.
        ip: String,
        /// mDNS host name (without .local).
        host: String,
        /// Signal 0–4.
        signal: u8,
    },
    /// Running the hotspot.
    Hotspot {
        /// Network name.
        ssid: String,
        /// Password.
        password: String,
        /// IP address text.
        ip: String,
    },
    /// Failed to join.
    Failed(String),
}

impl Default for WifiState {
    fn default() -> (s: WifiState)
        ensures
            s is Off,
    {
        WifiState::Off
    }
}

/// A visible network from a scan.
#[derive(Clone, Debug, PartialEq, Eq)]
pub struct WifiNetwork {
    /// Name.
    pub ssid: String,
    /// Signal 0–4.
    pub signal: u8,
    /// Whether a password is needed.
    pub secured: bool,
    /// Whether we have it saved.
    pub saved: bool,
}

/// Static facts about the device.
#[derive(Clone, Debug, PartialEq, Eq, Default)]
pub struct DeviceInfo {
    /// Firmware version.
    pub version: String,
    /// Build date or commit.
    pub build: String,
    /// Panel controller name.
    pub panel: String,
    /// Free heap bytes.
    pub free_heap: u32,
    /// Largest free block.
    pub largest_block: u32,
    /// Flash size bytes.
    pub flash_bytes: u32,
    /// Card total bytes, if a card is present.
    pub card_total: Option<u64>,
    /// Card free bytes.
    pub card_free: Option<u64>,
    /// Serial or MAC text.
    pub serial: String,
}

} // verus!
