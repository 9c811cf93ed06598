//! The Wi-Fi screen.

use vstd::prelude::*;
use crate::screens::ListNav;
use crate::keys::WifiNetwork;
use crate::textutil::owned;

verus! {

/// The Wi-Fi screen.
pub struct WifiScreen {
    nav: ListNav,
    scanning: bool,
    scan: Vec<WifiNetwork>,
    hint: Option<String>,
    pending: Option<String>,
}

impl WifiScreen {
    /// The hint shown above the list.
    pub closed spec fn spec_hint(self) -> Option<Seq<char>> {
        match self.hint {
            Some(h) => Some(h@),
            None => None,
        }
    }

    /// A scan is under way.
    pub closed spec fn spec_scanning(self) -> bool {
        self.scanning
    }

    /// The networks found by the last scan.
    pub closed spec fn spec_scan(self) -> Seq<WifiNetwork> {
        self.scan@
    }

    /// The network being joined, if any.
    pub closed spec fn spec_pending(self) -> Option<Seq<char>> {
        match self.pending {
            Some(p) => Some(p@),
            None => None,
        }
    }

    /// The list's position.
    pub closed spec fn spec_nav(self) -> ListNav {
        self.nav
    }

    /// New: no hint, no scan yet, nothing being joined.
    pub fn new() -> (w: WifiScreen)
        ensures
            w.spec_hint() is None,
            !w.spec_scanning(),
            w.spec_scan().len() == 0,
            w.spec_pending() is None,
            w.spec_nav() == (ListNav { n: 0, per_page: 8, focus: 0 }),
    {
        WifiScreen { nav: ListNav::new(0, 8), scanning: false, scan: Vec::new(), hint: None, pending: None }
    }

    /// New, with a hint (such as why Wi-Fi is needed).
    pub fn new_with_hint(hint: &str) -> (w: WifiScreen)
        ensures
            w.spec_hint() == Some(hint@),
            !w.spec_scanning(),
            w.spec_scan().len() == 0,
            w.spec_pending() is None,
            w.spec_nav() == (ListNav { n: 0, per_page: 8, focus: 0 }),
    {
        WifiScreen { nav: ListNav::new(0, 8), scanning: false, scan: Vec::new(), hint: Some(owned(hint)), pending: None }
    }
}

/// The Wi-Fi screen, boxed for pushing.
pub fn boxed() -> (b: Box<WifiScreen>)
    ensures
        b.spec_hint() is None,
{
    Box::new(WifiScreen::new())
}

} // verus!
