//! The settings screens: the list of groups, the row-driven pages, battery, about,
//! licences, firmware updates, developer diagnostics and recovery.

use vstd::prelude::*;
use crate::net::OtaInfo;
use crate::keys::{Key, KeyEvent, KeyKind};
use crate::screens::ListNav;
use crate::textutil::owned;

verus! {

/// The settings list: eleven groups.
pub struct SettingsHome {
    /// The rows.
    pub nav: ListNav,
}

impl SettingsHome {
    /// New.
    pub fn new() -> (s: SettingsHome)
        ensures
            s.nav.n == 11,
            s.nav.per_page == 11,
            s.nav.focus == 0,
    {
        SettingsHome { nav: ListNav::new(11, 11) }
    }
}

/// A row of a settings page.
#[derive(Clone, Copy, Debug, PartialEq, Eq, Structural)]
pub enum Row {
    SideKeys,
    SwapSide,
    OrientationFollow,
    LeftHanded,
    Tilt,
    Shake,
    Tap,
    Remote,
    SleepAfter,
    PowerOffAfter,
    SleepScreen,
    LockWhenSleeping,
    PowerRefreshes,
    NightJobs,
    PanelOff,
    Battery,
    BookshopLanguage,
    Clock24,
    Language,
    SetTime,
    SimpleMode,
    Rescan,
    Sources,
    Hostname,
    WifiAtBoot,
}

/// A settings page driven by a row list.
pub struct GenericSettings {
    title: &'static str,
    name: &'static str,
    rows: Vec<Row>,
    nav: ListNav,
}

impl GenericSettings {
    /// The page's title.
    pub closed spec fn spec_title(self) -> Seq<char> {
        self.title@
    }

    /// The page's name.
    pub closed spec fn spec_name(self) -> Seq<char> {
        self.name@
    }

    /// The rows.
    pub closed spec fn spec_rows(self) -> Seq<Row> {
        self.rows@
    }

    /// The list: as many rows, ten to a page, the first focused.
    pub closed spec fn spec_fresh(self) -> bool {
        self.nav.n == self.rows.len() && self.nav.per_page == 10 && self.nav.focus == 0
    }

    /// The list's position: rows, rows per page, focused row.
    pub closed spec fn spec_nav(self) -> (usize, usize, usize) {
        (self.nav.n, self.nav.per_page, self.nav.focus)
    }

    /// A fresh list has a row for each row, ten to a page, the first focused.
    pub proof fn lemma_fresh(self)
        requires
            self.spec_fresh(),
        ensures
            self.spec_nav() == (self.spec_rows().len() as usize, 10usize, 0usize),
    {
    }

    fn make(title: &'static str, name: &'static str, rows: Vec<Row>) -> (g: GenericSettings)
        ensures
            g.spec_title() == title@,
            g.spec_name() == name@,
            g.spec_rows() == rows@,
            g.spec_fresh(),
    {
        let n = rows.len();
        GenericSettings { title, name, rows, nav: ListNav::new(n, 10) }
    }

    /// Bookshop settings.
    pub fn bookshop() -> (g: GenericSettings)
        ensures
            g.spec_title() == "Bookshop"@,
            g.spec_name() == "50-bookshop"@,
            g.spec_rows() == seq![Row::BookshopLanguage],
            g.spec_fresh(),
    {
        let rows = vec![Row::BookshopLanguage];
        assert(rows@ =~= seq![Row::BookshopLanguage]);
        Self::make("Bookshop", "50-bookshop", rows)
    }

    /// Language and time.
    pub fn language_time() -> (g: GenericSettings)
        ensures
            g.spec_title() == "Language and time"@,
            g.spec_name() == "50-language"@,
            g.spec_rows() == seq![Row::Language, Row::Clock24, Row::SetTime, Row::NightJobs],
            g.spec_fresh(),
    {
        let rows = vec![Row::Language, Row::Clock24, Row::SetTime, Row::NightJobs];
        assert(rows@ =~= seq![Row::Language, Row::Clock24, Row::SetTime, Row::NightJobs]);
        Self::make("Language and time", "50-language", rows)
    }

    /// Apps and games.
    pub fn apps() -> (g: GenericSettings)
        ensures
            g.spec_title() == "Apps and games"@,
            g.spec_name() == "50-apps"@,
            g.spec_rows() == seq![Row::SimpleMode],
            g.spec_fresh(),
    {
        let rows = vec![Row::SimpleMode];
        assert(rows@ =~= seq![Row::SimpleMode]);
        Self::make("Apps and games", "50-apps", rows)
    }
}

/// Keys: the device with each key labelled, plus the key options.
pub struct KeysScreen {
    /// The page.
    pub inner: GenericSettings,
}

impl KeysScreen {
    /// New.
    pub fn new() -> (k: KeysScreen)
        ensures
            k.inner.spec_title() == "Keys"@,
            k.inner.spec_name() == "50-keys"@,
            k.inner.spec_rows() == seq![
                Row::SideKeys,
                Row::SwapSide,
                Row::OrientationFollow,
                Row::LeftHanded,
                Row::Tilt,
                Row::Shake,
                Row::Tap,
                Row::Remote,
            ],
            k.inner.spec_fresh(),
    {
        let rows = vec![
            Row::SideKeys,
            Row::SwapSide,
            Row::OrientationFollow,
            Row::LeftHanded,
            Row::Tilt,
            Row::Shake,
            Row::Tap,
            Row::Remote,
        ];
        assert(rows@ =~= seq![
            Row::SideKeys,
            Row::SwapSide,
            Row::OrientationFollow,
            Row::LeftHanded,
            Row::Tilt,
            Row::Shake,
            Row::Tap,
            Row::Remote,
        ]);
        KeysScreen { inner: GenericSettings::make("Keys", "50-keys", rows) }
    }
}

/// Sleep and power.
pub struct SleepPower {
    /// The page.
    pub inner: GenericSettings,
}

impl SleepPower {
    /// New.
    pub fn new() -> (s: SleepPower)
        ensures
            s.inner.spec_title() == "Sleep and power"@,
            s.inner.spec_name() == "50-sleepandpower"@,
            s.inner.spec_rows() == seq![
                Row::SleepScreen,
                Row::SleepAfter,
                Row::PowerOffAfter,
                Row::LockWhenSleeping,
                Row::PowerRefreshes,
                Row::NightJobs,
                Row::PanelOff,
                Row::Battery,
            ],
            s.inner.spec_fresh(),
    {
        let rows = vec![
            Row::SleepScreen,
            Row::SleepAfter,
            Row::PowerOffAfter,
            Row::LockWhenSleeping,
            Row::PowerRefreshes,
            Row::NightJobs,
            Row::PanelOff,
            Row::Battery,
        ];
        assert(rows@ =~= seq![
            Row::SleepScreen,
            Row::SleepAfter,
            Row::PowerOffAfter,
            Row::LockWhenSleeping,
            Row::PowerRefreshes,
            Row::NightJobs,
            Row::PanelOff,
            Row::Battery,
        ]);
        SleepPower { inner: GenericSettings::make("Sleep and power", "50-sleepandpower", rows) }
    }
}

/// Library settings.
pub struct LibrarySettings {
    /// The page.
    pub inner: GenericSettings,
}

impl LibrarySettings {
    /// New.
    pub fn new() -> (l: LibrarySettings)
        ensures
            l.inner.spec_title() == "Library"@,
            l.inner.spec_name() == "50-library"@,
            l.inner.spec_rows() == seq![Row::Sources, Row::Rescan, Row::Hostname, Row::WifiAtBoot],
            l.inner.spec_fresh(),
    {
        let rows = vec![Row::Sources, Row::Rescan, Row::Hostname, Row::WifiAtBoot];
        assert(rows@ =~= seq![Row::Sources, Row::Rescan, Row::Hostname, Row::WifiAtBoot]);
        LibrarySettings { inner: GenericSettings::make("Library", "50-library", rows) }
    }
}

/// The battery page.
pub struct BatteryScreen;

impl BatteryScreen {
    /// New.
    pub fn new() -> (b: BatteryScreen) {
        BatteryScreen
    }
}

/// About: version, storage, check for update, licences.
pub struct About {
    focus: usize,
    checking: bool,
    update: Option<Result<Option<OtaInfo>, String>>,
}

impl About {
    /// The focused row.
    pub closed spec fn spec_focus(self) -> usize {
        self.focus
    }

    /// Checking for an update.
    pub closed spec fn spec_checking(self) -> bool {
        self.checking
    }

    /// No check has finished.
    pub closed spec fn spec_unchecked(self) -> bool {
        self.update is None
    }

    /// New.
    pub fn new() -> (a: About)
        ensures
            a.spec_focus() == 0,
            !a.spec_checking(),
            a.spec_unchecked(),
    {
        About { focus: 0, checking: false, update: None }
    }
}

/// The licences page.
pub struct Licences;

impl Licences {
    /// New.
    pub fn new() -> (l: Licences) {
        Licences
    }
}

/// What a key on the update screen asks for.
#[derive(Debug, PartialEq, Eq)]
pub enum OtaStep {
    /// Nothing.
    Ignore,
    /// Back.
    Pop,
    /// Draw again.
    Redraw,
    /// Download and install the image at this address (or card path).
    Install(String),
}

/// A firmware update: available (notes, Install), installing, done.
pub struct OtaScreen {
    info: Option<OtaInfo>,
    page: usize,
    working: bool,
    done: u64,
    total: u64,
    error: Option<String>,
    finished: bool,
}

impl OtaScreen {
    /// The update offered, if it came from the network.
    pub closed spec fn spec_info(self) -> Option<OtaInfo> {
        self.info
    }

    /// Nothing has started.
    pub closed spec fn spec_idle(self) -> bool {
        self.page == 0 && !self.working && self.done == 0 && self.total == 0 && self.error is None && !self.finished
    }

    /// An update is being downloaded and written.
    pub closed spec fn spec_working(self) -> bool {
        self.working
    }

    /// Idle means the first page of notes, nothing started, no bytes, no error, not
    /// installed.
    pub proof fn lemma_idle(self)
        requires
            self.spec_idle(),
        ensures
            !self.spec_working(),
            self.spec_page() == 0,
            self.spec_progress() == (0u64, 0u64, None::<Seq<char>>, false),
    {
    }

    /// The screen's name: the download in progress, or the offer.
    pub fn name(&self) -> (n: &'static str)
        ensures
            n@ == (if self.spec_working() { "51-ota-working"@ } else { "51-ota-available"@ }),
    {
        if self.working {
            "51-ota-working"
        } else {
            "51-ota-available"
        }
    }

    /// An update from the network.
    pub fn available(info: OtaInfo) -> (o: OtaScreen)
        ensures
            o.spec_info() == Some(info),
            o.spec_idle(),
    {
        OtaScreen { info: Some(info), page: 0, working: false, done: 0, total: 0, error: None, finished: false }
    }

    /// An update from the card.
    pub fn from_card() -> (o: OtaScreen)
        ensures
            o.spec_info() is None,
            o.spec_idle(),
    {
        OtaScreen { info: None, page: 0, working: false, done: 0, total: 0, error: None, finished: false }
    }

    /// The page of notes shown.
    pub closed spec fn spec_page(self) -> usize {
        self.page
    }

    /// Bytes done and in all, the error of the last try, and whether it is installed.
    pub closed spec fn spec_progress(self) -> (u64, u64, Option<Seq<char>>, bool) {
        (self.done, self.total, match self.error {
            Some(e) => Some(e@),
            None => None,
        }, self.finished)
    }

    /// A key press (other kinds, and any key while installing, do nothing): Back pops,
    /// Right and Left page the notes, Confirm installs from the update's address, or
    /// from `/quire/update.bin` on the card.
    pub fn key(&mut self, ev: KeyEvent) -> (s: OtaStep)
        ensures
            final(self).spec_info() == old(self).spec_info(),
            ev.kind != KeyKind::Press || old(self).spec_working() ==> s == OtaStep::Ignore && *final(self) == *old(self),
            ev.kind == KeyKind::Press && !old(self).spec_working() ==> match ev.key {
                Key::Back => s == OtaStep::Pop && *final(self) == *old(self),
                Key::Right => s == OtaStep::Redraw && final(self).spec_page() == (if old(self).spec_page() < usize::MAX {
                    old(self).spec_page() + 1
                } else {
                    old(self).spec_page() as int
                }) && !final(self).spec_working(),
                Key::Left => s == OtaStep::Redraw && final(self).spec_page() == (if old(self).spec_page() > 0 {
                    old(self).spec_page() - 1
                } else {
                    0
                }) && !final(self).spec_working(),
                Key::Confirm => final(self).spec_working() && final(self).spec_progress().2 is None && (s matches OtaStep::Install(url)
                    && url@ == (match old(self).spec_info() {
                    Some(i) => i.url@,
                    None => "/quire/update.bin"@,
                })),
                _ => s == OtaStep::Ignore && *final(self) == *old(self),
            },
    {
        if ev.kind != KeyKind::Press || self.working {
            return OtaStep::Ignore;
        }
        match ev.key {
            Key::Back => OtaStep::Pop,
            Key::Right => {
                if self.page < usize::MAX {
                    self.page = self.page + 1;
                }
                OtaStep::Redraw
            },
            Key::Left => {
                if self.page > 0 {
                    self.page = self.page - 1;
                }
                OtaStep::Redraw
            },
            Key::Confirm => {
                self.working = true;
                self.error = None;
                let url = match &self.info {
                    Some(i) => i.url.clone(),
                    None => owned("/quire/update.bin"),
                };
                OtaStep::Install(url)
            },
            _ => OtaStep::Ignore,
        }
    }

    /// Progress of the install: the counts are kept; success ends the install and asks
    /// whether to restart, a failure ends it with its error.
    pub fn progress(&mut self, done: u64, total: u64, finished: Option<Result<(), String>>) -> (restart_dialog: bool)
        ensures
            final(self).spec_info() == old(self).spec_info(),
            final(self).spec_page() == old(self).spec_page(),
            final(self).spec_progress().0 == done,
            final(self).spec_progress().1 == total,
            restart_dialog == (finished matches Some(Ok(_))),
            match finished {
                Some(Ok(_)) => final(self).spec_progress().3 && !final(self).spec_working()
                    && final(self).spec_progress().2 == old(self).spec_progress().2,
                Some(Err(e)) => !final(self).spec_working() && final(self).spec_progress().2 == Some(e@)
                    && final(self).spec_progress().3 == old(self).spec_progress().3,
                None => final(self).spec_working() == old(self).spec_working() && final(self).spec_progress().2
                    == old(self).spec_progress().2 && final(self).spec_progress().3 == old(self).spec_progress().3,
            },
    {
        self.done = done;
        self.total = total;
        match finished {
            Some(Ok(())) => {
                self.finished = true;
                self.working = false;
                true
            },
            Some(Err(e)) => {
                self.working = false;
                self.error = Some(e);
                false
            },
            None => false,
        }
    }
}

/// Developer diagnostics.
pub struct Developer {
    /// Heap samples.
    pub heap: Vec<u32>,
}

impl Developer {
    /// New: no samples yet.
    pub fn new() -> (d: Developer)
        ensures
            d.heap@.len() == 0,
    {
        Developer { heap: Vec::new() }
    }
}

/// Recovery: why, and two ways on.
pub struct Recovery {
    /// Why recovery was entered.
    pub reason: String,
}

impl Recovery {
    /// New.
    pub fn new(reason: &str) -> (r: Recovery)
        ensures
            r.reason@ == reason@,
    {
        Recovery { reason: owned(reason) }
    }
}

} // verus!
