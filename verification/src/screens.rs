//! The state of the reader's screens and the decisions their keys make. Each screen
//! keeps what it shows between drawings; a key becomes a new state and a step for the
//! platform to carry out (pop, push another screen, ask the platform for something).

use vstd::prelude::*;
use crate::keys::{Key, KeyEvent, KeyKind};
use crate::settings::SleepVariant;
use crate::textutil::{decimal, owned, push_decimal, push_str};

pub mod apps;
pub mod highlights;
pub mod labels;
pub mod library;
pub mod picker;
pub mod setup;
pub mod shop;
pub mod sleep;
pub mod wifi;

verus! {

/// A paged list's position: how many rows, how many fit a page, and the focused row.
pub struct ListNav {
    /// Rows.
    pub n: usize,
    /// Rows per page.
    pub per_page: usize,
    /// The focused row.
    pub focus: usize,
}

impl ListNav {
    /// A list of `n` rows, `per_page` to a page, the first focused.
    pub fn new(n: usize, per_page: usize) -> (l: ListNav)
        ensures
            l.n == n,
            l.per_page == per_page,
            l.focus == 0,
    {
        ListNav { n, per_page, focus: 0 }
    }
}

/// A value handed to the screen beneath when a picker or keyboard pops.
#[derive(Clone, Debug, PartialEq, Eq)]
pub enum Result_ {
    /// Text entered.
    Text(String),
    /// A choice index.
    Choice(usize),
    /// Cancelled.
    Cancel,
    /// A book chosen, by its id.
    Book(u64),
}

/// What a key asks of a dialog.
pub enum DialogStep {
    /// Nothing.
    Ignore,
    /// Close, handing this to the screen beneath.
    PopWith(Result_),
}

/// A two-action dialog card over the screen beneath.
pub struct Dialog {
    /// Title.
    pub title: String,
    /// Body text.
    pub body: String,
    /// The cancel action's label.
    pub cancel: String,
    /// The confirm action's label.
    pub confirm: String,
    /// What to hand the parent when confirmed.
    pub on_confirm: Result_,
}

impl Dialog {
    /// A dialog whose confirmation pops with `Result_::Choice(1)` (cancel gives `Cancel`).
    pub fn new(title: &str, body: &str, cancel: &str, confirm: &str) -> (d: Dialog)
        ensures
            d.title@ == title@,
            d.body@ == body@,
            d.cancel@ == cancel@,
            d.confirm@ == confirm@,
            d.on_confirm == Result_::Choice(1),
    {
        Dialog {
            title: owned(title),
            body: owned(body),
            cancel: owned(cancel),
            confirm: owned(confirm),
            on_confirm: Result_::Choice(1),
        }
    }

    /// A dialog that hands back a specific result on confirm.
    pub fn with_result(self, r: Result_) -> (d: Dialog)
        ensures
            d == (Dialog { on_confirm: r, ..self }),
    {
        Dialog { on_confirm: r, ..self }
    }

    /// A key: Back cancels, Confirm hands back the confirm result, presses only.
    pub fn key(&self, ev: KeyEvent) -> (step: DialogStep)
        ensures
            ev.kind != KeyKind::Press ==> step is Ignore,
            ev.kind == KeyKind::Press && ev.key == Key::Back ==> step == DialogStep::PopWith(Result_::Cancel),
            ev.kind == KeyKind::Press && ev.key == Key::Confirm ==> step == DialogStep::PopWith(self.on_confirm),
            ev.kind == KeyKind::Press && ev.key != Key::Back && ev.key != Key::Confirm ==> step is Ignore,
    {
        if ev.kind != KeyKind::Press {
            return DialogStep::Ignore;
        }
        match ev.key {
            Key::Back => DialogStep::PopWith(Result_::Cancel),
            Key::Confirm => DialogStep::PopWith(copy_result(&self.on_confirm)),
            _ => DialogStep::Ignore,
        }
    }
}

/// A copy of a result.
fn copy_result(r: &Result_) -> (c: Result_)
    ensures
        c == *r,
{
    match r {
        Result_::Text(t) => Result_::Text(t.clone()),
        Result_::Choice(i) => Result_::Choice(*i),
        Result_::Cancel => Result_::Cancel,
        Result_::Book(b) => Result_::Book(*b),
    }
}

/// A working card: title, subtitle, progress.
pub struct Working {
    /// Title.
    pub title: String,
    /// Subtitle.
    pub subtitle: String,
    /// Progress in 1/1000.
    pub permille: u32,
    /// Status line.
    pub status: String,
}

impl Working {
    /// New, with no progress yet.
    pub fn new(title: &str, subtitle: &str, status: &str) -> (w: Working)
        ensures
            w.title@ == title@,
            w.subtitle@ == subtitle@,
            w.permille == 0,
            w.status@ == status@,
    {
        Working { title: owned(title), subtitle: owned(subtitle), permille: 0, status: owned(status) }
    }

    /// Update progress.
    pub fn set(&mut self, permille: u32, status: &str)
        ensures
            final(self).permille == permille,
            final(self).status@ == status@,
            final(self).title == old(self).title,
            final(self).subtitle == old(self).subtitle,
    {
        self.permille = permille;
        self.status = owned(status);
    }
}

/// The boot screen, shown while the library is indexed.
pub struct Boot {
    /// Progress text.
    pub status: String,
    /// Progress in 1/1000.
    pub permille: u32,
}

/// "Indexing 3 of 7 books".
pub open spec fn indexing_text(done: u32, total: u32) -> Seq<char> {
    "Indexing "@ + decimal(done as nat) + " of "@ + decimal(total as nat) + " books"@
}

impl Boot {
    /// New.
    pub fn new(status: &str) -> (b: Boot)
        ensures
            b.status@ == status@,
            b.permille == 0,
    {
        Boot { status: owned(status), permille: 0 }
    }

    /// Indexing progress: `done` of `total` books (the thousandths truncated to 32 bits).
    pub fn ingest(&mut self, done: u32, total: u32)
        ensures
            final(self).permille == (if total > 0 { (done as int * 1000 / total as int) as u32 } else { 0u32 }),
            final(self).status@ == indexing_text(done, total),
    {
        self.permille = if total > 0 { (done as u64 * 1000 / total as u64) as u32 } else { 0 };
        let mut s = String::new();
        push_str(&mut s, "Indexing ");
        push_decimal(&mut s, done as u64);
        push_str(&mut s, " of ");
        push_decimal(&mut s, total as u64);
        push_str(&mut s, " books");
        assert(s@ =~= indexing_text(done, total));
        self.status = s;
    }
}

/// The keys-locked strip over the page; it goes at the first tick after it was shown.
pub struct LockedStrip {
    shown: bool,
}

impl LockedStrip {
    /// Whether it has been drawn.
    pub closed spec fn spec_shown(self) -> bool {
        self.shown
    }

    /// New.
    pub fn new() -> (s: LockedStrip)
        ensures
            !s.spec_shown(),
    {
        LockedStrip { shown: false }
    }

    /// It was drawn.
    pub fn drawn(&mut self)
        ensures
            final(self).spec_shown(),
    {
        self.shown = true;
    }

    /// A tick or timer: true when the strip should go.
    pub fn tick(&self) -> (pop: bool)
        ensures
            pop == self.spec_shown(),
    {
        self.shown
    }
}

/// What a key asks of the power menu.
#[derive(Clone, Copy, Debug, PartialEq, Eq, Structural)]
pub enum PowerStep {
    /// Nothing.
    Ignore,
    /// Close the menu.
    Pop,
    /// Replace the menu with the sleep screen.
    Sleep,
    /// A full refresh.
    RefreshFull,
    /// Ask before powering off.
    AskPowerOff,
    /// Ask before restarting.
    AskRestart,
    /// Turn Wi-Fi on.
    WifiOn,
    /// Turn Wi-Fi off.
    WifiOff,
    /// Lock the keys.
    LockKeys,
    /// Power off (confirmed).
    PowerOff,
    /// Restart (confirmed).
    Restart,
    /// Redraw.
    Redraw,
}

/// The power menu on the compass layout.
pub struct PowerMenu;

impl PowerMenu {
    /// New.
    pub fn new() -> (p: PowerMenu) {
        PowerMenu
    }

    /// A key: Back closes, Left sleeps, Confirm refreshes (held: asks to power off),
    /// Right asks to restart, Up turns Wi-Fi on or off, Down locks the keys.
    pub fn key(&self, ev: KeyEvent, wifi_off: bool) -> (s: PowerStep)
        ensures
            s == (match (ev.key, ev.kind) {
                (Key::Back, KeyKind::Press) => PowerStep::Pop,
                (Key::Left, KeyKind::Press) => PowerStep::Sleep,
                (Key::Confirm, KeyKind::Press) => PowerStep::RefreshFull,
                (Key::Confirm, KeyKind::Long) => PowerStep::AskPowerOff,
                (Key::Right, KeyKind::Press) => PowerStep::AskRestart,
                (Key::Up, KeyKind::Press) => if wifi_off { PowerStep::WifiOn } else { PowerStep::WifiOff },
                (Key::Down, KeyKind::Press) => PowerStep::LockKeys,
                _ => PowerStep::Ignore,
            }),
    {
        match (ev.key, ev.kind) {
            (Key::Back, KeyKind::Press) => PowerStep::Pop,
            (Key::Left, KeyKind::Press) => PowerStep::Sleep,
            (Key::Confirm, KeyKind::Press) => PowerStep::RefreshFull,
            (Key::Confirm, KeyKind::Long) => PowerStep::AskPowerOff,
            (Key::Right, KeyKind::Press) => PowerStep::AskRestart,
            (Key::Up, KeyKind::Press) => if wifi_off {
                PowerStep::WifiOn
            } else {
                PowerStep::WifiOff
            },
            (Key::Down, KeyKind::Press) => PowerStep::LockKeys,
            _ => PowerStep::Ignore,
        }
    }

    /// The answer of a confirmation: choice 1 powers off, choice 2 restarts.
    pub fn result(&self, choice: Option<usize>) -> (s: PowerStep)
        ensures
            s == (match choice {
                Some(1) => PowerStep::PowerOff,
                Some(2) => PowerStep::Restart,
                _ => PowerStep::Redraw,
            }),
    {
        match choice {
            Some(1) => PowerStep::PowerOff,
            Some(2) => PowerStep::Restart,
            _ => PowerStep::Redraw,
        }
    }
}

/// The contents screen.
pub struct Contents {
    nav: ListNav,
    ready: bool,
}

impl Contents {
    /// Nothing listed yet.
    pub closed spec fn spec_ready(self) -> bool {
        self.ready
    }

    /// The list's position.
    pub closed spec fn spec_nav(self) -> ListNav {
        self.nav
    }

    /// New.
    pub fn new() -> (c: Contents)
        ensures
            !c.spec_ready(),
            c.spec_nav() == (ListNav { n: 0, per_page: 1, focus: 0 }),
    {
        Contents { nav: ListNav::new(0, 1), ready: false }
    }
}

/// The dictionary screen for a word.
pub struct Dictionary {
    word: String,
    dicts: Vec<String>,
    which: usize,
    headword: String,
    text: String,
    source: String,
    pages: Vec<Vec<String>>,
    page: usize,
    wiki: bool,
    loaded: bool,
}

impl Dictionary {
    /// The word looked up.
    pub closed spec fn spec_word(self) -> Seq<char> {
        self.word@
    }

    /// Whether the entry has been looked up.
    pub closed spec fn spec_loaded(self) -> bool {
        self.loaded
    }

    /// New, for `word`; the lookup happens on the first drawing.
    pub fn new(word: String) -> (d: Dictionary)
        ensures
            d.spec_word() == word@,
            !d.spec_loaded(),
    {
        Dictionary {
            word,
            dicts: Vec::new(),
            which: 0,
            headword: String::new(),
            text: String::new(),
            source: String::new(),
            pages: Vec::new(),
            page: 0,
            wiki: false,
            loaded: false,
        }
    }
}

/// The Drop screen (send books from a phone).
pub struct DropScreen {
    started: bool,
}

/// What a key asks of the Drop page.
#[derive(Clone, Copy, Debug, PartialEq, Eq, Structural)]
pub enum DropStep {
    /// Nothing.
    Ignore,
    /// Close.
    Pop,
    /// Open the Wi-Fi screen.
    Wifi,
    /// Ask the platform for its hotspot.
    Hotspot,
}

/// What the Drop page asks of the platform when first shown.
#[derive(Clone, Copy, Debug, PartialEq, Eq, Structural)]
pub enum DropRequest {
    /// Raise the device's own hotspot.
    Hotspot,
    /// Turn Wi-Fi on.
    WifiOn,
}

impl DropScreen {
    /// The page has been shown once.
    pub closed spec fn spec_started(self) -> bool {
        self.started
    }

    /// New: turns Wi-Fi on (or the hotspot) when first shown.
    pub fn new() -> (d: DropScreen)
        ensures
            !d.spec_started(),
    {
        DropScreen { started: false }
    }

    /// The first drawing: with Wi-Fi off, the page joins a saved network (Wi-Fi on) or,
    /// with none saved, raises its own hotspot. Later drawings ask for nothing.
    pub fn first_draw(&mut self, wifi_off: bool, has_saved: bool) -> (r: Option<DropRequest>)
        ensures
            old(self).spec_started() ==> r is None && *final(self) == *old(self),
            !old(self).spec_started() ==> final(self).spec_started() && r == (if wifi_off {
                Some(if has_saved { DropRequest::WifiOn } else { DropRequest::Hotspot })
            } else {
                None
            }),
    {
        if self.started {
            return None;
        }
        self.started = true;
        if wifi_off {
            Some(if has_saved { DropRequest::WifiOn } else { DropRequest::Hotspot })
        } else {
            None
        }
    }

    /// A press: Back closes, Confirm or Up opens Wi-Fi, Right or Down starts the hotspot.
    pub fn key(&self, ev: KeyEvent) -> (s: DropStep)
        ensures
            ev.kind != KeyKind::Press ==> s == DropStep::Ignore,
            ev.kind == KeyKind::Press ==> s == match ev.key {
                Key::Back => DropStep::Pop,
                Key::Confirm | Key::Up => DropStep::Wifi,
                Key::Right | Key::Down => DropStep::Hotspot,
                _ => DropStep::Ignore,
            },
    {
        if ev.kind != KeyKind::Press {
            return DropStep::Ignore;
        }
        match ev.key {
            Key::Back => DropStep::Pop,
            Key::Confirm | Key::Up => DropStep::Wifi,
            Key::Right | Key::Down => DropStep::Hotspot,
            _ => DropStep::Ignore,
        }
    }
}

/// What a key asks of the end-of-book poster.
#[derive(Clone, Copy, Debug, PartialEq, Eq, Structural)]
pub enum EndStep {
    /// Nothing.
    Ignore,
    /// Close the poster.
    Pop,
    /// Replace it with the library.
    Library,
    /// Open the next book in the series.
    OpenNext,
    /// Redraw.
    Redraw,
    /// Store the rating (the poster's stars) and redraw.
    Rate(u8),
}

/// The end-of-book poster: rate, go on to the next in the series, or to the library.
pub struct EndOfBook {
    focus: usize,
    stars: u8,
}

impl EndOfBook {
    /// The focused row: 0 the stars, then the next book (when there is one), then the
    /// library.
    pub closed spec fn spec_focus(self) -> usize {
        self.focus
    }

    /// The rating given.
    pub closed spec fn spec_stars(self) -> u8 {
        self.stars
    }

    /// The focus is on a row.
    pub closed spec fn inv(self) -> bool {
        self.focus < 3 && self.stars <= 5
    }

    /// New.
    pub fn new() -> (e: EndOfBook)
        ensures
            e.inv(),
            e.spec_focus() == 0,
            e.spec_stars() == 0,
    {
        EndOfBook { focus: 0, stars: 0 }
    }

    /// A key, with or without a next book in the series: Up and Down move round the
    /// rows, Confirm on the stars adds one (from five back to one), on the next book opens
    /// it, and on the library goes there; Left goes to the library, Right to the next
    /// book (or the library).
    pub fn key(&mut self, ev: KeyEvent, has_next: bool) -> (s: EndStep)
        requires
            old(self).inv(),
        ensures
            final(self).inv(),
            ({
                let rows: int = if has_next { 2 } else { 1 };
                let f = old(self).spec_focus() as int;
                if ev.kind != KeyKind::Press {
                    s == EndStep::Ignore && *final(self) == *old(self)
                } else {
                    match ev.key {
                        Key::Back => s == EndStep::Pop && *final(self) == *old(self),
                        Key::Left => s == EndStep::Library && *final(self) == *old(self),
                        Key::Right => s == (if has_next { EndStep::OpenNext } else { EndStep::Library }) && *final(self)
                            == *old(self),
                        Key::Up => s == EndStep::Redraw && final(self).spec_focus() == (f + rows) % (rows + 1)
                            && final(self).spec_stars() == old(self).spec_stars(),
                        Key::Down => s == EndStep::Redraw && final(self).spec_focus() == (f + 1) % (rows + 1)
                            && final(self).spec_stars() == old(self).spec_stars(),
                        Key::Confirm => if f == 0 {
                            let st: u8 = if old(self).spec_stars() >= 5 { 1 } else { (old(self).spec_stars() + 1) as u8 };
                            s == EndStep::Rate(st) && final(self).spec_stars() == st && final(self).spec_focus()
                                == old(self).spec_focus()
                        } else if f == 1 && has_next {
                            s == EndStep::OpenNext && *final(self) == *old(self)
                        } else {
                            s == EndStep::Library && *final(self) == *old(self)
                        },
                        Key::Power => s == EndStep::Ignore && *final(self) == *old(self),
                    }
                }
            }),
    {
        if ev.kind != KeyKind::Press {
            return EndStep::Ignore;
        }
        let rows: usize = if has_next { 2 } else { 1 };
        match ev.key {
            Key::Back => EndStep::Pop,
            Key::Left => EndStep::Library,
            Key::Right => if has_next {
                EndStep::OpenNext
            } else {
                EndStep::Library
            },
            Key::Up => {
                self.focus = (self.focus + rows) % (rows + 1);
                EndStep::Redraw
            },
            Key::Down => {
                self.focus = (self.focus + 1) % (rows + 1);
                EndStep::Redraw
            },
            Key::Confirm => {
                if self.focus == 0 {
                    self.stars = if self.stars >= 5 { 1 } else { self.stars + 1 };
                    EndStep::Rate(self.stars)
                } else if self.focus == 1 && has_next {
                    EndStep::OpenNext
                } else {
                    EndStep::Library
                }
            },
            Key::Power => EndStep::Ignore,
        }
    }
}

/// What a key asks of the go-to screen.
#[derive(Clone, Copy, Debug, PartialEq, Eq, Structural)]
pub enum GoToStep {
    /// Nothing.
    Ignore,
    /// Close the screen.
    Pop,
    /// Redraw.
    Redraw,
    /// Go to the chosen place (by the focused row) and back to the page.
    Go,
}

/// The go-to screen: a percentage, a chapter or a bookmark.
pub struct GoTo {
    percent: u32,
    chapter: usize,
    bookmark: usize,
    focus: usize,
    init: bool,
}

impl GoTo {
    /// The percentage row's value.
    pub closed spec fn spec_percent(self) -> u32 {
        self.percent
    }

    /// The chosen chapter.
    pub closed spec fn spec_chapter(self) -> usize {
        self.chapter
    }

    /// The chosen bookmark.
    pub closed spec fn spec_bookmark(self) -> usize {
        self.bookmark
    }

    /// The focused row: 0 percentage, 1 chapter, 2 bookmark.
    pub closed spec fn spec_focus(self) -> usize {
        self.focus
    }

    /// The percentage has been set from the page.
    pub closed spec fn spec_init(self) -> bool {
        self.init
    }

    /// The focus is on a row and the percentage at most 100.
    pub closed spec fn inv(self) -> bool {
        self.focus < 3 && self.percent <= 100
    }

    /// New.
    pub fn new() -> (g: GoTo)
        ensures
            g.inv(),
            g.spec_percent() == 0,
            g.spec_chapter() == 0,
            g.spec_bookmark() == 0,
            g.spec_focus() == 0,
    {
        GoTo { percent: 0, chapter: 0, bookmark: 0, focus: 0, init: false }
    }

    /// Start at the page's percentage, once.
    pub fn init(&mut self, percent: u32)
        requires
            old(self).inv(),
        ensures
            final(self).inv(),
            !old(self).spec_init() ==> final(self).spec_percent() == (if percent > 100 { 100 } else { percent }),
            old(self).spec_init() ==> final(self).spec_percent() == old(self).spec_percent(),
            final(self).spec_init(),
            final(self).spec_focus() == old(self).spec_focus(),
    {
        if !self.init {
            self.percent = if percent > 100 { 100 } else { percent };
            self.init = true;
        }
    }

    /// A key, given the book's chapters and bookmarks: Up and Down move between the rows;
    /// Left and Right change the focused value (the percentage by one, by five when held,
    /// within 0 to 100; the chapter and bookmark wrapping round); Confirm goes there.
    pub fn key(&mut self, ev: KeyEvent, chapters: usize, bookmarks: usize) -> (s: GoToStep)
        requires
            old(self).inv(),
            old(self).spec_chapter() < chapters || chapters == 0,
            old(self).spec_bookmark() < bookmarks || bookmarks == 0,
        ensures
            final(self).inv(),
            ev.kind == KeyKind::Release ==> s == GoToStep::Ignore && *final(self) == *old(self),
            ev.kind != KeyKind::Release ==> match ev.key {
                Key::Back => if ev.kind == KeyKind::Press {
                    s == GoToStep::Pop
                } else {
                    s == GoToStep::Ignore
                },
                Key::Up => s == GoToStep::Redraw && final(self).spec_focus() == (old(self).spec_focus() + 2) % 3,
                Key::Down => s == GoToStep::Redraw && final(self).spec_focus() == (old(self).spec_focus() + 1) % 3,
                Key::Left | Key::Right => {
                    let step: int = if ev.kind == KeyKind::Press { 1 } else { 5 };
                    let fwd = ev.key == Key::Right;
                    let p = old(self).spec_percent() as int;
                    &&& s == GoToStep::Redraw
                    &&& final(self).spec_focus() == old(self).spec_focus()
                    &&& final(self).spec_percent() == (if old(self).spec_focus() == 0 {
                        if fwd {
                            if p + step > 100 { 100 } else { p + step }
                        } else {
                            if p < step { 0 } else { p - step }
                        }
                    } else {
                        p
                    })
                    &&& final(self).spec_chapter() == (if old(self).spec_focus() == 1 && chapters > 0 {
                        if fwd {
                            (old(self).spec_chapter() + 1) % chapters as int
                        } else {
                            (old(self).spec_chapter() + chapters - 1) % chapters as int
                        }
                    } else {
                        old(self).spec_chapter() as int
                    })
                    &&& final(self).spec_bookmark() == (if old(self).spec_focus() == 2 && bookmarks > 0 {
                        if fwd {
                            (old(self).spec_bookmark() + 1) % bookmarks as int
                        } else {
                            (old(self).spec_bookmark() + bookmarks - 1) % bookmarks as int
                        }
                    } else {
                        old(self).spec_bookmark() as int
                    })
                },
                Key::Confirm => if ev.kind == KeyKind::Press {
                    s == GoToStep::Go
                } else {
                    s == GoToStep::Ignore
                },
                Key::Power => s == GoToStep::Ignore,
            },
            s == GoToStep::Ignore || s == GoToStep::Pop || s == GoToStep::Go ==> *final(self) == *old(self),
            final(self).spec_chapter() < chapters || chapters == 0,
            final(self).spec_bookmark() < bookmarks || bookmarks == 0,
    {
        if ev.kind == KeyKind::Release {
            return GoToStep::Ignore;
        }
        match ev.key {
            Key::Back => if ev.kind == KeyKind::Press {
                GoToStep::Pop
            } else {
                GoToStep::Ignore
            },
            Key::Up => {
                self.focus = (self.focus + 2) % 3;
                GoToStep::Redraw
            },
            Key::Down => {
                self.focus = (self.focus + 1) % 3;
                GoToStep::Redraw
            },
            Key::Left | Key::Right => {
                let step: u32 = if ev.kind == KeyKind::Press { 1 } else { 5 };
                let fwd = ev.key == Key::Right;
                if self.focus == 0 {
                    self.percent = if fwd {
                        if self.percent + step > 100 { 100 } else { self.percent + step }
                    } else {
                        if self.percent < step { 0 } else { self.percent - step }
                    };
                } else if self.focus == 1 && chapters > 0 {
                    self.chapter = if fwd { (self.chapter + 1) % chapters } else { back_one(self.chapter, chapters) };
                } else if self.focus == 2 && bookmarks > 0 {
                    self.bookmark = if fwd {
                        (self.bookmark + 1) % bookmarks
                    } else {
                        back_one(self.bookmark, bookmarks)
                    };
                }
                GoToStep::Redraw
            },
            Key::Confirm => if ev.kind == KeyKind::Press {
                GoToStep::Go
            } else {
                GoToStep::Ignore
            },
            Key::Power => GoToStep::Ignore,
        }
    }
}

/// One back from `i` among `n`, wrapping: `(i + n - 1) % n`.
pub fn back_one(i: usize, n: usize) -> (r: usize)
    requires
        i < n,
    ensures
        r == (i + n - 1) % n as int,
        r < n,
{
    proof {
        vstd::arithmetic::div_mod::lemma_mod_add_multiples_vanish(i - 1, n as int);
        if i > 0 {
            vstd::arithmetic::div_mod::lemma_small_mod((i - 1) as nat, n as nat);
        } else {
            vstd::arithmetic::div_mod::lemma_small_mod((n - 1) as nat, n as nat);
        }
    }
    if i == 0 {
        n - 1
    } else {
        i - 1
    }
}

/// How a list row is drawn.
#[derive(Clone, Copy, Debug, PartialEq, Eq, Structural)]
pub enum RowState {
    /// Plain.
    Normal,
    /// The focused row, inverted.
    Focused,
    /// Greyed out.
    Disabled,
}

/// A row's state by focus: focused or plain.
pub fn row_state(focused: bool) -> (r: RowState)
    ensures
        r == (if focused { RowState::Focused } else { RowState::Normal }),
{
    if focused {
        RowState::Focused
    } else {
        RowState::Normal
    }
}

/// The reading page.
pub struct ReadingScreen {
    skimming: bool,
    idle_ticks: u8,
}

impl ReadingScreen {
    /// Skimming pages (fast turns).
    pub closed spec fn spec_skimming(self) -> bool {
        self.skimming
    }

    /// Ticks since the last key.
    pub closed spec fn spec_idle_ticks(self) -> u8 {
        self.idle_ticks
    }

    /// New: not skimming, no idle ticks.
    pub fn new() -> (r: ReadingScreen)
        ensures
            !r.spec_skimming(),
            r.spec_idle_ticks() == 0,
    {
        ReadingScreen { skimming: false, idle_ticks: 0 }
    }

    /// A key on the reading page (see [`read_action`] and [`skims_after`]): `has_book`
    /// whether a book is open, `side_chapters` whether the side keys turn chapters,
    /// `swapped` whether the side keys are swapped, `at_end` whether the page is the
    /// book's last, `has_return` whether a jump can be returned from.
    pub fn key(&mut self, ev: KeyEvent, has_book: bool, side_chapters: bool, swapped: bool, at_end: bool, has_return: bool) -> (a: ReadAction)
        ensures
            a == read_action(ev, old(self).spec_skimming(), has_book, side_chapters, swapped, at_end, has_return),
            final(self).spec_skimming() == skims_after(ev, old(self).spec_skimming(), has_book),
            final(self).spec_idle_ticks() == old(self).spec_idle_ticks(),
    {
        if !has_book {
            if ev.kind != KeyKind::Press {
                return ReadAction::Ignore;
            }
            return match ev.key {
                Key::Back => ReadAction::Home,
                Key::Confirm | Key::Left => ReadAction::Library,
                Key::Right => ReadAction::Shop,
                Key::Up => ReadAction::Drop,
                Key::Down => ReadAction::Stats,
                Key::Power => ReadAction::Ignore,
            };
        }
        let (up, down) = if swapped { (Key::Down, Key::Up) } else { (Key::Up, Key::Down) };
        let held = ev.kind == KeyKind::Long || ev.kind == KeyKind::Repeat;
        if ev.kind == KeyKind::Press {
            if ev.key == Key::Right {
                if self.skimming {
                    ReadAction::Ignore
                } else if at_end {
                    ReadAction::EndOfBook
                } else {
                    ReadAction::NextPage
                }
            } else if ev.key == Key::Left {
                ReadAction::PrevPage
            } else if ev.key == down {
                if side_chapters {
                    ReadAction::NextChapter
                } else if at_end {
                    ReadAction::Ignore
                } else {
                    ReadAction::NextPage
                }
            } else if ev.key == up {
                if side_chapters {
                    ReadAction::PrevChapter
                } else {
                    ReadAction::PrevPage
                }
            } else if ev.key == Key::Back {
                if has_return {
                    ReadAction::Return
                } else {
                    ReadAction::Home
                }
            } else if ev.key == Key::Confirm {
                ReadAction::Compass
            } else {
                ReadAction::Ignore
            }
        } else if held && ev.key == Key::Right {
            self.skimming = true;
            ReadAction::SkimPage
        } else if ev.kind == KeyKind::Release && ev.key == Key::Right {
            if self.skimming {
                self.skimming = false;
                ReadAction::SkimEnd
            } else {
                ReadAction::Ignore
            }
        } else if held && ev.key == down {
            ReadAction::NextChapter
        } else if held && ev.key == up {
            ReadAction::PrevChapter
        } else if ev.kind == KeyKind::Long && ev.key == Key::Confirm {
            ReadAction::WordCursor
        } else {
            ReadAction::Ignore
        }
    }
}

/// What a key on the reading page asks for.
#[derive(Clone, Copy, Debug, PartialEq, Eq, Structural)]
pub enum ReadAction {
    /// Nothing.
    Ignore,
    /// The Home layer.
    Home,
    /// The library (no book open).
    Library,
    /// The bookshop (no book open).
    Shop,
    /// The Drop page (no book open).
    Drop,
    /// Reading statistics (no book open).
    Stats,
    /// Turn to the next page, then redraw.
    NextPage,
    /// Turn to the previous page, then redraw.
    PrevPage,
    /// Go to the next chapter, then redraw.
    NextChapter,
    /// Go to the previous chapter (or this one's start), then redraw.
    PrevChapter,
    /// The book is finished: record it and show the end-of-book screen.
    EndOfBook,
    /// Skimming: turn a page while Right is held.
    SkimPage,
    /// Skimming ended: a full refresh.
    SkimEnd,
    /// Back to where the last jump left.
    Return,
    /// The compass.
    Compass,
    /// The word cursor.
    WordCursor,
}

/// What a key on the reading page asks for. With no book: Back opens Home, Confirm and
/// Left the library, Right the shop, Up the Drop page, Down the statistics (presses
/// only). With a book: Right turns the page (the end-of-book screen at the last page,
/// nothing while skimming), Left turns back; the lower side key (the upper when swapped)
/// turns the page, or the chapter when the side keys turn chapters (nothing at the last
/// page); the other side key turns back likewise; holding Right skims, releasing it ends
/// the skim; holding a side key moves by chapters; Back returns from a jump or opens
/// Home; Confirm opens the compass and a long Confirm the word cursor.
pub open spec fn read_action(ev: KeyEvent, skimming: bool, has_book: bool, side_chapters: bool, swapped: bool, at_end: bool, has_return: bool) -> ReadAction {
    let down = if swapped { Key::Up } else { Key::Down };
    let up = if swapped { Key::Down } else { Key::Up };
    let held = ev.kind == KeyKind::Long || ev.kind == KeyKind::Repeat;
    if !has_book {
        if ev.kind != KeyKind::Press {
            ReadAction::Ignore
        } else {
            match ev.key {
                Key::Back => ReadAction::Home,
                Key::Confirm | Key::Left => ReadAction::Library,
                Key::Right => ReadAction::Shop,
                Key::Up => ReadAction::Drop,
                Key::Down => ReadAction::Stats,
                Key::Power => ReadAction::Ignore,
            }
        }
    } else if ev.kind == KeyKind::Press {
        if ev.key == Key::Right {
            if skimming {
                ReadAction::Ignore
            } else if at_end {
                ReadAction::EndOfBook
            } else {
                ReadAction::NextPage
            }
        } else if ev.key == Key::Left {
            ReadAction::PrevPage
        } else if ev.key == down {
            if side_chapters {
                ReadAction::NextChapter
            } else if at_end {
                ReadAction::Ignore
            } else {
                ReadAction::NextPage
            }
        } else if ev.key == up {
            if side_chapters {
                ReadAction::PrevChapter
            } else {
                ReadAction::PrevPage
            }
        } else if ev.key == Key::Back {
            if has_return {
                ReadAction::Return
            } else {
                ReadAction::Home
            }
        } else if ev.key == Key::Confirm {
            ReadAction::Compass
        } else {
            ReadAction::Ignore
        }
    } else if held && ev.key == Key::Right {
        ReadAction::SkimPage
    } else if ev.kind == KeyKind::Release && ev.key == Key::Right {
        if skimming {
            ReadAction::SkimEnd
        } else {
            ReadAction::Ignore
        }
    } else if held && ev.key == down {
        ReadAction::NextChapter
    } else if held && ev.key == up {
        ReadAction::PrevChapter
    } else if ev.kind == KeyKind::Long && ev.key == Key::Confirm {
        ReadAction::WordCursor
    } else {
        ReadAction::Ignore
    }
}

/// Whether the page is skimming after a key: holding Right starts, releasing it stops.
pub open spec fn skims_after(ev: KeyEvent, skimming: bool, has_book: bool) -> bool {
    if !has_book || ev.key != Key::Right {
        skimming
    } else if ev.kind == KeyKind::Long || ev.kind == KeyKind::Repeat {
        true
    } else if ev.kind == KeyKind::Release {
        false
    } else {
        skimming
    }
}

/// The compass over the page.
pub struct Compass {
    /// The second page of choices.
    pub more: bool,
}

impl Compass {
    /// New, on the first or the second page of choices.
    pub fn new(more: bool) -> (c: Compass)
        ensures
            c.more == more,
    {
        Compass { more }
    }
}

/// The Home layer over the page.
pub struct HomeLayer {
    /// The focused recent book.
    pub focus: usize,
}

impl HomeLayer {
    /// New.
    pub fn new() -> (h: HomeLayer)
        ensures
            h.focus == 0,
    {
        HomeLayer { focus: 0 }
    }
}

/// A footnote card over the lower third.
pub struct FootnoteCard {
    /// The note's label.
    pub label: String,
    /// The note's text.
    pub text: String,
    /// Where the note lives in the book.
    pub target: String,
    /// Page of the card.
    pub page: usize,
}

/// What a sleep screen's draw left in the frame, which decides what a minute tick does.
#[derive(Clone, Copy, Debug, PartialEq, Eq, Structural)]
pub enum Drawn {
    /// Nothing on it tells the time.
    Still,
    /// It shows the time: redraw every minute.
    Timed,
    /// It changes with the day (a finish-by poster, the quote of the day).
    Daily(u16),
    /// An image, with a clock slot when `clock`: a tick repaints just the slot.
    Image {
        /// Whether the time is drawn in the image's slot.
        clock: bool,
    },
}

/// What a sleep variant's draw leaves in the frame: the Poster is a clock without a
/// book and changes with the day with one; the Quote changes with the day; the Images
/// variant shows an image (with its clock when the clock is on), or the still empty
/// state when none can be read; the others stay still.
pub open spec fn schedule_of(v: SleepVariant, has_book: bool, today: u16, image_shown: bool, clock: bool) -> Drawn {
    match v {
        SleepVariant::Poster => if has_book {
            Drawn::Daily(today)
        } else {
            Drawn::Timed
        },
        SleepVariant::Quote => Drawn::Daily(today),
        SleepVariant::Custom => if image_shown {
            Drawn::Image { clock }
        } else {
            Drawn::Still
        },
        _ => Drawn::Still,
    }
}

/// The repaint schedule of a sleep variant's frame (see [`schedule_of`]).
pub fn redraw_schedule(v: SleepVariant, has_book: bool, today: u16, image_shown: bool, clock: bool) -> (d: Drawn)
    ensures
        d == schedule_of(v, has_book, today, image_shown, clock),
{
    match v {
        SleepVariant::Poster => if has_book {
            Drawn::Daily(today)
        } else {
            Drawn::Timed
        },
        SleepVariant::Quote => Drawn::Daily(today),
        SleepVariant::Custom => if image_shown {
            Drawn::Image { clock }
        } else {
            Drawn::Still
        },
        _ => Drawn::Still,
    }
}

/// What the sleep screen draws: the charging face, the empty-battery face, or a variant.
#[derive(Clone, Copy, Debug, PartialEq, Eq, Structural)]
pub enum SleepFace {
    /// The charge level.
    Charging,
    /// "Battery empty".
    Empty,
    /// This sleep variant.
    Variant(SleepVariant),
}

/// What the sleep screen hears from the platform.
#[derive(Clone, Copy, Debug, PartialEq, Eq, Structural)]
pub enum SleepEvent {
    /// The device woke.
    Wake,
    /// The preview's timer ran out.
    Timer,
    /// The battery changed.
    Battery,
}

/// What the sleep screen does with an event.
#[derive(Clone, Copy, Debug, PartialEq, Eq, Structural)]
pub enum SleepEventAction {
    /// Nothing.
    Nothing,
    /// Close the screen.
    Pop,
    /// Draw again.
    Redraw,
}

/// What a minute tick does while the device sleeps.
#[derive(Clone, Copy, Debug, PartialEq, Eq, Structural)]
pub enum TickAction {
    /// Nothing changes.
    Nothing,
    /// Repaint the image's clock slot only.
    RepaintClock,
    /// Draw the screen again.
    Redraw,
}

/// A tick's action for what the frame holds on day `today`: a clock slot is repainted,
/// a timed frame redrawn, a daily one redrawn once the day has changed.
pub open spec fn tick_of(drawn: Option<Drawn>, today: u16) -> TickAction {
    match drawn {
        Some(Drawn::Image { clock: true }) => TickAction::RepaintClock,
        Some(Drawn::Timed) => TickAction::Redraw,
        Some(Drawn::Daily(day)) => if day != today {
            TickAction::Redraw
        } else {
            TickAction::Nothing
        },
        _ => TickAction::Nothing,
    }
}

/// The poster's big and small words: the current streak ("Streak days") when streaks
/// are shown, the finish word ("Finish by") with a book, else the clock and the weekday.
pub open spec fn poster_spec(streak_on: bool, streak: u32, has_book: bool, finish: Seq<char>, clock: Seq<char>, weekday: Seq<char>) -> (Seq<char>, Seq<char>) {
    if streak_on {
        (decimal(streak as nat), "Streak days"@)
    } else if has_book {
        (finish, "Finish by"@)
    } else {
        (clock, weekday)
    }
}

/// The poster's words (see [`poster_spec`]); `finish` is the finish word, `clock` the
/// time and `weekday` the day's long name.
pub fn poster_words(streak_on: bool, streak: u32, has_book: bool, finish: &str, clock: &str, weekday: &str) -> (r: (String, String))
    ensures
        (r.0@, r.1@) == poster_spec(streak_on, streak, has_book, finish@, clock@, weekday@),
{
    if streak_on {
        (crate::textutil::decimal_string(streak as u64), owned("Streak days"))
    } else if has_book {
        (owned(finish), owned("Finish by"))
    } else {
        (owned(clock), owned(weekday))
    }
}

/// The sleep screen.
pub struct SleepScreen {
    variant: Option<SleepVariant>,
    preview: bool,
    charging: bool,
    drawn: Option<Drawn>,
}

impl SleepScreen {
    /// The screen's name: the charging screen, a preview from the picker, or the sleep
    /// screen.
    pub fn name(&self) -> (n: &'static str)
        ensures
            n@ == (if self.spec_charging() {
                "40-sleep-charging"@
            } else if self.spec_preview() {
                "44-picker-preview"@
            } else {
                "40-sleep"@
            }),
    {
        if self.charging {
            "40-sleep-charging"
        } else if self.preview {
            "44-picker-preview"
        } else {
            "40-sleep"
        }
    }
}

impl SleepScreen {
    /// The variant shown, if not the one in the settings.
    pub closed spec fn spec_variant(self) -> Option<SleepVariant> {
        self.variant
    }

    /// A preview from the picker.
    pub closed spec fn spec_preview(self) -> bool {
        self.preview
    }

    /// Drawn for charging.
    pub closed spec fn spec_charging(self) -> bool {
        self.charging
    }

    /// What the last draw left in the frame (nothing before the first).
    pub closed spec fn spec_drawn(self) -> Option<Drawn> {
        self.drawn
    }

    /// The sleep screen of the settings.
    pub fn new() -> (s: SleepScreen)
        ensures
            s.spec_variant() is None,
            !s.spec_preview(),
            !s.spec_charging(),
            s.spec_drawn() is None,
    {
        SleepScreen { variant: None, preview: false, charging: false, drawn: None }
    }

    /// A preview of `v`.
    pub fn preview(v: SleepVariant) -> (s: SleepScreen)
        ensures
            s.spec_variant() == Some(v),
            s.spec_preview(),
            !s.spec_charging(),
            s.spec_drawn() is None,
    {
        SleepScreen { variant: Some(v), preview: true, charging: false, drawn: None }
    }

    /// The sleep screen drawn while charging.
    pub fn charging() -> (s: SleepScreen)
        ensures
            s.spec_variant() is None,
            !s.spec_preview(),
            s.spec_charging(),
            s.spec_drawn() is None,
    {
        SleepScreen { variant: None, preview: false, charging: true, drawn: None }
    }

    /// A draw, given the variant in the settings, the battery, whether a book is open,
    /// the day, and (for the Images variant) whether an image could be shown and whether
    /// the clock is on: the charge face while charging (not for a preview), the empty
    /// face at 2% or less (not for a preview), else the variant; what the frame then
    /// holds is recorded.
    pub fn draw(&mut self, setting: SleepVariant, percent: u8, charging_now: bool, has_book: bool, today: u16, image_shown: bool, clock: bool) -> (f: SleepFace)
        ensures
            final(self).spec_variant() == old(self).spec_variant(),
            final(self).spec_preview() == old(self).spec_preview(),
            final(self).spec_charging() == old(self).spec_charging(),
            f == (if old(self).spec_charging() || (charging_now && !old(self).spec_preview()) {
                SleepFace::Charging
            } else if percent <= 2 && !charging_now && !old(self).spec_preview() {
                SleepFace::Empty
            } else {
                SleepFace::Variant(match old(self).spec_variant() {
                    Some(v) => v,
                    None => setting,
                })
            }),
            final(self).spec_drawn() == Some(match f {
                SleepFace::Variant(v) => schedule_of(v, has_book, today, image_shown, clock),
                _ => Drawn::Still,
            }),
    {
        if self.charging || (charging_now && !self.preview) {
            self.drawn = Some(Drawn::Still);
            return SleepFace::Charging;
        }
        if percent <= 2 && !charging_now && !self.preview {
            self.drawn = Some(Drawn::Still);
            return SleepFace::Empty;
        }
        let v = match self.variant {
            Some(v) => v,
            None => setting,
        };
        self.drawn = Some(redraw_schedule(v, has_book, today, image_shown, clock));
        SleepFace::Variant(v)
    }

    /// What a minute tick does on day `today` (see [`tick_of`]).
    pub fn minute_tick(&self, today: u16) -> (t: TickAction)
        ensures
            t == tick_of(self.spec_drawn(), today),
    {
        match self.drawn {
            Some(Drawn::Image { clock }) => if clock {
                TickAction::RepaintClock
            } else {
                TickAction::Nothing
            },
            Some(Drawn::Timed) => TickAction::Redraw,
            Some(Drawn::Daily(day)) => if day != today {
                TickAction::Redraw
            } else {
                TickAction::Nothing
            },
            _ => TickAction::Nothing,
        }
    }

    /// Whether a tick needs the card: not for an image already in the frame, nor for a
    /// still frame.
    pub fn minute_tick_needs_fs(&self) -> (b: bool)
        ensures
            b == !(self.spec_drawn() matches Some(Drawn::Image { .. }) || self.spec_drawn() == Some(Drawn::Still)),
    {
        match self.drawn {
            Some(Drawn::Image { .. }) => false,
            Some(Drawn::Still) => false,
            _ => true,
        }
    }

    /// What an event does: waking pops the screen, as does the preview's timer; a
    /// battery change redraws the sleep screen (not a preview).
    pub fn event(&self, e: SleepEvent) -> (a: SleepEventAction)
        ensures
            a == (match e {
                SleepEvent::Wake => SleepEventAction::Pop,
                SleepEvent::Timer => if self.spec_preview() {
                    SleepEventAction::Pop
                } else {
                    SleepEventAction::Nothing
                },
                SleepEvent::Battery => if self.spec_preview() {
                    SleepEventAction::Nothing
                } else {
                    SleepEventAction::Redraw
                },
            }),
    {
        match e {
            SleepEvent::Wake => SleepEventAction::Pop,
            SleepEvent::Timer => if self.preview {
                SleepEventAction::Pop
            } else {
                SleepEventAction::Nothing
            },
            SleepEvent::Battery => if self.preview {
                SleepEventAction::Nothing
            } else {
                SleepEventAction::Redraw
            },
        }
    }

    /// A key: a preview closes on any key; asleep, a press of Power wakes (pops).
    pub fn key(&self, ev: KeyEvent) -> (pop: bool)
        ensures
            pop == (self.spec_preview() || (ev.key == Key::Power && ev.kind == KeyKind::Press)),
    {
        self.preview || (ev.key == Key::Power && ev.kind == KeyKind::Press)
    }
}

/// A custom sleep image.
#[derive(Clone, Debug, PartialEq, Eq)]
pub enum ImageSource {
    /// A loose `.pbm` file at this path.
    Loose(String),
    /// Image `index` of the installed pack `id`.
    Pack {
        /// Pack folder name.
        id: String,
        /// Index into the pack's images.
        index: usize,
    },
}

/// The reading statistics overview.
pub struct Overview {
    /// The range shown (week, month, year, all).
    pub range: usize,
}

/// What a key asks of a statistics screen.
#[derive(Clone, Copy, Debug, PartialEq, Eq, Structural)]
pub enum StatsStep {
    /// Nothing.
    Ignore,
    /// Close.
    Pop,
    /// Redraw.
    Redraw,
    /// Open when you read.
    Rhythm,
    /// Open the table of books.
    Books,
    /// Open the month heat map.
    Calendar,
    /// Open goals and awards.
    Goals,
}

impl Overview {
    /// New.
    pub fn new() -> (o: Overview)
        ensures
            o.range == 0,
    {
        Overview { range: 0 }
    }

    /// A key (releases do nothing): Left and Right step the range round (held, they open
    /// when you read and the books), Confirm opens the calendar, Up the books, Down the
    /// goals, Back closes.
    pub fn key(&mut self, ev: KeyEvent) -> (s: StatsStep)
        requires
            old(self).range < 5,
        ensures
            final(self).range < 5,
            ev.kind == KeyKind::Release ==> s == StatsStep::Ignore && final(self).range == old(self).range,
            ev.kind != KeyKind::Release ==> match ev.key {
                Key::Left => if ev.kind == KeyKind::Long {
                    s == StatsStep::Rhythm && final(self).range == old(self).range
                } else {
                    s == StatsStep::Redraw && final(self).range == (old(self).range + 4) % 5
                },
                Key::Right => if ev.kind == KeyKind::Long {
                    s == StatsStep::Books && final(self).range == old(self).range
                } else {
                    s == StatsStep::Redraw && final(self).range == (old(self).range + 1) % 5
                },
                Key::Back => s == StatsStep::Pop && final(self).range == old(self).range,
                Key::Confirm => s == StatsStep::Calendar && final(self).range == old(self).range,
                Key::Up => s == StatsStep::Books && final(self).range == old(self).range,
                Key::Down => s == StatsStep::Goals && final(self).range == old(self).range,
                Key::Power => s == StatsStep::Ignore && final(self).range == old(self).range,
            },
    {
        if ev.kind == KeyKind::Release {
            return StatsStep::Ignore;
        }
        match ev.key {
            Key::Back => StatsStep::Pop,
            Key::Left => {
                if ev.kind == KeyKind::Long {
                    StatsStep::Rhythm
                } else {
                    self.range = (self.range + 4) % 5;
                    StatsStep::Redraw
                }
            },
            Key::Right => {
                if ev.kind == KeyKind::Long {
                    StatsStep::Books
                } else {
                    self.range = (self.range + 1) % 5;
                    StatsStep::Redraw
                }
            },
            Key::Confirm => StatsStep::Calendar,
            Key::Up => StatsStep::Books,
            Key::Down => StatsStep::Goals,
            Key::Power => StatsStep::Ignore,
        }
    }
}

/// When you read, for a day.
pub struct Rhythm {
    /// Days back from today.
    pub day_offset: u16,
}

impl Rhythm {
    /// New: today.
    pub fn new() -> (r: Rhythm)
        ensures
            r.day_offset == 0,
    {
        Rhythm { day_offset: 0 }
    }

    /// A key (releases do nothing): Left goes a day back, Right a day forward (not past
    /// today), Confirm back to today, Back closes.
    pub fn key(&mut self, ev: KeyEvent) -> (s: StatsStep)
        ensures
            ev.kind == KeyKind::Release ==> s == StatsStep::Ignore && final(self).day_offset == old(self).day_offset,
            ev.kind != KeyKind::Release ==> match ev.key {
                Key::Back => s == StatsStep::Pop && final(self).day_offset == old(self).day_offset,
                Key::Left => s == StatsStep::Redraw && final(self).day_offset == (if old(self).day_offset
                    == u16::MAX { u16::MAX as int } else { old(self).day_offset + 1 }),
                Key::Right => s == StatsStep::Redraw && final(self).day_offset == (if old(self).day_offset
                    == 0 { 0 } else { old(self).day_offset - 1 }),
                Key::Confirm => s == StatsStep::Redraw && final(self).day_offset == 0,
                _ => s == StatsStep::Ignore && final(self).day_offset == old(self).day_offset,
            },
    {
        if ev.kind == KeyKind::Release {
            return StatsStep::Ignore;
        }
        match ev.key {
            Key::Back => StatsStep::Pop,
            Key::Left => {
                self.day_offset = self.day_offset.saturating_add(1);
                StatsStep::Redraw
            },
            Key::Right => {
                self.day_offset = self.day_offset.saturating_sub(1);
                StatsStep::Redraw
            },
            Key::Confirm => {
                self.day_offset = 0;
                StatsStep::Redraw
            },
            _ => StatsStep::Ignore,
        }
    }
}

/// The month heat map.
pub struct Calendar {
    /// Months back from today.
    pub back: u16,
}

impl Calendar {
    /// New: this month.
    pub fn new() -> (c: Calendar)
        ensures
            c.back == 0,
    {
        Calendar { back: 0 }
    }

    /// A key (releases do nothing): Left goes a month back (ten years at most), Right a
    /// month forward (not past this one), Confirm back to this month, Back closes.
    pub fn key(&mut self, ev: KeyEvent) -> (s: StatsStep)
        ensures
            ev.kind == KeyKind::Release ==> s == StatsStep::Ignore && final(self).back == old(self).back,
            ev.kind != KeyKind::Release ==> match ev.key {
                Key::Back => s == StatsStep::Pop && final(self).back == old(self).back,
                Key::Left => s == StatsStep::Redraw && final(self).back == (if old(self).back >= 120 {
                    120
                } else {
                    old(self).back + 1
                }),
                Key::Right => s == StatsStep::Redraw && final(self).back == (if old(self).back == 0 {
                    0
                } else {
                    old(self).back - 1
                }),
                Key::Confirm => s == StatsStep::Redraw && final(self).back == 0,
                _ => s == StatsStep::Ignore && final(self).back == old(self).back,
            },
    {
        if ev.kind == KeyKind::Release {
            return StatsStep::Ignore;
        }
        match ev.key {
            Key::Back => StatsStep::Pop,
            Key::Left => {
                let b = self.back.saturating_add(1);
                self.back = if b < 120 { b } else { 120 };
                StatsStep::Redraw
            },
            Key::Right => {
                self.back = self.back.saturating_sub(1);
                StatsStep::Redraw
            },
            Key::Confirm => {
                self.back = 0;
                StatsStep::Redraw
            },
            _ => StatsStep::Ignore,
        }
    }
}

/// A table of every book read.
pub struct Books {
    /// The rows.
    pub nav: ListNav,
    /// The column sorted by.
    pub sort: usize,
}

impl Books {
    /// New: sorted by the second column.
    pub fn new() -> (b: Books)
        ensures
            b.nav.n == 0,
            b.nav.per_page == 10,
            b.nav.focus == 0,
            b.sort == 1,
    {
        Books { nav: ListNav::new(0, 10), sort: 1 }
    }
}

/// Goals and awards.
pub struct Goals {
    /// The focused goal.
    pub focus: usize,
}

/// The reading goals the statistics keep.
#[derive(Clone, Copy, Debug, PartialEq, Eq, Structural)]
pub struct GoalSettings {
    /// The daily goal counts pages (else minutes).
    pub pages: bool,
    /// Pages a day.
    pub page_count: u16,
    /// Minutes a day.
    pub minutes: u16,
    /// Books a year.
    pub books: u16,
}

/// What a key asks of the goals screen.
#[derive(Clone, Copy, Debug, PartialEq, Eq, Structural)]
pub enum GoalsStep {
    /// Nothing.
    Ignore,
    /// Close.
    Pop,
    /// Redraw.
    Redraw,
    /// The goals changed: store them, then redraw.
    Save,
}

/// `x + d`, held within `lo..=hi`.
pub open spec fn stepped(x: int, d: int, lo: int, hi: int) -> int {
    if x + d < lo {
        lo
    } else if x + d > hi {
        hi
    } else {
        x + d
    }
}

fn step_within(x: u16, d: i32, lo: i32, hi: i32) -> (r: u16)
    requires
        -5 <= d <= 5,
        0 <= lo <= hi <= 600,
    ensures
        r == stepped(x as int, d as int, lo as int, hi as int),
{
    let v = x as i32 + d;
    let c = if v < lo { lo } else if v > hi { hi } else { v };
    c as u16
}

/// The goals after Left (`dir` -1) or Right and Confirm (`dir` 1) on the focused goal:
/// the daily goal moves by five (pages within 5..=500, minutes within 5..=600), the
/// second row switches pages and minutes, the third moves the books a year within 1..=365.
pub open spec fn adjusted(g: GoalSettings, focus: usize, dir: int) -> GoalSettings {
    if focus == 0 {
        if g.pages {
            GoalSettings { page_count: stepped(g.page_count as int, 5 * dir, 5, 500) as u16, ..g }
        } else {
            GoalSettings { minutes: stepped(g.minutes as int, 5 * dir, 5, 600) as u16, ..g }
        }
    } else if focus == 1 {
        GoalSettings { pages: !g.pages, ..g }
    } else {
        GoalSettings { books: stepped(g.books as int, dir, 1, 365) as u16, ..g }
    }
}

impl Goals {
    /// New.
    pub fn new() -> (g: Goals)
        ensures
            g.focus == 0,
    {
        Goals { focus: 0 }
    }

    /// A key (releases do nothing): Up and Down move the focus round the three goals,
    /// Left lowers the focused goal and Right or Confirm raises it, Back closes.
    pub fn key(&mut self, ev: KeyEvent, goals: &mut GoalSettings) -> (s: GoalsStep)
        requires
            old(self).focus < 3,
        ensures
            final(self).focus < 3,
            ev.kind == KeyKind::Release ==> s == GoalsStep::Ignore && final(self).focus == old(self).focus
                && *final(goals) == *old(goals),
            ev.kind != KeyKind::Release ==> match ev.key {
                Key::Back => s == GoalsStep::Pop && final(self).focus == old(self).focus && *final(goals)
                    == *old(goals),
                Key::Up => s == GoalsStep::Redraw && final(self).focus == (old(self).focus + 2) % 3
                    && *final(goals) == *old(goals),
                Key::Down => s == GoalsStep::Redraw && final(self).focus == (old(self).focus + 1) % 3
                    && *final(goals) == *old(goals),
                Key::Left => s == GoalsStep::Save && final(self).focus == old(self).focus && *final(goals)
                    == adjusted(*old(goals), old(self).focus, -1),
                Key::Right | Key::Confirm => s == GoalsStep::Save && final(self).focus == old(self).focus
                    && *final(goals) == adjusted(*old(goals), old(self).focus, 1),
                Key::Power => s == GoalsStep::Ignore && final(self).focus == old(self).focus && *final(goals)
                    == *old(goals),
            },
    {
        if ev.kind == KeyKind::Release {
            return GoalsStep::Ignore;
        }
        match ev.key {
            Key::Back => GoalsStep::Pop,
            Key::Up => {
                self.focus = (self.focus + 2) % 3;
                GoalsStep::Redraw
            },
            Key::Down => {
                self.focus = (self.focus + 1) % 3;
                GoalsStep::Redraw
            },
            Key::Power => GoalsStep::Ignore,
            _ => {
                let dir: i32 = if ev.key == Key::Left { -1 } else { 1 };
                if self.focus == 0 {
                    if goals.pages {
                        goals.page_count = step_within(goals.page_count, 5 * dir, 5, 500);
                    } else {
                        goals.minutes = step_within(goals.minutes, 5 * dir, 5, 600);
                    }
                } else if self.focus == 1 {
                    goals.pages = !goals.pages;
                } else {
                    goals.books = step_within(goals.books, dir, 1, 365);
                }
                GoalsStep::Save
            },
        }
    }
}

/// The year poster.
pub struct YearInReview {
    /// The year shown (0 until the screen first learns this year).
    pub year: u16,
}

impl YearInReview {
    /// New, for this year.
    pub fn new() -> (y: YearInReview)
        ensures
            y.year == 0,
    {
        YearInReview { year: 0 }
    }

    /// A key (presses only): Left shows the year before, Right the year after, Back
    /// closes.
    pub fn key(&mut self, ev: KeyEvent) -> (s: StatsStep)
        ensures
            ev.kind != KeyKind::Press ==> s == StatsStep::Ignore && final(self).year == old(self).year,
            ev.kind == KeyKind::Press ==> match ev.key {
                Key::Back => s == StatsStep::Pop && final(self).year == old(self).year,
                Key::Left => s == StatsStep::Redraw && final(self).year == (if old(self).year == 0 {
                    0
                } else {
                    old(self).year - 1
                }),
                Key::Right => s == StatsStep::Redraw && final(self).year == (if old(self).year == u16::MAX {
                    u16::MAX as int
                } else {
                    old(self).year + 1
                }),
                _ => s == StatsStep::Ignore && final(self).year == old(self).year,
            },
    {
        if ev.kind != KeyKind::Press {
            return StatsStep::Ignore;
        }
        match ev.key {
            Key::Back => StatsStep::Pop,
            Key::Left => {
                self.year = self.year.saturating_sub(1);
                StatsStep::Redraw
            },
            Key::Right => {
                self.year = self.year.saturating_add(1);
                StatsStep::Redraw
            },
            _ => StatsStep::Ignore,
        }
    }
}

/// Pages an hour for a book read `seconds` over `pages` (none under a minute), cut to
/// 32 bits.
pub fn pages_per_hour(pages: u32, seconds: u32) -> (r: u32)
    ensures
        seconds < 60 ==> r == 0,
        seconds >= 60 ==> r == (pages as int * 3600 / seconds as int) as u32,
{
    if seconds < 60 {
        0
    } else {
        (pages as u64 * 3600 / seconds as u64) as u32
    }
}

/// The Type screen.
pub struct TypeScreen {
    /// The rows.
    pub nav: ListNav,
}

impl TypeScreen {
    /// New: six rows on one page.
    pub fn new() -> (t: TypeScreen)
        ensures
            t.nav.n == 6,
            t.nav.per_page == 6,
            t.nav.focus == 0,
    {
        TypeScreen { nav: ListNav::new(6, 6) }
    }
}

/// The Layout screen.
pub struct LayoutScreen {
    /// The rows.
    pub nav: ListNav,
}

impl LayoutScreen {
    /// New.
    pub fn new(rows: usize) -> (l: LayoutScreen)
        ensures
            l.nav.n == rows,
            l.nav.per_page == 10,
            l.nav.focus == 0,
    {
        LayoutScreen { nav: ListNav::new(rows, 10) }
    }
}

/// The games list.
pub struct GamesList {
    /// The rows.
    pub nav: ListNav,
}

/// The games, in their list's order: (title, description, screen name).
pub open spec fn games_table() -> Seq<(Seq<char>, Seq<char>, Seq<char>)> {
    seq![
        ("Sudoku"@, "three difficulties, pencil marks"@, "80-sudoku"@),
        ("2048"@, "slide the tiles, reach 2048"@, "80-2048"@),
        ("Minesweeper"@, "9 × 9, ten mines, first press is safe"@, "80-minesweeper"@),
        ("Chess"@, "play white against the reader"@, "80-chess"@),
        ("Wordle"@, "five letters, six tries, a word a day"@, "80-wordle"@),
    ]
}

/// Game `i` of the list: (title, description, screen name).
pub fn game(i: usize) -> (r: (&'static str, &'static str, &'static str))
    requires
        i < 5,
    ensures
        (r.0@, r.1@, r.2@) == games_table()[i as int],
{
    match i {
        0 => ("Sudoku", "three difficulties, pencil marks", "80-sudoku"),
        1 => ("2048", "slide the tiles, reach 2048", "80-2048"),
        2 => ("Minesweeper", "9 × 9, ten mines, first press is safe", "80-minesweeper"),
        3 => ("Chess", "play white against the reader", "80-chess"),
        _ => ("Wordle", "five letters, six tries, a word a day", "80-wordle"),
    }
}

impl GamesList {
    /// New: the five games of [`games_table`] on one page, the first focused.
    pub fn new() -> (g: GamesList)
        ensures
            g.nav.n == games_table().len(),
            g.nav.n == 5,
            g.nav.per_page == 9,
            g.nav.focus == 0,
    {
        GamesList { nav: ListNav::new(5, 9) }
    }

    /// The focused game's (title, description, screen name).
    pub fn focused(&self) -> (r: Option<(&'static str, &'static str, &'static str)>)
        ensures
            self.nav.focus < 5 ==> (r matches Some(x) && (x.0@, x.1@, x.2@) == games_table()[self.nav.focus as int]),
            self.nav.focus >= 5 ==> r is None,
    {
        if self.nav.focus < 5 {
            Some(game(self.nav.focus))
        } else {
            None
        }
    }
}

/// The text of the QR code that joins a WPA network.
pub fn wifi_qr_text(ssid: &str, password: &str) -> (r: String)
    ensures
        r@ == "WIFI:T:WPA;S:"@ + ssid@ + ";P:"@ + password@ + ";;"@,
{
    let mut r = owned("WIFI:T:WPA;S:");
    push_str(&mut r, ssid);
    push_str(&mut r, ";P:");
    push_str(&mut r, password);
    push_str(&mut r, ";;");
    r
}

/// The Drop page's address: the mDNS name when joined, the hotspot's address, else the
/// configured host name.
pub open spec fn spec_drop_url(wifi: crate::keys::WifiState, hostname: Seq<char>) -> Seq<char> {
    match wifi {
        crate::keys::WifiState::Connected { host, .. } => "http://"@ + host@ + ".local"@,
        crate::keys::WifiState::Hotspot { ip, .. } => "http://"@ + ip@,
        _ => "http://"@ + hostname + ".local"@,
    }
}

/// The Drop page's address for the network state.
pub fn drop_url(wifi: &crate::keys::WifiState, hostname: &str) -> (r: String)
    ensures
        r@ == spec_drop_url(*wifi, hostname@),
{
    let mut r = owned("http://");
    match wifi {
        crate::keys::WifiState::Connected { host, .. } => {
            push_str(&mut r, host.as_str());
            push_str(&mut r, ".local");
        },
        crate::keys::WifiState::Hotspot { ip, .. } => {
            push_str(&mut r, ip.as_str());
        },
        _ => {
            push_str(&mut r, hostname);
            push_str(&mut r, ".local");
        },
    }
    r
}

/// The Drop page's footer: the network and how many books arrived.
pub open spec fn spec_drop_footer(wifi: crate::keys::WifiState, added: u64) -> Seq<char> {
    match wifi {
        crate::keys::WifiState::Connected { ssid, .. } => "Wi-Fi: "@ + ssid@ + " · "@ + decimal(added as nat)
            + " books added"@,
        crate::keys::WifiState::Hotspot { ssid, .. } => "Hotspot: "@ + ssid@ + " · "@ + decimal(added as nat)
            + " books added"@,
        _ => "Wi-Fi: off"@,
    }
}

/// An arriving file's status on the Drop page: "waiting", the percentage done (an
/// ellipsis while the size is unknown), "added", the error, or the retry countdown.
pub open spec fn spec_download_status(state: crate::net::DownloadState, done: u64, total: Option<u64>) -> Seq<char> {
    match state {
        crate::net::DownloadState::Queued => "waiting"@,
        crate::net::DownloadState::Working => match total {
            Some(t) => decimal((done * 100 / (if t >= 1 { t as int } else { 1 })) as nat) + "%"@,
            None => "…"@,
        },
        crate::net::DownloadState::Done => "added"@,
        crate::net::DownloadState::Failed(e) => e@,
        crate::net::DownloadState::Retrying(s) => "retry in "@ + decimal(s as nat) + " s"@,
    }
}

/// An arriving file's status (see [`spec_download_status`]).
pub fn download_status(state: &crate::net::DownloadState, done: u64, total: Option<u64>) -> (r: String)
    requires
        done * 100 <= u64::MAX,
    ensures
        r@ == spec_download_status(*state, done, total),
{
    match state {
        crate::net::DownloadState::Queued => owned("waiting"),
        crate::net::DownloadState::Working => match total {
            Some(t) => {
                let d = if t >= 1 { t } else { 1 };
                let mut r = String::new();
                push_decimal(&mut r, done * 100 / d);
                push_str(&mut r, "%");
                r
            },
            None => owned("…"),
        },
        crate::net::DownloadState::Done => owned("added"),
        crate::net::DownloadState::Failed(e) => e.clone(),
        crate::net::DownloadState::Retrying(s) => {
            let mut r = owned("retry in ");
            push_decimal(&mut r, *s as u64);
            push_str(&mut r, " s");
            r
        },
    }
}

/// The Drop page's footer for the network state and the books added.
pub fn drop_footer(wifi: &crate::keys::WifiState, added: u64) -> (r: String)
    ensures
        r@ == spec_drop_footer(*wifi, added),
{
    match wifi {
        crate::keys::WifiState::Connected { ssid, .. } => {
            let mut r = owned("Wi-Fi: ");
            push_str(&mut r, ssid.as_str());
            push_str(&mut r, " · ");
            push_decimal(&mut r, added);
            push_str(&mut r, " books added");
            r
        },
        crate::keys::WifiState::Hotspot { ssid, .. } => {
            let mut r = owned("Hotspot: ");
            push_str(&mut r, ssid.as_str());
            push_str(&mut r, " · ");
            push_decimal(&mut r, added);
            push_str(&mut r, " books added");
            r
        },
        _ => owned("Wi-Fi: off"),
    }
}

} // verus!
