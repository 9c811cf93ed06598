//! The apps: their list, the calculator's keypad, the clock's timer and alarms,
//! flashcards with spaced repetition, and the news, notes, weather, Wikipedia and
//! story screens' state.

use vstd::prelude::*;
use vstd::utf8::encode_utf8;
use crate::keys::{Key, KeyEvent, KeyKind};
use crate::screens::{back_one, ListNav};
use crate::textutil::{ends_with, owned, chars_of, prefix_chars, push_str, split_chars, split_on, string_of, trim_by, trim_chars, strips, Strip};

pub mod news_store;

pub use news_store::{store_articles, Stored, INDEX_FILE, MAX_ARTICLES, NEWS_DIR};

verus! {

/// The apps list.
pub struct AppsList {
    /// The rows.
    pub nav: ListNav,
}

/// The apps, in list order: (title, description, screen name).
pub open spec fn apps_table() -> Seq<(Seq<char>, Seq<char>, Seq<char>)> {
    seq![
        ("Clock"@, "time, timer, alarms"@, "73-clock"@),
        ("Flashcards"@, "decks from the card, spaced repetition"@, "71-flashcards"@),
        ("News"@, "feeds, read on the page"@, "72-news"@),
        ("Wikipedia"@, "look anything up"@, "77-wikipedia"@),
        ("Weather"@, "five days for your place"@, "74-weather"@),
        ("Calculator"@, "large keys, mono digits"@, "78-calculator"@),
        ("Notes"@, "typed on the phone"@, "79-notes"@),
        ("Images"@, "photos on the card, dithered"@, "75-images"@),
        ("Interactive fiction"@, "Z-machine stories from the card"@, "76-fiction"@),
    ]
}

/// App `i` of the list: (title, description, screen name).
pub fn app(i: usize) -> (r: (&'static str, &'static str, &'static str))
    requires
        i < 9,
    ensures
        (r.0@, r.1@, r.2@) == apps_table()[i as int],
{
    match i {
        0 => ("Clock", "time, timer, alarms", "73-clock"),
        1 => ("Flashcards", "decks from the card, spaced repetition", "71-flashcards"),
        2 => ("News", "feeds, read on the page", "72-news"),
        3 => ("Wikipedia", "look anything up", "77-wikipedia"),
        4 => ("Weather", "five days for your place", "74-weather"),
        5 => ("Calculator", "large keys, mono digits", "78-calculator"),
        6 => ("Notes", "typed on the phone", "79-notes"),
        7 => ("Images", "photos on the card, dithered", "75-images"),
        _ => ("Interactive fiction", "Z-machine stories from the card", "76-fiction"),
    }
}

/// What a key on the apps list asks for.
#[derive(Clone, Copy, Debug, PartialEq, Eq)]
pub enum AppsStep {
    /// Nothing.
    Ignore,
    /// Back.
    Pop,
    /// The games list in place of the apps.
    Games,
    /// Open the app with this screen name.
    Open(&'static str),
    /// The list's navigation takes the key.
    Nav,
}

impl AppsList {
    /// New: the nine apps of [`apps_table`] on one page, the first focused.
    pub fn new() -> (a: AppsList)
        ensures
            a.nav.n == apps_table().len(),
            a.nav.n == 9,
            a.nav.per_page == 9,
            a.nav.focus == 0,
    {
        AppsList { nav: ListNav::new(9, 9) }
    }

    /// A key: Back pops, Left swaps to the games, Confirm opens the focused app; a
    /// release does nothing and any other key goes to the list's navigation.
    pub fn key(&self, ev: KeyEvent) -> (s: AppsStep)
        ensures
            ev.kind == KeyKind::Release ==> s == AppsStep::Ignore,
            ev.kind != KeyKind::Release ==> (if ev.key == Key::Back && ev.kind == KeyKind::Press {
                s == AppsStep::Pop
            } else if ev.key == Key::Left && ev.kind == KeyKind::Press {
                s == AppsStep::Games
            } else if ev.key == Key::Confirm && ev.kind == KeyKind::Press {
                if self.nav.focus < 9 {
                    s matches AppsStep::Open(name) && name@ == apps_table()[self.nav.focus as int].2
                } else {
                    s == AppsStep::Ignore
                }
            } else {
                s == AppsStep::Nav
            }),
    {
        if ev.kind == KeyKind::Release {
            return AppsStep::Ignore;
        }
        if ev.is(Key::Back) {
            return AppsStep::Pop;
        }
        if ev.is(Key::Left) {
            return AppsStep::Games;
        }
        if ev.is(Key::Confirm) {
            return if self.nav.focus < 9 {
                AppsStep::Open(app(self.nav.focus).2)
            } else {
                AppsStep::Ignore
            };
        }
        AppsStep::Nav
    }
}

/// The calculator's keypad, row by row.
pub open spec fn calc_label(r: int, c: int) -> Seq<char> {
    if r == 0 {
        if c == 0 { "C"@ } else if c == 1 { "("@ } else if c == 2 { ")"@ } else { "÷"@ }
    } else if r == 1 {
        if c == 0 { "7"@ } else if c == 1 { "8"@ } else if c == 2 { "9"@ } else { "×"@ }
    } else if r == 2 {
        if c == 0 { "4"@ } else if c == 1 { "5"@ } else if c == 2 { "6"@ } else { "−"@ }
    } else if r == 3 {
        if c == 0 { "1"@ } else if c == 1 { "2"@ } else if c == 2 { "3"@ } else { "+"@ }
    } else {
        if c == 0 { "0"@ } else if c == 1 { "."@ } else if c == 2 { "⌫"@ } else { "="@ }
    }
}

/// The key at (r, c) is a digit.
pub open spec fn digit_key(r: int, c: int) -> bool {
    (1 <= r <= 3 && c < 3) || (r == 4 && c == 0)
}

fn label(r: usize, c: usize) -> (s: &'static str)
    requires
        r < 5,
        c < 4,
    ensures
        s@ == calc_label(r as int, c as int),
{
    if r == 0 {
        if c == 0 { "C" } else if c == 1 { "(" } else if c == 2 { ")" } else { "÷" }
    } else if r == 1 {
        if c == 0 { "7" } else if c == 1 { "8" } else if c == 2 { "9" } else { "×" }
    } else if r == 2 {
        if c == 0 { "4" } else if c == 1 { "5" } else if c == 2 { "6" } else { "−" }
    } else if r == 3 {
        if c == 0 { "1" } else if c == 1 { "2" } else if c == 2 { "3" } else { "+" }
    } else {
        if c == 0 { "0" } else if c == 1 { "." } else if c == 2 { "⌫" } else { "=" }
    }
}

/// What a key asks of the calculator.
#[derive(Clone, Copy, Debug, PartialEq, Eq, Structural)]
pub enum CalcStep {
    /// Nothing.
    Ignore,
    /// Close.
    Pop,
    /// Redraw.
    Redraw,
    /// Evaluate the expression (the platform's arithmetic), hand the text to
    /// `set_result`, and redraw.
    Evaluate,
}

/// The calculator: an expression typed on a 5 × 4 keypad.
pub struct Calculator {
    expr: String,
    result: Option<String>,
    focus: (usize, usize),
}

impl Calculator {
    /// The expression typed.
    pub closed spec fn spec_expr(self) -> Seq<char> {
        self.expr@
    }

    /// Whether a result is shown.
    pub closed spec fn spec_has_result(self) -> bool {
        self.result is Some
    }

    /// The focused key (row, column).
    pub closed spec fn spec_focus(self) -> (usize, usize) {
        self.focus
    }

    /// The focus is on the keypad.
    pub closed spec fn inv(self) -> bool {
        self.focus.0 < 5 && self.focus.1 < 4
    }

    /// New: empty, the focus on `=`.
    pub fn new() -> (c: Calculator)
        ensures
            c.inv(),
            c.spec_expr().len() == 0,
            !c.spec_has_result(),
            c.spec_focus() == (4usize, 3usize),
    {
        Calculator { expr: String::new(), result: None, focus: (4, 3) }
    }

    /// The expression, for evaluating.
    pub fn expr(&self) -> (s: &str)
        ensures
            s@ == self.spec_expr(),
    {
        self.expr.as_str()
    }

    /// Show the evaluation's text (a number or an error).
    pub fn set_result(&mut self, text: String)
        ensures
            final(self).spec_has_result(),
            final(self).spec_expr() == old(self).spec_expr(),
            final(self).spec_focus() == old(self).spec_focus(),
            final(self).inv() == old(self).inv(),
    {
        self.result = Some(text);
    }

    /// A key. Back closes; Up, Down and Left move the focus round the keypad, Right too
    /// when pressed (held, it evaluates). Confirm: `C` clears, `⌫` deletes the last
    /// character, `=` evaluates; another key is appended (a digit after a result starts
    /// afresh), while the expression is under 40 bytes.
    pub fn key(&mut self, ev: KeyEvent) -> (s: CalcStep)
        requires
            old(self).inv(),
        ensures
            final(self).inv(),
            ev.kind == KeyKind::Release ==> s == CalcStep::Ignore && *final(self) == *old(self),
            ev.kind != KeyKind::Release && ev.key == Key::Back ==> s == (if ev.kind == KeyKind::Press {
                CalcStep::Pop
            } else {
                CalcStep::Ignore
            }),
            ev.kind != KeyKind::Release && ev.key == Key::Power ==> s == CalcStep::Ignore,
            ev.kind != KeyKind::Release && ev.key == Key::Up ==> s == CalcStep::Redraw && final(self).spec_focus() == (
            ((old(self).spec_focus().0 + 4) % 5) as usize, old(self).spec_focus().1),
            ev.kind != KeyKind::Release && ev.key == Key::Down ==> s == CalcStep::Redraw && final(self).spec_focus() == (
            ((old(self).spec_focus().0 + 1) % 5) as usize, old(self).spec_focus().1),
            ev.kind != KeyKind::Release && ev.key == Key::Left ==> s == CalcStep::Redraw && final(self).spec_focus() == (
            old(self).spec_focus().0, ((old(self).spec_focus().1 + 3) % 4) as usize),
            ev.kind == KeyKind::Press && ev.key == Key::Right ==> s == CalcStep::Redraw && final(self).spec_focus() == (
            old(self).spec_focus().0, ((old(self).spec_focus().1 + 1) % 4) as usize),
            ev.kind != KeyKind::Release && ev.kind != KeyKind::Press && ev.key == Key::Right ==> s == CalcStep::Evaluate
                && *final(self) == *old(self),
            ev.kind != KeyKind::Release && ev.key == Key::Confirm ==> confirmed_key(*old(self), *final(self), s),
            s == CalcStep::Ignore || s == CalcStep::Pop ==> *final(self) == *old(self),
    {
        if ev.kind == KeyKind::Release {
            return CalcStep::Ignore;
        }
        match ev.key {
            Key::Back => if ev.kind == KeyKind::Press {
                CalcStep::Pop
            } else {
                CalcStep::Ignore
            },
            Key::Up => {
                self.focus = ((self.focus.0 + 4) % 5, self.focus.1);
                CalcStep::Redraw
            },
            Key::Down => {
                self.focus = ((self.focus.0 + 1) % 5, self.focus.1);
                CalcStep::Redraw
            },
            Key::Left => {
                self.focus = (self.focus.0, (self.focus.1 + 3) % 4);
                CalcStep::Redraw
            },
            Key::Right => if ev.kind == KeyKind::Press {
                self.focus = (self.focus.0, (self.focus.1 + 1) % 4);
                CalcStep::Redraw
            } else {
                CalcStep::Evaluate
            },
            Key::Confirm => {
                let (r, c) = self.focus;
                let k = label(r, c);
                if r == 0 && c == 0 {
                    self.expr = String::new();
                    self.result = None;
                    assert(confirmed_key(*old(self), *self, CalcStep::Redraw));
                    CalcStep::Redraw
                } else if r == 4 && c == 2 {
                    let mut cs = chars_of(self.expr.as_str());
                    if cs.len() > 0 {
                        cs.pop();
                    }
                    self.expr = string_of(&cs);
                    assert(cs@ =~= (if old(self).expr@.len() > 0 { old(self).expr@.drop_last() } else { old(self).expr@ }));
                    assert(confirmed_key(*old(self), *self, CalcStep::Redraw));
                    CalcStep::Redraw
                } else if r == 4 && c == 3 {
                    assert(confirmed_key(*old(self), *self, CalcStep::Evaluate));
                    CalcStep::Evaluate
                } else {
                    let digit = (1 <= r && r <= 3 && c < 3) || (r == 4 && c == 0);
                    if self.result.is_some() && digit {
                        self.expr = String::new();
                        self.result = None;
                    }
                    let ghost base = self.expr@;
                    let len = self.expr.as_str().len();
                    assert(len == encode_utf8(base).len() as usize);
                    if len < 40 {
                        push_str(&mut self.expr, k);
                    }
                    assert(confirmed_key(*old(self), *self, CalcStep::Redraw));
                    CalcStep::Redraw
                }
            },
            Key::Power => CalcStep::Ignore,
        }
    }
}

/// What Confirm does on the focused key: `C` clears, `⌫` deletes the last character,
/// `=` asks for an evaluation; another key is appended while the expression is under
/// 40 bytes, after clearing it when a digit follows a result.
pub open spec fn confirmed_key(a: Calculator, b: Calculator, s: CalcStep) -> bool {
    let (r, c) = a.spec_focus();
    let lab = calc_label(r as int, c as int);
    let e = a.spec_expr();
    &&& b.spec_focus() == a.spec_focus()
    &&& if r == 0 && c == 0 {
        s == CalcStep::Redraw && b.spec_expr().len() == 0 && !b.spec_has_result()
    } else if r == 4 && c == 2 {
        s == CalcStep::Redraw && b.spec_expr() == (if e.len() > 0 { e.drop_last() } else { e })
    } else if r == 4 && c == 3 {
        s == CalcStep::Evaluate && b.spec_expr() == e
    } else {
        let fresh = a.spec_has_result() && digit_key(r as int, c as int);
        let base = if fresh { Seq::<char>::empty() } else { e };
        &&& s == CalcStep::Redraw
        &&& b.spec_expr() == (if (encode_utf8(base).len() as usize) < 40 { base + lab } else { base })
        &&& fresh ==> !b.spec_has_result()
    }
}

/// The timer lengths to choose from, in minutes.
pub open spec fn timer_opt(i: int) -> u32 {
    if i == 0 {
        5
    } else if i == 1 {
        10
    } else if i == 2 {
        15
    } else if i == 3 {
        20
    } else if i == 4 {
        25
    } else if i == 5 {
        30
    } else if i == 6 {
        45
    } else if i == 7 {
        60
    } else {
        90
    }
}

/// The first choice of `mins` minutes, from `i` on; the fifth when none.
pub open spec fn timer_index(mins: int, i: int) -> int
    decreases 9 - i,
{
    if i >= 9 || i < 0 {
        4
    } else if timer_opt(i) as int == mins {
        i
    } else {
        timer_index(mins, i + 1)
    }
}

fn timer_opt_exec(i: usize) -> (m: u32)
    requires
        i < 9,
    ensures
        m == timer_opt(i as int),
{
    match i {
        0 => 5,
        1 => 10,
        2 => 15,
        3 => 20,
        4 => 25,
        5 => 30,
        6 => 45,
        7 => 60,
        _ => 90,
    }
}

/// What a key or a tick asks of the clock.
#[derive(Clone, Copy, Debug, PartialEq, Eq, Structural)]
pub enum ClockStep {
    /// Nothing.
    Ignore,
    /// Close.
    Pop,
    /// Redraw.
    Redraw,
    /// Redraw, and tick every second while the timer runs.
    StartTicks,
}

/// The clock: a Pomodoro timer and alarms.
pub struct Clock {
    timer: Option<(u32, u32)>,
    timer_len: u32,
    alarms: Vec<u16>,
    focus: usize,
    rang: bool,
    drawn_minute: u16,
}

impl Clock {
    /// The running timer: (end time, length), both in seconds.
    pub closed spec fn spec_timer(self) -> Option<(u32, u32)> {
        self.timer
    }

    /// The timer's length in seconds.
    pub closed spec fn spec_timer_len(self) -> u32 {
        self.timer_len
    }

    /// The alarms, as minutes of the day.
    pub closed spec fn spec_alarms(self) -> Seq<u16> {
        self.alarms@
    }

    /// The focused row: the timer, the alarms, then "add an alarm".
    pub closed spec fn spec_focus(self) -> usize {
        self.focus
    }

    /// The timer or an alarm went off and is shown.
    pub closed spec fn spec_rang(self) -> bool {
        self.rang
    }

    /// The minute of the day the face was last drawn for.
    pub closed spec fn spec_drawn_minute(self) -> u16 {
        self.drawn_minute
    }

    /// The focus is on a row, the alarms are minutes of a day, the timer at most 90
    /// minutes.
    pub closed spec fn inv(self) -> bool {
        &&& self.focus < self.alarms.len() + 2
        &&& self.alarms.len() + 2 <= usize::MAX
        &&& self.timer_len <= 5400
        &&& forall|i: int| 0 <= i < self.alarms.len() ==> #[trigger] self.alarms@[i] < 1440
    }

    /// New: a 25-minute timer, no alarms.
    pub fn new() -> (c: Clock)
        ensures
            c.inv(),
            c.spec_timer() is None,
            c.spec_timer_len() == 1500,
            c.spec_alarms().len() == 0,
            c.spec_focus() == 0,
            !c.spec_rang(),
    {
        Clock { timer: None, timer_len: 25 * 60, alarms: Vec::new(), focus: 0, rang: false, drawn_minute: u16::MAX }
    }

    /// The face was drawn for minute `m` of the day.
    pub fn drawn(&mut self, m: u16)
        requires
            old(self).inv(),
        ensures
            final(self).inv(),
            final(self).spec_timer() == old(self).spec_timer(),
            final(self).spec_alarms() == old(self).spec_alarms(),
            final(self).spec_rang() == old(self).spec_rang(),
    {
        self.drawn_minute = m;
    }

    /// A key, at time `now` (seconds) and minute `minute` of the day. Back closes; Up
    /// and Down move round the rows; Left and Right change the timer's length among the
    /// choices (wrapping) or move the focused alarm by a quarter of an hour (round the
    /// day); Confirm on "add" adds an alarm at the next full hour, on an alarm removes
    /// it, and on the timer stops or starts it.
    pub fn key(&mut self, ev: KeyEvent, now: u32, minute: u16) -> (s: ClockStep)
        requires
            old(self).inv(),
            now as int + 5400 <= u32::MAX,
            minute < 1440,
            old(self).spec_alarms().len() + 3 <= usize::MAX,
        ensures
            final(self).inv(),
            ({
                let n = old(self).spec_alarms().len() as int + 2;
                let f = old(self).spec_focus() as int;
                let al = old(self).spec_alarms();
                if ev.kind == KeyKind::Release || ev.key == Key::Power {
                    s == ClockStep::Ignore && *final(self) == *old(self)
                } else {
                    match ev.key {
                        Key::Back => s == ClockStep::Pop && *final(self) == *old(self),
                        Key::Up => s == ClockStep::Redraw && final(self).spec_focus() == (f + n - 1) % n
                            && final(self).spec_alarms() == al,
                        Key::Down => s == ClockStep::Redraw && final(self).spec_focus() == (f + 1) % n
                            && final(self).spec_alarms() == al,
                        Key::Left | Key::Right => {
                            let d: int = if ev.key == Key::Left { -1 } else { 1 };
                            &&& s == ClockStep::Redraw
                            &&& final(self).spec_focus() == f
                            &&& f == 0 ==> final(self).spec_timer_len() == timer_opt(
                                (timer_index((old(self).spec_timer_len() / 60) as int, 0) + d) % 9,
                            ) * 60 && final(self).spec_alarms() == al
                            &&& f > 0 ==> final(self).spec_timer_len() == old(self).spec_timer_len()
                            &&& 1 <= f <= al.len() ==> final(self).spec_alarms() == al.update(
                                f - 1,
                                ((al[f - 1] + 15 * d) % 1440) as u16,
                            )
                            &&& f > al.len() ==> final(self).spec_alarms() == al
                        },
                        Key::Confirm => if f == n - 1 {
                            s == ClockStep::Redraw && final(self).spec_alarms() == al.push(
                                (((minute / 60 + 1) * 60) % 1440) as u16,
                            )
                        } else if 1 <= f <= al.len() {
                            s == ClockStep::Redraw && final(self).spec_alarms() == al.remove(f - 1)
                        } else {
                            &&& final(self).spec_alarms() == al
                            &&& !final(self).spec_rang()
                            &&& old(self).spec_timer() is Some ==> s == ClockStep::Redraw && final(self).spec_timer() is None
                            &&& old(self).spec_timer() is None ==> s == ClockStep::StartTicks && final(self).spec_timer()
                                == Some(((now + old(self).spec_timer_len()) as u32, old(self).spec_timer_len()))
                        },
                        _ => true,
                    }
                }
            }),
    {
        if ev.kind == KeyKind::Release {
            return ClockStep::Ignore;
        }
        let n = self.alarms.len() + 2;
        match ev.key {
            Key::Back => ClockStep::Pop,
            Key::Up => {
                self.focus = back_one(self.focus, n);
                ClockStep::Redraw
            },
            Key::Down => {
                self.focus = (self.focus + 1) % n;
                ClockStep::Redraw
            },
            Key::Left | Key::Right => {
                let left = ev.key == Key::Left;
                if self.focus == 0 {
                    let mins = self.timer_len / 60;
                    let mut i: usize = 0;
                    while i < 9 && timer_opt_exec(i) != mins
                        invariant
                            i <= 9,
                            timer_index(mins as int, 0) == timer_index(mins as int, i as int),
                        decreases 9 - i,
                    {
                        i += 1;
                    }
                    let idx = if i < 9 { i } else { 4 };
                    let j = if left { back_one(idx, 9) } else { (idx + 1) % 9 };
                    self.timer_len = timer_opt_exec(j) * 60;
                } else if self.focus - 1 < self.alarms.len() {
                    let k = self.focus - 1;
                    let a = self.alarms[k];
                    let moved: u16 = if left {
                        if a >= 15 { a - 15 } else { a + 1425 }
                    } else {
                        if a + 15 >= 1440 { a + 15 - 1440 } else { a + 15 }
                    };
                    self.alarms.set(k, moved);
                }
                ClockStep::Redraw
            },
            Key::Confirm => {
                if self.focus == n - 1 {
                    let next: u16 = ((minute / 60 + 1) * 60) % 1440;
                    self.alarms.push(next);
                    return ClockStep::Redraw;
                }
                if self.focus >= 1 && self.focus - 1 < self.alarms.len() {
                    self.alarms.remove(self.focus - 1);
                    return ClockStep::Redraw;
                }
                self.rang = false;
                if self.timer.is_some() {
                    self.timer = None;
                    ClockStep::Redraw
                } else {
                    self.timer = Some((now + self.timer_len, self.timer_len));
                    ClockStep::StartTicks
                }
            },
            Key::Power => ClockStep::Ignore,
        }
    }

    /// A tick at `now`, minute `minute` of the day: a timer past its end stops and rings
    /// (with a full refresh); an alarm rings on its minute's first second; the face is
    /// redrawn while the timer runs, when something rang, or on a new minute. Returns
    /// (redraw, full refresh).
    pub fn tick(&mut self, now: u32, minute: u16) -> (r: (bool, bool))
        requires
            old(self).inv(),
        ensures
            final(self).inv(),
            final(self).spec_alarms() == old(self).spec_alarms(),
            final(self).spec_focus() == old(self).spec_focus(),
            ({
                let ended = old(self).spec_timer() matches Some(t) && now >= t.0;
                let rang1 = old(self).spec_rang() || ended;
                let alarm = old(self).spec_alarms().contains(minute) && now % 60 == 0 && !rang1;
                &&& r.1 == ended
                &&& final(self).spec_timer() == (if ended { None } else { old(self).spec_timer() })
                &&& final(self).spec_rang() == (rang1 || alarm)
                &&& r.0 == (old(self).spec_timer() is Some || ended || alarm || minute != old(self).spec_drawn_minute())
            }),
    {
        let running = self.timer.is_some();
        let mut changed = running;
        let mut full = false;
        if let Some((end, _)) = self.timer {
            if now >= end {
                self.timer = None;
                self.rang = true;
                full = true;
                changed = true;
            }
        }
        let mut has = false;
        let mut i: usize = 0;
        while i < self.alarms.len()
            invariant
                i <= self.alarms.len(),
                has == self.alarms@.take(i as int).contains(minute),
            decreases self.alarms.len() - i,
        {
            proof {
                assert(self.alarms@.take(i + 1) =~= self.alarms@.take(i as int).push(self.alarms@[i as int]));
                lemma_contains_push_u16(self.alarms@.take(i as int), self.alarms@[i as int], minute);
            }
            if self.alarms[i] == minute {
                has = true;
            }
            i += 1;
        }
        assert(self.alarms@.take(self.alarms.len() as int) =~= self.alarms@);
        if has && now % 60 == 0 && !self.rang {
            self.rang = true;
            changed = true;
        }
        if minute != self.drawn_minute {
            changed = true;
        }
        (changed, full)
    }
}

proof fn lemma_contains_push_u16(s: Seq<u16>, x: u16, y: u16)
    ensures
        s.push(x).contains(y) == (s.contains(y) || x == y),
{
    if x == y {
        assert(s.push(x)[s.len() as int] == y);
    }
    if s.contains(y) {
        let j = choose|j: int| 0 <= j < s.len() && s[j] == y;
        assert(s.push(x)[j] == y);
    }
    if s.push(x).contains(y) && x != y {
        let j = choose|j: int| 0 <= j < s.push(x).len() && s.push(x)[j] == y;
        assert(s[j] == y);
    }
}

/// Scheduling state per card.
#[derive(Clone, Copy, Debug, PartialEq, Eq, Structural)]
pub struct CardState {
    /// Interval in days.
    pub interval: u16,
    /// Ease × 100 (250 = 2.5).
    pub ease: u16,
    /// Due day.
    pub due: u16,
    /// Successful reviews in a row.
    pub reps: u16,
}

impl Default for CardState {
    fn default() -> (c: CardState)
        ensures
            c == (CardState { interval: 0, ease: 0, due: 0, reps: 0 }),
    {
        CardState { interval: 0, ease: 0, due: 0, reps: 0 }
    }
}

/// Where a deck's state lives: `/.quire/flashcards/<deck>.bin`.
pub fn state_path(deck: &str) -> (p: String)
    ensures
        p@ == "/.quire/flashcards/"@ + deck@ + ".bin"@,
{
    let mut p = owned("/.quire/flashcards/");
    push_str(&mut p, deck);
    push_str(&mut p, ".bin");
    p
}

/// A deck's saved state: per card, indexed like the deck file's lines.
#[derive(Clone, Debug, PartialEq, Eq)]
pub struct DeckState {
    /// Per-card state.
    pub cards: Vec<CardState>,
}

/// An ease lowered by `d`, not below 1.3.
pub open spec fn eased_down(e: int, d: int) -> int {
    if e - d < 130 {
        130
    } else {
        e - d
    }
}

/// The interval after a successful review: one day, then six, then the last interval
/// times the multiplier, between one day and ten years.
pub open spec fn next_interval(reps: int, interval: int, mult: int) -> int {
    if reps == 1 {
        1
    } else if reps == 2 {
        6
    } else {
        let v = interval * mult / 100;
        if v < 1 {
            1
        } else if v > 3650 {
            3650
        } else {
            v
        }
    }
}

/// A card after rating `rating` (0 again, 1 hard, 2 good, 3 easy) on day `today`: a
/// compact SM-2. A new card starts at ease 2.5. Again resets the card to today and lowers
/// the ease by 0.2; otherwise the interval grows by 1.2 (hard), the ease, or the ease
/// plus 0.5 (easy), hard lowers the ease by 0.15, easy raises it by 0.15, and the card is
/// due after the interval.
pub open spec fn rated(c: CardState, rating: u8, today: u16) -> CardState {
    let e = if c.ease == 0 { 250int } else { c.ease as int };
    if rating == 0 {
        CardState { interval: 0, ease: eased_down(e, 20) as u16, due: today, reps: 0 }
    } else {
        let reps = c.reps + 1;
        let mult = if rating == 1 { 120 } else if rating == 2 { e } else { e + 50 };
        let interval = next_interval(reps, c.interval as int, mult);
        let ease = if rating == 1 { eased_down(e, 15) } else if rating == 3 { e + 15 } else { e };
        CardState { interval: interval as u16, ease: ease as u16, due: (today + interval) as u16, reps: reps as u16 }
    }
}

/// Apply a rating (0 again, 1 hard, 2 good, 3 easy) to a card state.
pub fn rate(c: &mut CardState, rating: u8, today: u16)
    requires
        rating != 0 ==> old(c).reps < u16::MAX,
        rating >= 3 ==> old(c).ease as int + 50 <= u16::MAX,
        rating != 0 ==> today as int + 3650 <= u16::MAX,
    ensures
        *final(c) == rated(*old(c), rating, today),
{
    if c.ease == 0 {
        c.ease = 250;
    }
    if rating == 0 {
        c.reps = 0;
        c.interval = 0;
        c.ease = if c.ease < 150 { 130 } else { c.ease - 20 };
        c.due = today;
    } else {
        c.reps = c.reps + 1;
        let mult: u16 = if rating == 1 {
            120
        } else if rating == 2 {
            c.ease
        } else {
            c.ease + 50
        };
        c.interval = if c.reps == 1 {
            1
        } else if c.reps == 2 {
            6
        } else {
            let a = c.interval as u32;
            let b = mult as u32;
            assert(a * b <= 65535 * 65535) by (nonlinear_arith)
                requires
                    a <= 65535,
                    b <= 65535,
            ;
            let v = (a * b) / 100;
            if v < 1 {
                1
            } else if v > 3650 {
                3650
            } else {
                v as u16
            }
        };
        if rating == 1 {
            c.ease = if c.ease < 145 { 130 } else { c.ease - 15 };
        } else if rating == 3 {
            c.ease = c.ease + 15;
        }
        c.due = today + c.interval;
    }
}

/// A rating never takes the ease below 1.3 (from a fresh card or one at 1.3 or more),
/// and the card is due on the day itself after "again" and later after any other
/// rating.
pub proof fn lemma_schedule_bounds(c: CardState, rating: u8, today: u16)
    requires
        c.ease == 0 || c.ease >= 130,
        c.ease as int + 50 <= u16::MAX,
        rating != 0 ==> c.reps < u16::MAX,
        today as int + 3650 <= u16::MAX,
    ensures
        rated(c, rating, today).ease >= 130,
        rating == 0 ==> rated(c, rating, today).due == today && rated(c, rating, today).reps == 0,
        rating != 0 ==> rated(c, rating, today).due > today,
        rating != 0 ==> 1 <= rated(c, rating, today).interval <= 3650,
{
    let e = if c.ease == 0 { 250int } else { c.ease as int };
    if rating != 0 {
        let mult = if rating == 1 { 120 } else if rating == 2 { e } else { e + 50 };
        assert(1 <= next_interval(c.reps + 1, c.interval as int, mult) <= 3650);
    }
}

/// How many of a deck's `n` cards are due on `today`: those without a state yet, and
/// those due on or before it.
pub open spec fn due_count(cards: Seq<CardState>, n: int, today: u16) -> int
    decreases n,
{
    if n <= 0 {
        0
    } else {
        due_count(cards, n - 1, today) + if n - 1 >= cards.len() || cards[n - 1].due <= today {
            1int
        } else {
            0int
        }
    }
}

/// The cards due on `today` among a deck's `n` cards.
pub fn due_today(state: &DeckState, n: usize, today: u16) -> (k: usize)
    ensures
        k == due_count(state.cards@, n as int, today),
        k <= n,
{
    let mut k: usize = 0;
    let mut i: usize = 0;
    while i < n
        invariant
            i <= n,
            k <= i,
            k == due_count(state.cards@, i as int, today),
        decreases n - i,
    {
        if i >= state.cards.len() || state.cards[i].due <= today {
            k += 1;
        }
        i += 1;
    }
    k
}

/// The first position of `c` in `s` from `i` on.
pub open spec fn find_char(s: Seq<char>, c: char, i: int) -> Option<int>
    decreases s.len() - i,
{
    if i < 0 || i >= s.len() {
        None
    } else if s[i] == c {
        Some(i)
    } else {
        find_char(s, c, i + 1)
    }
}

/// A card from a deck file's line: front and back around the first `|` (or, without
/// one, the first tab), trimmed; none for a blank line, a `#` comment or a line without
/// a separator.
pub open spec fn deck_line(l: Seq<char>) -> Option<(Seq<char>, Seq<char>)> {
    let t = trim_by(l, strips(Strip::White));
    if t.len() == 0 || t[0] == '#' {
        None
    } else {
        let at = match find_char(t, '|', 0) {
            Some(i) => Some(i),
            None => find_char(t, '\t', 0),
        };
        match at {
            Some(i) => Some(
                (trim_by(t.take(i), strips(Strip::White)), trim_by(t.skip(i + 1), strips(Strip::White))),
            ),
            None => None,
        }
    }
}

/// The cards of the first `n` lines.
pub open spec fn deck_cards(lines: Seq<Seq<char>>, n: int) -> Seq<(Seq<char>, Seq<char>)>
    decreases n,
{
    if n <= 0 {
        seq![]
    } else {
        let prev = deck_cards(lines, n - 1);
        match deck_line(lines[n - 1]) {
            Some(card) => prev.push(card),
            None => prev,
        }
    }
}

/// A deck file's cards: one per line, at most 5 000.
pub open spec fn deck(text: Seq<char>) -> Seq<(Seq<char>, Seq<char>)> {
    let cards = deck_cards(split_on(text, '\n'), split_on(text, '\n').len() as int);
    if cards.len() > 5000 {
        cards.take(5000)
    } else {
        cards
    }
}

fn find_char_exec(s: &Vec<char>, c: char) -> (r: Option<usize>)
    ensures
        r == (match find_char(s@, c, 0) {
            Some(i) => Some(i as usize),
            None => None::<usize>,
        }),
        r matches Some(i) ==> i < s.len(),
{
    let mut i: usize = 0;
    while i < s.len()
        invariant
            i <= s.len(),
            find_char(s@, c, 0) == find_char(s@, c, i as int),
        decreases s.len() - i,
    {
        if s[i] == c {
            return Some(i);
        }
        i += 1;
    }
    None
}

proof fn lemma_find_char_range(s: Seq<char>, c: char, i: int)
    requires
        0 <= i,
    ensures
        find_char(s, c, i) matches Some(k) ==> i <= k < s.len() && s[k] == c,
    decreases s.len() - i,
{
    if i < s.len() && s[i] != c {
        lemma_find_char_range(s, c, i + 1);
    }
}

fn parse_line(l: &String) -> (r: Option<(String, String)>)
    ensures
        r matches Some(p) ==> deck_line(l@) == Some((p.0@, p.1@)),
        r is None ==> deck_line(l@) is None,
{
    let cs = chars_of(l.as_str());
    let t = trim_chars(&cs, Strip::White);
    if t.len() == 0 || t[0] == '#' {
        return None;
    }
    let at = match find_char_exec(&t, '|') {
        Some(i) => Some(i),
        None => find_char_exec(&t, '\t'),
    };
    proof {
        lemma_find_char_range(t@, '|', 0);
        lemma_find_char_range(t@, '\t', 0);
    }
    match at {
        Some(i) => {
            let a = prefix_chars(&t, i);
            let mut b: Vec<char> = Vec::new();
            let mut k: usize = i + 1;
            while k < t.len()
                invariant
                    i < k <= t.len(),
                    b@ == t@.subrange(i + 1, k as int),
                decreases t.len() - k,
            {
                b.push(t[k]);
                k += 1;
                assert(b@ =~= t@.subrange(i + 1, k as int));
            }
            assert(b@ =~= t@.skip(i + 1));
            let front = trim_chars(&a, Strip::White);
            let back = trim_chars(&b, Strip::White);
            Some((string_of(&front), string_of(&back)))
        },
        None => None,
    }
}

/// The cards of a deck file: `front | back` (or tab-separated) per line, blank lines
/// and `#` comments skipped, at most 5 000.
pub fn parse_deck(text: &str) -> (r: Vec<(String, String)>)
    ensures
        r@.map_values(|p: (String, String)| (p.0@, p.1@)) == deck(text@),
{
    let lines = split_chars(text, '\n');
    let ghost lv = lines@.map_values(|x: String| x@);
    let mut out: Vec<(String, String)> = Vec::new();
    let mut i: usize = 0;
    while i < lines.len() && out.len() < 5000
        invariant
            i <= lines.len(),
            lv == lines@.map_values(|x: String| x@),
            lv == split_on(text@, '\n'),
            out@.map_values(|p: (String, String)| (p.0@, p.1@)) == deck_cards(lv, i as int),
            out.len() <= 5000,
        decreases lines.len() - i,
    {
        let ghost before = out@.map_values(|p: (String, String)| (p.0@, p.1@));
        match parse_line(&lines[i]) {
            Some(p) => {
                out.push(p);
                assert(out@.map_values(|p: (String, String)| (p.0@, p.1@)) =~= before.push((out@[out.len() - 1].0@, out@[out.len() - 1].1@)));
            },
            None => {},
        }
        i += 1;
    }
    proof {
        if i < lines.len() {
            lemma_deck_cards_grow(lv, i as int, lv.len() as int);
            assert(deck_cards(lv, lv.len() as int).take(5000) =~= deck_cards(lv, i as int));
        }
    }
    out
}

proof fn lemma_deck_cards_grow(lines: Seq<Seq<char>>, i: int, j: int)
    requires
        0 <= i <= j <= lines.len(),
    ensures
        deck_cards(lines, j).len() >= deck_cards(lines, i).len(),
        deck_cards(lines, j).take(deck_cards(lines, i).len() as int) == deck_cards(lines, i),
    decreases j - i,
{
    if j > i {
        lemma_deck_cards_grow(lines, i, j - 1);
        let a = deck_cards(lines, i);
        let b = deck_cards(lines, j - 1);
        assert(deck_cards(lines, j).take(a.len() as int) =~= b.take(a.len() as int));
    } else {
        assert(deck_cards(lines, i).take(deck_cards(lines, i).len() as int) =~= deck_cards(lines, i));
    }
}

/// The deck list: (file name, cards, due today).
pub struct Decks {
    decks: Vec<(String, usize, usize)>,
    nav: ListNav,
    loaded: bool,
}

impl Decks {
    /// Whether the decks have been read.
    pub closed spec fn spec_loaded(self) -> bool {
        self.loaded
    }

    /// The decks listed: (file name, cards, due today).
    pub closed spec fn spec_decks(self) -> Seq<(Seq<char>, usize, usize)> {
        self.decks@.map_values(|d: (String, usize, usize)| (d.0@, d.1, d.2))
    }

    /// The list's position.
    pub closed spec fn spec_nav(self) -> ListNav {
        self.nav
    }

    /// New: read on the first drawing.
    pub fn new() -> (d: Decks)
        ensures
            !d.spec_loaded(),
            d.spec_decks().len() == 0,
            d.spec_nav() == (ListNav { n: 0, per_page: 9, focus: 0 }),
    {
        Decks { decks: Vec::new(), nav: ListNav::new(0, 9), loaded: false }
    }
}

/// The cards a session studies: those due today, or every card when none is due; at
/// most fifty.
pub open spec fn session_queue(cards: Seq<CardState>, today: u16) -> Seq<usize> {
    let due = Seq::new(cards.len(), |i: int| i as usize).filter(|i: usize| cards[i as int].due <= today);
    let q = if due.len() == 0 { Seq::new(cards.len(), |i: int| i as usize) } else { due };
    if q.len() > 50 {
        q.take(50)
    } else {
        q
    }
}

/// What a key asks of a study session.
#[derive(Clone, Copy, Debug, PartialEq, Eq, Structural)]
pub enum StudyStep {
    /// Nothing.
    Ignore,
    /// Redraw.
    Redraw,
    /// Close the session.
    Pop,
    /// Save the deck's state, then close.
    SaveAndPop,
    /// Save the deck's state, then redraw (the summary).
    SaveAndRedraw,
    /// Start a new session on the same deck.
    Again,
}

/// A study session.
pub struct Study {
    deck: String,
    cards: Vec<(String, String)>,
    state: DeckState,
    queue: Vec<usize>,
    pos: usize,
    back: bool,
    rated: [u16; 4],
    done: bool,
}

impl Study {
    /// The cards' scheduling state.
    pub closed spec fn spec_states(self) -> Seq<CardState> {
        self.state.cards@
    }

    /// The cards still to show, by index.
    pub closed spec fn spec_queue(self) -> Seq<usize> {
        self.queue@
    }

    /// The position in the queue.
    pub closed spec fn spec_pos(self) -> usize {
        self.pos
    }

    /// The back of the card is shown.
    pub closed spec fn spec_back(self) -> bool {
        self.back
    }

    /// The session ended (the summary is shown).
    pub closed spec fn spec_done(self) -> bool {
        self.done
    }

    /// Ratings given, by rating.
    pub closed spec fn spec_rated(self) -> Seq<u16> {
        self.rated@
    }

    /// The queue holds cards of the deck, a state per card, and the position is in the
    /// queue until the session ends.
    pub closed spec fn inv(self) -> bool {
        &&& self.state.cards.len() == self.cards.len()
        &&& forall|i: int| 0 <= i < self.queue.len() ==> #[trigger] self.queue@[i] < self.cards.len()
        &&& !self.done ==> self.pos < self.queue.len() || self.queue.len() == 0
    }

    /// Start a session on deck `deck` with its cards and saved state on day `today`: a
    /// state per card (new cards get a fresh one), and the cards due today (all when none
    /// is), at most fifty.
    pub fn new(deck: &str, cards: Vec<(String, String)>, state: DeckState, today: u16) -> (s: Study)
        ensures
            s.inv(),
            s.spec_states().len() == cards.len(),
            forall|i: int| 0 <= i < cards.len() ==> #[trigger] s.spec_states()[i] == (if i < state.cards.len() {
                state.cards@[i]
            } else {
                CardState { interval: 0, ease: 0, due: 0, reps: 0 }
            }),
            s.spec_queue() == session_queue(s.spec_states(), today),
            s.spec_pos() == 0,
            !s.spec_back(),
            !s.spec_done(),
            s.spec_rated() == seq![0u16, 0, 0, 0],
    {
        let n = cards.len();
        let mut st: Vec<CardState> = Vec::new();
        let mut i: usize = 0;
        while i < n
            invariant
                i <= n,
                st.len() == i,
                forall|j: int| 0 <= j < i ==> #[trigger] st@[j] == (if j < state.cards.len() {
                    state.cards@[j]
                } else {
                    CardState { interval: 0, ease: 0, due: 0, reps: 0 }
                }),
            decreases n - i,
        {
            if i < state.cards.len() {
                st.push(state.cards[i]);
            } else {
                st.push(CardState { interval: 0, ease: 0, due: 0, reps: 0 });
            }
            i += 1;
        }
        let queue = due_queue(&st, today);
        Study {
            deck: crate::textutil::owned(deck),
            cards,
            state: DeckState { cards: st },
            queue,
            pos: 0,
            back: false,
            rated: [0; 4],
            done: false,
        }
    }

    /// The deck's name and state, for saving.
    pub fn state(&self) -> (r: (&str, &DeckState))
        ensures
            r.1.cards@ == self.spec_states(),
    {
        (self.deck.as_str(), &self.state)
    }

    /// A press (other events do nothing). On the summary, Confirm studies again and
    /// anything else closes. On a card's front, Back saves and closes, Confirm shows the
    /// back, Right skips (the session ends after the last card, saving). On the back,
    /// Left, Back, Confirm and Right rate the card again, hard, good and easy on day
    /// `today`: the card is rescheduled, counted, and (again) queued once more at the end.
    pub fn key(&mut self, ev: KeyEvent, today: u16) -> (s: StudyStep)
        requires
            old(self).inv(),
            today as int + 3650 <= u16::MAX,
            forall|i: int| 0 <= i < 4 ==> #[trigger] old(self).spec_rated()[i] < u16::MAX,
            forall|i: int| 0 <= i < old(self).spec_states().len() ==> #[trigger] old(self).spec_states()[i].reps < u16::MAX
                && old(self).spec_states()[i].ease as int + 50 <= u16::MAX,
        ensures
            final(self).inv(),
            ev.kind != KeyKind::Press ==> s == StudyStep::Ignore && *final(self) == *old(self),
            ev.kind == KeyKind::Press && (old(self).spec_done() || old(self).spec_queue().len() == 0) ==> s == (if ev.key
                == Key::Confirm {
                StudyStep::Again
            } else {
                StudyStep::Pop
            }) && *final(self) == *old(self),
            ev.kind == KeyKind::Press && !old(self).spec_done() && old(self).spec_queue().len() > 0
                && !old(self).spec_back() ==> match ev.key {
                Key::Back => s == StudyStep::SaveAndPop && *final(self) == *old(self),
                Key::Confirm => s == StudyStep::Redraw && final(self).spec_back() && final(self).spec_pos()
                    == old(self).spec_pos(),
                Key::Right => final(self).spec_pos() == old(self).spec_pos() + 1 && final(self).spec_done() == (
                old(self).spec_pos() + 1 >= old(self).spec_queue().len()) && s == (if final(self).spec_done() {
                    StudyStep::SaveAndRedraw
                } else {
                    StudyStep::Redraw
                }),
                _ => s == StudyStep::Ignore && *final(self) == *old(self),
            },
            ev.kind == KeyKind::Press && !old(self).spec_done() && old(self).spec_queue().len() > 0
                && old(self).spec_back() && ev.key != Key::Up && ev.key != Key::Down && ev.key != Key::Power ==> {
                let r: u8 = if ev.key == Key::Left { 0 } else if ev.key == Key::Back { 1 } else if ev.key == Key::Confirm {
                    2
                } else {
                    3
                };
                let idx = old(self).spec_queue()[old(self).spec_pos() as int];
                &&& final(self).spec_states() == old(self).spec_states().update(
                    idx as int,
                    rated(old(self).spec_states()[idx as int], r, today),
                )
                &&& final(self).spec_rated() == old(self).spec_rated().update(r as int, (old(self).spec_rated()[r as int] + 1) as u16)
                &&& final(self).spec_queue() == (if r == 0 { old(self).spec_queue().push(idx) } else { old(self).spec_queue() })
                &&& !final(self).spec_back()
                &&& final(self).spec_pos() == old(self).spec_pos() + 1
                &&& final(self).spec_done() == (final(self).spec_pos() >= final(self).spec_queue().len())
                &&& s == (if final(self).spec_done() { StudyStep::SaveAndRedraw } else { StudyStep::Redraw })
            },
            ev.kind == KeyKind::Press && !old(self).spec_done() && old(self).spec_queue().len() > 0 && old(self).spec_back()
                && (ev.key == Key::Up || ev.key == Key::Down || ev.key == Key::Power) ==> s == StudyStep::Ignore
                && *final(self) == *old(self),
    {
        if ev.kind != KeyKind::Press {
            return StudyStep::Ignore;
        }
        if self.done || self.queue.len() == 0 {
            return if ev.key == Key::Confirm { StudyStep::Again } else { StudyStep::Pop };
        }
        if !self.back {
            return match ev.key {
                Key::Back => StudyStep::SaveAndPop,
                Key::Confirm => {
                    self.back = true;
                    StudyStep::Redraw
                },
                Key::Right => {
                    self.pos = self.pos + 1;
                    if self.pos >= self.queue.len() {
                        self.done = true;
                        StudyStep::SaveAndRedraw
                    } else {
                        StudyStep::Redraw
                    }
                },
                _ => StudyStep::Ignore,
            };
        }
        let rating: u8 = match ev.key {
            Key::Left => 0,
            Key::Back => 1,
            Key::Confirm => 2,
            Key::Right => 3,
            _ => {
                return StudyStep::Ignore;
            },
        };
        let idx = self.queue[self.pos];
        assert(self.queue@[self.pos as int] < self.cards.len());
        assert(old(self).spec_states()[idx as int].reps < u16::MAX);
        let mut c = self.state.cards[idx];
        rate(&mut c, rating, today);
        self.state.cards.set(idx, c);
        let k = rating as usize;
        assert(old(self).spec_rated()[k as int] < u16::MAX);
        self.rated[k] = self.rated[k] + 1;
        if rating == 0 {
            self.queue.push(idx);
        }
        self.back = false;
        self.pos = self.pos + 1;
        if self.pos >= self.queue.len() {
            self.done = true;
            StudyStep::SaveAndRedraw
        } else {
            StudyStep::Redraw
        }
    }
}

fn due_queue(st: &Vec<CardState>, today: u16) -> (q: Vec<usize>)
    ensures
        q@ == session_queue(st@, today),
        forall|i: int| 0 <= i < q.len() ==> #[trigger] q@[i] < st.len(),
{
    let n = st.len();
    let ghost all = Seq::new(n as nat, |i: int| i as usize);
    let ghost f = |i: usize| st@[i as int].due <= today;
    let mut due: Vec<usize> = Vec::new();
    let mut i: usize = 0;
    assert(all.take(0).filter(f) =~= Seq::<usize>::empty());
    while i < n
        invariant
            i <= n,
            n == st.len(),
            all == Seq::new(n as nat, |i: int| i as usize),
            f == (|i: usize| st@[i as int].due <= today),
            due@ == all.take(i as int).filter(f),
            forall|j: int| 0 <= j < due.len() ==> #[trigger] due@[j] < i,
        decreases n - i,
    {
        proof {
            let s = all.take(i + 1);
            assert(s.drop_last() =~= all.take(i as int));
            s.drop_last().lemma_filter_push(s.last(), f);
            assert(s =~= s.drop_last().push(s.last()));
        }
        if st[i].due <= today {
            due.push(i);
        }
        i += 1;
    }
    assert(all.take(n as int) =~= all);
    let mut q: Vec<usize> = Vec::new();
    if due.len() == 0 {
        let mut j: usize = 0;
        while j < n
            invariant
                j <= n,
                q@ == all.take(j as int),
                all == Seq::new(n as nat, |i: int| i as usize),
            decreases n - j,
        {
            q.push(j);
            assert(q@ =~= all.take(j + 1));
            j += 1;
        }
        assert(q@ =~= all);
    } else {
        q = due;
    }
    if q.len() > 50 {
        q.truncate(50);
    }
    q
}

/// The story list.
pub struct Stories {
    files: Vec<String>,
    nav: ListNav,
    loaded: bool,
}

impl Stories {
    /// Whether the card has been read.
    pub closed spec fn spec_loaded(self) -> bool {
        self.loaded
    }

    /// The story files listed.
    pub closed spec fn spec_files(self) -> Seq<Seq<char>> {
        self.files@.map_values(|f: String| f@)
    }

    /// The list's position.
    pub closed spec fn spec_nav(self) -> ListNav {
        self.nav
    }

    /// New: read on the first drawing.
    pub fn new() -> (s: Stories)
        ensures
            !s.spec_loaded(),
            s.spec_files().len() == 0,
            s.spec_nav() == (ListNav { n: 0, per_page: 9, focus: 0 }),
    {
        Stories { files: Vec::new(), nav: ListNav::new(0, 9), loaded: false }
    }
}

/// The notes list and viewer.
pub struct Notes {
    files: Vec<String>,
    nav: ListNav,
    open: Option<(String, String)>,
    page: usize,
    loaded: bool,
}

impl Notes {
    /// Whether the card has been read.
    pub closed spec fn spec_loaded(self) -> bool {
        self.loaded
    }

    /// No note is open.
    pub closed spec fn spec_listing(self) -> bool {
        self.open is None
    }

    /// The open note: (file name, text).
    pub closed spec fn spec_open(self) -> Option<(Seq<char>, Seq<char>)> {
        match self.open {
            Some((n, t)) => Some((n@, t@)),
            None => None,
        }
    }

    /// The page of the open note shown.
    pub closed spec fn spec_page(self) -> usize {
        self.page
    }

    /// The note files listed.
    pub closed spec fn spec_files(self) -> Seq<Seq<char>> {
        self.files@.map_values(|f: String| f@)
    }

    /// The focused row.
    pub closed spec fn spec_focus(self) -> usize {
        self.nav.focus
    }

    /// The list's position.
    pub closed spec fn spec_nav(self) -> ListNav {
        self.nav
    }

    /// New: the list, read on the first drawing.
    pub fn new() -> (n: Notes)
        ensures
            !n.spec_loaded(),
            n.spec_listing(),
            n.spec_page() == 0,
            n.spec_files().len() == 0,
            n.spec_nav() == (ListNav { n: 0, per_page: 9, focus: 0 }),
    {
        Notes { files: Vec::new(), nav: ListNav::new(0, 9), open: None, page: 0, loaded: false }
    }

    /// The names of the notes folder's files: the `.txt` ones are listed, sorted.
    pub fn load(&mut self, names: &Vec<String>)
        ensures
            final(self).spec_loaded(),
            crate::dict::card::sorted_chars(final(self).spec_files()),
            final(self).spec_files().to_multiset() == names@.map_values(|x: String| x@).filter(
                |n: Seq<char>| ends_with(n, txt_ext()),
            ).to_multiset(),
            final(self).spec_open() == old(self).spec_open(),
            final(self).spec_page() == old(self).spec_page(),
            final(self).spec_focus() == old(self).spec_focus(),
    {
        let ghost nv = names@.map_values(|x: String| x@);
        let ghost f = |n: Seq<char>| ends_with(n, txt_ext());
        let ext = vec!['.', 't', 'x', 't'];
        assert(ext@ =~= txt_ext());
        let mut out: Vec<String> = Vec::new();
        let mut i: usize = 0;
        assert(nv.take(0).filter(f) =~= Seq::<Seq<char>>::empty());
        assert(out@.map_values(|x: String| x@) =~= Seq::<Seq<char>>::empty());
        while i < names.len()
            invariant
                i <= names.len(),
                nv == names@.map_values(|x: String| x@),
                ext@ == txt_ext(),
                f == (|n: Seq<char>| ends_with(n, txt_ext())),
                crate::dict::card::sorted_chars(out@.map_values(|x: String| x@)),
                out@.map_values(|x: String| x@).to_multiset() == nv.take(i as int).filter(f).to_multiset(),
            decreases names.len() - i,
        {
            let cs = chars_of(names[i].as_str());
            proof {
                let t = nv.take(i + 1);
                assert(t.drop_last() =~= nv.take(i as int));
                t.drop_last().lemma_filter_push(t.last(), f);
                assert(t =~= t.drop_last().push(t.last()));
                assert(t.last() == cs@);
            }
            if crate::textutil::chars_end_with(&cs, &ext) {
                let ghost c = cs@;
                crate::dict::card::insert_sorted(&mut out, cs);
                proof {
                    broadcast use vstd::seq_lib::group_to_multiset_ensures;
                }
            }
            i += 1;
        }
        assert(nv.take(names.len() as int) =~= nv);
        self.files = out;
        self.loaded = true;
    }

    /// The focused file, if the list has one there.
    pub fn focused_file(&self) -> (r: Option<String>)
        ensures
            self.spec_focus() < self.spec_files().len() ==> (r matches Some(f) && f@ == self.spec_files()[self.spec_focus() as int]),
            self.spec_focus() >= self.spec_files().len() ==> r is None,
    {
        if self.nav.focus < self.files.len() {
            Some(self.files[self.nav.focus].clone())
        } else {
            None
        }
    }

    /// A key. With a note open: Back closes it, Right and Left turn its pages, Confirm
    /// edits it. On the list (presses): Back closes, Right starts a new note, Confirm
    /// opens the focused one; the list's navigation takes the other keys. Releases do
    /// nothing.
    pub fn key(&mut self, ev: KeyEvent) -> (s: NotesStep)
        requires
            old(self).spec_page() < usize::MAX,
        ensures
            final(self).spec_files() == old(self).spec_files(),
            final(self).spec_focus() == old(self).spec_focus(),
            final(self).spec_loaded() == old(self).spec_loaded(),
            ev.kind == KeyKind::Release ==> s == NotesStep::Ignore && final(self).spec_open() == old(self).spec_open()
                && final(self).spec_page() == old(self).spec_page(),
            ev.kind != KeyKind::Release && old(self).spec_open() is Some ==> match ev.key {
                Key::Back => s == NotesStep::Redraw && final(self).spec_open() is None && final(self).spec_page()
                    == old(self).spec_page(),
                Key::Right => s == NotesStep::Redraw && final(self).spec_open() == old(self).spec_open()
                    && final(self).spec_page() == old(self).spec_page() + 1,
                Key::Left => s == NotesStep::Redraw && final(self).spec_open() == old(self).spec_open()
                    && final(self).spec_page() == (if old(self).spec_page() == 0 {
                    0
                } else {
                    old(self).spec_page() - 1
                }),
                Key::Confirm => s == NotesStep::Edit && final(self).spec_open() == old(self).spec_open()
                    && final(self).spec_page() == old(self).spec_page(),
                _ => s == NotesStep::Ignore && final(self).spec_open() == old(self).spec_open()
                    && final(self).spec_page() == old(self).spec_page(),
            },
            ev.kind != KeyKind::Release && old(self).spec_open() is None ==> final(self).spec_open() is None
                && final(self).spec_page() == old(self).spec_page() && s == (if ev.kind == KeyKind::Press
                && ev.key == Key::Back {
                NotesStep::Pop
            } else if ev.kind == KeyKind::Press && ev.key == Key::Right {
                NotesStep::NewNote
            } else if ev.kind == KeyKind::Press && ev.key == Key::Confirm {
                NotesStep::Open
            } else {
                NotesStep::Nav
            }),
    {
        if ev.kind == KeyKind::Release {
            return NotesStep::Ignore;
        }
        if self.open.is_some() {
            return match ev.key {
                Key::Back => {
                    self.open = None;
                    NotesStep::Redraw
                },
                Key::Right => {
                    self.page = self.page + 1;
                    NotesStep::Redraw
                },
                Key::Left => {
                    self.page = self.page.saturating_sub(1);
                    NotesStep::Redraw
                },
                Key::Confirm => NotesStep::Edit,
                _ => NotesStep::Ignore,
            };
        }
        if ev.is(Key::Back) {
            return NotesStep::Pop;
        }
        if ev.is(Key::Right) {
            return NotesStep::NewNote;
        }
        if ev.is(Key::Confirm) {
            return NotesStep::Open;
        }
        NotesStep::Nav
    }

    /// A new note, named (by the clock) `name`, is open and empty.
    pub fn start_note(&mut self, name: String)
        ensures
            final(self).spec_open() == Some((name@, Seq::<char>::empty())),
            final(self).spec_page() == old(self).spec_page(),
            final(self).spec_files() == old(self).spec_files(),
            final(self).spec_loaded() == old(self).spec_loaded(),
    {
        self.open = Some((name, String::new()));
    }

    /// Note `name`, read from the card, is open at its first page.
    pub fn show(&mut self, name: String, text: String)
        ensures
            final(self).spec_open() == Some((name@, text@)),
            final(self).spec_page() == 0,
            final(self).spec_files() == old(self).spec_files(),
            final(self).spec_loaded() == old(self).spec_loaded(),
    {
        self.open = Some((name, text));
        self.page = 0;
    }

    /// The title the editor shows for the open note: its name without `.txt` endings.
    pub fn edit_title(&self) -> (t: Option<String>)
        ensures
            match self.spec_open() {
                Some((n, _)) => t matches Some(x) && x@ == without_txt(n),
                None => t is None,
            },
    {
        match &self.open {
            Some((n, _)) => {
                let mut cs = chars_of(n.as_str());
                let ext = vec!['.', 't', 'x', 't'];
                assert(ext@ =~= txt_ext());
                while crate::textutil::chars_end_with(&cs, &ext)
                    invariant
                        ext@ == txt_ext(),
                        without_txt(cs@) == without_txt(n@),
                    decreases cs.len(),
                {
                    cs = crate::textutil::prefix_chars(&cs, cs.len() - 4);
                }
                Some(string_of(&cs))
            },
            None => None,
        }
    }

    /// Text saved from the editor: the open note takes it, the list is read again, and
    /// the note (name, text) is returned to be written; with no note open nothing
    /// changes.
    pub fn saved(&mut self, t: String) -> (w: Option<(String, String)>)
        ensures
            match old(self).spec_open() {
                Some((n, _)) => w matches Some((a, b)) && a@ == n && b@ == t@ && final(self).spec_open() == Some(
                    (n, t@),
                ) && !final(self).spec_loaded(),
                None => w is None && final(self).spec_open() is None && final(self).spec_loaded() == old(
                    self,
                ).spec_loaded(),
            },
            final(self).spec_page() == old(self).spec_page(),
    {
        match &self.open {
            Some((n, _)) => {
                let name = n.clone();
                let name2 = n.clone();
                let text = t.clone();
                self.open = Some((name, t));
                self.loaded = false;
                Some((name2, text))
            },
            None => None,
        }
    }
}

/// The extension of note files.
pub open spec fn txt_ext() -> Seq<char> {
    seq!['.', 't', 'x', 't']
}

/// A name without its `.txt` endings (all of them).
pub open spec fn without_txt(n: Seq<char>) -> Seq<char>
    decreases n.len(),
{
    if ends_with(n, txt_ext()) {
        without_txt(n.subrange(0, n.len() - 4))
    } else {
        n
    }
}

/// What a key asks of the notes.
#[derive(Clone, Copy, Debug, PartialEq, Eq, Structural)]
pub enum NotesStep {
    /// Nothing.
    Ignore,
    /// Close.
    Pop,
    /// Redraw.
    Redraw,
    /// Edit the open note on the keyboard (titled by [`Notes::edit_title`]).
    Edit,
    /// Start a note named by the clock ([`Notes::start_note`]), typed on the keyboard.
    NewNote,
    /// Read the focused note ([`Notes::focused_file`]) and show it ([`Notes::show`]),
    /// then redraw.
    Open,
    /// The list's navigation takes the key.
    Nav,
}

/// The weather screen.
pub struct Weather {
    /// A report has been asked for.
    pub requested: bool,
}

/// What a key asks of the weather screen.
#[derive(Clone, Copy, Debug, PartialEq, Eq, Structural)]
pub enum WeatherStep {
    /// Nothing.
    Ignore,
    /// Close.
    Pop,
    /// Redraw.
    Redraw,
    /// Open the keyboard to type the place.
    Keyboard,
}

impl Weather {
    /// New.
    pub fn new() -> (w: Weather)
        ensures
            !w.requested,
    {
        Weather { requested: false }
    }

    /// A key (presses only): Confirm types the place, Right asks for a fresh report,
    /// Back closes.
    pub fn key(&mut self, ev: KeyEvent) -> (s: WeatherStep)
        ensures
            ev.kind != KeyKind::Press ==> s == WeatherStep::Ignore && final(self).requested == old(self).requested,
            ev.kind == KeyKind::Press ==> match ev.key {
                Key::Back => s == WeatherStep::Pop && final(self).requested == old(self).requested,
                Key::Confirm => s == WeatherStep::Keyboard && final(self).requested == old(self).requested,
                Key::Right => s == WeatherStep::Redraw && !final(self).requested,
                _ => s == WeatherStep::Ignore && final(self).requested == old(self).requested,
            },
    {
        if ev.kind != KeyKind::Press {
            return WeatherStep::Ignore;
        }
        match ev.key {
            Key::Back => WeatherStep::Pop,
            Key::Confirm => WeatherStep::Keyboard,
            Key::Right => {
                self.requested = false;
                WeatherStep::Redraw
            },
            _ => WeatherStep::Ignore,
        }
    }

    /// A network event: the screen redraws when a report arrives.
    pub fn net_event(&self, ev: &crate::net::NetEvent) -> (redraw: bool)
        ensures
            redraw == (*ev is Weather),
    {
        match ev {
            crate::net::NetEvent::Weather => true,
            _ => false,
        }
    }

    /// The place typed on the keyboard: trimmed; an empty one changes nothing. A new
    /// place is returned for the settings (whose coordinates are then forgotten), and
    /// a report is asked for again.
    pub fn typed(&mut self, text: &str) -> (place: Option<String>)
        ensures
            trim_by(text@, strips(Strip::White)).len() == 0 ==> place is None && final(self).requested
                == old(self).requested,
            trim_by(text@, strips(Strip::White)).len() > 0 ==> (place matches Some(p) && p@ == trim_by(
                text@,
                strips(Strip::White),
            ) && !final(self).requested),
    {
        let cs = chars_of(text);
        let t = trim_chars(&cs, Strip::White);
        if t.len() == 0 {
            return None;
        }
        self.requested = false;
        Some(string_of(&t))
    }
}

/// The Wikipedia app.
pub struct Wikipedia {
    query: String,
    result: Option<(String, String)>,
    error: Option<String>,
    working: bool,
    page: usize,
}

impl Wikipedia {
    /// The query typed.
    pub closed spec fn spec_query(self) -> Seq<char> {
        self.query@
    }

    /// Waiting for an answer.
    pub closed spec fn spec_working(self) -> bool {
        self.working
    }

    /// The summary shown: (title, text).
    pub closed spec fn spec_result(self) -> Option<(Seq<char>, Seq<char>)> {
        match self.result {
            Some((t, x)) => Some((t@, x@)),
            None => None,
        }
    }

    /// The error shown.
    pub closed spec fn spec_error(self) -> Option<Seq<char>> {
        match self.error {
            Some(e) => Some(e@),
            None => None,
        }
    }

    /// The page of the summary shown.
    pub closed spec fn spec_page(self) -> usize {
        self.page
    }

    /// New: no query yet.
    pub fn new() -> (w: Wikipedia)
        ensures
            w.spec_query().len() == 0,
            !w.spec_working(),
            w.spec_result() is None,
            w.spec_error() is None,
            w.spec_page() == 0,
    {
        Wikipedia { query: String::new(), result: None, error: None, working: false, page: 0 }
    }

    /// The query typed.
    pub fn query(&self) -> (q: &str)
        ensures
            q@ == self.spec_query(),
    {
        self.query.as_str()
    }

    /// A key (presses only). Confirm types a term (Wi-Fi first, when it is off and no
    /// summary is shown); Right turns the page of a summary, or else asks for the
    /// summary of the query typed; Left turns back; Back closes.
    pub fn key(&mut self, ev: KeyEvent, wifi: bool) -> (s: WikiStep)
        requires
            old(self).spec_page() < usize::MAX,
        ensures
            ev.kind != KeyKind::Press ==> s == WikiStep::Ignore && *final(self) == *old(self),
            ev.kind == KeyKind::Press ==> match ev.key {
                Key::Back => s == WikiStep::Pop && *final(self) == *old(self),
                Key::Confirm => *final(self) == *old(self) && s == (if old(self).spec_result() is None
                    && !wifi { WikiStep::NeedWifi } else { WikiStep::Keyboard }),
                Key::Right => if old(self).spec_result() is Some {
                    s == WikiStep::Redraw && final(self).spec_page() == old(self).spec_page() + 1
                        && final(self).spec_query() == old(self).spec_query()
                        && final(self).spec_result() == old(self).spec_result()
                        && final(self).spec_error() == old(self).spec_error()
                        && final(self).spec_working() == old(self).spec_working()
                } else if old(self).spec_query().len() > 0 {
                    s == WikiStep::Fetch && final(self).spec_working() && final(self).spec_error() is None
                        && final(self).spec_query() == old(self).spec_query()
                        && final(self).spec_result() == old(self).spec_result()
                        && final(self).spec_page() == old(self).spec_page()
                } else {
                    s == WikiStep::Redraw && *final(self) == *old(self)
                },
                Key::Left => s == WikiStep::Redraw && final(self).spec_page() == (if old(self).spec_page() == 0 {
                    0
                } else {
                    old(self).spec_page() - 1
                }) && final(self).spec_query() == old(self).spec_query() && final(self).spec_result()
                    == old(self).spec_result() && final(self).spec_error() == old(self).spec_error()
                    && final(self).spec_working() == old(self).spec_working(),
                _ => s == WikiStep::Ignore && *final(self) == *old(self),
            },
    {
        if ev.kind != KeyKind::Press {
            return WikiStep::Ignore;
        }
        match ev.key {
            Key::Back => WikiStep::Pop,
            Key::Confirm => {
                if self.result.is_none() && !wifi {
                    WikiStep::NeedWifi
                } else {
                    WikiStep::Keyboard
                }
            },
            Key::Right => {
                if self.result.is_some() {
                    self.page = self.page + 1;
                    WikiStep::Redraw
                } else if self.query.as_str().unicode_len() > 0 {
                    self.error = None;
                    self.working = true;
                    WikiStep::Fetch
                } else {
                    WikiStep::Redraw
                }
            },
            Key::Left => {
                self.page = self.page.saturating_sub(1);
                WikiStep::Redraw
            },
            _ => WikiStep::Ignore,
        }
    }

    /// The answer to a fetch: a summary (shown from its first page) or an error.
    pub fn answered(&mut self, r: Result<(String, String), String>)
        ensures
            !final(self).spec_working(),
            final(self).spec_query() == old(self).spec_query(),
            match r {
                Ok((t, x)) => final(self).spec_result() == Some((t@, x@)) && final(self).spec_page() == 0
                    && final(self).spec_error() == old(self).spec_error(),
                Err(e) => final(self).spec_error() == Some(e@) && final(self).spec_result() == old(
                    self,
                ).spec_result() && final(self).spec_page() == old(self).spec_page(),
            },
    {
        self.working = false;
        match r {
            Ok(pair) => {
                self.result = Some(pair);
                self.page = 0;
            },
            Err(e) => {
                self.error = Some(e);
            },
        }
    }

    /// Text typed on the phone becomes the query.
    pub fn phone_text(&mut self, t: String)
        ensures
            final(self).spec_query() == t@,
            final(self).spec_result() == old(self).spec_result(),
            final(self).spec_error() == old(self).spec_error(),
            final(self).spec_working() == old(self).spec_working(),
            final(self).spec_page() == old(self).spec_page(),
    {
        self.query = t;
    }

    /// A term typed on the keyboard: trimmed; an empty one changes nothing. A new term
    /// clears what was shown, and is looked up when Wi-Fi is on (else the error says
    /// Wi-Fi is off).
    pub fn typed(&mut self, text: &str, wifi: bool) -> (s: WikiStep)
        ensures
            trim_by(text@, strips(Strip::White)).len() == 0 ==> s == WikiStep::Redraw && *final(self) == *old(self),
            trim_by(text@, strips(Strip::White)).len() > 0 ==> {
                &&& final(self).spec_query() == trim_by(text@, strips(Strip::White))
                &&& final(self).spec_result() is None
                &&& final(self).spec_page() == old(self).spec_page()
                &&& wifi ==> s == WikiStep::Fetch && final(self).spec_working() && final(self).spec_error() is None
                &&& !wifi ==> s == WikiStep::Redraw && final(self).spec_working() == old(self).spec_working()
                    && final(self).spec_error() == Some("Wi-Fi is off."@)
            },
    {
        let cs = chars_of(text);
        let t = trim_chars(&cs, Strip::White);
        if t.len() == 0 {
            return WikiStep::Redraw;
        }
        self.query = string_of(&t);
        self.result = None;
        self.error = None;
        if wifi {
            self.working = true;
            WikiStep::Fetch
        } else {
            self.error = Some(owned("Wi-Fi is off."));
            WikiStep::Redraw
        }
    }
}

/// What a key asks of the Wikipedia app.
#[derive(Clone, Copy, Debug, PartialEq, Eq, Structural)]
pub enum WikiStep {
    /// Nothing.
    Ignore,
    /// Close.
    Pop,
    /// Redraw.
    Redraw,
    /// Wi-Fi is needed first: open its screen with a hint.
    NeedWifi,
    /// Open the keyboard to type a term, starting from the query.
    Keyboard,
    /// Ask for the summary of the query, then redraw.
    Fetch,
}

/// A fetched article, as the fetcher hands it over.
#[derive(Clone, Debug, PartialEq, Eq)]
pub struct Article {
    /// Feed URL it came from.
    pub feed: String,
    /// Feed title.
    pub feed_title: String,
    /// Article title.
    pub title: String,
    /// Link.
    pub url: String,
    /// Published (local seconds) if known.
    pub published: u32,
    /// Plain text body.
    pub text: String,
    /// Read flag.
    pub read: bool,
}

/// An article as the index stores it: everything but the body.
#[derive(Clone, Debug, PartialEq, Eq)]
pub struct ArticleMeta {
    /// Feed URL it came from.
    pub feed: String,
    /// Feed title.
    pub feed_title: String,
    /// Article title.
    pub title: String,
    /// Link.
    pub url: String,
    /// Published (local seconds) if known.
    pub published: u32,
    /// Read flag.
    pub read: bool,
}

/// The news screen.
pub struct News {
    articles: Vec<ArticleMeta>,
    feed: Option<String>,
    nav: ListNav,
    loaded: bool,
}

impl News {
    /// Whether the index has been read.
    pub closed spec fn spec_loaded(self) -> bool {
        self.loaded
    }

    /// The open feed, if any.
    pub closed spec fn spec_feed(self) -> Option<Seq<char>> {
        match self.feed {
            Some(f) => Some(f@),
            None => None,
        }
    }

    /// The list's position.
    pub closed spec fn spec_nav(self) -> ListNav {
        self.nav
    }

    /// New: the feed list, read on the first drawing.
    pub fn new() -> (n: News)
        ensures
            !n.spec_loaded(),
            n.spec_feed() is None,
            news_articles(n).len() == 0,
            n.spec_nav() == (ListNav { n: 0, per_page: 9, focus: 0 }),
    {
        News { articles: Vec::new(), feed: None, nav: ListNav::new(0, 9), loaded: false }
    }
}

/// A feed row: url, title, unread articles, and whether it has been fetched.
#[derive(Clone, Debug, PartialEq, Eq)]
pub struct FeedRow {
    /// Feed URL.
    pub url: String,
    /// Feed title (the URL until fetched).
    pub title: String,
    /// Unread articles.
    pub unread: usize,
    /// Whether it has articles.
    pub fetched: bool,
}

/// A feed row as values.
pub type FeedView = (Seq<char>, Seq<char>, nat, bool);

/// The first row for `url`.
pub open spec fn row_of(rows: Seq<FeedView>, url: Seq<char>, i: int) -> Option<int>
    decreases rows.len() - i,
{
    if i < 0 || i >= rows.len() {
        None
    } else if rows[i].0 == url {
        Some(i)
    } else {
        row_of(rows, url, i + 1)
    }
}

/// The feeds of the first `n` articles, in order of first appearance, counting unread
/// articles.
pub open spec fn article_feeds(arts: Seq<ArticleMeta>, n: int) -> Seq<FeedView>
    decreases n,
{
    if n <= 0 {
        seq![]
    } else {
        let prev = article_feeds(arts, n - 1);
        let a = arts[n - 1];
        let add: nat = if a.read { 0 } else { 1 };
        match row_of(prev, a.feed@, 0) {
            Some(i) => prev.update(i, (prev[i].0, prev[i].1, prev[i].2 + add, prev[i].3)),
            None => prev.push((a.feed@, a.feed_title@, add, true)),
        }
    }
}

/// `rows`, then each of the first `n` configured feeds without a row yet.
pub open spec fn with_configured(rows: Seq<FeedView>, cfg: Seq<Seq<char>>, n: int) -> Seq<FeedView>
    decreases n,
{
    if n <= 0 {
        rows
    } else {
        let prev = with_configured(rows, cfg, n - 1);
        if row_of(prev, cfg[n - 1], 0) is Some {
            prev
        } else {
            prev.push((cfg[n - 1], cfg[n - 1], 0, false))
        }
    }
}

/// The feed list: feeds with articles first (with unread counts), then the configured
/// feeds not fetched yet.
pub open spec fn feed_list(arts: Seq<ArticleMeta>, cfg: Seq<Seq<char>>) -> Seq<FeedView> {
    with_configured(article_feeds(arts, arts.len() as int), cfg, cfg.len() as int)
}

/// A feed row as values.
pub open spec fn feed_view(r: FeedRow) -> FeedView {
    (r.url@, r.title@, r.unread as nat, r.fetched)
}

fn find_row(rows: &Vec<FeedRow>, url: &String) -> (r: Option<usize>)
    ensures
        r == (match row_of(rows@.map_values(|x: FeedRow| feed_view(x)), url@, 0) {
            Some(i) => Some(i as usize),
            None => None::<usize>,
        }),
        r matches Some(i) ==> i < rows.len(),
{
    let ghost rv = rows@.map_values(|x: FeedRow| feed_view(x));
    let mut i: usize = 0;
    while i < rows.len()
        invariant
            i <= rows.len(),
            rv == rows@.map_values(|x: FeedRow| feed_view(x)),
            row_of(rv, url@, 0) == row_of(rv, url@, i as int),
        decreases rows.len() - i,
    {
        if rows[i].url == *url {
            return Some(i);
        }
        i += 1;
    }
    None
}

proof fn lemma_row_of_range(rows: Seq<FeedView>, url: Seq<char>, i: int)
    requires
        0 <= i,
    ensures
        row_of(rows, url, i) matches Some(k) ==> i <= k < rows.len(),
    decreases rows.len() - i,
{
    if i < rows.len() && rows[i].0 != url {
        lemma_row_of_range(rows, url, i + 1);
    }
}

/// The news index's articles.
pub closed spec fn news_articles(n: News) -> Seq<ArticleMeta> {
    n.articles@
}

impl News {
    /// The index as read from the card.
    pub fn set_articles(&mut self, articles: Vec<ArticleMeta>)
        ensures
            final(self).spec_loaded(),
            news_articles(*final(self)) == articles@,
            final(self).spec_feed() == old(self).spec_feed(),
    {
        self.articles = articles;
        self.loaded = true;
    }

    /// Feeds with articles first (unread counts), then configured feeds not yet fetched.
    pub fn feeds(&self, configured: &Vec<String>) -> (r: Vec<FeedRow>)
        ensures
            r@.map_values(|x: FeedRow| feed_view(x)) == feed_list(news_articles(*self), configured@.map_values(
                |s: String| s@,
            )),
    {
        let mut out: Vec<FeedRow> = Vec::new();
        let mut k: usize = 0;
        while k < self.articles.len()
            invariant
                k <= self.articles.len(),
                out@.map_values(|x: FeedRow| feed_view(x)) == article_feeds(self.articles@, k as int),
                forall|j: int| 0 <= j < out.len() ==> #[trigger] out@[j].unread <= k,
            decreases self.articles.len() - k,
        {
            let a = &self.articles[k];
            let ghost prev = out@.map_values(|x: FeedRow| feed_view(x));
            let add: usize = if a.read { 0 } else { 1 };
            match find_row(&out, &a.feed) {
                Some(i) => {
                    proof {
                        lemma_row_of_range(prev, a.feed@, 0);
                    }
                    let row = FeedRow {
                        url: out[i].url.clone(),
                        title: out[i].title.clone(),
                        unread: out[i].unread + add,
                        fetched: out[i].fetched,
                    };
                    out.set(i, row);
                    assert(out@.map_values(|x: FeedRow| feed_view(x)) =~= prev.update(
                        i as int,
                        (prev[i as int].0, prev[i as int].1, prev[i as int].2 + (if a.read { 0nat } else { 1nat }), prev[i as int].3),
                    ));
                },
                None => {
                    out.push(FeedRow { url: a.feed.clone(), title: a.feed_title.clone(), unread: add, fetched: true });
                    assert(out@.map_values(|x: FeedRow| feed_view(x)) =~= prev.push(
                        (a.feed@, a.feed_title@, (if a.read { 0nat } else { 1nat }), true),
                    ));
                },
            }
            k += 1;
        }
        let ghost base = out@.map_values(|x: FeedRow| feed_view(x));
        let ghost cfg = configured@.map_values(|s: String| s@);
        let mut c: usize = 0;
        while c < configured.len()
            invariant
                c <= configured.len(),
                cfg == configured@.map_values(|s: String| s@),
                out@.map_values(|x: FeedRow| feed_view(x)) == with_configured(base, cfg, c as int),
            decreases configured.len() - c,
        {
            let u = &configured[c];
            let ghost prev = out@.map_values(|x: FeedRow| feed_view(x));
            match find_row(&out, u) {
                Some(_) => {},
                None => {
                    out.push(FeedRow { url: u.clone(), title: u.clone(), unread: 0, fetched: false });
                    assert(out@.map_values(|x: FeedRow| feed_view(x)) =~= prev.push((u@, u@, 0nat, false)));
                },
            }
            c += 1;
        }
        out
    }

    /// Indexes into the index of the articles of feed `feed`, in order.
    pub fn feed_articles(&self, feed: &str) -> (r: Vec<usize>)
        ensures
            r@ == feed_positions(news_articles(*self), feed@),
    {
        let f = owned(feed);
        let ghost all = Seq::new(self.articles@.len(), |i: int| i as usize);
        let ghost p = |i: usize| self.articles@[i as int].feed@ == feed@;
        let mut out: Vec<usize> = Vec::new();
        let mut i: usize = 0;
        assert(all.take(0).filter(p) =~= Seq::<usize>::empty());
        while i < self.articles.len()
            invariant
                i <= self.articles.len(),
                f@ == feed@,
                all == Seq::new(self.articles@.len(), |i: int| i as usize),
                p == (|i: usize| self.articles@[i as int].feed@ == feed@),
                out@ == all.take(i as int).filter(p),
            decreases self.articles.len() - i,
        {
            proof {
                let s = all.take(i + 1);
                assert(s.drop_last() =~= all.take(i as int));
                s.drop_last().lemma_filter_push(s.last(), p);
                assert(s =~= s.drop_last().push(s.last()));
            }
            if self.articles[i].feed == f {
                out.push(i);
            }
            i += 1;
        }
        assert(all.take(self.articles.len() as int) =~= all);
        out
    }
}

/// The positions of the articles of feed `f`, in order.
pub open spec fn feed_positions(arts: Seq<ArticleMeta>, f: Seq<char>) -> Seq<usize> {
    Seq::new(arts.len(), |i: int| i as usize).filter(|i: usize| arts[i as int].feed@ == f)
}

/// An article marked read.
pub open spec fn marked_read(m: ArticleMeta) -> ArticleMeta {
    ArticleMeta { read: true, ..m }
}

/// The prefix of feed addresses.
pub open spec fn http() -> Seq<char> {
    seq!['h', 't', 't', 'p']
}

/// The feeds after one is typed: the address, trimmed, is added when it starts with
/// `http`, fewer than 32 feeds are configured, and it is not one of them yet.
pub open spec fn with_feed(cfg: Seq<Seq<char>>, text: Seq<char>) -> Seq<Seq<char>> {
    let u = trim_by(text, strips(Strip::White));
    if crate::dict::card::starts_with(u, http()) && cfg.len() < 32 && !cfg.contains(u) {
        cfg.push(u)
    } else {
        cfg
    }
}

/// What a key asks of the news.
#[derive(Clone, Copy, Debug, PartialEq, Eq, Structural)]
pub enum NewsStep {
    /// Nothing.
    Ignore,
    /// Close.
    Pop,
    /// Redraw.
    Redraw,
    /// Type a feed address on the keyboard.
    Keyboard,
    /// Wi-Fi is needed first: open its screen with a hint.
    NeedWifi,
    /// Fetch the news, then redraw.
    FetchNews,
    /// Open article `index` on the reading page; the index is stored first when
    /// `save` (the article was just marked read).
    Read {
        /// Position in the index.
        index: usize,
        /// The index changed.
        save: bool,
    },
    /// The list's navigation takes the key.
    Nav,
}

fn mark_read(v: &mut Vec<ArticleMeta>, i: usize)
    requires
        i < old(v).len(),
    ensures
        final(v)@ == old(v)@.update(i as int, marked_read(old(v)@[i as int])),
{
    let a = &v[i];
    let m = ArticleMeta {
        feed: a.feed.clone(),
        feed_title: a.feed_title.clone(),
        title: a.title.clone(),
        url: a.url.clone(),
        published: a.published,
        read: true,
    };
    v.set(i, m);
}

impl News {
    /// The focused row.
    pub closed spec fn spec_focus(self) -> usize {
        self.nav.focus
    }

    /// A key (releases do nothing). Back closes the open feed, or the screen; Right on
    /// the feed list types a new feed; Confirm on the feed list opens the focused feed,
    /// or, on the row past the feeds, fetches the news (Wi-Fi first); Confirm in a feed
    /// marks the focused article read and opens it. The list's navigation takes the
    /// other keys.
    pub fn key(&mut self, ev: KeyEvent, configured: &Vec<String>, wifi: bool) -> (s: NewsStep)
        ensures
            ev.kind == KeyKind::Release ==> s == NewsStep::Ignore && *final(self) == *old(self),
            ev.kind != KeyKind::Release ==> {
                let arts = news_articles(*old(self));
                let cfg = configured@.map_values(|x: String| x@);
                let rows = feed_list(arts, cfg);
                let focus = old(self).spec_focus();
                if ev.kind == KeyKind::Press && ev.key == Key::Back {
                    if old(self).spec_feed() is Some {
                        s == NewsStep::Redraw && final(self).spec_feed() is None && final(self).spec_focus() == 0
                            && news_articles(*final(self)) == arts
                    } else {
                        s == NewsStep::Pop && *final(self) == *old(self)
                    }
                } else if ev.kind == KeyKind::Press && ev.key == Key::Right && old(self).spec_feed() is None {
                    s == NewsStep::Keyboard && *final(self) == *old(self)
                } else if ev.kind == KeyKind::Press && ev.key == Key::Confirm {
                    match old(self).spec_feed() {
                        None => if rows.len() == 0 {
                            s == NewsStep::Ignore && *final(self) == *old(self)
                        } else if focus >= rows.len() {
                            *final(self) == *old(self) && s == (if wifi {
                                NewsStep::FetchNews
                            } else {
                                NewsStep::NeedWifi
                            })
                        } else {
                            s == NewsStep::Redraw && final(self).spec_feed() == Some(rows[focus as int].0)
                                && final(self).spec_focus() == 0 && news_articles(*final(self)) == arts
                        },
                        Some(f) => {
                            let idx = feed_positions(arts, f);
                            if focus < idx.len() {
                                let i = idx[focus as int];
                                s == (NewsStep::Read { index: i, save: !arts[i as int].read })
                                    && news_articles(*final(self)) == arts.update(i as int, marked_read(arts[i as int]))
                                    && final(self).spec_feed() == old(self).spec_feed()
                                    && final(self).spec_focus() == focus
                            } else {
                                s == NewsStep::Ignore && *final(self) == *old(self)
                            }
                        },
                    }
                } else {
                    s == NewsStep::Nav && *final(self) == *old(self)
                }
            },
    {
        if ev.kind == KeyKind::Release {
            return NewsStep::Ignore;
        }
        if ev.is(Key::Back) {
            if self.feed.is_some() {
                self.feed = None;
                self.nav.focus = 0;
                return NewsStep::Redraw;
            }
            return NewsStep::Pop;
        }
        if ev.is(Key::Right) && self.feed.is_none() {
            return NewsStep::Keyboard;
        }
        if ev.is(Key::Confirm) {
            match &self.feed {
                None => {
                    let rows = self.feeds(configured);
                    let ghost rv = rows@.map_values(|x: FeedRow| feed_view(x));
                    if rows.len() == 0 {
                        return NewsStep::Ignore;
                    }
                    if self.nav.focus >= rows.len() {
                        if !wifi {
                            return NewsStep::NeedWifi;
                        }
                        return NewsStep::FetchNews;
                    }
                    assert(rv[self.nav.focus as int].0 == rows@[self.nav.focus as int].url@);
                    self.feed = Some(rows[self.nav.focus].url.clone());
                    self.nav.focus = 0;
                    NewsStep::Redraw
                },
                Some(f) => {
                    let idx = self.feed_articles(f.as_str());
                    if self.nav.focus < idx.len() {
                        let i = idx[self.nav.focus];
                        proof {
                            let all = Seq::new(self.articles@.len(), |k: int| k as usize);
                            let p = |k: usize| self.articles@[k as int].feed@ == f@;
                            assert(idx@ == all.filter(p));
                            assert(all.filter(p)[self.nav.focus as int] == i);
                            assert(all.filter(p).contains(i));
                            all.lemma_filter_contains_rev(p, i);
                            assert(all.contains(i));
                            let k = choose|k: int| 0 <= k < all.len() && all[k] == i;
                            assert(i < self.articles.len());
                        }
                        let save = !self.articles[i].read;
                        mark_read(&mut self.articles, i);
                        NewsStep::Read { index: i, save }
                    } else {
                        NewsStep::Ignore
                    }
                },
            }
        } else {
            NewsStep::Nav
        }
    }

    /// A network event: news arrived, so the index is read again.
    pub fn net_event(&mut self, ev: &crate::net::NetEvent) -> (redraw: bool)
        ensures
            redraw == (*ev is News),
            redraw ==> !final(self).spec_loaded(),
            !redraw ==> *final(self) == *old(self),
            final(self).spec_feed() == old(self).spec_feed(),
            news_articles(*final(self)) == news_articles(*old(self)),
    {
        match ev {
            crate::net::NetEvent::News => {
                self.loaded = false;
                true
            },
            _ => false,
        }
    }
}

/// A feed address typed on the keyboard, added to the configured feeds.
pub fn add_feed(configured: &mut Vec<String>, text: &str)
    ensures
        final(configured)@.map_values(|x: String| x@) == with_feed(old(configured)@.map_values(|x: String| x@), text@),
{
    let ghost cfg = configured@.map_values(|x: String| x@);
    let u = trim_chars(&chars_of(text), Strip::White);
    let h = vec!['h', 't', 't', 'p'];
    assert(h@ =~= http());
    if !crate::dict::card::chars_start_with(&u, &h) || configured.len() >= 32 {
        return;
    }
    let us = string_of(&u);
    let mut i: usize = 0;
    while i < configured.len()
        invariant
            i <= configured.len(),
            cfg == configured@.map_values(|x: String| x@),
            cfg == old(configured)@.map_values(|x: String| x@),
            us@ == u@,
            u@ == trim_by(text@, strips(Strip::White)),
            forall|j: int| 0 <= j < i ==> cfg[j] != u@,
        decreases configured.len() - i,
    {
        assert(cfg[i as int] == configured@[i as int]@);
        if configured[i] == us {
            assert(cfg[i as int] == u@);
            assert(cfg.contains(u@));
            return;
        }
        i += 1;
    }
    assert(!cfg.contains(u@));
    configured.push(us);
    assert(configured@.map_values(|x: String| x@) =~= cfg.push(u@));
}

} // verus!
