//! The screen stack and the keys every screen shares: what an action does to the stack,
//! which screens are drawn, where a key goes, and when the device sleeps or saves.
//! Screens are known here by their names; the platform keeps the screens themselves
//! in the same order and carries out what these functions decide.

use vstd::prelude::*;
use crate::keys::{Key, KeyEvent, KeyKind};
use crate::textutil::owned;

verus! {

/// The reading page's name.
pub open spec fn reading_name() -> Seq<char> {
    "20-reading"@
}

/// What a screen asks of the stack.
#[derive(Debug)]
pub enum StackAction {
    /// Nothing.
    Nothing,
    /// Redraw the top.
    Redraw,
    /// Push the named screen.
    Push(String),
    /// Pop the top (never the bottom).
    Pop,
    /// Pop the top (never the bottom) and push the named screen.
    Replace(String),
    /// Down to the reading page.
    ToReader,
    /// Pop down to the first screen of this name from the top (never the bottom).
    PopTo(String),
    /// A book was opened: the reading page alone.
    Open,
    /// The platform was asked for something; redraw.
    System(SystemAsk),
    /// Pop the top (never the bottom) and hand a result to the screen beneath.
    PopWith,
}

/// What a screen asked the platform for, as far as the stack keeps track of it.
#[derive(Clone, Copy, Debug, PartialEq, Eq, Structural)]
pub enum SystemAsk {
    /// Go to sleep.
    Sleep,
    /// Lock (`true`) or unlock the keys.
    LockKeys(bool),
    /// Anything else.
    Other,
}

/// Whether the device is asleep after an action.
pub open spec fn asleep_after(asleep: bool, a: StackAction) -> bool {
    match a {
        StackAction::System(SystemAsk::Sleep) => true,
        _ => asleep,
    }
}

/// Whether the keys are locked after an action.
pub open spec fn locked_after(locked: bool, a: StackAction) -> bool {
    match a {
        StackAction::System(SystemAsk::LockKeys(l)) => l,
        _ => locked,
    }
}

/// What the platform does after the stack changed.
#[derive(Clone, Copy, Debug, PartialEq, Eq, Structural)]
pub struct StackEffect {
    /// Tell the new top that it is on top again.
    pub resume: bool,
    /// Hand the result to the new top (and apply what it answers).
    pub deliver: bool,
    /// Draw.
    pub draw: bool,
}

/// The stack without its top, unless only the bottom is left.
pub open spec fn popped(s: Seq<Seq<char>>) -> Seq<Seq<char>> {
    if s.len() > 1 {
        s.drop_last()
    } else {
        s
    }
}

/// Pop down to the first screen named `name` from the top, keeping the bottom.
pub open spec fn popped_to(s: Seq<Seq<char>>, name: Seq<char>) -> Seq<Seq<char>>
    decreases s.len(),
{
    if s.len() > 1 && s.last() != name {
        popped_to(s.drop_last(), name)
    } else {
        s
    }
}

/// The stack after an action.
pub open spec fn stack_after(s: Seq<Seq<char>>, a: StackAction) -> Seq<Seq<char>> {
    match a {
        StackAction::Nothing => s,
        StackAction::Redraw => s,
        StackAction::Push(n) => s.push(n@),
        StackAction::Pop => popped(s),
        StackAction::Replace(n) => popped(s).push(n@),
        StackAction::ToReader => if s.len() > 0 && s[0] == reading_name() {
            s.take(1)
        } else {
            seq![reading_name()]
        },
        StackAction::PopTo(n) => popped_to(s, n@),
        StackAction::Open => seq![reading_name()],
        StackAction::System(_) => s,
        StackAction::PopWith => popped(s),
    }
}

/// What the platform does after an action.
pub open spec fn effect_of(a: StackAction) -> StackEffect {
    match a {
        StackAction::Nothing => StackEffect { resume: false, deliver: false, draw: false },
        StackAction::Pop | StackAction::ToReader | StackAction::PopTo(_) => StackEffect {
            resume: true,
            deliver: false,
            draw: true,
        },
        StackAction::PopWith => StackEffect { resume: false, deliver: true, draw: false },
        _ => StackEffect { resume: false, deliver: false, draw: true },
    }
}

/// The names of the screens, bottom first, and whether the device sleeps and its keys
/// are locked.
pub struct ScreenStack {
    names: Vec<String>,
    asleep: bool,
    locked: bool,
}

impl ScreenStack {
    /// The names, bottom first.
    pub closed spec fn spec_names(self) -> Seq<Seq<char>> {
        self.names@.map_values(|n: String| n@)
    }

    /// Whether the device is asleep.
    pub closed spec fn spec_asleep(self) -> bool {
        self.asleep
    }

    /// Whether the keys are locked.
    pub closed spec fn spec_locked(self) -> bool {
        self.locked
    }

    /// A stack of one screen, awake and unlocked.
    pub fn new(first: &str) -> (s: ScreenStack)
        ensures
            s.spec_names() == seq![first@],
            !s.spec_asleep(),
            !s.spec_locked(),
    {
        let mut names: Vec<String> = Vec::new();
        names.push(owned(first));
        let s = ScreenStack { names, asleep: false, locked: false };
        assert(s.spec_names() =~= seq![first@]);
        s
    }

    /// The top screen's name ("" for an empty stack).
    pub fn top(&self) -> (n: String)
        ensures
            self.spec_names().len() > 0 ==> n@ == self.spec_names().last(),
            self.spec_names().len() == 0 ==> n@.len() == 0,
    {
        if self.names.len() == 0 {
            String::new()
        } else {
            self.names[self.names.len() - 1].clone()
        }
    }

    /// Whether the device is asleep.
    pub fn asleep(&self) -> (b: bool)
        ensures
            b == self.spec_asleep(),
    {
        self.asleep
    }

    /// Whether the keys are locked.
    pub fn locked(&self) -> (b: bool)
        ensures
            b == self.spec_locked(),
    {
        self.locked
    }

    /// The platform woke up.
    pub fn wake(&mut self)
        ensures
            final(self).spec_names() == old(self).spec_names(),
            !final(self).spec_asleep(),
            final(self).spec_locked() == old(self).spec_locked(),
    {
        self.asleep = false;
    }

    /// A sleep screen came on top while awake: the device is now asleep (the platform
    /// persists everything and sleeps); true when that happened.
    pub fn settle(&mut self) -> (slept: bool)
        ensures
            slept == (old(self).spec_names().len() > 0 && falls_asleep(old(self).spec_names().last(), old(self).spec_asleep())),
            final(self).spec_asleep() == (old(self).spec_asleep() || slept),
            final(self).spec_names() == old(self).spec_names(),
            final(self).spec_locked() == old(self).spec_locked(),
    {
        if self.names.len() == 0 {
            return false;
        }
        let top = self.top();
        let slept = goes_to_sleep(&top, self.asleep);
        if slept {
            self.asleep = true;
        }
        slept
    }

    /// How many screens there are.
    pub fn len(&self) -> (n: usize)
        ensures
            n == self.spec_names().len(),
    {
        self.names.len()
    }

    fn pop_keep_bottom(&mut self)
        ensures
            final(self).spec_names() == popped(old(self).spec_names()),
            final(self).spec_asleep() == old(self).spec_asleep(),
            final(self).spec_locked() == old(self).spec_locked(),
    {
        if self.names.len() > 1 {
            self.names.pop();
            assert(self.spec_names() =~= old(self).spec_names().drop_last());
        }
    }

    /// Apply an action to the stack; the effect says what the platform does next.
    pub fn apply(&mut self, a: StackAction) -> (e: StackEffect)
        ensures
            final(self).spec_names() == stack_after(old(self).spec_names(), a),
            final(self).spec_asleep() == asleep_after(old(self).spec_asleep(), a),
            final(self).spec_locked() == locked_after(old(self).spec_locked(), a),
            e == effect_of(a),
    {
        let e = match &a {
            StackAction::Nothing => StackEffect { resume: false, deliver: false, draw: false },
            StackAction::Pop | StackAction::ToReader | StackAction::PopTo(_) => StackEffect {
                resume: true,
                deliver: false,
                draw: true,
            },
            StackAction::PopWith => StackEffect { resume: false, deliver: true, draw: false },
            _ => StackEffect { resume: false, deliver: false, draw: true },
        };
        match a {
            StackAction::Nothing | StackAction::Redraw => {},
            StackAction::System(ask) => match ask {
                SystemAsk::Sleep => self.asleep = true,
                SystemAsk::LockKeys(l) => self.locked = l,
                SystemAsk::Other => {},
            },
            StackAction::Push(n) => {
                self.names.push(n);
                assert(self.spec_names() =~= old(self).spec_names().push(n@));
            },
            StackAction::Pop | StackAction::PopWith => self.pop_keep_bottom(),
            StackAction::Replace(n) => {
                self.pop_keep_bottom();
                let ghost mid = self.spec_names();
                self.names.push(n);
                assert(self.spec_names() =~= mid.push(n@));
            },
            StackAction::ToReader => {
                let reading = owned("20-reading");
                if self.names.len() > 0 && self.names[0] == reading {
                    self.names.truncate(1);
                    assert(self.spec_names() =~= old(self).spec_names().take(1));
                } else {
                    self.names = Vec::new();
                    self.names.push(reading);
                    assert(self.spec_names() =~= seq![reading_name()]);
                }
            },
            StackAction::PopTo(n) => {
                while self.names.len() > 1 && !(self.names[self.names.len() - 1] == n)
                    invariant
                        popped_to(self.spec_names(), n@) == popped_to(old(self).spec_names(), n@),
                        self.asleep == old(self).asleep,
                        self.locked == old(self).locked,
                    decreases self.names.len(),
                {
                    let ghost before = self.spec_names();
                    self.names.pop();
                    assert(self.spec_names() =~= before.drop_last());
                }
            },
            StackAction::Open => {
                self.names = Vec::new();
                self.names.push(owned("20-reading"));
                assert(self.spec_names() =~= seq![reading_name()]);
            },
        }
        e
    }
}

/// The screen drawn first: the topmost that is not an overlay (the bottom at least);
/// it and the overlays above it are drawn.
pub open spec fn draw_start(overlay: Seq<bool>, i: int) -> int
    decreases i,
{
    if i <= 0 {
        0
    } else if overlay[i] {
        draw_start(overlay, i - 1)
    } else {
        i
    }
}

/// The index of the first screen to draw, given which screens are overlays (bottom
/// first).
pub fn first_drawn(overlay: &Vec<bool>) -> (i: usize)
    ensures
        i == (if overlay.len() == 0 { 0 } else { draw_start(overlay@, overlay.len() - 1) }),
{
    if overlay.len() == 0 {
        return 0;
    }
    let mut start = overlay.len() - 1;
    while start > 0 && overlay[start]
        invariant
            start < overlay.len(),
            draw_start(overlay@, start as int) == draw_start(overlay@, overlay.len() - 1),
        decreases start,
    {
        start -= 1;
    }
    start
}

/// Where a key goes before the top screen sees it.
#[derive(Clone, Copy, Debug, PartialEq, Eq, Structural)]
pub enum KeyRoute {
    /// Locked: holding Power unlocks the keys.
    Unlock,
    /// Locked: anything else shows the locked strip.
    ShowLocked,
    /// A long Back opens Jump.
    Jump,
    /// A long Power opens the power menu.
    PowerMenu,
    /// A press of Power puts the reader to sleep.
    Sleep,
    /// The top screen handles it.
    Screen,
}

/// The keys every screen shares: while locked only a long Power (to unlock) counts;
/// otherwise a long Back opens Jump (except on Jump, boot and recovery), a long Power
/// the power menu and a press of Power the sleep screen (except on the power menu).
pub open spec fn route(locked: bool, top: Seq<char>, ev: KeyEvent) -> KeyRoute {
    if locked {
        if ev.key == Key::Power && ev.kind == KeyKind::Long {
            KeyRoute::Unlock
        } else {
            KeyRoute::ShowLocked
        }
    } else if ev.key == Key::Back && ev.kind == KeyKind::Long && top != "42-jump"@ && top != "01-boot"@ && top
        != "99-recovery"@ {
        KeyRoute::Jump
    } else if ev.key == Key::Power && ev.kind == KeyKind::Long && top != "41-power"@ {
        KeyRoute::PowerMenu
    } else if ev.key == Key::Power && ev.kind == KeyKind::Press && top != "41-power"@ {
        KeyRoute::Sleep
    } else {
        KeyRoute::Screen
    }
}

/// Where a key goes, given the lock and the top screen's name.
pub fn route_key(locked: bool, top: &String, ev: KeyEvent) -> (r: KeyRoute)
    ensures
        r == route(locked, top@, ev),
{
    if locked {
        return if ev.is_long(Key::Power) { KeyRoute::Unlock } else { KeyRoute::ShowLocked };
    }
    let jump = owned("42-jump");
    let boot = owned("01-boot");
    let recovery = owned("99-recovery");
    let power = owned("41-power");
    if ev.is_long(Key::Back) && !(*top == jump) && !(*top == boot) && !(*top == recovery) {
        KeyRoute::Jump
    } else if ev.is_long(Key::Power) && !(*top == power) {
        KeyRoute::PowerMenu
    } else if ev.is(Key::Power) && !(*top == power) {
        KeyRoute::Sleep
    } else {
        KeyRoute::Screen
    }
}

/// A sleep screen came on top while awake: the device persists everything and sleeps.
pub open spec fn falls_asleep(top: Seq<char>, asleep: bool) -> bool {
    (top == "40-sleep"@ || top == "40-sleep-charging"@) && !asleep
}

/// Whether the device goes to sleep now.
pub fn goes_to_sleep(top: &String, asleep: bool) -> (b: bool)
    ensures
        b == falls_asleep(top@, asleep),
{
    let a = owned("40-sleep");
    let b = owned("40-sleep-charging");
    (*top == a || *top == b) && !asleep
}

/// Positions, the library and the settings are saved every thirty seconds.
pub fn save_due(now: u32, last_saved: u32) -> (b: bool)
    ensures
        b == (now >= last_saved && now - last_saved >= 30),
{
    now >= last_saved && now - last_saved >= 30
}

/// A book's ingest progress: (book, done, total).
pub type Progress = (u64, u32, u32);

/// The progress list after a report for `id`: its entry goes, and comes back at the end
/// while unfinished.
pub open spec fn progress_after(list: Seq<Progress>, id: u64, done: u32, total: u32, finished: bool) -> Seq<Progress> {
    let kept = list.filter(other_book(id));
    if finished {
        kept
    } else {
        kept.push((id, done, total))
    }
}

/// Progress of another book than `id`.
pub open spec fn other_book(id: u64) -> spec_fn(Progress) -> bool {
    |p: Progress| p.0 != id
}

/// Record an ingest report.
pub fn ingest_progress(list: &mut Vec<Progress>, id: u64, done: u32, total: u32, finished: bool)
    ensures
        final(list)@ == progress_after(old(list)@, id, done, total, finished),
{
    let ghost f = other_book(id);
    let mut kept: Vec<Progress> = Vec::new();
    let mut i: usize = 0;
    assert(list@.take(0).filter(f) =~= Seq::<Progress>::empty());
    while i < list.len()
        invariant
            i <= list.len(),
            f == other_book(id),
            kept@ == list@.take(i as int).filter(f),
        decreases list.len() - i,
    {
        proof {
            let s = list@.take(i + 1);
            assert(s.drop_last() =~= list@.take(i as int));
            s.drop_last().lemma_filter_push(s.last(), f);
            assert(s =~= s.drop_last().push(s.last()));
        }
        if list[i].0 != id {
            kept.push(list[i]);
        }
        i += 1;
    }
    assert(list@.take(list.len() as int) =~= list@);
    if !finished {
        kept.push((id, done, total));
    }
    *list = kept;
}

/// The stack never empties: every action keeps at least one screen.
pub proof fn lemma_stack_never_empties(s: Seq<Seq<char>>, a: StackAction)
    requires
        s.len() > 0,
    ensures
        stack_after(s, a).len() > 0,
        a is Pop || a is PopWith ==> stack_after(s, a)[0] == s[0],
{
    match a {
        StackAction::PopTo(n) => lemma_popped_to_keeps_bottom(s, n@),
        _ => {},
    }
}

/// Popping down to a name keeps the bottom screen.
pub proof fn lemma_popped_to_keeps_bottom(s: Seq<Seq<char>>, name: Seq<char>)
    requires
        s.len() > 0,
    ensures
        popped_to(s, name).len() > 0,
        popped_to(s, name)[0] == s[0],
        popped_to(s, name).len() <= s.len(),
    decreases s.len(),
{
    if s.len() > 1 && s.last() != name {
        lemma_popped_to_keeps_bottom(s.drop_last(), name);
    }
}

} // verus!
