//! The games: a list, a paused card shared by all of them, and a tiny random source.

use vstd::prelude::*;
use crate::keys::{Key, KeyEvent, KeyKind};

pub mod game2048;
pub mod sudoku;
pub mod wordle;
pub mod minesweeper;
pub mod chess;

verus! {

/// A tiny xorshift for the games (seeded from the platform).
#[derive(Clone, Copy, Debug)]
pub struct Rng(pub u32);

/// One xorshift step (shifts 13, 17, 5) from a non-zero state.
pub open spec fn xorshift(x: u32) -> u32 {
    let a = x ^ ((x << 13u32) as u32);
    let b = a ^ (a >> 17u32);
    b ^ ((b << 5u32) as u32)
}

/// The state a generator steps from: a zero state counts as one.
pub open spec fn rng_state(s: u32) -> u32 {
    if s == 0 {
        1
    } else {
        s
    }
}

impl Rng {
    /// Next value: one xorshift step, which also becomes the new state.
    pub fn next_u32(&mut self) -> (x: u32)
        ensures
            x == xorshift(rng_state(old(self).0)),
            final(self).0 == x,
    {
        let mut x = if self.0 == 0 { 1 } else { self.0 };
        x ^= x << 13u32;
        x ^= x >> 17u32;
        x ^= x << 5u32;
        self.0 = x;
        x
    }

    /// Below `n` (below 1 when `n` is 0): the next value modulo `n`.
    pub fn below(&mut self, n: u32) -> (r: u32)
        ensures
            final(self).0 == xorshift(rng_state(old(self).0)),
            r == xorshift(rng_state(old(self).0)) % (if n == 0 { 1 } else { n }),
            r < (if n == 0 { 1 } else { n }),
    {
        let m = if n == 0 { 1 } else { n };
        self.next_u32() % m
    }
}

/// What a game does with a key: nothing, redraw, or show the paused card.
#[derive(Clone, Copy, Debug, PartialEq, Eq, Structural)]
pub enum GameStep {
    /// The key changes nothing.
    Ignore,
    /// Redraw the board.
    Redraw,
    /// Push the paused card.
    Pause,
    /// Leave the game.
    Quit,
}

/// What the paused card answers: resume, start a new game, or quit to the list.
#[derive(Clone, Copy, Debug, PartialEq, Eq, Structural)]
pub enum PauseChoice {
    /// Back: resume.
    Resume,
    /// Confirm: new game.
    NewGame,
    /// Right: quit.
    Quit,
}

/// The paused card: Resume (Back), New game (Confirm), Quit (Right).
pub struct Paused {
    /// The game's title.
    pub title: &'static str,
}

impl Paused {
    /// New.
    pub fn new(title: &'static str) -> (p: Paused)
        ensures
            p.title == title,
    {
        Paused { title }
    }

    /// The card's screen name.
    pub fn name(&self) -> (n: &'static str)
        ensures
            n@ == "80-paused"@,
    {
        "80-paused"
    }

    /// The card is drawn over the game beneath it.
    pub fn overlay(&self) -> (b: bool)
        ensures
            b,
    {
        true
    }

    /// The choice a key makes on the card: only presses of Back, Confirm and Right count.
    pub fn key(&self, ev: KeyEvent) -> (c: Option<PauseChoice>)
        ensures
            ev.kind != KeyKind::Press ==> c is None,
            ev.kind == KeyKind::Press ==> c == (match ev.key {
                Key::Back => Some(PauseChoice::Resume),
                Key::Confirm => Some(PauseChoice::NewGame),
                Key::Right => Some(PauseChoice::Quit),
                _ => None,
            }),
    {
        if ev.kind != KeyKind::Press {
            return None;
        }
        match ev.key {
            Key::Back => Some(PauseChoice::Resume),
            Key::Confirm => Some(PauseChoice::NewGame),
            Key::Right => Some(PauseChoice::Quit),
            _ => None,
        }
    }
}

/// What a game does with the paused card's answer: a new game, quit, or just redraw.
pub open spec fn after_pause(c: PauseChoice) -> GameStep {
    match c {
        PauseChoice::NewGame => GameStep::Redraw,
        PauseChoice::Quit => GameStep::Quit,
        PauseChoice::Resume => GameStep::Redraw,
    }
}

} // verus!
