//! 2048: slide the tiles, equal neighbours merge once per slide.

use vstd::prelude::*;
use crate::games::{GameStep, PauseChoice, Rng, rng_state, xorshift};
use crate::keys::{Key, KeyEvent, KeyKind};

verus! {

/// The cells of line `line` read in the direction of a slide: the first cell is the
/// one the tiles slide towards.
pub open spec fn line_cells(dir: Key, line: int) -> Seq<int> {
    match dir {
        Key::Left => seq![line * 4, line * 4 + 1, line * 4 + 2, line * 4 + 3],
        Key::Right => seq![line * 4 + 3, line * 4 + 2, line * 4 + 1, line * 4],
        Key::Up => seq![line, line + 4, line + 8, line + 12],
        _ => seq![line + 12, line + 8, line + 4, line],
    }
}

/// Merging the first `n` values of a line: the tiles placed so far, whether the last
/// placed tile may still merge, and the points gained.
pub open spec fn merge(vals: Seq<u16>, n: int) -> (Seq<u16>, bool, int)
    decreases n,
{
    if n <= 0 {
        (Seq::empty(), false, 0)
    } else {
        let (out, open, pts) = merge(vals, n - 1);
        let v = vals[n - 1];
        if v == 0 {
            (out, open, pts)
        } else if open && out.last() == v {
            (out.update(out.len() - 1, (2 * v) as u16), false, pts + 2 * v)
        } else {
            (out.push(v), true, pts)
        }
    }
}

/// A line after sliding: the merged tiles, then empty cells.
pub open spec fn slid_line(vals: Seq<u16>) -> Seq<u16> {
    let out = merge(vals, 4).0;
    out + Seq::new((4 - out.len()) as nat, |i: int| 0u16)
}

/// The values of a line of the board.
pub open spec fn line_vals(board: Seq<u16>, dir: Key, line: int) -> Seq<u16> {
    line_cells(dir, line).map_values(|i: int| board[i])
}

/// The board with a line's cells set to the given values.
pub open spec fn write_line(board: Seq<u16>, cells: Seq<int>, vals: Seq<u16>) -> Seq<u16> {
    board.update(cells[0], vals[0]).update(cells[1], vals[1]).update(cells[2], vals[2]).update(cells[3], vals[3])
}

/// The board after sliding its first `lines` lines.
pub open spec fn slide_board(board: Seq<u16>, dir: Key, lines: int) -> Seq<u16>
    decreases lines,
{
    if lines <= 0 {
        board
    } else {
        let b = slide_board(board, dir, lines - 1);
        write_line(b, line_cells(dir, lines - 1), slid_line(line_vals(b, dir, lines - 1)))
    }
}

/// The points a slide of the first `lines` lines gains.
pub open spec fn slide_points(board: Seq<u16>, dir: Key, lines: int) -> int
    decreases lines,
{
    if lines <= 0 {
        0
    } else {
        let b = slide_board(board, dir, lines - 1);
        slide_points(board, dir, lines - 1) + merge(line_vals(b, dir, lines - 1), 4).2
    }
}

/// Some move is left: an empty cell, or two equal neighbours in a row or a column.
pub open spec fn movable(b: Seq<u16>) -> bool {
    exists|i: int|
        0 <= i < 16 && (b[i] == 0 || (i % 4 < 3 && #[trigger] b[i] == b[i + 1]) || (i / 4 < 3 && b[i] == b[i + 4]))
}

/// Tiles small enough to double in a `u16`.
pub open spec fn small_tiles(b: Seq<u16>) -> bool {
    forall|i: int| 0 <= i < 16 ==> #[trigger] b[i] < 32768
}

/// The empty cells, in order.
pub open spec fn empty_cells(b: Seq<u16>, n: int) -> Seq<usize>
    decreases n,
{
    if n <= 0 {
        Seq::empty()
    } else if b[n - 1] == 0 {
        empty_cells(b, n - 1).push((n - 1) as usize)
    } else {
        empty_cells(b, n - 1)
    }
}

/// The board and random state after dealing one tile: a 2 (or, one time in ten, a 4)
/// on a random empty cell; a full board stays as it is.
pub open spec fn spawned(b: Seq<u16>, s0: u32) -> (Seq<u16>, u32) {
    let e = empty_cells(b, 16);
    let s1 = xorshift(rng_state(s0));
    let s2 = xorshift(rng_state(s1));
    if e.len() == 0 {
        (b, s0)
    } else {
        (b.update(e[(s1 % (e.len() as u32)) as int] as int, if s2 % 10 == 0 { 4u16 } else { 2u16 }), s2)
    }
}

/// The sum of the tiles.
pub open spec fn total(b: Seq<u16>, n: int) -> int
    decreases n,
{
    if n <= 0 {
        0
    } else {
        total(b, n - 1) + b[n - 1]
    }
}

/// The 2048 game.
pub struct Game2048 {
    /// The sixteen cells, row by row (0 empty).
    pub board: [u16; 16],
    /// Points this game.
    pub score: u32,
    /// Best score.
    pub best: u32,
    rng: Rng,
    started: bool,
    over: bool,
}

impl Game2048 {
    /// The cells.
    pub closed spec fn spec_board(self) -> Seq<u16> {
        self.board@
    }

    /// Points this game.
    pub closed spec fn spec_score(self) -> u32 {
        self.score
    }

    /// Best score.
    pub closed spec fn spec_best(self) -> u32 {
        self.best
    }

    /// The random state.
    pub closed spec fn spec_rng(self) -> u32 {
        self.rng.0
    }

    /// Whether the game is over.
    pub closed spec fn spec_over(self) -> bool {
        self.over
    }

    /// Whether a game has been dealt.
    pub closed spec fn spec_started(self) -> bool {
        self.started
    }

    /// New: an empty board, no score, not yet dealt.
    pub fn new() -> (g: Game2048)
        ensures
            g.spec_board() == Seq::new(16, |i: int| 0u16),
            g.spec_score() == 0,
            g.spec_best() == 0,
            g.spec_rng() == 0x2048,
            !g.spec_started(),
            !g.spec_over(),
    {
        let g = Game2048 { board: [0; 16], score: 0, best: 0, rng: Rng(0x2048), started: false, over: false };
        assert(g.spec_board() =~= Seq::new(16, |i: int| 0u16));
        g
    }

    /// Put a 2 (or, one time in ten, a 4) on a random empty cell; nothing when the board
    /// is full.
    pub fn spawn(&mut self)
        ensures
            (final(self).spec_board(), final(self).spec_rng()) == spawned(old(self).spec_board(), old(self).spec_rng()),
            final(self).spec_score() == old(self).spec_score(),
            final(self).spec_best() == old(self).spec_best(),
            final(self).spec_over() == old(self).spec_over(),
            final(self).spec_started() == old(self).spec_started(),
    {
        let mut empty: Vec<usize> = Vec::new();
        let mut i: usize = 0;
        while i < 16
            invariant
                i <= 16,
                empty@ == empty_cells(self.board@, i as int),
                empty.len() <= i,
                forall|j: int| 0 <= j < empty.len() ==> #[trigger] empty@[j] < 16,
            decreases 16 - i,
        {
            if self.board[i] == 0 {
                empty.push(i);
            }
            i += 1;
        }
        if empty.len() == 0 {
            return;
        }
        let k = self.rng.below(empty.len() as u32) as usize;
        let v: u16 = if self.rng.below(10) == 0 { 4 } else { 2 };
        let cell = empty[k];
        self.board[cell] = v;
    }

    /// Start a new game: clear the board and the score, deal two tiles.
    pub fn reset(&mut self)
        ensures
            ({
                let first = spawned(Seq::new(16, |i: int| 0u16), old(self).spec_rng());
                (final(self).spec_board(), final(self).spec_rng()) == spawned(first.0, first.1)
            }),
            final(self).spec_score() == 0,
            final(self).spec_best() == old(self).spec_best(),
            !final(self).spec_over(),
            final(self).spec_started(),
    {
        self.board = [0; 16];
        self.score = 0;
        self.over = false;
        assert(self.board@ =~= Seq::new(16, |i: int| 0u16));
        self.spawn();
        self.spawn();
        self.started = true;
    }

    /// Slide in a direction; returns whether anything moved. The points of the merges
    /// are added to the score.
    pub fn slide(&mut self, dir: Key) -> (moved: bool)
        requires
            small_tiles(old(self).spec_board()),
            old(self).spec_score() <= 4_000_000_000,
        ensures
            final(self).spec_board() == slide_board(old(self).spec_board(), dir, 4),
            final(self).spec_score() == old(self).spec_score() + slide_points(old(self).spec_board(), dir, 4),
            moved == (final(self).spec_board() != old(self).spec_board()),
            final(self).spec_best() == old(self).spec_best(),
            final(self).spec_rng() == old(self).spec_rng(),
            final(self).spec_over() == old(self).spec_over(),
            final(self).spec_started() == old(self).spec_started(),
    {
        let before: [u16; 16] = self.board;
        let ghost b0 = self.board@;
        let mut line: usize = 0;
        while line < 4
            invariant
                line <= 4,
                self.board@ == slide_board(b0, dir, line as int),
                self.score == old(self).spec_score() + slide_points(b0, dir, line as int),
                0 <= slide_points(b0, dir, line as int) <= 262144 * line,
                self.best == old(self).spec_best(),
                self.rng == old(self).rng,
                self.over == old(self).over,
                self.started == old(self).started,
                b0 == old(self).spec_board(),
                old(self).spec_score() <= 4_000_000_000,
                small_tiles(b0),
            decreases 4 - line,
        {
            let cells: [usize; 4] = match dir {
                Key::Left => [line * 4, line * 4 + 1, line * 4 + 2, line * 4 + 3],
                Key::Right => [line * 4 + 3, line * 4 + 2, line * 4 + 1, line * 4],
                Key::Up => [line, line + 4, line + 8, line + 12],
                _ => [line + 12, line + 8, line + 4, line],
            };
            proof {
                lemma_untouched(b0, dir, line as int);
                assert(cells@.map_values(|c: usize| c as int) =~= line_cells(dir, line as int));
                assert forall|j: int| 0 <= j < 4 implies #[trigger] self.board@[line_cells(dir, line as int)[j]] < 32768 by {
                    let x = line_cells(dir, line as int)[j];
                    assert(0 <= x < 16);
                    assert(b0[x] < 32768);
                }
            }
            let pts = slide_line(&mut self.board, cells, Ghost(dir), Ghost(line as int));
            self.score = self.score + pts;
            line += 1;
        }
        let mut moved = false;
        let mut i: usize = 0;
        while i < 16
            invariant
                i <= 16,
                before@ == old(self).spec_board(),
                moved == (exists|j: int| 0 <= j < i && #[trigger] self.board@[j] != before@[j]),
            decreases 16 - i,
        {
            if self.board[i] != before[i] {
                moved = true;
            }
            i += 1;
        }
        proof {
            if !moved {
                assert(self.board@ =~= before@);
            } else {
                let j = choose|j: int| 0 <= j < 16 && #[trigger] self.board@[j] != before@[j];
                assert(self.board@[j] != old(self).spec_board()[j]);
            }
        }
        moved
    }

    /// Some slide can still change the board.
    pub fn can_move(&self) -> (b: bool)
        ensures
            b == movable(self.spec_board()),
    {
        let mut i: usize = 0;
        while i < 16
            invariant
                i <= 16,
                forall|j: int|
                    0 <= j < i ==> !(self.board@[j] == 0 || (j % 4 < 3 && #[trigger] self.board@[j] == self.board@[j + 1]) || (
                    j / 4 < 3 && self.board@[j] == self.board@[j + 4])),
            decreases 16 - i,
        {
            if self.board[i] == 0 {
                return true;
            }
            let (r, c) = (i / 4, i % 4);
            if c < 3 && self.board[i] == self.board[i + 1] {
                return true;
            }
            if r < 3 && self.board[i] == self.board[i + 4] {
                return true;
            }
            i += 1;
        }
        false
    }

    /// Deal the first game, seeded from the platform (a zero seed is made odd).
    pub fn start(&mut self, seed: u32)
        requires
            !old(self).spec_started(),
        ensures
            final(self).spec_started(),
            final(self).spec_score() == 0,
            final(self).spec_best() == old(self).spec_best(),
    {
        self.rng = Rng(seed | 1);
        self.reset();
    }

    /// A key: Back pauses; Confirm after the end starts again; the four direction keys
    /// slide and, when something moved, deal a tile and check for the end.
    pub fn key(&mut self, ev: KeyEvent) -> (step: GameStep)
        requires
            small_tiles(old(self).spec_board()),
            old(self).spec_score() <= 4_000_000_000,
        ensures
            ev.kind != KeyKind::Press ==> step == GameStep::Ignore && *final(self) == *old(self),
            ev.kind == KeyKind::Press ==> step == (match ev.key {
                Key::Back => GameStep::Pause,
                Key::Power => GameStep::Ignore,
                _ => GameStep::Redraw,
            }),
            ev.kind == KeyKind::Press && ev.key == Key::Back ==> *final(self) == *old(self),
            ev.kind == KeyKind::Press && (ev.key == Key::Left || ev.key == Key::Right || ev.key == Key::Up || ev.key
                == Key::Down) && old(self).spec_over() ==> *final(self) == *old(self),
            ev.kind == KeyKind::Press && (ev.key == Key::Left || ev.key == Key::Right || ev.key == Key::Up || ev.key
                == Key::Down) && !old(self).spec_over() ==> {
                &&& final(self).spec_score() == old(self).spec_score() + slide_points(old(self).spec_board(), ev.key, 4)
                &&& final(self).spec_over() == !movable(final(self).spec_board())
            },
    {
        if ev.kind != KeyKind::Press {
            return GameStep::Ignore;
        }
        match ev.key {
            Key::Back => GameStep::Pause,
            Key::Confirm => {
                if self.over {
                    self.best = if self.score > self.best { self.score } else { self.best };
                    self.reset();
                }
                GameStep::Redraw
            },
            Key::Left | Key::Right | Key::Up | Key::Down => {
                if !self.over {
                    let moved = self.slide(ev.key);
                    if moved {
                        self.spawn();
                    }
                    if !self.can_move() {
                        self.over = true;
                        self.best = if self.score > self.best { self.score } else { self.best };
                    }
                }
                GameStep::Redraw
            },
            Key::Power => GameStep::Ignore,
        }
    }

    /// The paused card's answer: a new game (the best score kept), quit, or resume.
    pub fn resume(&mut self, c: PauseChoice) -> (step: GameStep)
        ensures
            step == crate::games::after_pause(c),
            c == PauseChoice::NewGame ==> final(self).spec_score() == 0 && final(self).spec_best() == (if old(self).spec_score()
                > old(self).spec_best() { old(self).spec_score() } else { old(self).spec_best() }),
            c != PauseChoice::NewGame ==> *final(self) == *old(self),
    {
        match c {
            PauseChoice::NewGame => {
                self.best = if self.score > self.best { self.score } else { self.best };
                self.reset();
                GameStep::Redraw
            },
            PauseChoice::Quit => GameStep::Quit,
            PauseChoice::Resume => GameStep::Redraw,
        }
    }
}


proof fn lemma_merge(vals: Seq<u16>, n: int)
    requires
        0 <= n <= vals.len(),
        forall|j: int| 0 <= j < vals.len() ==> #[trigger] vals[j] < 32768,
    ensures
        merge(vals, n).0.len() <= n,
        merge(vals, n).2 >= 0,
        merge(vals, n).2 <= 65536 * n,
        merge(vals, n).1 ==> merge(vals, n).0.len() > 0,
        forall|j: int| 0 <= j < merge(vals, n).0.len() ==> #[trigger] merge(vals, n).0[j] < 65535,
        forall|j: int| 0 <= j < merge(vals, n).0.len() ==> merge(vals, n).1 && j == merge(vals, n).0.len() - 1
            ==> #[trigger] merge(vals, n).0[j] < 32768,
    decreases n,
{
    if n > 0 {
        lemma_merge(vals, n - 1);
    }
}

proof fn lemma_untouched(b0: Seq<u16>, dir: Key, k: int)
    requires
        0 <= k <= 4,
        b0.len() == 16,
    ensures
        slide_board(b0, dir, k).len() == 16,
        forall|l: int, j: int|
            k <= l < 4 && 0 <= j < 4 ==> #[trigger] slide_board(b0, dir, k)[line_cells(dir, l)[j]] == b0[line_cells(
                dir,
                l,
            )[j]],
    decreases k,
{
    if k > 0 {
        lemma_untouched(b0, dir, k - 1);
        let b = slide_board(b0, dir, k - 1);
        let c = line_cells(dir, k - 1);
        assert forall|l: int, j: int| k <= l < 4 && 0 <= j < 4 implies #[trigger] slide_board(b0, dir, k)[line_cells(
            dir,
            l,
        )[j]] == b0[line_cells(dir, l)[j]] by {
            let x = line_cells(dir, l)[j];
            assert(x != c[0] && x != c[1] && x != c[2] && x != c[3]);
            assert(b[x] == b0[x]);
        }
    }
}

fn slide_line(board: &mut [u16; 16], cells: [usize; 4], Ghost(dir): Ghost<Key>, Ghost(line): Ghost<int>) -> (pts: u32)
    requires
        0 <= line < 4,
        cells@.map_values(|c: usize| c as int) == line_cells(dir, line),
        forall|j: int| 0 <= j < 4 ==> #[trigger] old(board)@[line_cells(dir, line)[j]] < 32768,
    ensures
        final(board)@ == write_line(old(board)@, line_cells(dir, line), slid_line(line_vals(old(board)@, dir, line))),
        pts == merge(line_vals(old(board)@, dir, line), 4).2,
        pts <= 262144,
{
    let ghost vals = line_vals(board@, dir, line);
    assert(cells@[0] as int == line_cells(dir, line)[0]);
    assert(cells@[1] as int == line_cells(dir, line)[1]);
    assert(cells@[2] as int == line_cells(dir, line)[2]);
    assert(cells@[3] as int == line_cells(dir, line)[3]);
    let v4: [u16; 4] = [board[cells[0]], board[cells[1]], board[cells[2]], board[cells[3]]];
    assert(v4@ =~= vals);
    proof {
        lemma_merge(vals, 4);
    }
    let mut out: [u16; 4] = [0; 4];
    let mut k: usize = 0;
    let mut open = false;
    let mut pts: u32 = 0;
    let mut j: usize = 0;
    while j < 4
        invariant
            j <= 4,
            v4@ == vals,
            vals.len() == 4,
            forall|q: int| 0 <= q < 4 ==> #[trigger] vals[q] < 32768,
            k <= j,
            merge(vals, j as int).0 == out@.take(k as int),
            forall|q: int| k <= q < 4 ==> #[trigger] out@[q] == 0,
            merge(vals, j as int).1 == open,
            merge(vals, j as int).2 == pts,
        decreases 4 - j,
    {
        proof {
            lemma_merge(vals, j as int);
            lemma_merge(vals, j + 1);
        }
        let v = v4[j];
        if v != 0 {
            if open && out[k - 1] == v {
                out[k - 1] = v * 2;
                pts = pts + (v as u32) * 2;
                open = false;
                assert(out@.take(k as int) =~= merge(vals, j as int).0.update(k - 1, (2 * v) as u16));
            } else {
                out[k] = v;
                k += 1;
                open = true;
                assert(out@.take(k as int) =~= merge(vals, j as int).0.push(v));
            }
        }
        j += 1;
    }
    assert(out@ =~= slid_line(vals));
    board[cells[0]] = out[0];
    board[cells[1]] = out[1];
    board[cells[2]] = out[2];
    board[cells[3]] = out[3];
    pts
}


/// The sum of a sequence of tiles.
pub open spec fn tiles_sum(s: Seq<u16>) -> int
    decreases s.len(),
{
    if s.len() == 0 {
        0
    } else {
        tiles_sum(s.drop_last()) + s.last()
    }
}

proof fn lemma_sum_update(s: Seq<u16>, i: int, v: u16)
    requires
        0 <= i < s.len(),
    ensures
        tiles_sum(s.update(i, v)) == tiles_sum(s) - s[i] + v,
    decreases s.len(),
{
    if i < s.len() - 1 {
        lemma_sum_update(s.drop_last(), i, v);
        assert(s.update(i, v).drop_last() =~= s.drop_last().update(i, v));
    } else {
        assert(s.update(i, v).drop_last() =~= s.drop_last());
    }
}

proof fn lemma_sum_append(a: Seq<u16>, b: Seq<u16>)
    ensures
        tiles_sum(a + b) == tiles_sum(a) + tiles_sum(b),
    decreases b.len(),
{
    if b.len() > 0 {
        lemma_sum_append(a, b.drop_last());
        assert((a + b).drop_last() =~= a + b.drop_last());
    } else {
        assert(a + b =~= a);
    }
}

proof fn lemma_merge_sum(vals: Seq<u16>, n: int)
    requires
        0 <= n <= vals.len(),
        forall|j: int| 0 <= j < vals.len() ==> #[trigger] vals[j] < 32768,
    ensures
        tiles_sum(merge(vals, n).0) == tiles_sum(vals.take(n)),
    decreases n,
{
    if n > 0 {
        lemma_merge_sum(vals, n - 1);
        lemma_merge(vals, n - 1);
        assert(vals.take(n).drop_last() =~= vals.take(n - 1));
        let (out, open, pts) = merge(vals, n - 1);
        let v = vals[n - 1];
        if v != 0 && open && out.last() == v {
            lemma_sum_update(out, out.len() - 1, (2 * v) as u16);
        } else if v != 0 {
            assert(out.push(v).drop_last() =~= out);
        }
    } else {
        assert(vals.take(0) =~= Seq::<u16>::empty());
    }
}

proof fn lemma_zeros_sum(n: nat)
    ensures
        tiles_sum(Seq::new(n, |i: int| 0u16)) == 0,
    decreases n,
{
    if n > 0 {
        lemma_zeros_sum((n - 1) as nat);
        assert(Seq::new(n, |i: int| 0u16).drop_last() =~= Seq::new((n - 1) as nat, |i: int| 0u16));
    }
}

proof fn lemma_line_sum(b: Seq<u16>, dir: Key, line: int)
    requires
        b.len() == 16,
        0 <= line < 4,
        forall|j: int| 0 <= j < 4 ==> #[trigger] b[line_cells(dir, line)[j]] < 32768,
    ensures
        tiles_sum(write_line(b, line_cells(dir, line), slid_line(line_vals(b, dir, line)))) == tiles_sum(b),
{
    let c = line_cells(dir, line);
    let vals = line_vals(b, dir, line);
    assert(vals.len() == 4);
    assert forall|j: int| 0 <= j < vals.len() implies #[trigger] vals[j] < 32768 by {
        assert(vals[j] == b[c[j]]);
    }
    lemma_merge_sum(vals, 4);
    lemma_merge(vals, 4);
    let out = merge(vals, 4).0;
    lemma_sum_append(out, Seq::new((4 - out.len()) as nat, |i: int| 0u16));
    lemma_zeros_sum((4 - out.len()) as nat);
    let w = slid_line(vals);
    assert(vals.take(4) =~= vals);
    assert(tiles_sum(w) == tiles_sum(vals));
    assert(tiles_sum(vals) == b[c[0]] + b[c[1]] + b[c[2]] + b[c[3]]) by {
        reveal_with_fuel(tiles_sum, 5);
    }
    assert(tiles_sum(w) == w[0] + w[1] + w[2] + w[3]) by {
        reveal_with_fuel(tiles_sum, 5);
    }
    let b1 = b.update(c[0], w[0]);
    let b2 = b1.update(c[1], w[1]);
    let b3 = b2.update(c[2], w[2]);
    let b4 = b3.update(c[3], w[3]);
    lemma_sum_update(b, c[0], w[0]);
    lemma_sum_update(b1, c[1], w[1]);
    lemma_sum_update(b2, c[2], w[2]);
    lemma_sum_update(b3, c[3], w[3]);
}

/// A slide never changes the sum of the tiles: merging two equal tiles makes one tile of
/// their sum, and sliding only moves tiles.
pub proof fn lemma_slide_keeps_sum(b: Seq<u16>, dir: Key)
    requires
        b.len() == 16,
        small_tiles(b),
    ensures
        tiles_sum(slide_board(b, dir, 4)) == tiles_sum(b),
{
    lemma_slide_prefix_sum(b, dir, 4);
}

proof fn lemma_slide_prefix_sum(b: Seq<u16>, dir: Key, k: int)
    requires
        b.len() == 16,
        small_tiles(b),
        0 <= k <= 4,
    ensures
        tiles_sum(slide_board(b, dir, k)) == tiles_sum(b),
    decreases k,
{
    if k > 0 {
        lemma_slide_prefix_sum(b, dir, k - 1);
        lemma_untouched(b, dir, k - 1);
        let sb = slide_board(b, dir, k - 1);
        assert forall|j: int| 0 <= j < 4 implies #[trigger] sb[line_cells(dir, k - 1)[j]] < 32768 by {
            let x = line_cells(dir, k - 1)[j];
            assert(b[x] < 32768);
        }
        lemma_line_sum(sb, dir, k - 1);
    }
}

proof fn lemma_merge_nonzero(vals: Seq<u16>, n: int)
    requires
        0 <= n <= vals.len(),
        forall|j: int| 0 <= j < vals.len() ==> #[trigger] vals[j] < 32768,
    ensures
        forall|j: int| 0 <= j < merge(vals, n).0.len() ==> #[trigger] merge(vals, n).0[j] != 0,
    decreases n,
{
    if n > 0 {
        lemma_merge_nonzero(vals, n - 1);
        lemma_merge(vals, n - 1);
        let (out, open, pts) = merge(vals, n - 1);
        let v = vals[n - 1];
        if v != 0 && open && out.last() == v {
            assert(out[out.len() - 1] == v);
            assert(((2 * v) as u16) != 0);
        }
    }
}

/// A slid line holds its tiles first and its empty cells after them.
proof fn lemma_slid_packed(vals: Seq<u16>)
    requires
        vals.len() == 4,
        forall|j: int| 0 <= j < 4 ==> #[trigger] vals[j] < 32768,
    ensures
        slid_line(vals).len() == 4,
        forall|p: int, q: int| 0 <= p < q < 4 && #[trigger] slid_line(vals)[q] != 0 ==> #[trigger] slid_line(vals)[p] != 0,
{
    lemma_merge(vals, 4);
    lemma_merge_nonzero(vals, 4);
    let out = merge(vals, 4).0;
    let sl = slid_line(vals);
    assert forall|p: int, q: int| 0 <= p < q < 4 && #[trigger] sl[q] != 0 implies #[trigger] sl[p] != 0 by {
        if q >= out.len() {
            assert(sl[q] == 0u16);
        }
        assert(sl[p] == out[p]);
    }
}

/// Lines slid later leave the cells of line `k` as sliding it left them.
proof fn lemma_kept(b0: Seq<u16>, dir: Key, k: int, m: int)
    requires
        0 <= k < m <= 4,
        b0.len() == 16,
    ensures
        forall|j: int| 0 <= j < 4 ==> #[trigger] slide_board(b0, dir, m)[line_cells(dir, k)[j]] == slide_board(b0, dir, k + 1)[line_cells(dir, k)[j]],
    decreases m,
{
    lemma_untouched(b0, dir, m - 1);
    if m > k + 1 {
        lemma_kept(b0, dir, k, m - 1);
        let b = slide_board(b0, dir, m - 1);
        let c = line_cells(dir, m - 1);
        assert forall|j: int| 0 <= j < 4 implies #[trigger] slide_board(b0, dir, m)[line_cells(dir, k)[j]] == b[line_cells(dir, k)[j]] by {
            let x = line_cells(dir, k)[j];
            assert(x != c[0] && x != c[1] && x != c[2] && x != c[3]);
        }
    }
}

/// After a slide, line `k` holds its slid values.
proof fn lemma_line_result(b0: Seq<u16>, dir: Key, k: int)
    requires
        0 <= k < 4,
        b0.len() == 16,
        small_tiles(b0),
    ensures
        forall|j: int| 0 <= j < 4 ==> #[trigger] slide_board(b0, dir, 4)[line_cells(dir, k)[j]] == slid_line(
            line_vals(slide_board(b0, dir, k), dir, k),
        )[j],
        forall|p: int, q: int|
            0 <= p < q < 4 && slide_board(b0, dir, 4)[#[trigger] line_cells(dir, k)[q]] != 0 ==> slide_board(b0, dir, 4)[#[trigger] line_cells(dir, k)[p]] != 0,
{
    lemma_untouched(b0, dir, k);
    lemma_kept(b0, dir, k, 4);
    let b = slide_board(b0, dir, k);
    let c = line_cells(dir, k);
    let vals = line_vals(b, dir, k);
    assert forall|j: int| 0 <= j < 4 implies #[trigger] vals[j] < 32768 by {
        assert(vals[j] == b[c[j]]);
        assert(b[c[j]] == b0[c[j]]);
    }
    lemma_slid_packed(vals);
    let sl = slid_line(vals);
    assert(c[0] != c[1] && c[0] != c[2] && c[0] != c[3] && c[1] != c[2] && c[1] != c[3] && c[2] != c[3]);
    assert forall|j: int| 0 <= j < 4 implies #[trigger] slide_board(b0, dir, k + 1)[c[j]] == sl[j] by {}
    assert forall|p: int, q: int|
        0 <= p < q < 4 && slide_board(b0, dir, 4)[#[trigger] c[q]] != 0 implies slide_board(b0, dir, 4)[#[trigger] c[p]] != 0 by {
        assert(slide_board(b0, dir, 4)[c[q]] == sl[q]);
        assert(slide_board(b0, dir, 4)[c[p]] == sl[p]);
    }
}

/// The tile at row `r`, column `c`.
pub open spec fn tile(s: Seq<u16>, r: int, c: int) -> u16 {
    s[4 * r + c]
}

/// A slide packs the tiles against the edge it slides to: after sliding Up no column has
/// an empty cell above a tile, after Down none below one, after Left no row has an empty
/// cell left of a tile, after Right none right of one.
pub proof fn lemma_slide_packs(b: Seq<u16>, dir: Key)
    requires
        b.len() == 16,
        small_tiles(b),
    ensures
        forall|c: int, r1: int, r2: int|
            #![trigger tile(slide_board(b, dir, 4), r1, c), tile(slide_board(b, dir, 4), r2, c)]
            0 <= c < 4 && 0 <= r1 < r2 < 4 ==> {
                &&& dir == Key::Up ==> (tile(slide_board(b, dir, 4), r2, c) != 0 ==> tile(slide_board(b, dir, 4), r1, c) != 0)
                &&& dir == Key::Down ==> (tile(slide_board(b, dir, 4), r1, c) != 0 ==> tile(slide_board(b, dir, 4), r2, c) != 0)
            },
        forall|r: int, c1: int, c2: int|
            #![trigger tile(slide_board(b, dir, 4), r, c1), tile(slide_board(b, dir, 4), r, c2)]
            0 <= r < 4 && 0 <= c1 < c2 < 4 ==> {
                &&& dir == Key::Left ==> (tile(slide_board(b, dir, 4), r, c2) != 0 ==> tile(slide_board(b, dir, 4), r, c1) != 0)
                &&& dir == Key::Right ==> (tile(slide_board(b, dir, 4), r, c1) != 0 ==> tile(slide_board(b, dir, 4), r, c2) != 0)
            },
{
    let s = slide_board(b, dir, 4);
    assert forall|c: int, r1: int, r2: int|
        #![trigger tile(s, r1, c), tile(s, r2, c)]
        0 <= c < 4 && 0 <= r1 < r2 < 4 implies {
            &&& dir == Key::Up ==> (tile(s, r2, c) != 0 ==> tile(s, r1, c) != 0)
            &&& dir == Key::Down ==> (tile(s, r1, c) != 0 ==> tile(s, r2, c) != 0)
        } by {
        lemma_line_result(b, dir, c);
        let cells = line_cells(dir, c);
        if dir == Key::Up {
            assert(cells[r1] == 4 * r1 + c && cells[r2] == 4 * r2 + c);
        } else if dir == Key::Down {
            assert(cells[3 - r2] == 4 * r2 + c && cells[3 - r1] == 4 * r1 + c);
        }
    }
    assert forall|r: int, c1: int, c2: int|
        #![trigger tile(s, r, c1), tile(s, r, c2)]
        0 <= r < 4 && 0 <= c1 < c2 < 4 implies {
            &&& dir == Key::Left ==> (tile(s, r, c2) != 0 ==> tile(s, r, c1) != 0)
            &&& dir == Key::Right ==> (tile(s, r, c1) != 0 ==> tile(s, r, c2) != 0)
        } by {
        lemma_line_result(b, dir, r);
        let cells = line_cells(dir, r);
        if dir == Key::Left {
            assert(cells[c1] == 4 * r + c1 && cells[c2] == 4 * r + c2);
        } else if dir == Key::Right {
            assert(cells[3 - c2] == 4 * r + c2 && cells[3 - c1] == 4 * r + c1);
        }
    }
}


/// The number of tiles (non-empty cells) in a sequence of cells.
pub open spec fn tiles_count(s: Seq<u16>) -> int
    decreases s.len(),
{
    if s.len() == 0 {
        0
    } else {
        tiles_count(s.drop_last()) + if s.last() != 0 {
            1int
        } else {
            0int
        }
    }
}

proof fn lemma_count_append(a: Seq<u16>, b: Seq<u16>)
    ensures
        tiles_count(a + b) == tiles_count(a) + tiles_count(b),
    decreases b.len(),
{
    if b.len() > 0 {
        lemma_count_append(a, b.drop_last());
        assert((a + b).drop_last() =~= a + b.drop_last());
    } else {
        assert(a + b =~= a);
    }
}

proof fn lemma_count_all(s: Seq<u16>, zero: bool)
    requires
        forall|j: int| 0 <= j < s.len() ==> (#[trigger] s[j] == 0) == zero,
    ensures
        tiles_count(s) == if zero {
            0
        } else {
            s.len() as int
        },
    decreases s.len(),
{
    if s.len() > 0 {
        lemma_count_all(s.drop_last(), zero);
    }
}

proof fn lemma_merge_count(vals: Seq<u16>, n: int)
    requires
        0 <= n <= vals.len(),
        forall|j: int| 0 <= j < vals.len() ==> #[trigger] vals[j] < 32768,
    ensures
        merge(vals, n).0.len() <= tiles_count(vals.take(n)),
        tiles_count(vals.take(n)) + (if merge(vals, n).1 {
            1int
        } else {
            0int
        }) <= 2 * merge(vals, n).0.len(),
    decreases n,
{
    if n > 0 {
        lemma_merge_count(vals, n - 1);
        lemma_merge(vals, n - 1);
        assert(vals.take(n).drop_last() =~= vals.take(n - 1));
        assert(vals.take(n).last() == vals[n - 1]);
    } else {
        assert(vals.take(0) =~= Seq::<u16>::empty());
    }
}

/// Each tile merges at most once in a slide: along every line of the slide, the tiles
/// that remain are no more than the tiles there were, and at least half as many.
pub proof fn lemma_slide_merges_once(b: Seq<u16>, dir: Key, line: int)
    requires
        b.len() == 16,
        small_tiles(b),
        0 <= line < 4,
    ensures
        tiles_count(line_vals(slide_board(b, dir, 4), dir, line)) <= tiles_count(line_vals(b, dir, line)),
        tiles_count(line_vals(b, dir, line)) <= 2 * tiles_count(line_vals(slide_board(b, dir, 4), dir, line)),
{
    lemma_line_after(b, dir, line);
    let vals = line_vals(b, dir, line);
    let sl = slid_line(vals);
    lemma_merge(vals, 4);
    lemma_merge_nonzero(vals, 4);
    lemma_merge_count(vals, 4);
    assert(vals.take(4) =~= vals);
    let out = merge(vals, 4).0;
    let zs = Seq::new((4 - out.len()) as nat, |i: int| 0u16);
    lemma_count_append(out, zs);
    lemma_count_all(out, false);
    lemma_count_all(zs, true);
}


/// After a slide, each line holds its slid values.
proof fn lemma_line_after(b: Seq<u16>, dir: Key, line: int)
    requires
        b.len() == 16,
        small_tiles(b),
        0 <= line < 4,
    ensures
        line_vals(slide_board(b, dir, 4), dir, line) == slid_line(line_vals(b, dir, line)),
        line_vals(b, dir, line).len() == 4,
        forall|j: int| 0 <= j < 4 ==> #[trigger] line_vals(b, dir, line)[j] < 32768,
{
    lemma_line_result(b, dir, line);
    lemma_untouched(b, dir, line);
    let c = line_cells(dir, line);
    let vals = line_vals(b, dir, line);
    assert(line_vals(slide_board(b, dir, line), dir, line) =~= vals);
    assert forall|j: int| 0 <= j < 4 implies #[trigger] vals[j] < 32768 by {
        assert(vals[j] == b[c[j]]);
    }
    let sl = slid_line(vals);
    lemma_merge(vals, 4);
    assert(sl.len() == 4);
    assert forall|j: int| 0 <= j < 4 implies #[trigger] line_vals(slide_board(b, dir, 4), dir, line)[j] == sl[j] by {
        assert(line_vals(slide_board(b, dir, 4), dir, line)[j] == slide_board(b, dir, 4)[c[j]]);
    }
    assert(line_vals(slide_board(b, dir, 4), dir, line) =~= sl);
}

/// The tiles of a sequence of cells, in order, without the empty cells.
pub open spec fn tiles_of(s: Seq<u16>) -> Seq<u16>
    decreases s.len(),
{
    if s.len() == 0 {
        Seq::empty()
    } else if s.last() != 0 {
        tiles_of(s.drop_last()).push(s.last())
    } else {
        tiles_of(s.drop_last())
    }
}

/// Equal neighbours paired from the front: the first two merge into their sum when
/// equal, and the pairing goes on after them.
pub open spec fn pairs_up(s: Seq<u16>) -> Seq<u16>
    decreases s.len(),
{
    if s.len() < 2 {
        s
    } else if s[0] == s[1] {
        seq![(2 * s[0]) as u16] + pairs_up(s.subrange(2, s.len() as int))
    } else {
        seq![s[0]] + pairs_up(s.subrange(1, s.len() as int))
    }
}

/// The last tile of `s` is left single by the pairing.
spec fn tail_single(s: Seq<u16>) -> bool
    decreases s.len(),
{
    if s.len() == 0 {
        false
    } else if s.len() == 1 {
        true
    } else if s[0] == s[1] {
        tail_single(s.subrange(2, s.len() as int))
    } else {
        tail_single(s.subrange(1, s.len() as int))
    }
}

#[verifier::spinoff_prover]
proof fn lemma_pairs_push(s: Seq<u16>, x: u16)
    ensures
        tail_single(s) ==> pairs_up(s).len() > 0 && pairs_up(s).last() == s.last(),
        pairs_up(s.push(x)) == if tail_single(s) && s.last() == x {
            pairs_up(s).drop_last().push((2 * x) as u16)
        } else {
            pairs_up(s).push(x)
        },
        tail_single(s.push(x)) == !(tail_single(s) && s.last() == x),
    decreases s.len(),
{
    let t = s.push(x);
    if s.len() == 0 {
        assert(pairs_up(t) == t);
    } else if s.len() == 1 {
        assert(t[0] == s[0] && t[1] == x);
        assert(t.subrange(2, 2) =~= Seq::<u16>::empty());
        assert(t.subrange(1, 2) =~= seq![x]);
        assert(pairs_up(Seq::<u16>::empty()) == Seq::<u16>::empty());
        assert(pairs_up(seq![x]) == seq![x]);
        assert(!tail_single(Seq::<u16>::empty()));
        assert(tail_single(seq![x]));
        assert(tail_single(s));
        assert(pairs_up(s) == s);
        if s[0] == x {
            assert(pairs_up(t) =~= seq![(2 * x) as u16]);
        } else {
            assert(pairs_up(t) =~= seq![s[0], x]);
        }
    } else {
        let k: int = if s[0] == s[1] { 2 } else { 1 };
        let rest = s.subrange(k, s.len() as int);
        lemma_pairs_push(rest, x);
        assert(t.subrange(k, t.len() as int) =~= rest.push(x));
        let head = if s[0] == s[1] { seq![(2 * s[0]) as u16] } else { seq![s[0]] };
        assert(pairs_up(s) == head + pairs_up(rest));
        assert(pairs_up(t) == head + pairs_up(rest.push(x)));
        if rest.len() > 0 {
            assert(rest.last() == s.last());
        }
        if tail_single(s) && s.last() == x {
            assert(rest.len() > 0);
            assert(head + pairs_up(rest).drop_last().push((2 * x) as u16) =~= (head + pairs_up(rest)).drop_last().push(
                (2 * x) as u16,
            ));
        } else {
            assert(head + pairs_up(rest).push(x) =~= (head + pairs_up(rest)).push(x));
        }
        if tail_single(s) {
            assert(rest.len() > 0);
        }
    }
}

#[verifier::spinoff_prover]
proof fn lemma_merge_pairs(vals: Seq<u16>, n: int)
    requires
        0 <= n <= vals.len(),
        forall|j: int| 0 <= j < vals.len() ==> #[trigger] vals[j] < 32768,
    ensures
        merge(vals, n).0 == pairs_up(tiles_of(vals.take(n))),
        merge(vals, n).1 == tail_single(tiles_of(vals.take(n))),
    decreases n,
{
    if n == 0 {
        assert(vals.take(0) =~= Seq::<u16>::empty());
    } else {
        lemma_merge_pairs(vals, n - 1);
        lemma_merge(vals, n - 1);
        let v = vals[n - 1];
        assert(vals.take(n).drop_last() =~= vals.take(n - 1));
        assert(vals.take(n).last() == v);
        let nz = tiles_of(vals.take(n - 1));
        let (out, open, pts) = merge(vals, n - 1);
        if v != 0 {
            lemma_pairs_push(nz, v);
            if open && out.last() == v {
                assert(out.update(out.len() - 1, (2 * v) as u16) =~= out.drop_last().push((2 * v) as u16));
            }
        }
    }
}

proof fn lemma_tiles_of_append(a: Seq<u16>, b: Seq<u16>)
    ensures
        tiles_of(a + b) == tiles_of(a) + tiles_of(b),
    decreases b.len(),
{
    if b.len() > 0 {
        lemma_tiles_of_append(a, b.drop_last());
        assert((a + b).drop_last() =~= a + b.drop_last());
        assert((a + b).last() == b.last());
        if b.last() != 0 {
            assert(tiles_of(a) + tiles_of(b.drop_last()).push(b.last()) =~= (tiles_of(a) + tiles_of(b.drop_last())).push(b.last()));
        }
    } else {
        assert(a + b =~= a);
        assert(tiles_of(b) =~= Seq::<u16>::empty());
        assert(tiles_of(a) + tiles_of(b) =~= tiles_of(a));
    }
}

proof fn lemma_tiles_of_all(s: Seq<u16>, zero: bool)
    requires
        forall|j: int| 0 <= j < s.len() ==> (#[trigger] s[j] == 0) == zero,
    ensures
        tiles_of(s) == if zero {
            Seq::<u16>::empty()
        } else {
            s
        },
    decreases s.len(),
{
    if s.len() > 0 {
        lemma_tiles_of_all(s.drop_last(), zero);
        if !zero {
            assert(s.drop_last().push(s.last()) =~= s);
        }
    } else {
        assert(s =~= Seq::<u16>::empty());
    }
}

/// A slide merges equal neighbours once, starting from the edge it slides to: along every
/// line, read from that edge, the tiles after the slide are the tiles before it with each
/// pair of equal neighbours, taken from the edge on, merged into one tile of their sum.
#[verifier::spinoff_prover]
pub proof fn lemma_slide_pairs_from_edge(b: Seq<u16>, dir: Key, line: int)
    requires
        b.len() == 16,
        small_tiles(b),
        0 <= line < 4,
    ensures
        tiles_of(line_vals(slide_board(b, dir, 4), dir, line)) == pairs_up(tiles_of(line_vals(b, dir, line))),
{
    lemma_line_after(b, dir, line);
    let vals = line_vals(b, dir, line);
    lemma_merge(vals, 4);
    lemma_merge_nonzero(vals, 4);
    lemma_merge_pairs(vals, 4);
    assert(vals.take(4) =~= vals);
    let out = merge(vals, 4).0;
    let zs = Seq::new((4 - out.len()) as nat, |i: int| 0u16);
    lemma_tiles_of_append(out, zs);
    lemma_tiles_of_all(out, false);
    lemma_tiles_of_all(zs, true);
    assert(out + Seq::<u16>::empty() =~= out);
}


/// The total of the tiles that pairing equal neighbours from the front makes: each merged
/// pair counts its sum.
pub open spec fn pair_points(s: Seq<u16>) -> int
    decreases s.len(),
{
    if s.len() < 2 {
        0
    } else if s[0] == s[1] {
        2 * s[0] + pair_points(s.subrange(2, s.len() as int))
    } else {
        pair_points(s.subrange(1, s.len() as int))
    }
}

proof fn lemma_pair_points_push(s: Seq<u16>, x: u16)
    ensures
        pair_points(s.push(x)) == pair_points(s) + if tail_single(s) && s.last() == x {
            2 * x
        } else {
            0
        },
    decreases s.len(),
{
    let t = s.push(x);
    if s.len() == 0 {
    } else if s.len() == 1 {
        assert(t[0] == s[0] && t[1] == x);
        assert(t.subrange(2, 2) =~= Seq::<u16>::empty());
        assert(t.subrange(1, 2) =~= seq![x]);
        assert(pair_points(Seq::<u16>::empty()) == 0);
        assert(pair_points(seq![x]) == 0);
        assert(tail_single(s));
    } else {
        let k: int = if s[0] == s[1] { 2 } else { 1 };
        let rest = s.subrange(k, s.len() as int);
        lemma_pair_points_push(rest, x);
        assert(t.subrange(k, t.len() as int) =~= rest.push(x));
        if rest.len() > 0 {
            assert(rest.last() == s.last());
        }
        if tail_single(s) {
            assert(rest.len() > 0);
        }
    }
}

proof fn lemma_merge_points(vals: Seq<u16>, n: int)
    requires
        0 <= n <= vals.len(),
        forall|j: int| 0 <= j < vals.len() ==> #[trigger] vals[j] < 32768,
    ensures
        merge(vals, n).2 == pair_points(tiles_of(vals.take(n))),
    decreases n,
{
    if n == 0 {
        assert(vals.take(0) =~= Seq::<u16>::empty());
    } else {
        lemma_merge_points(vals, n - 1);
        lemma_merge_pairs(vals, n - 1);
        lemma_merge(vals, n - 1);
        let v = vals[n - 1];
        assert(vals.take(n).drop_last() =~= vals.take(n - 1));
        assert(vals.take(n).last() == v);
        let nz = tiles_of(vals.take(n - 1));
        if v != 0 {
            lemma_pair_points_push(nz, v);
            lemma_pairs_push(nz, v);
        }
    }
}

/// The points of the first `n` lines' merges.
pub open spec fn lines_points(b: Seq<u16>, dir: Key, n: int) -> int
    decreases n,
{
    if n <= 0 {
        0
    } else {
        lines_points(b, dir, n - 1) + pair_points(tiles_of(line_vals(b, dir, n - 1)))
    }
}

proof fn lemma_points_upto(b: Seq<u16>, dir: Key, k: int)
    requires
        b.len() == 16,
        small_tiles(b),
        0 <= k <= 4,
    ensures
        slide_points(b, dir, k) == lines_points(b, dir, k),
    decreases k,
{
    if k > 0 {
        lemma_points_upto(b, dir, k - 1);
        lemma_untouched(b, dir, k - 1);
        let sb = slide_board(b, dir, k - 1);
        let vals = line_vals(b, dir, k - 1);
        assert(line_vals(sb, dir, k - 1) =~= vals);
        assert forall|j: int| 0 <= j < vals.len() implies #[trigger] vals[j] < 32768 by {
            assert(vals[j] == b[line_cells(dir, k - 1)[j]]);
        }
        lemma_merge_points(vals, 4);
        assert(vals.take(4) =~= vals);
    }
}

/// A slide scores the merges it makes: the points are the sum, over the lines, of the
/// tiles made by merging a pair of equal neighbours (taken from the edge on), each
/// counting its value.
#[verifier::spinoff_prover]
pub proof fn lemma_slide_points_are_merges(b: Seq<u16>, dir: Key)
    requires
        b.len() == 16,
        small_tiles(b),
    ensures
        slide_points(b, dir, 4) == lines_points(b, dir, 4),
{
    lemma_points_upto(b, dir, 4);
}

} // verus!
