//! Minesweeper: 9 × 9, ten mines, first press is safe. Confirm opens, Left flags, Right
//! moves on through the grid (wrapping to the next row), Up and Down move by rows.

use vstd::prelude::*;
use crate::games::{GameStep, PauseChoice, Rng, rng_state, xorshift};
use crate::keys::{Key, KeyEvent, KeyKind};

verus! {

/// Cells per side.
pub const N: usize = 9;
/// Mines on the board.
pub const MINES: usize = 10;

/// Cells `i` and `j` touch (a side or a corner).
pub open spec fn adjacent(i: int, j: int) -> bool {
    &&& 0 <= i < 81
    &&& 0 <= j < 81
    &&& i != j
    &&& -1 <= i / 9 - j / 9 <= 1
    &&& -1 <= i % 9 - j % 9 <= 1
}

/// The cells around `i`, in reading order.
pub open spec fn nbrs(i: int) -> Seq<usize> {
    Seq::new(81, |j: int| j as usize).filter(|j: usize| adjacent(i, j as int))
}

/// How many mines touch cell `i`.
pub open spec fn mine_count(mines: Seq<bool>, i: int) -> nat {
    nbrs(i).filter(|j: usize| mines[j as int]).len()
}

fn neighbours(i: usize) -> (r: Vec<usize>)
    requires
        i < 81,
    ensures
        r@ == nbrs(i as int),
        forall|k: int| 0 <= k < r.len() ==> #[trigger] r@[k] < 81 && adjacent(i as int, r@[k] as int),
{
    let mut v: Vec<usize> = Vec::new();
    let mut j: usize = 0;
    let ghost all = Seq::new(81, |j: int| j as usize);
    let ghost f = |j: usize| adjacent(i as int, j as int);
    proof {
        assert(all.take(0).filter(f) =~= Seq::<usize>::empty());
    }
    while j < 81
        invariant
            j <= 81,
            i < 81,
            all == Seq::new(81, |j: int| j as usize),
            f == (|j: usize| adjacent(i as int, j as int)),
            v@ == all.take(j as int).filter(f),
            forall|k: int| 0 <= k < v.len() ==> #[trigger] v@[k] < j && adjacent(i as int, v@[k] as int),
        decreases 81 - j,
    {
        let dr = (j / 9) as i64 - (i / 9) as i64;
        let dc = (j % 9) as i64 - (i % 9) as i64;
        let adj = j != i && -1 <= dr && dr <= 1 && -1 <= dc && dc <= 1;
        proof {
            let s = all.take(j + 1);
            assert(s.drop_last() =~= all.take(j as int));
            s.drop_last().lemma_filter_push(s.last(), f);
            assert(s =~= s.drop_last().push(s.last()));
            assert(adj == f(j));
        }
        if adj {
            v.push(j);
        }
        j += 1;
    }
    assert(all.take(81) =~= all);
    v
}


/// Closed cells among the first `n`.
pub open spec fn closed_count(open: Seq<bool>, n: int) -> int
    decreases n,
{
    if n <= 0 {
        0
    } else {
        closed_count(open, n - 1) + if open[n - 1] { 0int } else { 1int }
    }
}

proof fn lemma_closed_count_open(open: Seq<bool>, k: int, n: int)
    requires
        0 <= k < n <= open.len(),
        !open[k],
    ensures
        closed_count(open.update(k, true), n) == closed_count(open, n) - 1,
        closed_count(open, n) >= 1,
    decreases n,
{
    if n - 1 > k {
        lemma_closed_count_open(open, k, n - 1);
    } else {
        lemma_closed_count_same(open, k, n - 1);
    }
}

proof fn lemma_closed_count_same(open: Seq<bool>, k: int, n: int)
    requires
        0 <= n <= k < open.len(),
    ensures
        closed_count(open.update(k, true), n) == closed_count(open, n),
        closed_count(open, n) >= 0,
    decreases n,
{
    if n > 0 {
        lemma_closed_count_same(open, k, n - 1);
    }
}

/// Every cell is open or a mine.
pub open spec fn all_clear(open: Seq<bool>, mines: Seq<bool>) -> bool {
    forall|k: int| 0 <= k < 81 ==> #[trigger] open[k] || mines[k]
}

/// How many of the first `n` cells are set.
pub open spec fn count_set(m: Seq<bool>, n: int) -> nat
    decreases n,
{
    if n <= 0 {
        0
    } else {
        count_set(m, n - 1) + if m[n - 1] { 1nat } else { 0nat }
    }
}

proof fn lemma_count_none(m: Seq<bool>, n: int)
    requires
        0 <= n <= m.len(),
        forall|k: int| 0 <= k < n ==> !#[trigger] m[k],
    ensures
        count_set(m, n) == 0,
    decreases n,
{
    if n > 0 {
        lemma_count_none(m, n - 1);
    }
}

proof fn lemma_count_set_one(m: Seq<bool>, k: int, n: int)
    requires
        0 <= k < n <= m.len(),
        !m[k],
    ensures
        count_set(m.update(k, true), n) == count_set(m, n) + 1,
    decreases n,
{
    if n - 1 > k {
        lemma_count_set_one(m, k, n - 1);
    } else {
        lemma_count_same(m, k, n - 1);
    }
}

proof fn lemma_count_same(m: Seq<bool>, k: int, n: int)
    requires
        0 <= n <= k < m.len(),
    ensures
        count_set(m.update(k, true), n) == count_set(m, n),
    decreases n,
{
    if n > 0 {
        lemma_count_same(m, k, n - 1);
    }
}

proof fn lemma_count_run(m: Seq<bool>, a: int, b: int)
    requires
        0 <= a <= b <= m.len(),
        forall|k: int| a <= k < b ==> #[trigger] m[k],
    ensures
        count_set(m, b) >= count_set(m, a) + (b - a),
    decreases b - a,
{
    if b > a {
        lemma_count_run(m, a, b - 1);
    }
}

proof fn lemma_count_mono(m: Seq<bool>, a: int, b: int)
    requires
        0 <= a <= b <= m.len(),
    ensures
        count_set(m, b) >= count_set(m, a),
    decreases b - a,
{
    if b > a {
        lemma_count_mono(m, a, b - 1);
    }
}

/// The Minesweeper game.
pub struct Minesweeper {
    mines: [bool; 81],
    open: [bool; 81],
    flag: [bool; 81],
    cursor: usize,
    placed: bool,
    dead: bool,
    won: bool,
    rng: Rng,
    started: bool,
}

/// The random placement from mines `mines` and generator state `r`, `n` placed after
/// `tries` draws: each draw picks a cell and a mine goes there unless it is the opened
/// cell, one around it, or already mined; it stops at ten mines or `u32::MAX` draws. The
/// mines, the generator's state and the count placed.
pub open spec fn sown(mines: Seq<bool>, r: u32, n: int, tries: int, avoid: int) -> (Seq<bool>, u32, int)
    decreases u32::MAX - tries,
{
    if n >= MINES || tries >= u32::MAX {
        (mines, r, n)
    } else {
        let r2 = xorshift(rng_state(r));
        let i = (r2 % 81) as int;
        if i == avoid || mines[i] || adjacent(avoid, i) {
            sown(mines, r2, n, tries + 1, avoid)
        } else {
            sown(mines.update(i, true), r2, n + 1, tries + 1, avoid)
        }
    }
}

impl Minesweeper {
    /// The generator.
    pub closed spec fn spec_rng(self) -> Rng {
        self.rng
    }

    /// The mines.
    pub closed spec fn spec_mines(self) -> Seq<bool> {
        self.mines@
    }

    /// The open cells.
    pub closed spec fn spec_open(self) -> Seq<bool> {
        self.open@
    }

    /// The flagged cells.
    pub closed spec fn spec_flags(self) -> Seq<bool> {
        self.flag@
    }

    /// The focused cell.
    pub closed spec fn spec_cursor(self) -> usize {
        self.cursor
    }

    /// Whether the mines are placed (on the first open).
    pub closed spec fn spec_placed(self) -> bool {
        self.placed
    }

    /// A mine was opened.
    pub closed spec fn spec_dead(self) -> bool {
        self.dead
    }

    /// Every safe cell is open.
    pub closed spec fn spec_won(self) -> bool {
        self.won
    }

    /// Whether a game is on.
    pub closed spec fn spec_started(self) -> bool {
        self.started
    }

    /// The cursor is on the board, and no mine lies before they are placed.
    pub closed spec fn inv(self) -> bool {
        &&& self.cursor < 81
        &&& !self.placed ==> forall|k: int| 0 <= k < 81 ==> !#[trigger] self.mines@[k]
    }

    /// New: nothing started, the cursor in the centre.
    pub fn new() -> (m: Minesweeper)
        ensures
            m.inv(),
            !m.spec_started(),
            m.spec_cursor() == 40,
            m.spec_mines() == Seq::new(81, |i: int| false),
            m.spec_open() == Seq::new(81, |i: int| false),
            m.spec_flags() == Seq::new(81, |i: int| false),
            !m.spec_placed(),
            !m.spec_dead(),
            !m.spec_won(),
    {
        let m = Minesweeper {
            mines: [false; 81],
            open: [false; 81],
            flag: [false; 81],
            cursor: 40,
            placed: false,
            dead: false,
            won: false,
            rng: Rng(0x11),
            started: false,
        };
        assert(m.mines@ =~= Seq::new(81, |i: int| false));
        assert(m.open@ =~= Seq::new(81, |i: int| false));
        assert(m.flag@ =~= Seq::new(81, |i: int| false));
        m
    }

    /// A new game: no mines, nothing open or flagged.
    pub fn reset(&mut self)
        requires
            old(self).inv(),
        ensures
            final(self).inv(),
            final(self).spec_mines() == Seq::new(81, |i: int| false),
            final(self).spec_open() == Seq::new(81, |i: int| false),
            final(self).spec_flags() == Seq::new(81, |i: int| false),
            !final(self).spec_placed(),
            !final(self).spec_dead(),
            !final(self).spec_won(),
            final(self).spec_started(),
            final(self).spec_cursor() == old(self).spec_cursor(),
    {
        self.mines = [false; 81];
        self.open = [false; 81];
        self.flag = [false; 81];
        self.placed = false;
        self.dead = false;
        self.won = false;
        self.started = true;
        assert(self.mines@ =~= Seq::new(81, |i: int| false));
        assert(self.open@ =~= Seq::new(81, |i: int| false));
        assert(self.flag@ =~= Seq::new(81, |i: int| false));
    }

    /// How many mines touch cell `i`.
    pub fn count(&self, i: usize) -> (n: u8)
        requires
            i < 81,
        ensures
            n == mine_count(self.spec_mines(), i as int),
    {
        let near = neighbours(i);
        let ghost f = |j: usize| self.mines@[j as int];
        let mut n: u8 = 0;
        let mut k: usize = 0;
        while k < near.len()
            invariant
                k <= near.len(),
                near.len() <= 81,
                forall|q: int| 0 <= q < near.len() ==> #[trigger] near@[q] < 81,
                f == (|j: usize| self.mines@[j as int]),
                n == near@.take(k as int).filter(f).len(),
                n <= k,
            decreases near.len() - k,
        {
            proof {
                let s = near@.take(k + 1);
                assert(s.drop_last() =~= near@.take(k as int));
                s.drop_last().lemma_filter_push(s.last(), f);
                assert(s =~= s.drop_last().push(s.last()));
            }
            if self.mines[near[k]] {
                n += 1;
            }
            k += 1;
        }
        assert(near@.take(near.len() as int) =~= near@);
        n
    }

    /// Place the mines on the first open: ten random cells, none on the opened cell or
    /// around it. Draws that miss are retried; should `u32::MAX` draws ever miss, the
    /// rest go to the first free rows far from the opened cell.
    pub fn place(&mut self, avoid: usize)
        requires
            old(self).inv(),
            !old(self).spec_placed(),
            avoid < 81,
        ensures
            final(self).inv(),
            final(self).spec_placed(),
            count_set(final(self).spec_mines(), 81) == MINES,
            ({
                let (m, r, n) = sown(old(self).spec_mines(), old(self).spec_rng().0, 0, 0, avoid as int);
                &&& final(self).spec_rng().0 == r
                &&& n >= MINES ==> final(self).spec_mines() == m
            }),
            forall|k: int| 0 <= k < 81 && #[trigger] final(self).spec_mines()[k] ==> old(self).spec_mines()[k] || (k != avoid
                && !adjacent(avoid as int, k)),
            forall|k: int| 0 <= k < 81 && old(self).spec_mines()[k] ==> #[trigger] final(self).spec_mines()[k],
            final(self).spec_open() == old(self).spec_open(),
            final(self).spec_flags() == old(self).spec_flags(),
            final(self).spec_dead() == old(self).spec_dead(),
            final(self).spec_won() == old(self).spec_won(),
            final(self).spec_cursor() == old(self).spec_cursor(),
            final(self).spec_started() == old(self).spec_started(),
    {
        let near = neighbours(avoid);
        let mut n: usize = 0;
        let mut tries: u32 = 0;
        proof {
            lemma_count_none(self.mines@, 81);
        }
        let ghost target = sown(old(self).mines@, old(self).rng.0, 0, 0, avoid as int);
        while n < MINES && tries < u32::MAX
            invariant
                n <= MINES,
                sown(self.mines@, self.rng.0, n as int, tries as int, avoid as int) == target,
                target == sown(old(self).mines@, old(self).rng.0, 0, 0, avoid as int),
                n == count_set(self.mines@, 81),
                self.mines@.len() == 81,
                avoid < 81,
                near@ == nbrs(avoid as int),
                forall|q: int| 0 <= q < near.len() ==> #[trigger] near@[q] < 81 && adjacent(avoid as int, near@[q] as int),
                forall|k: int| 0 <= k < 81 && #[trigger] self.mines@[k] ==> old(self).mines@[k] || (k != avoid && !adjacent(
                    avoid as int,
                    k,
                )),
                forall|k: int| 0 <= k < 81 && old(self).mines@[k] ==> #[trigger] self.mines@[k],
                self.open == old(self).open,
                self.flag == old(self).flag,
                self.dead == old(self).dead,
                self.won == old(self).won,
                self.cursor == old(self).cursor,
                self.started == old(self).started,
                old(self).inv(),
            decreases MINES - n, u32::MAX - tries,
        {
            let ghost before = sown(self.mines@, self.rng.0, n as int, tries as int, avoid as int);
            tries += 1;
            let i = self.rng.below(81) as usize;
            let mut near_it = false;
            let mut q: usize = 0;
            while q < near.len()
                invariant
                    q <= near.len(),
                    near_it == near@.take(q as int).contains(i),
                decreases near.len() - q,
            {
                proof {
                    assert(near@.take(q + 1) =~= near@.take(q as int).push(near@[q as int]));
                    lemma_contains_push(near@.take(q as int), near@[q as int], i);
                }
                if near[q] == i {
                    near_it = true;
                }
                q += 1;
            }
            assert(near@.take(near.len() as int) =~= near@);
            proof {
                if !near_it && i != avoid && adjacent(avoid as int, i as int) {
                    lemma_in_nbrs(avoid as int, i as int);
                }
            }
            if i == avoid || self.mines[i] || near_it {
                assert(sown(self.mines@, self.rng.0, n as int, tries as int, avoid as int) == before);
                continue;
            }
            proof {
                lemma_count_set_one(self.mines@, i as int, 81);
            }
            self.mines[i] = true;
            n += 1;
            assert(sown(self.mines@, self.rng.0, n as int, tries as int, avoid as int) == before);
        }
        assert(sown(self.mines@, self.rng.0, n as int, tries as int, avoid as int) == (self.mines@, self.rng.0, n as int));
        let ghost random_mines = self.mines@;
        let ghost random_rng = self.rng.0;
        let ghost random_n = n;
        // Far rows: the last two for a cell in the top five rows, else the first two.
        let lo: usize = if avoid < 45 { 63 } else { 0 };
        let mut j: usize = lo;
        while j < lo + 18 && n < MINES
            invariant
                lo == 63 || lo == 0,
                avoid < 45 ==> lo == 63,
                avoid >= 45 ==> lo == 0,
                lo <= j <= lo + 18,
                n <= MINES,
                n == count_set(self.mines@, 81),
                self.mines@.len() == 81,
                avoid < 81,
                n < MINES ==> forall|k: int| lo <= k < j ==> #[trigger] self.mines@[k],
                self.rng.0 == random_rng,
                random_n >= MINES ==> self.mines@ == random_mines && n == random_n,
                target == (random_mines, random_rng, random_n as int),
                target == sown(old(self).mines@, old(self).rng.0, 0, 0, avoid as int),
                forall|k: int| 0 <= k < 81 && #[trigger] self.mines@[k] ==> old(self).mines@[k] || (k != avoid && !adjacent(
                    avoid as int,
                    k,
                )),
                forall|k: int| 0 <= k < 81 && old(self).mines@[k] ==> #[trigger] self.mines@[k],
                self.open == old(self).open,
                self.flag == old(self).flag,
                self.dead == old(self).dead,
                self.won == old(self).won,
                self.cursor == old(self).cursor,
                self.started == old(self).started,
                old(self).inv(),
            decreases lo + 18 - j,
        {
            assert(j != avoid && !adjacent(avoid as int, j as int));
            if !self.mines[j] {
                proof {
                    lemma_count_set_one(self.mines@, j as int, 81);
                }
                self.mines[j] = true;
                n += 1;
            }
            j += 1;
        }
        proof {
            if n < MINES {
                lemma_count_run(self.mines@, lo as int, lo + 18);
                lemma_count_mono(self.mines@, lo + 18, 81);
            }
        }
        self.placed = true;
    }

    /// Open cell `i`: nothing on an open or flagged cell; a mine ends the game; a cell
    /// that no mine touches opens its unopened neighbours in turn. Afterwards the game
    /// is won when every safe cell is open.
    pub fn open_cell(&mut self, i: usize)
        requires
            old(self).inv(),
            i < 81,
        ensures
            final(self).inv(),
            old(self).spec_open()[i as int] || old(self).spec_flags()[i as int] ==> *final(self) == *old(self),
            !(old(self).spec_open()[i as int] || old(self).spec_flags()[i as int]) ==> revealed(*old(self), *final(self), i as int),
            final(self).spec_mines() == old(self).spec_mines(),
            final(self).spec_placed() == old(self).spec_placed(),
    {
        if self.open[i] || self.flag[i] {
            return;
        }
        let ghost o0 = self.open@;
        let mut stack: Vec<usize> = Vec::new();
        stack.push(i);
        proof {
            assert(stack@[0] == i);
            assert(stack@.contains(i));
        }
        while stack.len() > 0
            invariant
                self.inv(),
                i < 81,
                !o0[i as int],
                !self.flag@[i as int],
                self.open@.len() == 81,
                self.mines == old(self).mines,
                self.flag == old(self).flag,
                self.cursor == old(self).cursor,
                self.placed == old(self).placed,
                self.started == old(self).started,
                self.won == old(self).won,
                self.dead == old(self).dead,
                self.rng == old(self).rng,
                o0 == old(self).open@,
                stack_ok(stack@, self.mines@, i),
                forall|k: int| 0 <= k < 81 && o0[k] ==> #[trigger] self.open@[k],
                fresh_ok(self.open@, o0, self.flag@, self.mines@, i as int),
                self.open@[i as int] || stack@.contains(i),
                self.open@[i as int] ==> !self.mines@[i as int],
                flood_ok(self.open@, o0, self.flag@, self.mines@, stack@),
            decreases closed_count(self.open@, 81), stack.len(),
        {
            let ghost sp = stack@;
            let k = stack.pop().unwrap();
            proof {
                assert(sp[sp.len() - 1] == k);
                assert(stack@ =~= sp.drop_last());
            }
            if self.open[k] || self.flag[k] {
                proof {
                    lemma_flood_skip(self.open@, o0, self.flag@, self.mines@, sp);
                    if !self.open@[i as int] && i != k {
                        lemma_contains_drop_last(sp, i);
                    }
                }
                continue;
            }
            let ghost before = self.open@;
            proof {
                lemma_closed_count_open(before, k as int, 81);
            }
            self.open[k] = true;
            proof {
                assert(self.open@ =~= before.update(k as int, true));
            }
            if self.mines[k] {
                self.dead = true;
                return;
            }
            let ghost s0 = stack@;
            if self.count(k) == 0 {
                let near = neighbours(k);
                let mut q: usize = 0;
                while q < near.len()
                    invariant
                        q <= near.len(),
                        k < 81,
                        i < 81,
                        near@ == nbrs(k as int),
                        forall|x: int| 0 <= x < near.len() ==> #[trigger] near@[x] < 81 && adjacent(k as int, near@[x] as int),
                        stack_ok(stack@, self.mines@, i),
                        stack@.len() >= s0.len(),
                        stack@.subrange(0, s0.len() as int) == s0,
                        mine_count(self.mines@, k as int) == 0,
                        forall|x: int| 0 <= x < q ==> self.open@[near@[x] as int] || stack@.contains(#[trigger] near@[x]),
                    decreases near.len() - q,
                {
                    let j = near[q];
                    if !self.open[j] {
                        let ghost st = stack@;
                        proof {
                            lemma_no_mine_near(self.mines@, k as int, j as int);
                        }
                        stack.push(j);
                        proof {
                            assert(stack@ == st.push(j));
                            assert(stack@.subrange(0, s0.len() as int) =~= st.subrange(0, s0.len() as int));
                            assert forall|x: int| 0 <= x <= q implies self.open@[near@[x] as int] || stack@.contains(
                                #[trigger] near@[x],
                            ) by {
                                lemma_contains_push(st, j, near@[x]);
                            }
                        }
                    }
                    q += 1;
                }
                proof {
                    assert forall|b: int| adjacent(k as int, b) implies self.open@[b] || stack@.contains(b as usize) by {
                        lemma_in_nbrs(k as int, b);
                        let x = choose|x: int| 0 <= x < near@.len() && near@[x] == b as usize;
                        assert(near@[x] == b as usize);
                    }
                }
            }
            proof {
                assert(stack@.subrange(0, s0.len() as int) =~= s0);
                lemma_flood_open(before, self.open@, o0, self.flag@, self.mines@, sp, stack@, k);
                if i != k && !before[i as int] {
                    lemma_contains_drop_last(sp, i);
                    lemma_prefix_contains(s0, stack@, i);
                }
                assert(fresh_ok(self.open@, o0, self.flag@, self.mines@, i as int));
            }
        }
        self.won = all_open_or_mined(&self.open, &self.mines);
    }

    /// Start the first game from a random seed (made odd).
    pub fn start(&mut self, seed: u32)
        requires
            old(self).inv(),
        ensures
            final(self).inv(),
            final(self).spec_started(),
            !final(self).spec_placed(),
            !final(self).spec_dead(),
            !final(self).spec_won(),
            final(self).spec_open() == Seq::new(81, |i: int| false),
            final(self).spec_flags() == Seq::new(81, |i: int| false),
            final(self).spec_cursor() == old(self).spec_cursor(),
    {
        self.rng = Rng(seed | 1);
        self.reset();
    }

    /// A mine was opened.
    pub fn dead(&self) -> (b: bool)
        ensures
            b == self.spec_dead(),
    {
        self.dead
    }

    /// Every safe cell is open.
    pub fn won(&self) -> (b: bool)
        ensures
            b == self.spec_won(),
    {
        self.won
    }

    /// Cell `i` is open.
    pub fn is_open(&self, i: usize) -> (b: bool)
        requires
            i < 81,
        ensures
            b == self.spec_open()[i as int],
    {
        self.open[i]
    }

    /// Mines left to flag, as the running head shows it: ten less the flags, not below 0.
    pub fn mines_left(&self) -> (n: usize)
        ensures
            n == (if flag_count(self.spec_flags(), 81) >= 10 { 0 } else { 10 - flag_count(self.spec_flags(), 81) }),
    {
        let mut f: usize = 0;
        let mut k: usize = 0;
        while k < 81
            invariant
                k <= 81,
                f == flag_count(self.flag@, k as int),
                f <= k,
            decreases 81 - k,
        {
            if self.flag[k] {
                f += 1;
            }
            k += 1;
        }
        if f >= MINES {
            0
        } else {
            MINES - f
        }
    }

    /// A key: Back pauses; Left (or a long Confirm) flags the focused closed cell; Confirm
    /// opens it (placing the mines on the first open, or starting over after the game
    /// ended); Right moves on through the grid, Up and Down move by rows. Releases and
    /// every other key do nothing.
    pub fn key(&mut self, ev: KeyEvent) -> (step: GameStep)
        requires
            old(self).inv(),
        ensures
            final(self).inv(),
            step == key_step(ev),
            step == GameStep::Ignore || step == GameStep::Pause ==> *final(self) == *old(self),
            is_flag_key(ev) ==> {
                &&& final(self).spec_flags() == (if !old(self).spec_open()[old(self).spec_cursor() as int] && !old(self).spec_dead()
                    && !old(self).spec_won() {
                    old(self).spec_flags().update(
                        old(self).spec_cursor() as int,
                        !old(self).spec_flags()[old(self).spec_cursor() as int],
                    )
                } else {
                    old(self).spec_flags()
                })
                &&& final(self).spec_open() == old(self).spec_open()
                &&& final(self).spec_mines() == old(self).spec_mines()
                &&& final(self).spec_cursor() == old(self).spec_cursor()
                &&& final(self).spec_dead() == old(self).spec_dead()
                &&& final(self).spec_won() == old(self).spec_won()
            },
            ev.kind != KeyKind::Release && (ev.key == Key::Right || ev.key == Key::Up || ev.key == Key::Down) ==> {
                &&& final(self).spec_cursor() == moved_cursor(old(self).spec_cursor() as int, ev.key)
                &&& final(self).spec_open() == old(self).spec_open()
                &&& final(self).spec_flags() == old(self).spec_flags()
                &&& final(self).spec_mines() == old(self).spec_mines()
                &&& final(self).spec_dead() == old(self).spec_dead()
                &&& final(self).spec_won() == old(self).spec_won()
            },
            (ev.key == Key::Confirm && ev.kind == KeyKind::Press) && (old(self).spec_dead() || old(self).spec_won()) ==> {
                &&& final(self).spec_open() == Seq::new(81, |i: int| false)
                &&& final(self).spec_flags() == Seq::new(81, |i: int| false)
                &&& !final(self).spec_placed()
                &&& !final(self).spec_dead()
                &&& !final(self).spec_won()
                &&& final(self).spec_cursor() == old(self).spec_cursor()
            },
            (ev.key == Key::Confirm && ev.kind == KeyKind::Press) && !old(self).spec_dead() && !old(self).spec_won() ==> {
                let c = old(self).spec_cursor() as int;
                &&& final(self).spec_placed()
                &&& old(self).spec_placed() ==> final(self).spec_mines() == old(self).spec_mines()
                &&& !old(self).spec_placed() ==> !final(self).spec_mines()[c] && forall|k: int|
                    adjacent(c, k) ==> !#[trigger] final(self).spec_mines()[k]
                &&& (old(self).spec_open()[c] || old(self).spec_flags()[c]) ==> {
                    &&& final(self).spec_open() == old(self).spec_open()
                    &&& final(self).spec_flags() == old(self).spec_flags()
                    &&& final(self).spec_cursor() == old(self).spec_cursor()
                    &&& !final(self).spec_dead()
                    &&& !final(self).spec_won()
                }
                &&& !(old(self).spec_open()[c] || old(self).spec_flags()[c]) ==> revealed(*old(self), *final(self), c)
            },
    {
        if ev.kind == KeyKind::Release {
            return GameStep::Ignore;
        }
        match ev.key {
            Key::Back => {
                if ev.kind == KeyKind::Press {
                    GameStep::Pause
                } else {
                    GameStep::Ignore
                }
            },
            Key::Confirm => {
                if ev.kind == KeyKind::Long {
                    self.toggle_flag();
                    GameStep::Redraw
                } else if ev.kind == KeyKind::Press {
                    if self.dead || self.won {
                        self.reset();
                        return GameStep::Redraw;
                    }
                    if !self.placed {
                        self.place(self.cursor);
                    }
                    self.open_cell(self.cursor);
                    GameStep::Redraw
                } else {
                    GameStep::Ignore
                }
            },
            Key::Left => {
                if ev.kind == KeyKind::Press {
                    self.toggle_flag();
                    GameStep::Redraw
                } else {
                    GameStep::Ignore
                }
            },
            Key::Right => {
                self.cursor = (self.cursor + 1) % 81;
                GameStep::Redraw
            },
            Key::Up => {
                self.cursor = (self.cursor + 72) % 81;
                GameStep::Redraw
            },
            Key::Down => {
                self.cursor = (self.cursor + 9) % 81;
                GameStep::Redraw
            },
            Key::Power => GameStep::Ignore,
        }
    }

    fn toggle_flag(&mut self)
        requires
            old(self).inv(),
        ensures
            final(self).inv(),
            final(self).spec_flags() == (if !old(self).spec_open()[old(self).spec_cursor() as int] && !old(self).spec_dead()
                && !old(self).spec_won() {
                old(self).spec_flags().update(old(self).spec_cursor() as int, !old(self).spec_flags()[old(self).spec_cursor() as int])
            } else {
                old(self).spec_flags()
            }),
            final(self).spec_open() == old(self).spec_open(),
            final(self).spec_mines() == old(self).spec_mines(),
            final(self).spec_cursor() == old(self).spec_cursor(),
            final(self).spec_dead() == old(self).spec_dead(),
            final(self).spec_won() == old(self).spec_won(),
            final(self).spec_placed() == old(self).spec_placed(),
            final(self).spec_started() == old(self).spec_started(),
    {
        let c = self.cursor;
        if !self.open[c] && !self.dead && !self.won {
            self.flag[c] = !self.flag[c];
        }
    }

    /// The paused card's answer: a new game on New game, the list on Quit.
    pub fn resume(&mut self, c: PauseChoice) -> (step: GameStep)
        requires
            old(self).inv(),
        ensures
            final(self).inv(),
            step == crate::games::after_pause(c),
            c == PauseChoice::NewGame ==> {
                &&& final(self).spec_open() == Seq::new(81, |i: int| false)
                &&& final(self).spec_flags() == Seq::new(81, |i: int| false)
                &&& !final(self).spec_placed()
                &&& !final(self).spec_dead()
                &&& !final(self).spec_won()
            },
            c != PauseChoice::NewGame ==> *final(self) == *old(self),
    {
        match c {
            PauseChoice::NewGame => {
                self.reset();
                GameStep::Redraw
            },
            PauseChoice::Quit => GameStep::Quit,
            PauseChoice::Resume => GameStep::Redraw,
        }
    }
}

/// A flag key: a press of Left or a long press of Confirm.
pub open spec fn is_flag_key(ev: KeyEvent) -> bool {
    (ev.key == Key::Left && ev.kind == KeyKind::Press) || (ev.key == Key::Confirm && ev.kind == KeyKind::Long)
}

/// What a key asks of the screen.
pub open spec fn key_step(ev: KeyEvent) -> GameStep {
    if ev.kind == KeyKind::Release {
        GameStep::Ignore
    } else {
        match ev.key {
            Key::Back => if ev.kind == KeyKind::Press { GameStep::Pause } else { GameStep::Ignore },
            Key::Confirm => if ev.kind == KeyKind::Press || ev.kind == KeyKind::Long {
                GameStep::Redraw
            } else {
                GameStep::Ignore
            },
            Key::Left => if ev.kind == KeyKind::Press { GameStep::Redraw } else { GameStep::Ignore },
            Key::Right | Key::Up | Key::Down => GameStep::Redraw,
            Key::Power => GameStep::Ignore,
        }
    }
}

/// The cursor after Right (on through the grid), Up or Down (a row, wrapping).
pub open spec fn moved_cursor(c: int, k: Key) -> int {
    match k {
        Key::Right => (c + 1) % 81,
        Key::Up => (c + 72) % 81,
        Key::Down => (c + 9) % 81,
        _ => c,
    }
}

/// Flags among the first `n` cells.
pub open spec fn flag_count(flags: Seq<bool>, n: int) -> int
    decreases n,
{
    if n <= 0 {
        0
    } else {
        flag_count(flags, n - 1) + if flags[n - 1] { 1int } else { 0int }
    }
}


/// Every cell on the stack is on the board, and safe unless it is the opened cell.
pub open spec fn stack_ok(stack: Seq<usize>, mines: Seq<bool>, i: usize) -> bool {
    forall|x: int| 0 <= x < stack.len() ==> #[trigger] stack[x] < 81 && (stack[x] == i || !mines[stack[x] as int])
}

/// Every newly opened cell was not flagged, and is safe unless it is the opened cell.
pub open spec fn fresh_ok(open: Seq<bool>, o0: Seq<bool>, flag: Seq<bool>, mines: Seq<bool>, i: int) -> bool {
    forall|k: int| 0 <= k < 81 && #[trigger] open[k] && !o0[k] ==> !flag[k] && (k == i || !mines[k])
}

/// Every newly opened cell that no mine touches has its neighbours open, flagged or
/// still waiting on the stack.
pub open spec fn flood_ok(open: Seq<bool>, o0: Seq<bool>, flag: Seq<bool>, mines: Seq<bool>, stack: Seq<usize>) -> bool {
    forall|k: int, j: int|
        0 <= k < 81 && #[trigger] open[k] && !o0[k] && !mines[k] && mine_count(mines, k) == 0 && adjacent(k, j) ==> #[trigger] open[j]
            || flag[j] || stack.contains(j as usize)
}

proof fn lemma_contains_drop_last(s: Seq<usize>, y: usize)
    requires
        s.len() > 0,
        s.contains(y),
        s.last() != y,
    ensures
        s.drop_last().contains(y),
{
    let j = choose|j: int| 0 <= j < s.len() && s[j] == y;
    assert(j < s.len() - 1);
    assert(s.drop_last()[j] == y);
}

proof fn lemma_prefix_contains(s0: Seq<usize>, s1: Seq<usize>, y: usize)
    requires
        s1.len() >= s0.len(),
        s1.subrange(0, s0.len() as int) == s0,
        s0.contains(y),
    ensures
        s1.contains(y),
{
    let j = choose|j: int| 0 <= j < s0.len() && s0[j] == y;
    assert(s1.subrange(0, s0.len() as int)[j] == s1[j]);
    assert(s1[j] == y);
}

proof fn lemma_flood_skip(open: Seq<bool>, o0: Seq<bool>, flag: Seq<bool>, mines: Seq<bool>, sp: Seq<usize>)
    requires
        sp.len() > 0,
        open.len() == 81,
        flood_ok(open, o0, flag, mines, sp),
        open[sp.last() as int] || flag[sp.last() as int],
    ensures
        flood_ok(open, o0, flag, mines, sp.drop_last()),
{
    assert forall|k: int, j: int|
        0 <= k < 81 && #[trigger] open[k] && !o0[k] && !mines[k] && mine_count(mines, k) == 0 && adjacent(k, j) implies #[trigger] open[j]
            || flag[j] || sp.drop_last().contains(j as usize) by {
        if !open[j] && !flag[j] {
            assert(sp.contains(j as usize));
            assert(j as usize != sp.last());
            lemma_contains_drop_last(sp, j as usize);
        }
    }
}

proof fn lemma_flood_open(
    before: Seq<bool>,
    open: Seq<bool>,
    o0: Seq<bool>,
    flag: Seq<bool>,
    mines: Seq<bool>,
    sp: Seq<usize>,
    s1: Seq<usize>,
    k: usize,
)
    requires
        sp.len() > 0,
        before.len() == 81,
        k < 81,
        sp.last() == k,
        open == before.update(k as int, true),
        flood_ok(before, o0, flag, mines, sp),
        s1.len() >= sp.len() - 1,
        s1.subrange(0, sp.len() - 1) == sp.drop_last(),
        mine_count(mines, k as int) == 0 ==> forall|b: int| adjacent(k as int, b) ==> open[b] || s1.contains(b as usize),
    ensures
        flood_ok(open, o0, flag, mines, s1),
{
    assert forall|a: int, b: int|
        0 <= a < 81 && #[trigger] open[a] && !o0[a] && !mines[a] && mine_count(mines, a) == 0 && adjacent(a, b) implies #[trigger] open[b]
            || flag[b] || s1.contains(b as usize) by {
        if a != k {
            assert(before[a]);
            if !before[b] && !flag[b] && b != k {
                assert(sp.contains(b as usize));
                assert(b as usize != sp.last());
                lemma_contains_drop_last(sp, b as usize);
                lemma_prefix_contains(sp.drop_last(), s1, b as usize);
            }
        }
    }
}

/// What opening cell `i` (closed, not flagged) does, over the mines of `b`: it opens; a
/// mine ends the game; otherwise every newly opened cell is safe and not flagged, every
/// newly opened cell that no mine touches has its neighbours open or flagged, and the
/// game is won when every safe cell is open. Flags, cursor and start stay.
pub open spec fn revealed(a: Minesweeper, b: Minesweeper, i: int) -> bool {
    &&& b.spec_flags() == a.spec_flags()
    &&& b.spec_cursor() == a.spec_cursor()
    &&& b.spec_started() == a.spec_started()
    &&& b.spec_open()[i]
    &&& forall|k: int| 0 <= k < 81 && a.spec_open()[k] ==> #[trigger] b.spec_open()[k]
    &&& forall|k: int| 0 <= k < 81 && #[trigger] b.spec_open()[k] && !a.spec_open()[k] ==> !b.spec_flags()[k] && (k == i
        || !b.spec_mines()[k])
    &&& if b.spec_mines()[i] {
        b.spec_dead() && b.spec_won() == a.spec_won()
    } else {
        &&& b.spec_dead() == a.spec_dead()
        &&& b.spec_won() == all_clear(b.spec_open(), b.spec_mines())
        &&& forall|k: int, j: int|
            0 <= k < 81 && #[trigger] b.spec_open()[k] && !a.spec_open()[k] && mine_count(b.spec_mines(), k) == 0 && adjacent(k, j)
                ==> #[trigger] b.spec_open()[j] || b.spec_flags()[j]
    }
}

proof fn lemma_no_mine_near(mines: Seq<bool>, k: int, j: int)
    requires
        mine_count(mines, k) == 0,
        adjacent(k, j),
    ensures
        !mines[j],
{
    lemma_in_nbrs(k, j);
    let f = |x: usize| mines[x as int];
    if mines[j] {
        let s = nbrs(k);
        let idx = choose|idx: int| 0 <= idx < s.len() && s[idx] == j as usize;
        assert(f(s[idx]));
        s.lemma_filter_contains_rev(f, j as usize);
        lemma_filter_has(s, f, idx);
    }
}

proof fn lemma_filter_has(s: Seq<usize>, f: spec_fn(usize) -> bool, idx: int)
    requires
        0 <= idx < s.len(),
        f(s[idx]),
    ensures
        s.filter(f).len() > 0,
    decreases s.len(),
{
    reveal(Seq::filter);
    if idx < s.len() - 1 {
        lemma_filter_has(s.drop_last(), f, idx);
        s.drop_last().lemma_filter_push(s.last(), f);
        assert(s =~= s.drop_last().push(s.last()));
    } else {
        s.drop_last().lemma_filter_push(s.last(), f);
        assert(s =~= s.drop_last().push(s.last()));
    }
}

fn all_open_or_mined(open: &[bool; 81], mines: &[bool; 81]) -> (b: bool)
    ensures
        b == all_clear(open@, mines@),
{
    let mut k: usize = 0;
    while k < 81
        invariant
            k <= 81,
            forall|q: int| 0 <= q < k ==> #[trigger] open@[q] || mines@[q],
        decreases 81 - k,
    {
        if !open[k] && !mines[k] {
            return false;
        }
        k += 1;
    }
    true
}

proof fn lemma_contains_push(s: Seq<usize>, x: usize, y: usize)
    ensures
        s.push(x).contains(y) == (s.contains(y) || x == y),
{
    if x == y {
        assert(s.push(x)[s.len() as int] == y);
    }
    if s.contains(y) {
        let j = choose|j: int| 0 <= j < s.len() && s[j] == y;
        assert(s.push(x)[j] == y);
    }
    if s.push(x).contains(y) && x != y {
        let j = choose|j: int| 0 <= j < s.push(x).len() && s.push(x)[j] == y;
        assert(j < s.len());
        assert(s[j] == y);
    }
}

proof fn lemma_in_nbrs(i: int, j: int)
    requires
        adjacent(i, j),
    ensures
        nbrs(i).contains(j as usize),
{
    let all = Seq::new(81, |j: int| j as usize);
    let f = |x: usize| adjacent(i, x as int);
    assert(all[j] == j as usize);
    assert(all.contains(j as usize));
    all.lemma_filter_contains_rev(f, j as usize);
}

/// The eight cells around cell `i` (fewer at an edge), diagonals included: another cell
/// at most one row and at most one column away.
pub open spec fn around(i: int, j: int) -> bool {
    let (ri, ci, rj, cj) = (i / 9, i % 9, j / 9, j % 9);
    &&& 0 <= i < 81 && 0 <= j < 81 && j != i
    &&& ri - 1 <= rj <= ri + 1
    &&& ci - 1 <= cj <= ci + 1
}

/// How many of the first `n` cells around `i` hold a mine.
pub open spec fn mines_around(mines: Seq<bool>, i: int, n: int) -> nat
    decreases n,
{
    if n <= 0 {
        0
    } else {
        mines_around(mines, i, n - 1) + if mines[n - 1] && around(i, n - 1) { 1nat } else { 0nat }
    }
}

/// The cells among the first `n` that touch `i`, in order.
pub open spec fn adj_prefix(i: int, n: int) -> Seq<usize> {
    Seq::new(81, |k: int| k as usize).take(n).filter(|k: usize| adjacent(i, k as int))
}

proof fn lemma_nbrs_prefix(i: int, n: int)
    requires
        0 <= i < 81,
        0 <= n <= 81,
    ensures
        forall|j: int| 0 <= j < 81 ==> (#[trigger] adj_prefix(i, n).contains(j as usize) <==> (j < n && around(i, j))),
    decreases n,
{
    let all = Seq::new(81, |k: int| k as usize);
    let f = |k: usize| adjacent(i, k as int);
    if n == 0 {
        assert(all.take(0).filter(f) =~= Seq::<usize>::empty());
        assert(adj_prefix(i, 0) =~= Seq::<usize>::empty());
        assert forall|j: int| 0 <= j < 81 implies !(#[trigger] adj_prefix(i, 0).contains(j as usize)) by {
            assert(adj_prefix(i, 0).len() == 0);
        }
    } else {
        lemma_nbrs_prefix(i, n - 1);
        let s = all.take(n);
        assert(s.drop_last() =~= all.take(n - 1));
        s.drop_last().lemma_filter_push(s.last(), f);
        assert(s =~= s.drop_last().push(s.last()));
        assert(s.last() == (n - 1) as usize);
        assert(f((n - 1) as usize) == around(i, n - 1));
        assert(s.filter(f) == adj_prefix(i, n));
        assert forall|j: int| 0 <= j < 81 implies (#[trigger] adj_prefix(i, n).contains(j as usize) <==> (j < n && around(i, j))) by {
            let p = all.take(n - 1).filter(f);
            assert(p == adj_prefix(i, n - 1));
            assert(adj_prefix(i, n - 1).contains(j as usize) <==> (j < n - 1 && around(i, j)));
            if f((n - 1) as usize) {
                let q = p.push((n - 1) as usize);
                assert(s.filter(f) == q);
                if q.contains(j as usize) && j != n - 1 {
                    let k = choose|k: int| 0 <= k < q.len() && #[trigger] q[k] == j as usize;
                    assert(p[k] == j as usize);
                }
                if j < n - 1 && around(i, j) {
                    let k = choose|k: int| 0 <= k < p.len() && #[trigger] p[k] == j as usize;
                    assert(q[k] == j as usize);
                }
                if j == n - 1 {
                    assert(q[p.len() as int] == j as usize);
                }
            } else {
                assert(s.filter(f) == p);
            }
        }
    }
}

/// The cells around `i` are its neighbours: every cell at most one row and at most one
/// column away, diagonals included, and no other (a corner has three, an inner cell
/// eight).
pub proof fn lemma_neighbours_around(i: int, j: int)
    requires
        0 <= i < 81,
        0 <= j < 81,
    ensures
        nbrs(i).contains(j as usize) <==> around(i, j),
{
    lemma_nbrs_prefix(i, 81);
    assert(Seq::new(81, |k: int| k as usize).take(81) =~= Seq::new(81, |k: int| k as usize));
    assert(adj_prefix(i, 81) == nbrs(i));
    assert(adj_prefix(i, 81).contains(j as usize) <==> around(i, j));
}

proof fn lemma_count_prefix(mines: Seq<bool>, i: int, n: int)
    requires
        0 <= i < 81,
        0 <= n <= 81,
        mines.len() == 81,
    ensures
        Seq::new(81, |k: int| k as usize).take(n).filter(|k: usize| adjacent(i, k as int)).filter(|k: usize| mines[k as int]).len()
            == mines_around(mines, i, n),
    decreases n,
{
    let all = Seq::new(81, |k: int| k as usize);
    let f = |k: usize| adjacent(i, k as int);
    let g = |k: usize| mines[k as int];
    if n == 0 {
        assert(all.take(0).filter(f) =~= Seq::<usize>::empty());
        assert(Seq::<usize>::empty().filter(g) =~= Seq::<usize>::empty()) by {
            reveal(Seq::filter);
        }
    } else {
        lemma_count_prefix(mines, i, n - 1);
        let s = all.take(n);
        assert(s.drop_last() =~= all.take(n - 1));
        s.drop_last().lemma_filter_push(s.last(), f);
        assert(s =~= s.drop_last().push(s.last()));
        let p = all.take(n - 1).filter(f);
        let x = (n - 1) as usize;
        assert(s.last() == x);
        assert(f(x) == around(i, n - 1));
        if f(x) {
            assert(s.filter(f) == p.push(x));
            p.lemma_filter_push(x, g);
        } else {
            assert(s.filter(f) == p);
        }
    }
}

/// A cell's count is the mines in the cells around it, diagonals included.
pub proof fn lemma_count_is_mines_around(mines: Seq<bool>, i: int)
    requires
        0 <= i < 81,
        mines.len() == 81,
    ensures
        mine_count(mines, i) == mines_around(mines, i, 81),
{
    lemma_count_prefix(mines, i, 81);
    assert(Seq::new(81, |k: int| k as usize).take(81) =~= Seq::new(81, |k: int| k as usize));
}

/// The touching cells the placement keeps clear are the cells around: the eight
/// surrounding cells, diagonals included.
pub proof fn lemma_adjacent_is_around(i: int, j: int)
    ensures
        adjacent(i, j) <==> around(i, j),
{
}

} // verus!
