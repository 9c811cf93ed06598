//! Sudoku: a random full grid, cells removed while the solution stays unique, three
//! difficulties, pencil marks.

use vstd::prelude::*;
use crate::games::{GameStep, PauseChoice, Rng, rng_state, xorshift};
use crate::keys::{Key, KeyEvent, KeyKind};

verus! {

/// Cells `i` and `j` share a row, a column or a box.
pub open spec fn peer(i: int, j: int) -> bool {
    i / 9 == j / 9 || i % 9 == j % 9 || (i / 27 == j / 27 && (i % 9) / 3 == (j % 9) / 3)
}

/// Digit `v` may stand in cell `i`: no other cell of its row, column or box holds it.
pub open spec fn fits_cell(g: Seq<u8>, i: int, v: u8) -> bool {
    forall|j: int| 0 <= j < 81 && j != i && #[trigger] peer(i, j) ==> g[j] != v
}

/// The first empty cell at or after `k` (81 if none).
pub open spec fn first_empty(g: Seq<u8>, k: int) -> int
    decreases 81 - k,
{
    if k >= 81 || k < 0 {
        81
    } else if g[k] == 0 {
        k
    } else {
        first_empty(g, k + 1)
    }
}

/// Completions of the grid, filling its empty cells from `start` on in order, each with
/// a digit that fits at the time it is placed.
pub open spec fn solutions(g: Seq<u8>, start: int) -> nat
    decreases 82 - start, 10nat,
{
    let i = first_empty(g, start);
    if i >= 81 || start < 0 {
        1
    } else {
        digit_solutions(g, start, i, 1)
    }
}

/// Completions with the digits `d..=9` in cell `i`.
pub open spec fn digit_solutions(g: Seq<u8>, start: int, i: int, d: nat) -> nat
    decreases 82 - start, 10 - d,
{
    if d > 9 || i < start || i >= 81 || start < 0 {
        0
    } else {
        let here = if fits_cell(g, i, d as u8) { solutions(g.update(i, d as u8), i + 1) } else { 0 };
        here + digit_solutions(g, start, i, d + 1)
    }
}

/// Every cell filled, each digit fitting its cell.
pub open spec fn complete(g: Seq<u8>) -> bool {
    forall|i: int| 0 <= i < 81 ==> #[trigger] g[i] != 0 && fits_cell(g, i, g[i])
}

proof fn lemma_first_empty(g: Seq<u8>, k: int)
    requires
        0 <= k <= 81,
    ensures
        k <= first_empty(g, k) <= 81,
        first_empty(g, k) < 81 ==> g[first_empty(g, k)] == 0,
        forall|j: int| k <= j < first_empty(g, k) ==> #[trigger] g[j] != 0,
    decreases 81 - k,
{
    if k < 81 && g[k] != 0 {
        lemma_first_empty(g, k + 1);
    }
}

fn fits(g: &[u8; 81], i: usize, v: u8) -> (b: bool)
    requires
        i < 81,
    ensures
        b == fits_cell(g@, i as int, v),
{
    let mut j: usize = 0;
    while j < 81
        invariant
            j <= 81,
            i < 81,
            forall|q: int| 0 <= q < j && q != i && #[trigger] peer(i as int, q) ==> g@[q] != v,
        decreases 81 - j,
    {
        let same_row = j / 9 == i / 9;
        let same_col = j % 9 == i % 9;
        let same_box = j / 27 == i / 27 && (j % 9) / 3 == (i % 9) / 3;
        if j != i && (same_row || same_col || same_box) && g[j] == v {
            assert(peer(i as int, j as int));
            return false;
        }
        j += 1;
    }
    true
}

/// How many ways the empty cells from `start` on can be filled, capped at `cap`: the
/// count stops once it reaches the cap.
pub fn count_solutions(g: &mut [u8; 81], start: usize, cap: u32) -> (n: u32)
    requires
        start <= 81,
        cap >= 1,
    ensures
        n == (if solutions(old(g)@, start as int) < cap { solutions(old(g)@, start as int) } else { cap as nat }),
        final(g)@ == old(g)@,
    decreases 82 - start, 11nat,
{
    let mut i = start;
    while i < 81 && g[i] != 0
        invariant
            start <= i <= 81,
            g@ == old(g)@,
            first_empty(g@, i as int) == first_empty(g@, start as int),
        decreases 81 - i,
    {
        i += 1;
    }
    proof {
        lemma_first_empty(g@, start as int);
    }
    if i >= 81 {
        return 1;
    }
    let ghost g0 = g@;
    let mut n: u32 = 0;
    let mut d: u8 = 1;
    while d <= 9
        invariant
            1 <= d <= 10,
            start <= i < 81,
            g@ == g0,
            g0 == old(g)@,
            g0[i as int] == 0,
            i == first_empty(g0, start as int),
            cap >= 1,
            n < cap,
            n + (if digit_solutions(g0, start as int, i as int, d as nat) < cap - n {
                digit_solutions(g0, start as int, i as int, d as nat)
            } else {
                (cap - n) as nat
            }) == (if digit_solutions(g0, start as int, i as int, 1) < cap {
                digit_solutions(g0, start as int, i as int, 1)
            } else {
                cap as nat
            }),
        decreases 10 - d,
    {
        let ghost ds = digit_solutions(g0, start as int, i as int, d as nat);
        let ghost rest = digit_solutions(g0, start as int, i as int, (d + 1) as nat);
        if fits(g, i, d) {
            g[i] = d;
            let ghost sd = solutions(g@, i + 1);
            assert(ds == sd + rest);
            let got = count_solutions(g, i + 1, cap - n);
            g[i] = 0;
            assert(g@ =~= g0);
            n = n + got;
            if n >= cap {
                return n;
            }
        } else {
            assert(ds == rest);
        }
        d += 1;
    }
    n
}

/// A fill from cell `i` kept the cells before `i`, filled every cell from `i` on, and
/// every digit from `i` on differs from all its peers.
pub open spec fn filled_from(g0: Seq<u8>, g: Seq<u8>, i: int) -> bool {
    &&& g.len() == 81
    &&& forall|j: int| 0 <= j < i ==> #[trigger] g[j] == g0[j]
    &&& forall|j: int| i <= j < 81 ==> #[trigger] g[j] != 0 && g[j] <= 9
    &&& forall|j: int, k: int| i <= j < 81 && 0 <= k < 81 && k != j && peer(j, k) ==> #[trigger] g[k] != #[trigger] g[j]
}

/// The digits after the shuffle's swaps from position `k` down to 1, each with a draw
/// below `k + 1`, and the generator's state after them.
pub open spec fn shuffle(ds: Seq<u8>, r: u32, k: int) -> (Seq<u8>, u32)
    decreases k,
{
    if k < 1 {
        (ds, r)
    } else {
        let r2 = xorshift(rng_state(r));
        let j = (r2 % ((k + 1) as u32)) as int;
        shuffle(ds.update(k, ds[j]).update(j, ds[k]), r2, k - 1)
    }
}

/// The digits one to nine in order.
pub open spec fn one_to_nine() -> Seq<u8> {
    seq![1u8, 2, 3, 4, 5, 6, 7, 8, 9]
}

/// The backtracking fill from cell `i`: the digits of the cell in shuffled order, each
/// that fits tried with the rest filled after it. Whether it filled, the grid, and the
/// generator's state.
pub open spec fn fill_spec(g: Seq<u8>, i: int, r: u32) -> (bool, Seq<u8>, u32)
    decreases 81 - i, 10int,
{
    if i >= 81 || i < 0 {
        (true, g, r)
    } else {
        let (ds, r1) = shuffle(one_to_nine(), r, 8);
        try_digits(g, i, ds, 0, r1)
    }
}

/// The digits `ds[q..]` tried at cell `i` in turn.
pub open spec fn try_digits(g: Seq<u8>, i: int, ds: Seq<u8>, q: int, r: u32) -> (bool, Seq<u8>, u32)
    decreases 81 - i, 9 - q,
{
    if q >= 9 || q < 0 || i >= 81 || i < 0 {
        (false, g, r)
    } else if fits_cell(g, i, ds[q]) {
        let (ok, g2, r2) = fill_spec(g.update(i, ds[q]), i + 1, r);
        if ok {
            (true, g2, r2)
        } else {
            try_digits(g, i, ds, q + 1, r2)
        }
    } else {
        try_digits(g, i, ds, q + 1, r)
    }
}

fn shuffled_digits(rng: &mut Rng) -> (d: [u8; 9])
    ensures
        forall|q: int| 0 <= q < 9 ==> 1 <= #[trigger] d@[q] <= 9,
        forall|v: u8| 1 <= v <= 9 ==> #[trigger] d@.contains(v),
        (d@, final(rng).0) == shuffle(one_to_nine(), old(rng).0, 8),
{
    let mut digits: [u8; 9] = [1, 2, 3, 4, 5, 6, 7, 8, 9];
    let mut k: usize = 8;
    proof {
        assert forall|v: u8| 1 <= v <= 9 implies #[trigger] digits@.contains(v) by {
            assert(digits@[v - 1] == v);
        }
    }
    assert(digits@ =~= one_to_nine());
    while k >= 1
        invariant
            k <= 8,
            shuffle(digits@, rng.0, k as int) == shuffle(one_to_nine(), old(rng).0, 8),
            forall|q: int| 0 <= q < 9 ==> 1 <= #[trigger] digits@[q] <= 9,
            forall|v: u8| 1 <= v <= 9 ==> #[trigger] digits@.contains(v),
        decreases k,
    {
        let ghost r0 = rng.0;
        let j = rng.below(k as u32 + 1) as usize;
        let ghost before = digits@;
        let t = digits[k];
        digits[k] = digits[j];
        digits[j] = t;
        assert(digits@ =~= before.update(k as int, before[j as int]).update(j as int, before[k as int]));
        proof {
            assert forall|v: u8| 1 <= v <= 9 implies #[trigger] digits@.contains(v) by {
                assert(before.contains(v));
                let p = choose|p: int| 0 <= p < 9 && before[p] == v;
                if p == k as int {
                    assert(digits@[j as int] == v);
                } else if p == j as int {
                    assert(digits@[k as int] == v);
                } else {
                    assert(digits@[p] == v);
                }
            }
        }
        k -= 1;
    }
    digits
}

/// Fill the empty cells from `i` on with a random backtracking search. On success the
/// grid is full from `i` on and consistent; on failure it is as it was.
fn fill(g: &mut [u8; 81], i: usize, rng: &mut Rng) -> (ok: bool)
    requires
        i <= 81,
        forall|j: int| i <= j < 81 ==> #[trigger] old(g)@[j] == 0,
    ensures
        ok <==> solutions(old(g)@, i as int) > 0,
        ok ==> filled_from(old(g)@, final(g)@, i as int),
        !ok ==> final(g)@ == old(g)@,
        (ok, final(g)@, final(rng).0) == fill_spec(old(g)@, i as int, old(rng).0),
    decreases 81 - i,
{
    if i == 81 {
        return true;
    }
    proof {
        assert(first_empty(g@, i as int) == i);
    }
    let digits = shuffled_digits(rng);
    let ghost g0 = g@;
    let ghost target = fill_spec(old(g)@, i as int, old(rng).0);
    let mut q: usize = 0;
    while q < 9
        invariant
            q <= 9,
            i < 81,
            try_digits(g0, i as int, digits@, q as int, rng.0) == target,
            target == fill_spec(old(g)@, i as int, old(rng).0),
            g@ == g0,
            g0 == old(g)@,
            forall|j: int| i <= j < 81 ==> #[trigger] g0[j] == 0,
            forall|x: int| 0 <= x < 9 ==> 1 <= #[trigger] digits@[x] <= 9,
            forall|v: u8| 1 <= v <= 9 ==> #[trigger] digits@.contains(v),
            forall|x: int| 0 <= x < q ==> !fits_cell(g0, i as int, #[trigger] digits@[x]) || solutions(
                g0.update(i as int, digits@[x]),
                i + 1,
            ) == 0,
        decreases 9 - q,
    {
        let d = digits[q];
        if fits(g, i, d) {
            g[i] = d;
            let ghost g1 = g@;
            assert(g1 == g0.update(i as int, d));
            if fill(g, i + 1, rng) {
                proof {
                    lemma_digit_some(g0, i as int, i as int, 1, d as nat);
                }
                proof {
                    let gf = g@;
                    assert forall|j: int, k: int| i <= j < 81 && 0 <= k < 81 && k != j && peer(j, k) implies #[trigger] gf[k]
                        != #[trigger] gf[j] by {
                        if j == i {
                            if k < i {
                                assert(gf[k] == g0[k]);
                                assert(fits_cell(g0, i as int, d));
                            } else {
                                assert(peer(k, j));
                            }
                        }
                    }
                }
                return true;
            }
            g[i] = 0;
            assert(g@ =~= g0);
        }
        q += 1;
    }
    proof {
        assert forall|v: int| 1 <= v <= 9 implies #[trigger] dead_digit(g0, i as int, v) by {
            assert(digits@.contains(v as u8));
            let x = choose|x: int| 0 <= x < 9 && digits@[x] == v as u8;
        }
        lemma_digits_none(g0, i as int, i as int, 1);
    }
    false
}

/// Digit `v` does not fit cell `i`, or leaves no completion.
pub open spec fn dead_digit(g: Seq<u8>, i: int, v: int) -> bool {
    !fits_cell(g, i, v as u8) || solutions(g.update(i, v as u8), i + 1) == 0
}

/// Cell `i` has no digit from `d` on with a completion: no completion with those digits.
proof fn lemma_digits_none(g: Seq<u8>, s: int, i: int, d: nat)
    requires
        0 <= s <= i < 81,
        1 <= d <= 10,
        forall|v: int| d <= v <= 9 ==> #[trigger] dead_digit(g, i, v),
    ensures
        digit_solutions(g, s, i, d) == 0,
    decreases 10 - d,
{
    if d <= 9 {
        assert(dead_digit(g, i, d as int));
        lemma_digits_none(g, s, i, d + 1);
    }
}

/// A digit of cell `i` from `d` on that fits and has a completion gives a completion.
proof fn lemma_digit_some(g: Seq<u8>, s: int, i: int, d: nat, v: nat)
    requires
        0 <= s <= i < 81,
        1 <= d <= v <= 9,
        fits_cell(g, i, v as u8),
        solutions(g.update(i, v as u8), i + 1) > 0,
    ensures
        digit_solutions(g, s, i, d) > 0,
    decreases 10 - d,
{
    if d < v {
        lemma_digit_some(g, s, i, d + 1, v);
    }
}

/// The Sudoku game.
pub struct Sudoku {
    /// The clues.
    pub given: [u8; 81],
    grid: [u8; 81],
    marks: [u16; 81],
    cursor: usize,
    /// 0 easy, 1 medium, 2 hard.
    pub difficulty: u8,
    /// The random source.
    pub rng: Rng,
    started: bool,
    pick: Option<u8>,
    pencil: bool,
}

/// How many cells a difficulty removes.
/// The removal that deals a puzzle from the clues `given` and generator state `r`:
/// while fewer than `remove` cells are blank and fewer than 400 draws were made, draw a
/// cell; blank it if it holds a digit and the clues keep exactly one solution. The
/// clues dealt and the generator's state after the last draw.
pub open spec fn dealt(given: Seq<u8>, r: u32, removed: int, tries: int, remove: int) -> (Seq<u8>, u32)
    decreases 400 - tries,
{
    if removed >= remove || tries >= 400 {
        (given, r)
    } else {
        let r2 = xorshift(rng_state(r));
        let i = (r2 % 81) as int;
        if given[i] == 0 {
            dealt(given, r2, removed, tries + 1, remove)
        } else if solutions(given.update(i, 0), 0) == 1 {
            dealt(given.update(i, 0), r2, removed + 1, tries + 1, remove)
        } else {
            dealt(given, r2, removed, tries + 1, remove)
        }
    }
}

pub open spec fn to_remove(difficulty: u8) -> int {
    if difficulty == 0 {
        36
    } else if difficulty == 1 {
        46
    } else {
        54
    }
}

impl Sudoku {
    /// The clues.
    pub closed spec fn spec_given(self) -> Seq<u8> {
        self.given@
    }

    /// The player's grid.
    pub closed spec fn spec_grid(self) -> Seq<u8> {
        self.grid@
    }

    /// The pencil marks (bit `d` for digit `d`).
    pub closed spec fn spec_marks(self) -> Seq<u16> {
        self.marks@
    }

    /// The focused cell.
    pub closed spec fn spec_cursor(self) -> usize {
        self.cursor
    }

    /// The digit picker's digit, when it is open.
    pub closed spec fn spec_pick(self) -> Option<u8> {
        self.pick
    }

    /// The random source.
    pub closed spec fn spec_rng(self) -> Rng {
        self.rng
    }

    /// Whether the picker writes pencil marks.
    pub closed spec fn spec_pencil(self) -> bool {
        self.pencil
    }

    /// Whether a puzzle has been dealt.
    pub closed spec fn spec_started(self) -> bool {
        self.started
    }

    /// The difficulty.
    pub closed spec fn spec_difficulty(self) -> u8 {
        self.difficulty
    }

    /// The screen's own invariant: the cursor on the board, digits up to 9, a picked
    /// digit 1 to 9.
    pub closed spec fn inv(self) -> bool {
        &&& self.cursor < 81
        &&& (self.pick matches Some(p) ==> 1 <= p <= 9)
        &&& forall|i: int| 0 <= i < 81 ==> #[trigger] self.grid@[i] <= 9
    }

    /// New: medium, nothing dealt, the cursor in the centre.
    pub fn new() -> (s: Sudoku)
        ensures
            s.inv(),
            s.spec_given() == Seq::new(81, |i: int| 0u8),
            s.spec_grid() == Seq::new(81, |i: int| 0u8),
            s.spec_cursor() == 40,
            s.spec_difficulty() == 1,
            !s.spec_started(),
            s.spec_pick() is None,
            s.spec_marks() == Seq::new(81, |i: int| 0u16),
            !s.spec_pencil(),
            s.spec_rng() == Rng(0x9E37),
    {
        let s = Sudoku {
            given: [0; 81],
            grid: [0; 81],
            marks: [0; 81],
            cursor: 40,
            difficulty: 1,
            rng: Rng(0x9E37),
            started: false,
            pick: None,
            pencil: false,
        };
        assert(s.given@ =~= Seq::new(81, |i: int| 0u8));
        assert(s.grid@ =~= Seq::new(81, |i: int| 0u8));
        assert(s.marks@ =~= Seq::new(81, |i: int| 0u16));
        s
    }

    /// Deal a puzzle: fill a random full grid, then remove random cells (as many as the
    /// difficulty asks, within 400 draws), each only where the solution stays unique.
    /// The clues have exactly one solution, with no more blanks than the difficulty asks:
    /// the grid [`fill_spec`] fills from the generator, with what [`dealt`] removes from it
    /// with the generator as the fill left it.
    pub fn generate(&mut self)
        requires
            old(self).inv(),
        ensures
            final(self).inv(),
            ({
                let (filled, full, r) = fill_spec(Seq::new(81, |k: int| 0u8), 0, old(self).spec_rng().0);
                &&& filled && complete(full) && solutions(full, 0) == 1
                &&& dealt(full, r, 0, 0, to_remove(old(self).spec_difficulty())) == (final(self).spec_given(), final(self).spec_rng().0)
            }),
            solutions(final(self).spec_given(), 0) == 1,
            blanks(final(self).spec_given(), 81) <= to_remove(old(self).spec_difficulty()),
            final(self).spec_grid() == final(self).spec_given(),
            final(self).spec_marks() == Seq::new(81, |i: int| 0u16),
            final(self).spec_started(),
            final(self).spec_cursor() == old(self).spec_cursor(),
            final(self).spec_difficulty() == old(self).spec_difficulty(),
    {
        let mut g = [0u8; 81];
        let ghost zeros = g@;
        assert(zeros =~= Seq::new(81, |k: int| 0u8));
        proof {
            lemma_model_complete();
            assert forall|k: int| 0 <= k < 81 implies #[trigger] model_grid()[k] <= 9 by {}
            lemma_prefix_solvable(model_grid(), zeros, 0);
        }
        let ok = fill(&mut g, 0, &mut self.rng);
        proof {
            assert(ok);
            assert forall|i: int| 0 <= i < 81 implies #[trigger] g@[i] != 0 by {}
            lemma_complete_unique(g@);
            assert forall|i: int| 0 <= i < 81 implies #[trigger] g@[i] <= 9 by {}
            lemma_blanks_none(g@, 81);
        }
        let remove: u32 = if self.difficulty == 0 {
            36
        } else if self.difficulty == 1 {
            46
        } else {
            54
        };
        let mut given = g;
        let mut removed: u32 = 0;
        let mut tries: u32 = 0;
        let ghost full = g@;
        let ghost r0 = self.rng.0;
        while removed < remove && tries < 400
            invariant
                tries <= 400,
                complete(full),
                solutions(full, 0) == 1,
                dealt(given@, self.rng.0, removed as int, tries as int, remove as int) == dealt(full, r0, 0, 0, remove as int),
                removed <= remove,
                self.cursor == old(self).cursor,
                self.pick == old(self).pick,
                self.difficulty == old(self).difficulty,
                old(self).inv(),
                solutions(given@, 0) == 1,
                blanks(given@, 81) == removed,
                remove == to_remove(old(self).difficulty),
                forall|i: int| 0 <= i < 81 ==> #[trigger] given@[i] <= 9,
            decreases 400 - tries,
        {
            let ghost before = dealt(given@, self.rng.0, removed as int, tries as int, remove as int);
            tries += 1;
            let i = self.rng.below(81) as usize;
            if given[i] == 0 {
                assert(dealt(given@, self.rng.0, removed as int, tries as int, remove as int) == before);
                continue;
            }
            let ghost prev = given@;
            let v = given[i];
            given[i] = 0;
            let mut probe = given;
            if count_solutions(&mut probe, 0, 2) == 1 {
                proof {
                    lemma_blanks_clear(prev, i as int, 81);
                    assert(given@ == prev.update(i as int, 0));
                }
                removed += 1;
                assert(dealt(given@, self.rng.0, removed as int, tries as int, remove as int) == before);
            } else {
                given[i] = v;
                assert(given@ =~= prev);
                assert(dealt(given@, self.rng.0, removed as int, tries as int, remove as int) == before);
            }
        }
        assert(dealt(given@, self.rng.0, removed as int, tries as int, remove as int) == (given@, self.rng.0));
        self.given = given;
        self.grid = given;
        self.marks = [0; 81];
        assert(self.marks@ =~= Seq::new(81, |i: int| 0u16));
        self.started = true;
        assert(dealt(full, r0, 0, 0, to_remove(old(self).spec_difficulty())) == (self.spec_given(), self.spec_rng().0));
    }

    /// Every cell filled, each digit fitting its cell.
    pub fn solved(&self) -> (b: bool)
        ensures
            b == complete(self.spec_grid()),
    {
        let mut i: usize = 0;
        while i < 81
            invariant
                i <= 81,
                forall|j: int| 0 <= j < i ==> #[trigger] self.grid@[j] != 0 && fits_cell(self.grid@, j, self.grid@[j]),
            decreases 81 - i,
        {
            if self.grid[i] == 0 || !fits(&self.grid, i, self.grid[i]) {
                return false;
            }
            i += 1;
        }
        true
    }

    /// A key. With the digit picker open: the four direction keys move the digit around
    /// a 3 × 3 pad (wrapping), Back closes it, Confirm writes the digit (or toggles its
    /// pencil mark) into an empty clue cell and closes it. Otherwise: Back pauses,
    /// Confirm opens the picker (or, on a solved grid, asks for a new puzzle), a long
    /// Confirm opens it for pencil marks, a long Left or Right clears the cell, and the
    /// direction keys move the cursor, wrapping around the board.
    pub fn key(&mut self, ev: KeyEvent) -> (step: GameStep)
        requires
            old(self).inv(),
        ensures
            final(self).inv(),
            ev.kind == KeyKind::Release ==> step == GameStep::Ignore && *final(self) == *old(self),
            ev.kind != KeyKind::Release && old(self).spec_pick() is Some ==> step == GameStep::Redraw && pick_step(
                *old(self),
                *final(self),
                ev.key,
            ),
            ev.kind != KeyKind::Release && old(self).spec_pick() is None ==> board_step(*old(self), *final(self), ev, step),
    {
        if ev.kind == KeyKind::Release {
            return GameStep::Ignore;
        }
        if let Some(p) = self.pick {
            match ev.key {
                Key::Left => self.pick = Some(if p == 1 { 9 } else { p - 1 }),
                Key::Right => self.pick = Some(if p == 9 { 1 } else { p + 1 }),
                Key::Up => self.pick = Some(if p > 3 { p - 3 } else { p + 6 }),
                Key::Down => self.pick = Some(if p <= 6 { p + 3 } else { p - 6 }),
                Key::Back => self.pick = None,
                Key::Confirm => {
                    if self.given[self.cursor] == 0 {
                        if self.pencil {
                            self.marks[self.cursor] = self.marks[self.cursor] ^ (1u16 << p);
                        } else {
                            self.grid[self.cursor] = p;
                            self.marks[self.cursor] = 0;
                        }
                    }
                    self.pick = None;
                },
                Key::Power => {},
            }
            return GameStep::Redraw;
        }
        match (ev.key, ev.kind) {
            (Key::Back, KeyKind::Press) => GameStep::Pause,
            (Key::Confirm, KeyKind::Press) => {
                if self.solved() {
                    self.started = false;
                    return GameStep::Redraw;
                }
                if self.given[self.cursor] == 0 {
                    self.pencil = false;
                    let cur = self.grid[self.cursor];
                    self.pick = Some(if cur > 1 { cur } else { 1 });
                }
                GameStep::Redraw
            },
            (Key::Confirm, KeyKind::Long) => {
                if self.given[self.cursor] == 0 {
                    self.pencil = true;
                    self.pick = Some(5);
                }
                GameStep::Redraw
            },
            (Key::Left, KeyKind::Long) | (Key::Right, KeyKind::Long) => {
                if self.given[self.cursor] == 0 {
                    self.grid[self.cursor] = 0;
                    self.marks[self.cursor] = 0;
                }
                GameStep::Redraw
            },
            (Key::Left, _) => {
                self.cursor = if self.cursor % 9 == 0 { self.cursor + 8 } else { self.cursor - 1 };
                GameStep::Redraw
            },
            (Key::Right, _) => {
                self.cursor = if self.cursor % 9 == 8 { self.cursor - 8 } else { self.cursor + 1 };
                GameStep::Redraw
            },
            (Key::Up, _) => {
                self.cursor = (self.cursor + 72) % 81;
                GameStep::Redraw
            },
            (Key::Down, _) => {
                self.cursor = (self.cursor + 9) % 81;
                GameStep::Redraw
            },
            _ => GameStep::Ignore,
        }
    }

    /// The paused card's answer: a new game moves to the next difficulty and deals
    /// again; quit leaves; resume redraws.
    pub fn resume(&mut self, c: PauseChoice) -> (step: GameStep)
        requires
            old(self).inv(),
        ensures
            final(self).inv(),
            step == crate::games::after_pause(c),
            c == PauseChoice::NewGame ==> final(self).spec_difficulty() == (old(self).spec_difficulty() + 1) % 3
                && !final(self).spec_started(),
            c != PauseChoice::NewGame ==> *final(self) == *old(self),
    {
        match c {
            PauseChoice::NewGame => {
                self.difficulty = ((self.difficulty as u16 + 1) % 3) as u8;
                self.started = false;
                GameStep::Redraw
            },
            PauseChoice::Quit => GameStep::Quit,
            PauseChoice::Resume => GameStep::Redraw,
        }
    }

    /// Deal the first puzzle, seeded from the platform (a zero seed is made odd).
    pub fn start(&mut self, seed: u32)
        requires
            old(self).inv(),
        ensures
            final(self).inv(),
            final(self).spec_started(),
            solutions(final(self).spec_given(), 0) == 1 || final(self).spec_given() == Seq::new(81, |i: int| 0u8),
    {
        self.rng = Rng(seed | 1);
        self.generate();
    }
}

/// The digit picker after a key: the pad moves, Back closes it, Confirm writes into an
/// empty clue cell and closes it; the rest of the screen is unchanged.
pub open spec fn pick_step(a: Sudoku, b: Sudoku, key: Key) -> bool {
    let p = a.spec_pick()->0;
    let c = a.spec_cursor() as int;
    let writes = key == Key::Confirm && a.spec_given()[c] == 0;
    &&& b.spec_cursor() == a.spec_cursor()
    &&& b.spec_given() == a.spec_given()
    &&& b.spec_pencil() == a.spec_pencil()
    &&& b.spec_started() == a.spec_started()
    &&& b.spec_difficulty() == a.spec_difficulty()
    &&& b.spec_pick() == match key {
        Key::Left => Some(if p == 1 { 9u8 } else { (p - 1) as u8 }),
        Key::Right => Some(if p == 9 { 1u8 } else { (p + 1) as u8 }),
        Key::Up => Some(if p > 3 { (p - 3) as u8 } else { (p + 6) as u8 }),
        Key::Down => Some(if p <= 6 { (p + 3) as u8 } else { (p - 6) as u8 }),
        Key::Power => Some(p),
        _ => None,
    }
    &&& b.spec_grid() == (if writes && !a.spec_pencil() { a.spec_grid().update(c, p) } else { a.spec_grid() })
    &&& b.spec_marks() == (if writes && !a.spec_pencil() {
        a.spec_marks().update(c, 0)
    } else if writes {
        a.spec_marks().update(c, a.spec_marks()[c] ^ ((1u16 << p) as u16))
    } else {
        a.spec_marks()
    })
}

/// The board after a key with the picker closed.
pub open spec fn board_step(a: Sudoku, b: Sudoku, ev: KeyEvent, step: GameStep) -> bool {
    let c = a.spec_cursor() as int;
    let empty_cell = a.spec_given()[c] == 0;
    let same_board = b.spec_grid() == a.spec_grid() && b.spec_marks() == a.spec_marks() && b.spec_given()
        == a.spec_given() && b.spec_difficulty() == a.spec_difficulty();
    if ev.key == Key::Back && ev.kind == KeyKind::Press {
        step == GameStep::Pause && b == a
    } else if ev.key == Key::Confirm && ev.kind == KeyKind::Press {
        &&& step == GameStep::Redraw
        &&& same_board
        &&& b.spec_cursor() == a.spec_cursor()
        &&& if complete(a.spec_grid()) {
            !b.spec_started() && b.spec_pick() == a.spec_pick() && b.spec_pencil() == a.spec_pencil()
        } else if empty_cell {
            &&& b.spec_started() == a.spec_started()
            &&& !b.spec_pencil()
            &&& b.spec_pick() == Some(if a.spec_grid()[c] > 1 { a.spec_grid()[c] } else { 1u8 })
        } else {
            b == a
        }
    } else if ev.key == Key::Confirm && ev.kind == KeyKind::Long {
        &&& step == GameStep::Redraw
        &&& if empty_cell {
            same_board && b.spec_cursor() == a.spec_cursor() && b.spec_started() == a.spec_started() && b.spec_pencil()
                && b.spec_pick() == Some(5u8)
        } else {
            b == a
        }
    } else if (ev.key == Key::Left || ev.key == Key::Right) && ev.kind == KeyKind::Long {
        &&& step == GameStep::Redraw
        &&& b.spec_grid() == (if empty_cell { a.spec_grid().update(c, 0) } else { a.spec_grid() })
        &&& b.spec_marks() == (if empty_cell { a.spec_marks().update(c, 0) } else { a.spec_marks() })
        &&& b.spec_cursor() == a.spec_cursor()
        &&& b.spec_pick() == a.spec_pick()
    } else if ev.key == Key::Left || ev.key == Key::Right || ev.key == Key::Up || ev.key == Key::Down {
        &&& step == GameStep::Redraw
        &&& same_board
        &&& b.spec_pick() == a.spec_pick()
        &&& b.spec_cursor() == match ev.key {
            Key::Left => if c % 9 == 0 { (c + 8) as usize } else { (c - 1) as usize },
            Key::Right => if c % 9 == 8 { (c - 8) as usize } else { (c + 1) as usize },
            Key::Up => ((c + 72) % 81) as usize,
            _ => ((c + 9) % 81) as usize,
        }
    } else {
        step == GameStep::Ignore && b == a
    }
}

proof fn lemma_complete_unique(g: Seq<u8>)
    requires
        g.len() == 81,
        forall|i: int| 0 <= i < 81 ==> #[trigger] g[i] != 0,
    ensures
        solutions(g, 0) == 1,
{
    lemma_first_empty(g, 0);
}

/// A grid that agrees with a complete grid before cell `i` and is empty from `i` on can
/// be completed.
proof fn lemma_prefix_solvable(sol: Seq<u8>, g: Seq<u8>, i: int)
    requires
        sol.len() == 81,
        g.len() == 81,
        complete(sol),
        forall|k: int| 0 <= k < 81 ==> #[trigger] sol[k] <= 9,
        0 <= i <= 81,
        forall|k: int| 0 <= k < i ==> #[trigger] g[k] == sol[k],
        forall|k: int| i <= k < 81 ==> #[trigger] g[k] == 0,
    ensures
        solutions(g, i) > 0,
    decreases 81 - i,
{
    if i < 81 {
        assert(first_empty(g, i) == i);
        let v = sol[i];
        assert(v != 0 && fits_cell(sol, i, v));
        assert forall|j: int| 0 <= j < 81 && j != i && #[trigger] peer(i, j) implies g[j] != v by {
            if j < i {
                assert(sol[j] != v);
            }
        }
        let g1 = g.update(i, v);
        assert forall|k: int| 0 <= k < i + 1 implies #[trigger] g1[k] == sol[k] by {}
        lemma_prefix_solvable(sol, g1, i + 1);
        lemma_digit_some(g, i, i, 1, v as nat);
    } else {
        assert(first_empty(g, 81) == 81);
    }
}

/// How many of the first `n` cells are empty.
pub open spec fn blanks(g: Seq<u8>, n: int) -> nat
    decreases n,
{
    if n <= 0 {
        0
    } else {
        blanks(g, n - 1) + if g[n - 1] == 0 { 1nat } else { 0nat }
    }
}

proof fn lemma_blanks_none(g: Seq<u8>, n: int)
    requires
        0 <= n <= g.len(),
        forall|k: int| 0 <= k < n ==> #[trigger] g[k] != 0,
    ensures
        blanks(g, n) == 0,
    decreases n,
{
    if n > 0 {
        lemma_blanks_none(g, n - 1);
    }
}

proof fn lemma_blanks_clear(g: Seq<u8>, k: int, n: int)
    requires
        0 <= k < g.len(),
        0 <= n <= g.len(),
        g[k] != 0,
    ensures
        k < n ==> blanks(g.update(k, 0), n) == blanks(g, n) + 1,
        k >= n ==> blanks(g.update(k, 0), n) == blanks(g, n),
    decreases n,
{
    if n > 0 {
        lemma_blanks_clear(g, k, n - 1);
    }
}

/// A full grid that keeps the rules: row `r`, column `c` holds
/// `(3 (r mod 3) + r div 3 + c) mod 9 + 1`.
pub open spec fn model_grid() -> Seq<u8> {
    Seq::new(81, |k: int| ((3 * ((k / 9) % 3) + (k / 9) / 3 + k % 9) % 9 + 1) as u8)
}

#[verifier::rlimit(80)]
#[verifier::spinoff_prover]
proof fn lemma_model_cells(i: int, j: int)
    requires
        0 <= i < 81,
        0 <= j < 81,
        i != j,
        peer(i, j),
    ensures
        model_grid()[i] != model_grid()[j],
{
    let ri = i / 9;
    let ci = i % 9;
    let rj = j / 9;
    let cj = j % 9;
    assert(0 <= ri < 9 && 0 <= ci < 9 && 0 <= rj < 9 && 0 <= cj < 9);
    assert(i == 9 * ri + ci && j == 9 * rj + cj);
    let bi = 3 * (ri % 3) + ri / 3;
    let bj = 3 * (rj % 3) + rj / 3;
    assert(0 <= bi < 9 && 0 <= bj < 9);
    assert(model_grid()[i] == ((bi + ci) % 9 + 1) as u8);
    assert(model_grid()[j] == ((bj + cj) % 9 + 1) as u8);
    if ri == rj {
        assert(ci != cj);
        assert((bi + ci) % 9 != (bi + cj) % 9);
    } else if ci == cj {
        assert(bi != bj);
        assert((bi + ci) % 9 != (bj + ci) % 9);
    } else {
        assert(ri / 3 == rj / 3 && ci / 3 == cj / 3);
        let k = ri / 3 + 3 * (ci / 3);
        assert(bi + ci == 3 * (ri % 3) + ci % 3 + k);
        assert(bj + cj == 3 * (rj % 3) + cj % 3 + k);
        assert(3 * (ri % 3) + ci % 3 != 3 * (rj % 3) + cj % 3);
        assert((bi + ci) % 9 != (bj + cj) % 9);
    }
}

/// The model grid is complete.
proof fn lemma_model_complete()
    ensures
        complete(model_grid()),
{
    let m = model_grid();
    assert forall|i: int| 0 <= i < 81 implies #[trigger] m[i] != 0 && fits_cell(m, i, m[i]) by {
        assert forall|j: int| 0 <= j < 81 && j != i && #[trigger] peer(i, j) implies m[j] != m[i] by {
            lemma_model_cells(i, j);
        }
    }
}

/// The digit at row `r`, column `c`.
pub open spec fn digit_at(g: Seq<u8>, r: int, c: int) -> u8 {
    g[9 * r + c]
}

proof fn lemma_peers_differ(g: Seq<u8>, i: int, j: int)
    requires
        complete(g),
        0 <= i < 81,
        0 <= j < 81,
        i != j,
        peer(i, j),
    ensures
        g[i] != g[j],
{
    assert(g[i] != 0 && fits_cell(g, i, g[i]));
}

proof fn lemma_row_distinct(g: Seq<u8>, r: int, c1: int, c2: int)
    requires
        complete(g),
        0 <= r < 9 && 0 <= c1 < 9 && 0 <= c2 < 9 && c1 != c2,
    ensures
        digit_at(g, r, c1) != digit_at(g, r, c2),
{
    let i = 9 * r + c1;
    let j = 9 * r + c2;
    assert(i / 9 == r && j / 9 == r);
    lemma_peers_differ(g, i, j);
}

proof fn lemma_column_distinct(g: Seq<u8>, c: int, r1: int, r2: int)
    requires
        complete(g),
        0 <= c < 9 && 0 <= r1 < 9 && 0 <= r2 < 9 && r1 != r2,
    ensures
        digit_at(g, r1, c) != digit_at(g, r2, c),
{
    let i = 9 * r1 + c;
    let j = 9 * r2 + c;
    assert(i % 9 == c && j % 9 == c);
    lemma_peers_differ(g, i, j);
}

#[verifier::spinoff_prover]
proof fn lemma_box_distinct(g: Seq<u8>, br: int, bc: int, a1: int, b1: int, a2: int, b2: int)
    requires
        complete(g),
        0 <= br < 3 && 0 <= bc < 3 && 0 <= a1 < 3 && 0 <= b1 < 3 && 0 <= a2 < 3 && 0 <= b2 < 3 && (a1 != a2 || b1 != b2),
    ensures
        digit_at(g, 3 * br + a1, 3 * bc + b1) != digit_at(g, 3 * br + a2, 3 * bc + b2),
{
    let i = 9 * (3 * br + a1) + 3 * bc + b1;
    let j = 9 * (3 * br + a2) + 3 * bc + b2;
    assert(i == 27 * br + 9 * a1 + 3 * bc + b1);
    assert(j == 27 * br + 9 * a2 + 3 * bc + b2);
    assert(i / 27 == br && j / 27 == br);
    assert(i % 9 == 3 * bc + b1 && j % 9 == 3 * bc + b2);
    assert((i % 9) / 3 == bc && (j % 9) / 3 == bc);
    assert(peer(i, j));
    lemma_peers_differ(g, i, j);
}

/// A completed grid has every cell filled and no digit twice in a row, a column or a
/// 3 × 3 box.
pub proof fn lemma_complete_no_repeats(g: Seq<u8>)
    requires
        complete(g),
    ensures
        forall|r: int, c1: int, c2: int|
            0 <= r < 9 && 0 <= c1 < 9 && 0 <= c2 < 9 && c1 != c2 ==> #[trigger] digit_at(g, r, c1) != #[trigger] digit_at(g, r, c2),
        forall|c: int, r1: int, r2: int|
            0 <= c < 9 && 0 <= r1 < 9 && 0 <= r2 < 9 && r1 != r2 ==> #[trigger] digit_at(g, r1, c) != #[trigger] digit_at(g, r2, c),
        forall|br: int, bc: int, a1: int, b1: int, a2: int, b2: int|
            0 <= br < 3 && 0 <= bc < 3 && 0 <= a1 < 3 && 0 <= b1 < 3 && 0 <= a2 < 3 && 0 <= b2 < 3 && (a1 != a2 || b1 != b2)
                ==> #[trigger] digit_at(g, 3 * br + a1, 3 * bc + b1) != #[trigger] digit_at(g, 3 * br + a2, 3 * bc + b2),
        forall|k: int| 0 <= k < 81 ==> #[trigger] g[k] != 0,
{
    assert forall|r: int, c1: int, c2: int|
        0 <= r < 9 && 0 <= c1 < 9 && 0 <= c2 < 9 && c1 != c2 implies #[trigger] digit_at(g, r, c1) != #[trigger] digit_at(g, r, c2) by {
        lemma_row_distinct(g, r, c1, c2);
    }
    assert forall|c: int, r1: int, r2: int|
        0 <= c < 9 && 0 <= r1 < 9 && 0 <= r2 < 9 && r1 != r2 implies #[trigger] digit_at(g, r1, c) != #[trigger] digit_at(g, r2, c) by {
        lemma_column_distinct(g, c, r1, r2);
    }
    assert forall|br: int, bc: int, a1: int, b1: int, a2: int, b2: int|
        0 <= br < 3 && 0 <= bc < 3 && 0 <= a1 < 3 && 0 <= b1 < 3 && 0 <= a2 < 3 && 0 <= b2 < 3 && (a1 != a2 || b1 != b2)
            implies #[trigger] digit_at(g, 3 * br + a1, 3 * bc + b1) != #[trigger] digit_at(g, 3 * br + a2, 3 * bc + b2) by {
        lemma_box_distinct(g, br, bc, a1, b1, a2, b2);
    }
}

} // verus!
