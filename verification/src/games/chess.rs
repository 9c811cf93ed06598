//! Chess: an 8 × 8 board of piece codes, move generation, the move itself, a
//! material-and-centre evaluation and a small alpha-beta engine.

use vstd::prelude::*;
use crate::games::{rng_state, xorshift, GameStep, PauseChoice, Rng};
use crate::keys::{Key, KeyEvent, KeyKind};
use crate::textutil::{owned, push_char, push_str};

verus! {

/// Piece codes: 0 empty; 1–6 white pawn, knight, bishop, rook, queen, king; 7–12 black.
pub open spec fn piece_white(p: u8) -> bool {
    1 <= p <= 6
}

/// The kind of a piece code (1 pawn … 6 king), 0 for an empty square.
pub open spec fn piece_kind(p: u8) -> u8 {
    if p == 0 {
        0
    } else if p > 6 {
        (p - 6) as u8
    } else {
        p
    }
}

/// The piece belongs to the side `white`.
pub open spec fn owns(p: u8, white: bool) -> bool {
    p != 0 && piece_white(p) == white
}

fn is_white(p: u8) -> (b: bool)
    ensures
        b == piece_white(p),
{
    1 <= p && p <= 6
}

fn is_black(p: u8) -> (b: bool)
    ensures
        b == (p >= 7),
{
    p >= 7
}

fn kind(p: u8) -> (k: u8)
    ensures
        k == piece_kind(p),
{
    if p == 0 {
        0
    } else if p > 6 {
        p - 6
    } else {
        p
    }
}

fn own(p: u8, white: bool) -> (b: bool)
    ensures
        b == owns(p, white),
{
    p != 0 && is_white(p) == white
}

/// A move: from, to, promotion kind (0 none), and whether it castles or takes en passant.
#[derive(Clone, Copy, Debug, PartialEq, Eq, Structural)]
pub struct Mv {
    /// The square moved from (0 is a8, 63 is h1).
    pub from: u8,
    /// The square moved to.
    pub to: u8,
    /// The kind a pawn promotes to, 0 for none.
    pub promo: u8,
    /// The king castles.
    pub castle: bool,
    /// The pawn takes en passant.
    pub ep: bool,
}

impl Default for Mv {
    fn default() -> (m: Mv)
        ensures
            m == (Mv { from: 0, to: 0, promo: 0, castle: false, ep: false }),
    {
        Mv { from: 0, to: 0, promo: 0, castle: false, ep: false }
    }
}

/// A plain move from `from` to `to`.
pub open spec fn plain(from: int, to: int) -> Mv {
    Mv { from: from as u8, to: to as u8, promo: 0, castle: false, ep: false }
}

/// Game state.
#[derive(Clone, Copy, Debug)]
pub struct Position {
    /// The squares, a8 first, row by row.
    pub board: [u8; 64],
    /// White moves next.
    pub white_to_move: bool,
    /// Castling rights: white king side, white queen side, black king side, black queen side.
    pub castle: [bool; 4],
    /// The square a pawn may take en passant.
    pub ep: Option<u8>,
    /// Half-moves since the last pawn move or capture.
    pub halfmove: u16,
}

/// A position as values.
pub struct PosView {
    pub board: Seq<u8>,
    pub white_to_move: bool,
    pub castle: Seq<bool>,
    pub ep: Option<u8>,
    pub halfmove: u16,
}

impl View for Position {
    type V = PosView;

    open spec fn view(&self) -> PosView {
        PosView {
            board: self.board@,
            white_to_move: self.white_to_move,
            castle: self.castle@,
            ep: self.ep,
            halfmove: self.halfmove,
        }
    }
}

/// The starting squares.
pub open spec fn start_board() -> Seq<u8> {
    seq![
        10u8, 8, 9, 11, 12, 9, 8, 10,
        7, 7, 7, 7, 7, 7, 7, 7,
        0, 0, 0, 0, 0, 0, 0, 0,
        0, 0, 0, 0, 0, 0, 0, 0,
        0, 0, 0, 0, 0, 0, 0, 0,
        0, 0, 0, 0, 0, 0, 0, 0,
        1, 1, 1, 1, 1, 1, 1, 1,
        4, 2, 3, 5, 6, 3, 2, 4,
    ]
}

/// The square at row `r`, column `c`, or 255 off the board.
pub open spec fn at(b: Seq<u8>, r: int, c: int) -> u8 {
    if 0 <= r < 8 && 0 <= c < 8 {
        b[r * 8 + c]
    } else {
        255
    }
}

/// The eight knight jumps, in the order they are tried.
pub open spec fn knight_off(i: int) -> (int, int) {
    if i == 0 {
        (1, 2)
    } else if i == 1 {
        (2, 1)
    } else if i == 2 {
        (-1, 2)
    } else if i == 3 {
        (-2, 1)
    } else if i == 4 {
        (1, -2)
    } else if i == 5 {
        (2, -1)
    } else if i == 6 {
        (-1, -2)
    } else {
        (-2, -1)
    }
}

/// The eight king steps, row by row.
pub open spec fn king_off(i: int) -> (int, int) {
    if i < 3 {
        (-1, i - 1)
    } else if i == 3 {
        (0, -1)
    } else if i == 4 {
        (0, 1)
    } else {
        (1, i - 6)
    }
}

/// The eight queen directions: the diagonals first (a bishop's), then the lines (a rook's).
pub open spec fn queen_dir(i: int) -> (int, int) {
    if i == 0 {
        (1, 1)
    } else if i == 1 {
        (1, -1)
    } else if i == 2 {
        (-1, 1)
    } else if i == 3 {
        (-1, -1)
    } else if i == 4 {
        (1, 0)
    } else if i == 5 {
        (-1, 0)
    } else if i == 6 {
        (0, 1)
    } else {
        (0, -1)
    }
}

/// The eight directions a slider attacks along: the lines first, then the diagonals.
pub open spec fn attack_dir(i: int) -> (int, int) {
    if i < 4 {
        queen_dir(i + 4)
    } else {
        queen_dir(i - 4)
    }
}

fn knight_step(i: usize) -> (o: (i32, i32))
    requires
        i < 8,
    ensures
        o.0 == knight_off(i as int).0,
        o.1 == knight_off(i as int).1,
{
    match i {
        0 => (1, 2),
        1 => (2, 1),
        2 => (-1, 2),
        3 => (-2, 1),
        4 => (1, -2),
        5 => (2, -1),
        6 => (-1, -2),
        _ => (-2, -1),
    }
}

fn king_step(i: usize) -> (o: (i32, i32))
    requires
        i < 8,
    ensures
        o.0 == king_off(i as int).0,
        o.1 == king_off(i as int).1,
{
    match i {
        0 => (-1, -1),
        1 => (-1, 0),
        2 => (-1, 1),
        3 => (0, -1),
        4 => (0, 1),
        5 => (1, -1),
        6 => (1, 0),
        _ => (1, 1),
    }
}

fn queen_step(i: usize) -> (o: (i32, i32))
    requires
        i < 8,
    ensures
        o.0 == queen_dir(i as int).0,
        o.1 == queen_dir(i as int).1,
{
    match i {
        0 => (1, 1),
        1 => (1, -1),
        2 => (-1, 1),
        3 => (-1, -1),
        4 => (1, 0),
        5 => (-1, 0),
        6 => (0, 1),
        _ => (0, -1),
    }
}

/// The first square along a ray that is not empty (255 off the board); `fuel` more
/// steps are looked at after the first, enough to leave the board.
pub open spec fn ray_hit(b: Seq<u8>, r: int, c: int, dr: int, dc: int, fuel: nat) -> u8
    decreases fuel,
{
    let p = at(b, r + dr, c + dc);
    if p != 0 {
        p
    } else if fuel == 0 {
        255
    } else {
        ray_hit(b, r + dr, c + dc, dr, dc, (fuel - 1) as nat)
    }
}

/// `p` is a piece of the side `by_white` of kind `k`.
pub open spec fn hits(p: u8, by_white: bool, k: u8) -> bool {
    p != 255 && owns(p, by_white) && piece_kind(p) == k
}

/// The knight jump `i` from (r, c) lands on a knight of `by_white`.
pub open spec fn knight_hit(b: Seq<u8>, r: int, c: int, by_white: bool, i: int) -> bool {
    hits(at(b, r + knight_off(i).0, c + knight_off(i).1), by_white, 2)
}

/// The king step `i` from (r, c) lands on a king of `by_white`.
pub open spec fn king_hit(b: Seq<u8>, r: int, c: int, by_white: bool, i: int) -> bool {
    hits(at(b, r + king_off(i).0, c + king_off(i).1), by_white, 6)
}

/// The first piece along attack direction `i` is a queen of `by_white`, or a rook on a
/// line, or a bishop on a diagonal.
pub open spec fn slider_hit(b: Seq<u8>, r: int, c: int, by_white: bool, i: int) -> bool {
    let p = ray_hit(b, r, c, attack_dir(i).0, attack_dir(i).1, 8);
    let k = piece_kind(p);
    &&& p != 255
    &&& owns(p, by_white)
    &&& (k == 5 || (i >= 4 && k == 3) || (i < 4 && k == 4))
}

/// Square `sq` is attacked by the side `by_white`: by a pawn, a knight, the king, or a
/// slider with a free path.
pub open spec fn attacked_on(b: Seq<u8>, sq: int, by_white: bool) -> bool {
    let r = sq / 8;
    let c = sq % 8;
    let dr: int = if by_white { 1 } else { -1 };
    ||| hits(at(b, r + dr, c - 1), by_white, 1)
    ||| hits(at(b, r + dr, c + 1), by_white, 1)
    ||| exists|i: int| 0 <= i < 8 && #[trigger] knight_hit(b, r, c, by_white, i)
    ||| exists|i: int| 0 <= i < 8 && #[trigger] king_hit(b, r, c, by_white, i)
    ||| exists|i: int| 0 <= i < 8 && #[trigger] slider_hit(b, r, c, by_white, i)
}

/// The first square from `i` on that holds `v`.
pub open spec fn find_from(b: Seq<u8>, v: u8, i: int) -> Option<usize>
    decreases 64 - i,
{
    if i >= 64 || i < 0 {
        None
    } else if b[i] == v {
        Some(i as usize)
    } else {
        find_from(b, v, i + 1)
    }
}

/// The square of the king of `white`, the first one if there are several.
pub open spec fn king_square(b: Seq<u8>, white: bool) -> Option<usize> {
    find_from(b, if white { 6u8 } else { 12u8 }, 0)
}

/// The king of `white` stands attacked (no king: not in check).
pub open spec fn checked(v: PosView, white: bool) -> bool {
    match king_square(v.board, white) {
        Some(k) => attacked_on(v.board, k as int, !white),
        None => false,
    }
}

/// The piece that lands: the promotion in the mover's colour, or the piece itself.
pub open spec fn landed(p: u8, promo: u8) -> u8 {
    if promo != 0 {
        if piece_white(p) {
            promo
        } else {
            (promo + 6) as u8
        }
    } else {
        p
    }
}

/// The squares after the piece of move `m` lands (as its promotion, if any), its square
/// empties, and a pawn taken en passant leaves.
pub open spec fn lifted(b: Seq<u8>, m: Mv) -> Seq<u8> {
    let from = m.from as int;
    let to = m.to as int;
    let p = b[from];
    let b1 = b.update(to, landed(p, m.promo)).update(from, 0);
    if m.ep {
        b1.update(if piece_white(p) { to + 8 } else { to - 8 }, 0)
    } else {
        b1
    }
}

/// The squares after a castling rook jumps over its king (nothing when `m` does not
/// castle).
pub open spec fn castled(b: Seq<u8>, m: Mv) -> Seq<u8> {
    let row = m.from as int / 8;
    if m.castle {
        if m.to as int % 8 == 6 {
            b.update(row * 8 + 5, b[row * 8 + 7]).update(row * 8 + 7, 0)
        } else {
            b.update(row * 8 + 3, b[row * 8]).update(row * 8, 0)
        }
    } else {
        b
    }
}

/// The squares after move `m`.
pub open spec fn moved_board(v: PosView, m: Mv) -> Seq<u8> {
    castled(lifted(v.board, m), m)
}

/// A rook's corner gives up its castling right: h1, a1, h8, a8.
pub open spec fn corner_rights(c: Seq<bool>, sq: int) -> Seq<bool> {
    if sq == 63 {
        c.update(0, false)
    } else if sq == 56 {
        c.update(1, false)
    } else if sq == 7 {
        c.update(2, false)
    } else if sq == 0 {
        c.update(3, false)
    } else {
        c
    }
}

/// The castling rights after a move from `from` to `to`: a king leaving e1 or e8 gives
/// up both of its side's, and a move from or onto a rook's corner gives up that one.
pub open spec fn rights_after(c: Seq<bool>, from: int, to: int) -> Seq<bool> {
    let c1 = if from == 60 {
        c.update(0, false).update(1, false)
    } else if from == 4 {
        c.update(2, false).update(3, false)
    } else {
        corner_rights(c, from)
    };
    corner_rights(c1, to)
}

/// The position after move `m`.
pub open spec fn applied(v: PosView, m: Mv) -> PosView {
    let from = m.from as int;
    let to = m.to as int;
    let p = v.board[from];
    let pawn = piece_kind(p) == 1;
    let capture = v.board[to] != 0 || m.ep;
    PosView {
        board: moved_board(v, m),
        white_to_move: !v.white_to_move,
        castle: rights_after(v.castle, from, to),
        ep: if pawn && (from - to == 16 || to - from == 16) {
            Some(((from + to) / 2) as u8)
        } else {
            None
        },
        halfmove: if pawn || capture {
            0
        } else {
            (v.halfmove + 1) as u16
        },
    }
}

/// A move that `apply` can make: squares on the board, a promotion to a piece kind, and
/// an en passant capture whose taken pawn stands on the board.
pub open spec fn mv_ok(v: PosView, m: Mv) -> bool {
    &&& m.from < 64
    &&& m.to < 64
    &&& m.promo <= 6
    &&& m.ep ==> if piece_white(v.board[m.from as int]) {
        m.to < 56
    } else {
        m.to >= 8
    }
}

/// Every square holds a piece code (0 to 12).
pub open spec fn board_ok(b: Seq<u8>) -> bool {
    &&& b.len() == 64
    &&& forall|i: int| 0 <= i < 64 ==> #[trigger] b[i] <= 12
}

/// Material value of a piece kind.
pub open spec fn material(k: int) -> int {
    if k == 1 {
        100
    } else if k == 2 {
        320
    } else if k == 3 {
        330
    } else if k == 4 {
        500
    } else if k == 5 {
        900
    } else {
        0
    }
}

/// Distance of a row or column index from the two centre lines, summed.
pub open spec fn centre_gap(x: int) -> int {
    (if x >= 3 { x - 3 } else { 3 - x }) + (if x >= 4 { x - 4 } else { 4 - x })
}

/// What piece `p` on square `i` adds to the evaluation, from white's side: material,
/// twice the nearness to the centre, and six per row a pawn has advanced; negative for
/// black.
pub open spec fn piece_value(p: u8, i: int) -> int {
    if p == 0 {
        0
    } else {
        let k = piece_kind(p) as int;
        let r = i / 8;
        let c = i % 8;
        let centre = -(centre_gap(r) + centre_gap(c)) + 7;
        let base = material(k) + centre * 2;
        let v = if k == 1 {
            base + if piece_white(p) { (6 - r) * 6 } else { (r - 1) * 6 }
        } else {
            base
        };
        if piece_white(p) {
            v
        } else {
            -v
        }
    }
}

/// What square `i` adds to the evaluation.
pub open spec fn square_value(b: Seq<u8>, i: int) -> int {
    piece_value(b[i], i)
}

/// The evaluation of the first `n` squares.
pub open spec fn eval_upto(b: Seq<u8>, n: int) -> int
    decreases n,
{
    if n <= 0 {
        0
    } else {
        eval_upto(b, n - 1) + square_value(b, n - 1)
    }
}

/// On the board.
pub open spec fn on_board(r: int, c: int) -> bool {
    0 <= r < 8 && 0 <= c < 8
}

/// A knight's or king's step to (r, c): onto an empty square or an enemy piece.
pub open spec fn step_moves(v: PosView, from: int, r: int, c: int) -> Seq<Mv> {
    if !on_board(r, c) || owns(v.board[r * 8 + c], v.white_to_move) {
        seq![]
    } else {
        seq![plain(from, r * 8 + c)]
    }
}

/// A slider's moves from (r, c) on along (dr, dc): each empty square, and the first
/// enemy piece; `fuel` more squares after the first, enough to leave the board.
pub open spec fn ray_moves(v: PosView, from: int, r: int, c: int, dr: int, dc: int, fuel: nat) -> Seq<Mv>
    decreases fuel,
{
    if !on_board(r, c) || owns(v.board[r * 8 + c], v.white_to_move) {
        seq![]
    } else {
        seq![plain(from, r * 8 + c)] + if v.board[r * 8 + c] == 0 && fuel > 0 {
            ray_moves(v, from, r + dr, c + dc, dr, dc, (fuel - 1) as nat)
        } else {
            seq![]
        }
    }
}

/// The first `n` knight jumps (or king steps) from (r, c).
pub open spec fn jumps(v: PosView, from: int, r: int, c: int, knight: bool, n: int) -> Seq<Mv>
    decreases n,
{
    if n <= 0 {
        seq![]
    } else {
        let o = if knight { knight_off(n - 1) } else { king_off(n - 1) };
        jumps(v, from, r, c, knight, n - 1) + step_moves(v, from, r + o.0, c + o.1)
    }
}

/// The slider moves along queen directions `lo` to `hi - 1`.
pub open spec fn rays(v: PosView, from: int, r: int, c: int, lo: int, hi: int) -> Seq<Mv>
    decreases hi - lo,
{
    if hi <= lo {
        seq![]
    } else {
        let d = queen_dir(hi - 1);
        rays(v, from, r, c, lo, hi - 1) + ray_moves(v, from, r + d.0, c + d.1, d.0, d.1, 8)
    }
}

/// A promotion to kind `k`.
pub open spec fn promo_mv(from: int, to: int, k: u8) -> Mv {
    Mv { from: from as u8, to: to as u8, promo: k, castle: false, ep: false }
}

/// The four promotions, queen first, then knight, rook, bishop.
pub open spec fn promotions(from: int, to: int) -> Seq<Mv> {
    seq![promo_mv(from, to, 5), promo_mv(from, to, 2), promo_mv(from, to, 4), promo_mv(from, to, 3)]
}

/// The row a pawn of `white` moves towards: up for white.
pub open spec fn pawn_dir(white: bool) -> int {
    if white {
        -1
    } else {
        1
    }
}

/// A pawn's moves forward: one square onto an empty one (promoting on the last row),
/// and two from its starting row when both are empty.
pub open spec fn pawn_pushes(v: PosView, from: int, r: int, c: int) -> Seq<Mv> {
    let white = v.white_to_move;
    let dir = pawn_dir(white);
    let one = r + dir;
    let last: int = if white { 0 } else { 7 };
    let start: int = if white { 6 } else { 1 };
    if 0 <= one < 8 && v.board[one * 8 + c] == 0 {
        if one == last {
            promotions(from, one * 8 + c)
        } else {
            seq![plain(from, one * 8 + c)] + if r == start && v.board[(r + 2 * dir) * 8 + c] == 0 {
                seq![plain(from, (r + 2 * dir) * 8 + c)]
            } else {
                seq![]
            }
        }
    } else {
        seq![]
    }
}

/// A pawn's capture towards column `c + dc`: an enemy piece (promoting on the last row),
/// or the empty en passant square.
pub open spec fn pawn_takes(v: PosView, from: int, r: int, c: int, dc: int) -> Seq<Mv> {
    let white = v.white_to_move;
    let rr = r + pawn_dir(white);
    let cc = c + dc;
    let last: int = if white { 0 } else { 7 };
    if !on_board(rr, cc) {
        seq![]
    } else {
        let to = rr * 8 + cc;
        let t = v.board[to];
        if t != 0 && !owns(t, white) {
            if rr == last {
                promotions(from, to)
            } else {
                seq![plain(from, to)]
            }
        } else if t == 0 && v.ep == Some(to as u8) {
            seq![Mv { from: from as u8, to: to as u8, promo: 0, castle: false, ep: true }]
        } else {
            seq![]
        }
    }
}

/// All of a pawn's moves: forward, then the capture to the left, then to the right.
pub open spec fn pawn_moves(v: PosView, from: int, r: int, c: int) -> Seq<Mv> {
    pawn_pushes(v, from, r, c) + pawn_takes(v, from, r, c, -1) + pawn_takes(v, from, r, c, 1)
}

/// Castling from e1 (e8): not out of check, with the right kept, the squares between
/// empty, the rook in its corner and the square the king crosses not attacked; king
/// side first.
pub open spec fn castles(v: PosView, from: int, r: int, c: int) -> Seq<Mv> {
    let white = v.white_to_move;
    let row: int = if white { 7 } else { 0 };
    let ks = if white { v.castle[0] } else { v.castle[2] };
    let qs = if white { v.castle[1] } else { v.castle[3] };
    let b = v.board;
    if r == row && c == 4 && !checked(v, white) {
        (if ks && b[row * 8 + 5] == 0 && b[row * 8 + 6] == 0 && piece_kind(b[row * 8 + 7]) == 4 && !attacked_on(
            b,
            row * 8 + 5,
            !white,
        ) {
            seq![Mv { from: from as u8, to: (row * 8 + 6) as u8, promo: 0, castle: true, ep: false }]
        } else {
            seq![]
        }) + (if qs && b[row * 8 + 3] == 0 && b[row * 8 + 2] == 0 && b[row * 8 + 1] == 0 && piece_kind(b[row * 8]) == 4
            && !attacked_on(b, row * 8 + 3, !white) {
            seq![Mv { from: from as u8, to: (row * 8 + 2) as u8, promo: 0, castle: true, ep: false }]
        } else {
            seq![]
        })
    } else {
        seq![]
    }
}

/// The moves of the piece on `from`, if it belongs to the side to move, ignoring
/// whether they leave the own king in check.
pub open spec fn piece_moves(v: PosView, from: int) -> Seq<Mv> {
    let p = v.board[from];
    let r = from / 8;
    let c = from % 8;
    if !owns(p, v.white_to_move) {
        seq![]
    } else {
        let k = piece_kind(p);
        if k == 1 {
            pawn_moves(v, from, r, c)
        } else if k == 2 {
            jumps(v, from, r, c, true, 8)
        } else if k == 6 {
            jumps(v, from, r, c, false, 8) + castles(v, from, r, c)
        } else if k == 3 {
            rays(v, from, r, c, 0, 4)
        } else if k == 4 {
            rays(v, from, r, c, 4, 8)
        } else {
            rays(v, from, r, c, 0, 8)
        }
    }
}

/// The moves of the pieces on the first `n` squares.
pub open spec fn pseudo_upto(v: PosView, n: int) -> Seq<Mv>
    decreases n,
{
    if n <= 0 {
        seq![]
    } else {
        pseudo_upto(v, n - 1) + piece_moves(v, n - 1)
    }
}

/// The side to move's moves, square by square from a8, ignoring check.
pub open spec fn pseudo(v: PosView) -> Seq<Mv> {
    pseudo_upto(v, 64)
}

/// Every move of `s` is one `apply` can make.
pub open spec fn all_ok(v: PosView, s: Seq<Mv>) -> bool {
    forall|i: int| 0 <= i < s.len() ==> #[trigger] mv_ok(v, s[i])
}

impl Position {
    /// The starting position: white to move, every castling right, no en passant.
    pub fn start() -> (p: Position)
        ensures
            p@.board == start_board(),
            p.white_to_move,
            p@.castle == seq![true, true, true, true],
            p.ep is None,
            p.halfmove == 0,
    {
        let board: [u8; 64] = [
            10, 8, 9, 11, 12, 9, 8, 10,
            7, 7, 7, 7, 7, 7, 7, 7,
            0, 0, 0, 0, 0, 0, 0, 0,
            0, 0, 0, 0, 0, 0, 0, 0,
            0, 0, 0, 0, 0, 0, 0, 0,
            0, 0, 0, 0, 0, 0, 0, 0,
            1, 1, 1, 1, 1, 1, 1, 1,
            4, 2, 3, 5, 6, 3, 2, 4,
        ];
        let p = Position { board, white_to_move: true, castle: [true; 4], ep: None, halfmove: 0 };
        assert(p@.board =~= start_board());
        assert(p@.castle =~= seq![true, true, true, true]);
        p
    }

    fn at(&self, r: i32, c: i32) -> (p: u8)
        ensures
            p == at(self.board@, r as int, c as int),
    {
        if 0 <= r && r < 8 && 0 <= c && c < 8 {
            self.board[(r * 8 + c) as usize]
        } else {
            255
        }
    }

    fn ray_hit(&self, r: i32, c: i32, dr: i32, dc: i32, fuel: u8) -> (p: u8)
        requires
            0 <= r < 8,
            0 <= c < 8,
            -1 <= dr <= 1,
            -1 <= dc <= 1,
        ensures
            p == ray_hit(self.board@, r as int, c as int, dr as int, dc as int, fuel as nat),
        decreases fuel,
    {
        let p = self.at(r + dr, c + dc);
        if p != 0 {
            p
        } else if fuel == 0 {
            255
        } else {
            self.ray_hit(r + dr, c + dc, dr, dc, fuel - 1)
        }
    }

    /// Square `sq` is attacked by the side `by_white`.
    pub fn attacked(&self, sq: usize, by_white: bool) -> (b: bool)
        requires
            sq < 64,
        ensures
            b == attacked_on(self.board@, sq as int, by_white),
    {
        let r = (sq / 8) as i32;
        let c = (sq % 8) as i32;
        let ghost bd = self.board@;
        let dr: i32 = if by_white { 1 } else { -1 };
        let p = self.at(r + dr, c - 1);
        if p != 255 && own(p, by_white) && kind(p) == 1 {
            return true;
        }
        let p = self.at(r + dr, c + 1);
        if p != 255 && own(p, by_white) && kind(p) == 1 {
            return true;
        }
        let mut i: usize = 0;
        while i < 8
            invariant
                i <= 8,
                0 <= r < 8,
                0 <= c < 8,
                r == sq / 8,
                c == sq % 8,
                bd == self.board@,
                forall|j: int| 0 <= j < i ==> !#[trigger] knight_hit(bd, r as int, c as int, by_white, j),
            decreases 8 - i,
        {
            let (a, b) = knight_step(i);
            let p = self.at(r + a, c + b);
            if p != 255 && own(p, by_white) && kind(p) == 2 {
                assert(knight_hit(bd, r as int, c as int, by_white, i as int));
                return true;
            }
            i += 1;
        }
        let mut i: usize = 0;
        while i < 8
            invariant
                i <= 8,
                0 <= r < 8,
                0 <= c < 8,
                r == sq / 8,
                c == sq % 8,
                bd == self.board@,
                forall|j: int| 0 <= j < 8 ==> !#[trigger] knight_hit(bd, r as int, c as int, by_white, j),
                forall|j: int| 0 <= j < i ==> !#[trigger] king_hit(bd, r as int, c as int, by_white, j),
            decreases 8 - i,
        {
            let (a, b) = king_step(i);
            let p = self.at(r + a, c + b);
            if p != 255 && own(p, by_white) && kind(p) == 6 {
                assert(king_hit(bd, r as int, c as int, by_white, i as int));
                return true;
            }
            i += 1;
        }
        let mut i: usize = 0;
        while i < 8
            invariant
                i <= 8,
                0 <= r < 8,
                0 <= c < 8,
                r == sq / 8,
                c == sq % 8,
                bd == self.board@,
                forall|j: int| 0 <= j < 8 ==> !#[trigger] knight_hit(bd, r as int, c as int, by_white, j),
                forall|j: int| 0 <= j < 8 ==> !#[trigger] king_hit(bd, r as int, c as int, by_white, j),
                forall|j: int| 0 <= j < i ==> !#[trigger] slider_hit(bd, r as int, c as int, by_white, j),
            decreases 8 - i,
        {
            let (a, b) = if i < 4 { queen_step(i + 4) } else { queen_step(i - 4) };
            let p = self.ray_hit(r, c, a, b, 8);
            let diag = i >= 4;
            if p != 255 && own(p, by_white) {
                let k = kind(p);
                if k == 5 || (diag && k == 3) || (!diag && k == 4) {
                    assert(slider_hit(bd, r as int, c as int, by_white, i as int));
                    return true;
                }
            }
            i += 1;
        }
        false
    }

    /// Make move `m`.
    pub fn apply(&mut self, m: Mv)
        requires
            mv_ok(old(self)@, m),
            old(self).halfmove < 65535,
        ensures
            final(self)@ == applied(old(self)@, m),
    {
        let ghost v = self@;
        let from = m.from as usize;
        let to = m.to as usize;
        let p = self.board[from];
        let capture = self.board[to] != 0 || m.ep;
        lift(&mut self.board, m);
        castle_rook(&mut self.board, m);
        update_rights(&mut self.castle, from, to);
        self.ep = None;
        if kind(p) == 1 && (from + 16 == to || to + 16 == from) {
            self.ep = Some(((from + to) / 2) as u8);
        }
        self.halfmove = if kind(p) == 1 || capture { 0 } else { self.halfmove + 1 };
        self.white_to_move = !self.white_to_move;
    }

    /// Material plus a little position, from white's side.
    pub fn eval(&self) -> (s: i32)
        requires
            board_ok(self.board@),
        ensures
            s == eval_upto(self.board@, 64),
            -61000 <= s <= 61000,
    {
        let mut s: i32 = 0;
        let mut i: usize = 0;
        while i < 64
            invariant
                i <= 64,
                board_ok(self.board@),
                s == eval_upto(self.board@, i as int),
                -950 * i <= s <= 950 * i,
            decreases 64 - i,
        {
            let v = value_of(self.board[i], i);
            s = s + v;
            i += 1;
        }
        s
    }

    /// The square of the king of `white`.
    pub fn king_sq(&self, white: bool) -> (k: Option<usize>)
        ensures
            k == king_square(self.board@, white),
    {
        let v: u8 = if white { 6 } else { 12 };
        let mut i: usize = 0;
        while i < 64
            invariant
                i <= 64,
                find_from(self.board@, v, 0) == find_from(self.board@, v, i as int),
                v == (if white { 6u8 } else { 12u8 }),
            decreases 64 - i,
        {
            if self.board[i] == v {
                return Some(i);
            }
            i += 1;
        }
        None
    }

    /// The king of `white` stands attacked.
    pub fn in_check(&self, white: bool) -> (b: bool)
        ensures
            b == checked(self@, white),
    {
        match self.king_sq(white) {
            Some(k) => {
                proof {
                    lemma_find_from_range(self.board@, if white { 6u8 } else { 12u8 }, 0);
                }
                self.attacked(k, !white)
            },
            None => false,
        }
    }
}

impl Position {
    fn push_ok(&self, out: &mut Vec<Mv>, m: Mv)
        requires
            mv_ok(self@, m),
            all_ok(self@, old(out)@),
        ensures
            final(out)@ == old(out)@.push(m),
            all_ok(self@, final(out)@),
    {
        out.push(m);
        assert forall|i: int| 0 <= i < out@.len() implies #[trigger] mv_ok(self@, out@[i]) by {
            if i < out@.len() - 1 {
                assert(out@[i] == old(out)@[i]);
            }
        }
    }

    fn push_step(&self, out: &mut Vec<Mv>, from: usize, r: i32, c: i32) -> (cont: bool)
        requires
            from < 64,
            -3 <= r <= 10,
            -3 <= c <= 10,
            all_ok(self@, old(out)@),
        ensures
            final(out)@ == old(out)@ + step_moves(self@, from as int, r as int, c as int),
            all_ok(self@, final(out)@),
            cont == (on_board(r as int, c as int) && !owns(self.board@[r * 8 + c], self.white_to_move) && self.board@[r * 8
                + c] == 0),
    {
        if !(0 <= r && r < 8 && 0 <= c && c < 8) {
            assert(old(out)@ + seq![] =~= old(out)@);
            return false;
        }
        let to = (r * 8 + c) as usize;
        let t = self.board[to];
        if own(t, self.white_to_move) {
            assert(old(out)@ + seq![] =~= old(out)@);
            return false;
        }
        self.push_ok(out, Mv { from: from as u8, to: to as u8, promo: 0, castle: false, ep: false });
        assert(out@ =~= old(out)@ + seq![plain(from as int, to as int)]);
        t == 0
    }

    fn push_ray(&self, out: &mut Vec<Mv>, from: usize, r: i32, c: i32, dr: i32, dc: i32, fuel: u8)
        requires
            from < 64,
            -1 <= r <= 8,
            -1 <= c <= 8,
            -1 <= dr <= 1,
            -1 <= dc <= 1,
            all_ok(self@, old(out)@),
        ensures
            final(out)@ == old(out)@ + ray_moves(self@, from as int, r as int, c as int, dr as int, dc as int, fuel as nat),
            all_ok(self@, final(out)@),
        decreases fuel,
    {
        let ghost o0 = out@;
        let cont = self.push_step(out, from, r, c);
        let ghost o1 = out@;
        if cont && fuel > 0 {
            self.push_ray(out, from, r + dr, c + dc, dr, dc, fuel - 1);
            assert(out@ =~= o0 + ray_moves(self@, from as int, r as int, c as int, dr as int, dc as int, fuel as nat));
        } else {
            assert(out@ =~= o0 + ray_moves(self@, from as int, r as int, c as int, dr as int, dc as int, fuel as nat));
        }
    }

    fn push_jumps(&self, out: &mut Vec<Mv>, from: usize, r: i32, c: i32, knight: bool)
        requires
            from < 64,
            0 <= r < 8,
            0 <= c < 8,
            all_ok(self@, old(out)@),
        ensures
            final(out)@ == old(out)@ + jumps(self@, from as int, r as int, c as int, knight, 8),
            all_ok(self@, final(out)@),
    {
        let ghost o0 = out@;
        let mut i: usize = 0;
        assert(o0 + seq![] =~= o0);
        while i < 8
            invariant
                i <= 8,
                from < 64,
                0 <= r < 8,
                0 <= c < 8,
                out@ == o0 + jumps(self@, from as int, r as int, c as int, knight, i as int),
                all_ok(self@, out@),
            decreases 8 - i,
        {
            let (a, b) = if knight { knight_step(i) } else { king_step(i) };
            let ghost before = out@;
            self.push_step(out, from, r + a, c + b);
            assert(out@ =~= o0 + jumps(self@, from as int, r as int, c as int, knight, i + 1));
            i += 1;
        }
    }

    fn push_rays(&self, out: &mut Vec<Mv>, from: usize, r: i32, c: i32, lo: usize, hi: usize)
        requires
            from < 64,
            0 <= r < 8,
            0 <= c < 8,
            lo <= hi <= 8,
            all_ok(self@, old(out)@),
        ensures
            final(out)@ == old(out)@ + rays(self@, from as int, r as int, c as int, lo as int, hi as int),
            all_ok(self@, final(out)@),
    {
        let ghost o0 = out@;
        let mut i: usize = lo;
        assert(o0 + seq![] =~= o0);
        while i < hi
            invariant
                lo <= i <= hi,
                hi <= 8,
                from < 64,
                0 <= r < 8,
                0 <= c < 8,
                out@ == o0 + rays(self@, from as int, r as int, c as int, lo as int, i as int),
                all_ok(self@, out@),
            decreases hi - i,
        {
            let (a, b) = queen_step(i);
            self.push_ray(out, from, r + a, c + b, a, b, 8);
            assert(out@ =~= o0 + rays(self@, from as int, r as int, c as int, lo as int, i + 1));
            i += 1;
        }
    }

    fn push_promotions(&self, out: &mut Vec<Mv>, from: usize, to: usize)
        requires
            from < 64,
            to < 64,
            all_ok(self@, old(out)@),
        ensures
            final(out)@ == old(out)@ + promotions(from as int, to as int),
            all_ok(self@, final(out)@),
    {
        self.push_ok(out, Mv { from: from as u8, to: to as u8, promo: 5, castle: false, ep: false });
        self.push_ok(out, Mv { from: from as u8, to: to as u8, promo: 2, castle: false, ep: false });
        self.push_ok(out, Mv { from: from as u8, to: to as u8, promo: 4, castle: false, ep: false });
        self.push_ok(out, Mv { from: from as u8, to: to as u8, promo: 3, castle: false, ep: false });
        assert(out@ =~= old(out)@ + promotions(from as int, to as int));
    }

    fn push_take(&self, out: &mut Vec<Mv>, from: usize, r: i32, c: i32, dc: i32)
        requires
            from < 64,
            r == from / 8,
            c == from % 8,
            dc == -1 || dc == 1,
            owns(self.board@[from as int], self.white_to_move),
            all_ok(self@, old(out)@),
        ensures
            final(out)@ == old(out)@ + pawn_takes(self@, from as int, r as int, c as int, dc as int),
            all_ok(self@, final(out)@),
    {
        let white = self.white_to_move;
        let dir: i32 = if white { -1 } else { 1 };
        let last_row: i32 = if white { 0 } else { 7 };
        let rr = r + dir;
        let cc = c + dc;
        if !(0 <= rr && rr < 8 && 0 <= cc && cc < 8) {
            assert(out@ =~= old(out)@ + pawn_takes(self@, from as int, r as int, c as int, dc as int));
            return;
        }
        let to = (rr * 8 + cc) as usize;
        let t = self.board[to];
        if t != 0 && !own(t, white) {
            if rr == last_row {
                self.push_promotions(out, from, to);
            } else {
                self.push_ok(out, Mv { from: from as u8, to: to as u8, promo: 0, castle: false, ep: false });
                assert(out@ =~= old(out)@ + seq![plain(from as int, to as int)]);
            }
        } else if t == 0 && self.ep == Some(to as u8) {
            self.push_ok(out, Mv { from: from as u8, to: to as u8, promo: 0, castle: false, ep: true });
        }
        assert(out@ =~= old(out)@ + pawn_takes(self@, from as int, r as int, c as int, dc as int));
    }

    #[verifier::rlimit(60)]
    #[verifier::spinoff_prover]
    fn push_pawn(&self, out: &mut Vec<Mv>, from: usize, r: i32, c: i32)
        requires
            from < 64,
            r == from / 8,
            c == from % 8,
            owns(self.board@[from as int], self.white_to_move),
            all_ok(self@, old(out)@),
        ensures
            final(out)@ == old(out)@ + pawn_moves(self@, from as int, r as int, c as int),
            all_ok(self@, final(out)@),
    {
        let ghost o0 = out@;
        let white = self.white_to_move;
        let dir: i32 = if white { -1 } else { 1 };
        let start_row: i32 = if white { 6 } else { 1 };
        let last_row: i32 = if white { 0 } else { 7 };
        let one = r + dir;
        if 0 <= one && one < 8 && self.board[(one * 8 + c) as usize] == 0 {
            if one == last_row {
                self.push_promotions(out, from, (one * 8 + c) as usize);
            } else {
                self.push_ok(out, Mv { from: from as u8, to: (one * 8 + c) as u8, promo: 0, castle: false, ep: false });
                if r == start_row && self.board[((r + 2 * dir) * 8 + c) as usize] == 0 {
                    self.push_ok(
                        out,
                        Mv { from: from as u8, to: ((r + 2 * dir) * 8 + c) as u8, promo: 0, castle: false, ep: false },
                    );
                }
            }
        }
        assert(out@ =~= o0 + pawn_pushes(self@, from as int, r as int, c as int));
        let ghost o1 = out@;
        self.push_take(out, from, r, c, -1);
        let ghost o2 = out@;
        self.push_take(out, from, r, c, 1);
        assert(out@ =~= o0 + pawn_moves(self@, from as int, r as int, c as int));
    }

    fn push_castles(&self, out: &mut Vec<Mv>, from: usize, r: i32, c: i32)
        requires
            from < 64,
            r == from / 8,
            c == from % 8,
            all_ok(self@, old(out)@),
        ensures
            final(out)@ == old(out)@ + castles(self@, from as int, r as int, c as int),
            all_ok(self@, final(out)@),
    {
        let ghost o0 = out@;
        let white = self.white_to_move;
        let row: i32 = if white { 7 } else { 0 };
        let ks = if white { self.castle[0] } else { self.castle[2] };
        let qs = if white { self.castle[1] } else { self.castle[3] };
        if r == row && c == 4 && !self.in_check(white) {
            let base = (row * 8) as usize;
            if ks && self.board[base + 5] == 0 && self.board[base + 6] == 0 && kind(self.board[base + 7]) == 4
                && !self.attacked(base + 5, !white) {
                self.push_ok(out, Mv { from: from as u8, to: (base + 6) as u8, promo: 0, castle: true, ep: false });
            }
            let ghost o1 = out@;
            if qs && self.board[base + 3] == 0 && self.board[base + 2] == 0 && self.board[base + 1] == 0 && kind(
                self.board[base],
            ) == 4 && !self.attacked(base + 3, !white) {
                self.push_ok(out, Mv { from: from as u8, to: (base + 2) as u8, promo: 0, castle: true, ep: false });
            }
        }
        assert(out@ =~= o0 + castles(self@, from as int, r as int, c as int));
    }

    fn push_piece(&self, out: &mut Vec<Mv>, from: usize)
        requires
            from < 64,
            all_ok(self@, old(out)@),
        ensures
            final(out)@ == old(out)@ + piece_moves(self@, from as int),
            all_ok(self@, final(out)@),
    {
        let p = self.board[from];
        if !own(p, self.white_to_move) {
            assert(out@ =~= old(out)@ + piece_moves(self@, from as int));
            return;
        }
        let r = (from / 8) as i32;
        let c = (from % 8) as i32;
        let k = kind(p);
        if k == 1 {
            self.push_pawn(out, from, r, c);
        } else if k == 2 {
            self.push_jumps(out, from, r, c, true);
        } else if k == 6 {
            let ghost o0 = out@;
            self.push_jumps(out, from, r, c, false);
            self.push_castles(out, from, r, c);
            assert(out@ =~= o0 + piece_moves(self@, from as int));
        } else if k == 3 {
            self.push_rays(out, from, r, c, 0, 4);
        } else if k == 4 {
            self.push_rays(out, from, r, c, 4, 8);
        } else {
            self.push_rays(out, from, r, c, 0, 8);
        }
    }

    /// The side to move's moves, ignoring whether they leave its king in check.
    pub fn pseudo_moves(&self, out: &mut Vec<Mv>)
        requires
            all_ok(self@, old(out)@),
        ensures
            final(out)@ == old(out)@ + pseudo(self@),
            all_ok(self@, final(out)@),
    {
        let ghost o0 = out@;
        let mut from: usize = 0;
        assert(o0 + seq![] =~= o0);
        while from < 64
            invariant
                from <= 64,
                out@ == o0 + pseudo_upto(self@, from as int),
                all_ok(self@, out@),
            decreases 64 - from,
        {
            self.push_piece(out, from);
            assert(out@ =~= o0 + pseudo_upto(self@, from + 1));
            from += 1;
        }
    }
}

/// Move `m` does not leave the mover's king in check.
pub open spec fn legal(v: PosView, m: Mv) -> bool {
    !checked(applied(v, m), v.white_to_move)
}

/// `legal` as a filter.
pub open spec fn legal_in(v: PosView) -> spec_fn(Mv) -> bool {
    |m: Mv| legal(v, m)
}

/// The legal moves: the move list without those that leave the own king in check.
pub open spec fn legal_moves(v: PosView) -> Seq<Mv> {
    pseudo(v).filter(legal_in(v))
}

/// How early the engine looks at a move: ten for a capture, plus the promotion kind.
pub open spec fn order_key(v: PosView, m: Mv) -> int {
    (if v.board[m.to as int] != 0 { 10int } else { 0int }) + m.promo as int
}

/// `order_key` equals `k`, as a filter.
pub open spec fn key_is(v: PosView, k: int) -> spec_fn(Mv) -> bool {
    |m: Mv| order_key(v, m) == k
}

/// The moves of `s` with keys 16 down to `k`, highest key first, each key's moves in
/// their order in `s`: a stable sort by falling key.
pub open spec fn keys_down(v: PosView, s: Seq<Mv>, k: int) -> Seq<Mv>
    decreases 17 - k,
{
    if k > 16 {
        seq![]
    } else {
        keys_down(v, s, k + 1) + s.filter(key_is(v, k))
    }
}

/// The score for a side with no moves: mate (against the side to move) or stalemate.
pub open spec fn no_move_score(v: PosView) -> int {
    if checked(v, v.white_to_move) {
        if v.white_to_move {
            -100_000
        } else {
            100_000
        }
    } else {
        0
    }
}

impl Position {
    /// Legal moves, in move-list order.
    pub fn moves(&self) -> (r: Vec<Mv>)
        requires
            self.halfmove < 65535,
        ensures
            r@ == legal_moves(self@),
            all_ok(self@, r@),
    {
        let mut list: Vec<Mv> = Vec::new();
        self.pseudo_moves(&mut list);
        assert(list@ =~= pseudo(self@));
        let white = self.white_to_move;
        let ghost f = legal_in(self@);
        let mut out: Vec<Mv> = Vec::new();
        let mut i: usize = 0;
        assert(list@.take(0).filter(f) =~= Seq::<Mv>::empty());
        while i < list.len()
            invariant
                i <= list.len(),
                list@ == pseudo(self@),
                all_ok(self@, list@),
                self.halfmove < 65535,
                white == self.white_to_move,
                f == legal_in(self@),
                out@ == list@.take(i as int).filter(f),
                all_ok(self@, out@),
            decreases list.len() - i,
        {
            let m = list[i];
            assert(mv_ok(self@, list@[i as int]));
            let mut p = *self;
            p.apply(m);
            let keep = !p.in_check(white);
            proof {
                let s = list@.take(i + 1);
                assert(s.drop_last() =~= list@.take(i as int));
                s.drop_last().lemma_filter_push(s.last(), f);
                assert(s =~= s.drop_last().push(s.last()));
                assert(keep == f(m));
            }
            if keep {
                out.push(m);
            }
            i += 1;
        }
        assert(list@.take(list.len() as int) =~= list@);
        out
    }
}

proof fn lemma_applied_board_ok(v: PosView, m: Mv)
    requires
        board_ok(v.board),
        mv_ok(v, m),
    ensures
        board_ok(applied(v, m).board),
{
    let b = v.board;
    let p = b[m.from as int];
    assert(b[m.from as int] <= 12);
    assert(landed(p, m.promo) <= 12);
    let l = lifted(b, m);
    assert(l.len() == 64);
    assert forall|i: int| 0 <= i < 64 implies #[trigger] l[i] <= 12 by {}
    let c = castled(l, m);
    assert(c.len() == 64);
    assert forall|i: int| 0 <= i < 64 implies #[trigger] c[i] <= 12 by {}
}

fn order_moves(p: &Position, ms: &Vec<Mv>) -> (r: Vec<Mv>)
    requires
        all_ok(p@, ms@),
    ensures
        r@ == keys_down(p@, ms@, 0),
        all_ok(p@, r@),
{
    let mut out: Vec<Mv> = Vec::new();
    let mut k: u8 = 17;
    while k > 0
        invariant
            k <= 17,
            all_ok(p@, ms@),
            out@ == keys_down(p@, ms@, k as int),
            all_ok(p@, out@),
        decreases k,
    {
        k -= 1;
        let ghost base = out@;
        let ghost f = key_is(p@, k as int);
        let mut j: usize = 0;
        assert(ms@.take(0).filter(f) =~= Seq::<Mv>::empty());
        assert(base + ms@.take(0).filter(f) =~= base);
        while j < ms.len()
            invariant
                j <= ms.len(),
                k < 17,
                all_ok(p@, ms@),
                f == key_is(p@, k as int),
                out@ == base + ms@.take(j as int).filter(f),
                all_ok(p@, out@),
            decreases ms.len() - j,
        {
            let m = ms[j];
            assert(mv_ok(p@, ms@[j as int]));
            let key: u8 = (if p.board[m.to as usize] != 0 { 10 } else { 0 }) + m.promo;
            proof {
                let s = ms@.take(j + 1);
                assert(s.drop_last() =~= ms@.take(j as int));
                s.drop_last().lemma_filter_push(s.last(), f);
                assert(s =~= s.drop_last().push(s.last()));
            }
            if key == k {
                let ghost before = out@;
                out.push(m);
                assert(out@ =~= base + ms@.take(j + 1).filter(f));
                assert forall|i: int| 0 <= i < out@.len() implies #[trigger] mv_ok(p@, out@[i]) by {
                    if i < before.len() {
                        assert(out@[i] == before[i]);
                    }
                }
            } else {
                assert(out@ =~= base + ms@.take(j + 1).filter(f));
            }
            j += 1;
        }
        assert(ms@.take(ms.len() as int) =~= ms@);
    }
    out
}

/// One more node counted (the count stops at `u32::MAX`).
pub open spec fn counted(nodes: nat) -> nat {
    if nodes < u32::MAX {
        nodes + 1
    } else {
        nodes
    }
}

/// The engine's search of `v`, `depth` plies deep within the window `alpha..beta`, with
/// `nodes` positions counted before: its value (for white) and the count after. A side
/// with no move scores mate or stalemate; at depth 0, or past 60 000 positions, the
/// material counts; otherwise the moves, captures and promotions first, are searched
/// with alpha-beta cut-offs.
pub open spec fn search_value(v: PosView, depth: nat, alpha: int, beta: int, nodes: nat) -> (int, nat)
    decreases depth, 1nat, 0int,
{
    let n = counted(nodes);
    if legal_moves(v).len() == 0 {
        (no_move_score(v), n)
    } else if depth == 0 || n > 60_000 {
        (eval_upto(v.board, 64), n)
    } else {
        search_moves(
            v,
            keys_down(v, legal_moves(v), 0),
            0,
            depth,
            alpha,
            beta,
            if v.white_to_move { -1_000_000 } else { 1_000_000 },
            n,
        )
    }
}

/// The search of moves `ms` from `i` on (see [`search_value`]): the best value so far,
/// the window, and the count; a move that closes the window stops the search.
pub open spec fn search_moves(
    v: PosView,
    ms: Seq<Mv>,
    i: int,
    depth: nat,
    alpha: int,
    beta: int,
    best: int,
    nodes: nat,
) -> (int, nat)
    decreases depth, 0nat, ms.len() - i,
{
    if i < 0 || i >= ms.len() || depth == 0 {
        (best, nodes)
    } else {
        let (r, n2) = search_value(applied(v, ms[i]), (depth - 1) as nat, alpha, beta, nodes);
        let white = v.white_to_move;
        let best2 = if white {
            if r > best { r } else { best }
        } else {
            if r < best { r } else { best }
        };
        let alpha2 = if white && r > alpha { r } else { alpha };
        let beta2 = if !white && r < beta { r } else { beta };
        if beta2 <= alpha2 {
            (best2, n2)
        } else {
            search_moves(v, ms, i + 1, depth, alpha2, beta2, best2, n2)
        }
    }
}

fn search(p: &Position, depth: u8, alpha: i32, beta: i32, nodes: &mut u32) -> (v: i32)
    requires
        p.halfmove + depth < 65535,
        board_ok(p.board@),
        -1_000_000 <= alpha <= 1_000_000,
        -1_000_000 <= beta <= 1_000_000,
    ensures
        (v as int, *final(nodes) as nat) == search_value(p@, depth as nat, alpha as int, beta as int, *old(nodes) as nat),
        -1_000_000 <= v <= 1_000_000,
        legal_moves(p@).len() == 0 ==> v == no_move_score(p@),
        legal_moves(p@).len() > 0 && (depth == 0 || *old(nodes) >= 60_000) ==> v == eval_upto(p.board@, 64),
        *final(nodes) >= *old(nodes),
    decreases depth,
{
    if *nodes < u32::MAX {
        *nodes = *nodes + 1;
    }
    let moves = p.moves();
    let white = p.white_to_move;
    if moves.len() == 0 {
        return if p.in_check(white) {
            if white {
                -100_000
            } else {
                100_000
            }
        } else {
            0
        };
    }
    if depth == 0 || *nodes > 60_000 {
        return p.eval();
    }
    let ordered = order_moves(p, &moves);
    let ghost a0 = alpha as int;
    let ghost b0 = beta as int;
    let ghost best0: int = if white { -1_000_000 } else { 1_000_000 };
    let ghost n0 = *nodes as nat;
    let mut alpha = alpha;
    let mut beta = beta;
    let mut best: i32 = if white { -1_000_000 } else { 1_000_000 };
    let mut i: usize = 0;
    let mut done = false;
    while i < ordered.len() && !done
        invariant
            i <= ordered.len(),
            all_ok(p@, ordered@),
            ordered@ == keys_down(p@, legal_moves(p@), 0),
            white == p.white_to_move,
            p.halfmove + depth < 65535,
            depth >= 1,
            board_ok(p.board@),
            -1_000_000 <= alpha <= 1_000_000,
            -1_000_000 <= beta <= 1_000_000,
            -1_000_000 <= best <= 1_000_000,
            *nodes >= *old(nodes),
            !done ==> search_moves(p@, ordered@, 0, depth as nat, a0, b0, best0, n0) == search_moves(
                p@,
                ordered@,
                i as int,
                depth as nat,
                alpha as int,
                beta as int,
                best as int,
                *nodes as nat,
            ),
            done ==> search_moves(p@, ordered@, 0, depth as nat, a0, b0, best0, n0) == (best as int, *nodes as nat),
        decreases (if done { 0 } else { ordered.len() - i + 1 }),
    {
        let m = ordered[i];
        assert(mv_ok(p@, ordered@[i as int]));
        let mut q = *p;
        q.apply(m);
        proof {
            lemma_applied_board_ok(p@, m);
        }
        let v = search(&q, depth - 1, alpha, beta, nodes);
        if white {
            if v > best {
                best = v;
            }
            if v > alpha {
                alpha = v;
            }
        } else {
            if v < best {
                best = v;
            }
            if v < beta {
                beta = v;
            }
        }
        if beta <= alpha {
            done = true;
        } else {
            i += 1;
        }
    }
    best
}

/// The scores of moves `ms` from `i` on for the side to move (higher is better): each
/// move's position searched `depth` plies with the full window, the count of positions
/// carried from one move to the next.
pub open spec fn move_scores(v: PosView, ms: Seq<Mv>, i: int, depth: nat, nodes: nat) -> Seq<int>
    decreases ms.len() - i,
{
    if i < 0 || i >= ms.len() {
        Seq::empty()
    } else {
        let (r, n2) = search_value(applied(v, ms[i]), depth, -1_000_000, 1_000_000, nodes);
        seq![if v.white_to_move { r } else { -r }] + move_scores(v, ms, i + 1, depth, n2)
    }
}

/// The largest of the first `n` scores.
pub open spec fn top_score(sc: Seq<int>, n: int) -> int
    decreases n,
{
    if n <= 1 {
        sc[0]
    } else if sc[n - 1] > top_score(sc, n - 1) {
        sc[n - 1]
    } else {
        top_score(sc, n - 1)
    }
}

/// The moves among the first `n` whose score is `top`, in order.
pub open spec fn tied(ms: Seq<Mv>, sc: Seq<int>, top: int, n: int) -> Seq<Mv>
    decreases n,
{
    if n <= 0 {
        Seq::empty()
    } else if sc[n - 1] == top {
        tied(ms, sc, top, n - 1).push(ms[n - 1])
    } else {
        tied(ms, sc, top, n - 1)
    }
}

/// The engine's choice in `v`: the moves that score best after a search of `depth`
/// plies, and the draw that picks among them.
pub open spec fn best_moves(v: PosView, depth: nat) -> Seq<Mv> {
    let ms = legal_moves(v);
    let sc = move_scores(v, ms, 0, depth, 0);
    tied(ms, sc, top_score(sc, sc.len() as int), sc.len() as int)
}

proof fn lemma_move_scores_len(v: PosView, ms: Seq<Mv>, i: int, depth: nat, nodes: nat)
    requires
        0 <= i <= ms.len(),
    ensures
        move_scores(v, ms, i, depth, nodes).len() == ms.len() - i,
    decreases ms.len() - i,
{
    if i < ms.len() {
        let (r, n2) = search_value(applied(v, ms[i]), depth, -1_000_000, 1_000_000, nodes);
        lemma_move_scores_len(v, ms, i + 1, depth, n2);
    }
}

proof fn lemma_top_is_a_score(sc: Seq<int>, n: int)
    requires
        1 <= n <= sc.len(),
    ensures
        exists|j: int| 0 <= j < n && sc[j] == top_score(sc, n),
    decreases n,
{
    if n > 1 {
        lemma_top_is_a_score(sc, n - 1);
        if sc[n - 1] <= top_score(sc, n - 1) {
            let j = choose|j: int| 0 <= j < n - 1 && sc[j] == top_score(sc, n - 1);
            assert(sc[j] == top_score(sc, n));
        }
    } else {
        assert(sc[0] == top_score(sc, n));
    }
}

proof fn lemma_tied_nonempty(ms: Seq<Mv>, sc: Seq<int>, top: int, n: int, j: int)
    requires
        0 <= j < n,
        sc[j] == top,
    ensures
        tied(ms, sc, top, n).len() > 0,
    decreases n,
{
    if j < n - 1 && sc[n - 1] != top {
        lemma_tied_nonempty(ms, sc, top, n - 1, j);
    }
}

proof fn lemma_tied_in(ms: Seq<Mv>, sc: Seq<int>, top: int, n: int)
    requires
        0 <= n <= ms.len(),
    ensures
        forall|k: int| 0 <= k < tied(ms, sc, top, n).len() ==> ms.contains(#[trigger] tied(ms, sc, top, n)[k]),
    decreases n,
{
    if n > 0 {
        lemma_tied_in(ms, sc, top, n - 1);
        let t0 = tied(ms, sc, top, n - 1);
        assert forall|k: int| 0 <= k < tied(ms, sc, top, n).len() implies ms.contains(#[trigger] tied(ms, sc, top, n)[k]) by {
            if k < t0.len() {
                assert(tied(ms, sc, top, n)[k] == t0[k]);
            } else {
                assert(tied(ms, sc, top, n)[k] == ms[n - 1]);
            }
        }
    }
}

/// The engine's move for the side to move: each legal move is searched `depth - 1`
/// plies deeper, and one of the best for the mover is picked at random with one draw
/// below the number of them.
pub fn best_move(p: &Position, depth: u8, rng: &mut Rng) -> (r: Option<Mv>)
    requires
        depth >= 1,
        p.halfmove + depth < 65535,
        board_ok(p.board@),
    ensures
        r is None <==> legal_moves(p@).len() == 0,
        r is None ==> *final(rng) == *old(rng),
        r matches Some(m) ==> legal_moves(p@).contains(m),
        legal_moves(p@).len() > 0 ==> {
            let ts = best_moves(p@, (depth - 1) as nat);
            let k = ts.len() as u32;
            let x = xorshift(rng_state(old(rng).0));
            &&& ts.len() > 0
            &&& final(rng).0 == x
            &&& r == Some(ts[(x % (if k == 0 { 1 } else { k })) as int])
        },
{
    let moves = p.moves();
    if moves.len() == 0 {
        return None;
    }
    let white = p.white_to_move;
    let ghost d1 = (depth - 1) as nat;
    let ghost all = move_scores(p@, moves@, 0, d1, 0);
    let mut scores: Vec<i32> = Vec::new();
    let mut nodes: u32 = 0;
    let mut i: usize = 0;
    proof {
        lemma_move_scores_len(p@, moves@, 0, d1, 0);
    }
    assert(scores@.map_values(|x: i32| x as int) + move_scores(p@, moves@, 0, d1, nodes as nat) =~= all);
    while i < moves.len()
        invariant
            i <= moves.len(),
            scores.len() == i,
            all_ok(p@, moves@),
            moves@ == legal_moves(p@),
            white == p.white_to_move,
            p.halfmove + depth < 65535,
            depth >= 1,
            d1 == depth - 1,
            board_ok(p.board@),
            all == move_scores(p@, moves@, 0, d1, 0),
            all.len() == moves.len(),
            scores@.map_values(|x: i32| x as int) + move_scores(p@, moves@, i as int, d1, nodes as nat) == all,
            forall|j: int| 0 <= j < i ==> -1_000_000 <= #[trigger] scores@[j] <= 1_000_000,
        decreases moves.len() - i,
    {
        let m = moves[i];
        assert(mv_ok(p@, moves@[i as int]));
        let mut q = *p;
        q.apply(m);
        proof {
            lemma_applied_board_ok(p@, m);
        }
        let ghost n_before = nodes as nat;
        let ghost sv = scores@.map_values(|x: i32| x as int);
        let v = search(&q, depth - 1, -1_000_000, 1_000_000, &mut nodes);
        let sc = if white { v } else { -v };
        scores.push(sc);
        proof {
            let rest = move_scores(p@, moves@, i as int, d1, n_before);
            assert(rest == seq![sc as int] + move_scores(p@, moves@, i + 1, d1, nodes as nat));
            assert(scores@.map_values(|x: i32| x as int) =~= sv.push(sc as int));
            assert(sv + rest =~= sv.push(sc as int) + move_scores(p@, moves@, i + 1, d1, nodes as nat));
        }
        i += 1;
    }
    proof {
        lemma_move_scores_len(p@, moves@, i as int, d1, nodes as nat);
        assert(scores@.map_values(|x: i32| x as int) =~= all);
    }
    let mut top: i32 = scores[0];
    let mut i: usize = 1;
    while i < scores.len()
        invariant
            1 <= i <= scores.len(),
            scores.len() == moves.len(),
            scores@.map_values(|x: i32| x as int) == all,
            top as int == top_score(all, i as int),
        decreases scores.len() - i,
    {
        assert(all[i as int] == scores@[i as int]);
        if scores[i] > top {
            top = scores[i];
        }
        i += 1;
    }
    let mut ties: Vec<Mv> = Vec::new();
    let mut i: usize = 0;
    while i < moves.len()
        invariant
            i <= moves.len(),
            scores.len() == moves.len(),
            scores@.map_values(|x: i32| x as int) == all,
            top as int == top_score(all, all.len() as int),
            ties@ == tied(moves@, all, top as int, i as int),
        decreases moves.len() - i,
    {
        assert(all[i as int] == scores@[i as int]);
        if scores[i] == top {
            ties.push(moves[i]);
        }
        i += 1;
    }
    proof {
        lemma_top_is_a_score(all, all.len() as int);
        let j = choose|j: int| 0 <= j < all.len() && all[j] == top_score(all, all.len() as int);
        lemma_tied_nonempty(moves@, all, top as int, all.len() as int, j);
        lemma_tied_in(moves@, all, top as int, moves.len() as int);
    }
    let len = ties.len();
    let n = len as u32;
    let k = rng.below(n) as usize;
    assert(k < len) by {
        assert(n as usize <= len) by (bit_vector)
            requires
                n == len as u32,
        ;
    }
    let m = ties[k];
    assert(moves@.contains(ties@[k as int]));
    Some(m)
}

/// The letter a piece is written with in the move list: none for a pawn.
pub open spec fn letter_text(p: u8) -> Seq<char> {
    let k = piece_kind(p);
    if k == 2 {
        seq!['N']
    } else if k == 3 {
        seq!['B']
    } else if k == 4 {
        seq!['R']
    } else if k == 5 {
        seq!['Q']
    } else if k == 6 {
        seq!['K']
    } else {
        seq![]
    }
}

/// A square's name: its file letter and rank digit (a8 is square 0).
pub open spec fn square_text(sq: int) -> Seq<char> {
    seq![(97 + sq % 8) as char, (48 + 8 - sq / 8) as char]
}

/// A move as the move list writes it: the piece letter, then both squares.
pub open spec fn move_text(p: u8, m: Mv) -> Seq<char> {
    letter_text(p) + square_text(m.from as int) + square_text(m.to as int)
}

/// The line under the board: mate, stalemate, the fifty-move draw, check, or nothing.
pub open spec fn status_text(v: PosView) -> Seq<char> {
    if legal_moves(v).len() == 0 {
        if checked(v, v.white_to_move) {
            if v.white_to_move {
                "Checkmate — the reader wins"@
            } else {
                "Checkmate — you win"@
            }
        } else {
            "Stalemate"@
        }
    } else if v.halfmove >= 100 {
        "Draw by the fifty-move rule"@
    } else if checked(v, v.white_to_move) {
        "Check"@
    } else {
        seq![]
    }
}

/// The game has ended: no legal move, or fifty moves without a pawn move or capture.
pub open spec fn over(v: PosView) -> bool {
    legal_moves(v).len() == 0 || v.halfmove >= 100
}

/// Among the first `n` moves of `ms`, the last one from `from` to `to` with the
/// highest promotion.
pub open spec fn choice(ms: Seq<Mv>, from: int, to: int, n: int) -> Option<Mv>
    decreases n,
{
    if n <= 0 {
        None
    } else {
        let prev = choice(ms, from, to, n - 1);
        let m = ms[n - 1];
        if m.from == from && m.to == to && (prev matches Some(b) ==> m.promo >= b.promo) {
            Some(m)
        } else {
            prev
        }
    }
}

/// The cursor after Left, Right (along the row, wrapping), Up or Down (wrapping).
pub open spec fn cursor_after(c: int, k: Key) -> int {
    match k {
        Key::Left => if c % 8 == 0 { c + 7 } else { c - 1 },
        Key::Right => if c % 8 == 7 { c - 7 } else { c + 1 },
        Key::Up => (c + 56) % 64,
        Key::Down => (c + 8) % 64,
        _ => c,
    }
}

/// The letter a piece is written with in the move list: empty for a pawn.
pub fn letter(p: u8) -> (s: &'static str)
    ensures
        s@ == letter_text(p),
{
    proof {
        reveal_strlit("N");
        reveal_strlit("B");
        reveal_strlit("R");
        reveal_strlit("Q");
        reveal_strlit("K");
        reveal_strlit("");
    }
    match kind(p) {
        2 => "N",
        3 => "B",
        4 => "R",
        5 => "Q",
        6 => "K",
        _ => "",
    }
}

/// A square's name, such as `e4`.
pub fn square_name(sq: u8) -> (s: String)
    requires
        sq < 64,
    ensures
        s@ == square_text(sq as int),
{
    let r = sq / 8;
    let c = sq % 8;
    let mut s = String::new();
    push_char(&mut s, (97u8 + c) as char);
    push_char(&mut s, (48u8 + (8 - r)) as char);
    assert(s@ =~= square_text(sq as int));
    s
}

fn move_name(p: u8, m: Mv) -> (s: String)
    requires
        m.from < 64,
        m.to < 64,
    ensures
        s@ == move_text(p, m),
{
    let mut s = String::new();
    push_str(&mut s, letter(p));
    let a = square_name(m.from);
    push_str(&mut s, a.as_str());
    let b = square_name(m.to);
    push_str(&mut s, b.as_str());
    assert(s@ =~= move_text(p, m));
    s
}

fn pick(ms: &Vec<Mv>, from: usize, to: usize) -> (r: Option<Mv>)
    ensures
        r == choice(ms@, from as int, to as int, ms@.len() as int),
{
    let mut best: Option<Mv> = None;
    let mut i: usize = 0;
    while i < ms.len()
        invariant
            i <= ms.len(),
            best == choice(ms@, from as int, to as int, i as int),
        decreases ms.len() - i,
    {
        let m = ms[i];
        if m.from as usize == from && m.to as usize == to {
            let take = match best {
                Some(b) => m.promo >= b.promo,
                None => true,
            };
            if take {
                best = Some(m);
            }
        }
        i += 1;
    }
    best
}

proof fn lemma_choice_in(ms: Seq<Mv>, from: int, to: int, n: int)
    requires
        0 <= n <= ms.len(),
    ensures
        choice(ms, from, to, n) matches Some(m) ==> ms.contains(m) && m.from == from && m.to == to,
    decreases n,
{
    if n > 0 {
        lemma_choice_in(ms, from, to, n - 1);
        assert(ms[n - 1] == ms[n - 1]);
    }
}

/// The chess screen: the player has white, the engine answers.
pub struct ChessScreen {
    pos: Position,
    cursor: usize,
    selected: Option<usize>,
    history: Vec<String>,
    rng: Rng,
    thinking: bool,
    message: String,
    started: bool,
    flipped: bool,
}

impl ChessScreen {
    /// The position.
    pub closed spec fn spec_pos(self) -> PosView {
        self.pos@
    }

    /// The focused square.
    pub closed spec fn spec_cursor(self) -> usize {
        self.cursor
    }

    /// The square of the piece picked up, if any.
    pub closed spec fn spec_selected(self) -> Option<usize> {
        self.selected
    }

    /// The moves played so far, as written.
    pub closed spec fn spec_history(self) -> Seq<Seq<char>> {
        self.history@.map_values(|s: String| s@)
    }

    /// The engine is to answer.
    pub closed spec fn spec_thinking(self) -> bool {
        self.thinking
    }

    /// The line under the board.
    pub closed spec fn spec_message(self) -> Seq<char> {
        self.message@
    }

    /// The random source has been seeded.
    pub closed spec fn spec_started(self) -> bool {
        self.started
    }

    /// The board is shown from black's side.
    pub closed spec fn spec_flipped(self) -> bool {
        self.flipped
    }

    /// The engine's random source.
    pub closed spec fn spec_rng(self) -> Rng {
        self.rng
    }

    /// The cursor and the selection are on the board, every square holds a piece code,
    /// and the fifty-move count is no more than a hundred (below it while the engine is
    /// to answer).
    pub closed spec fn inv(self) -> bool {
        &&& self.cursor < 64
        &&& self.selected matches Some(s) ==> s < 64
        &&& self.pos.halfmove <= 100
        &&& self.thinking ==> self.pos.halfmove < 100
        &&& board_ok(self.pos.board@)
    }

    /// A fresh screen: the starting position, the cursor on e2, nothing picked up.
    pub open spec fn fresh(s: ChessScreen) -> bool {
        &&& s.inv()
        &&& s.spec_pos().board == start_board()
        &&& s.spec_pos().white_to_move
        &&& s.spec_pos().castle == seq![true, true, true, true]
        &&& s.spec_pos().ep is None
        &&& s.spec_pos().halfmove == 0
        &&& s.spec_cursor() == 52
        &&& s.spec_selected() is None
        &&& s.spec_history().len() == 0
        &&& !s.spec_thinking()
        &&& s.spec_message().len() == 0
        &&& !s.spec_started()
    }

    /// New: the player is white.
    pub fn new() -> (s: ChessScreen)
        ensures
            Self::fresh(s),
            !s.spec_flipped(),
            s.spec_rng() == Rng(7),
    {
        let s = ChessScreen {
            pos: Position::start(),
            cursor: 52,
            selected: None,
            history: Vec::new(),
            rng: Rng(7),
            thinking: false,
            message: String::new(),
            started: false,
            flipped: false,
        };
        proof {
            lemma_start_board_ok();
            assert(s.spec_history() =~= Seq::<Seq<char>>::empty());
        }
        s
    }

    /// Seed the engine's random source, once, before the first drawing.
    pub fn start(&mut self, seed: u32)
        requires
            old(self).inv(),
        ensures
            final(self).inv(),
            final(self).spec_started(),
            final(self).spec_pos() == old(self).spec_pos(),
            final(self).spec_cursor() == old(self).spec_cursor(),
            final(self).spec_selected() == old(self).spec_selected(),
            final(self).spec_history() == old(self).spec_history(),
            final(self).spec_thinking() == old(self).spec_thinking(),
    {
        self.rng = Rng(seed | 1);
        self.started = true;
    }

    /// The engine is to answer: the app arms a short timer and then calls `engine_reply`.
    pub fn is_thinking(&self) -> (b: bool)
        ensures
            b == self.spec_thinking(),
    {
        self.thinking
    }

    /// The game has ended.
    pub fn game_over(&self) -> (b: bool)
        requires
            self.inv(),
        ensures
            b == over(self.spec_pos()),
    {
        self.pos.moves().len() == 0 || self.pos.halfmove >= 100
    }

    fn status(&mut self)
        requires
            old(self).inv(),
        ensures
            final(self).inv(),
            final(self).spec_message() == status_text(old(self).spec_pos()),
            final(self).spec_pos() == old(self).spec_pos(),
            final(self).spec_cursor() == old(self).spec_cursor(),
            final(self).spec_selected() == old(self).spec_selected(),
            final(self).spec_history() == old(self).spec_history(),
            final(self).spec_thinking() == old(self).spec_thinking(),
            final(self).spec_started() == old(self).spec_started(),
    {
        let n = self.pos.moves().len();
        let white = self.pos.white_to_move;
        self.message = if n == 0 {
            if self.pos.in_check(white) {
                owned(if white { "Checkmate — the reader wins" } else { "Checkmate — you win" })
            } else {
                owned("Stalemate")
            }
        } else if self.pos.halfmove >= 100 {
            owned("Draw by the fifty-move rule")
        } else if self.pos.in_check(white) {
            owned("Check")
        } else {
            String::new()
        };
    }

    fn play(&mut self, m: Mv)
        requires
            old(self).inv(),
            old(self).pos.halfmove < 100,
            !old(self).thinking,
            legal_moves(old(self).spec_pos()).contains(m),
        ensures
            final(self).inv(),
            final(self).spec_pos() == applied(old(self).spec_pos(), m),
            final(self).spec_history() == old(self).spec_history().push(
                move_text(old(self).spec_pos().board[m.from as int], m),
            ),
            final(self).spec_cursor() == old(self).spec_cursor(),
            final(self).spec_selected() == old(self).spec_selected(),
            final(self).spec_thinking() == old(self).spec_thinking(),
            final(self).spec_started() == old(self).spec_started(),
    {
        let moves = self.pos.moves();
        proof {
            let k = choose|k: int| 0 <= k < moves@.len() && moves@[k] == m;
            assert(mv_ok(self.pos@, moves@[k]));
            lemma_applied_board_ok(self.pos@, m);
        }
        let name = move_name(self.pos.board[m.from as usize], m);
        self.pos.apply(m);
        self.history.push(name);
        assert(self.spec_history() =~= old(self).spec_history().push(move_text(old(self).pos@.board[m.from as int], m)));
    }

    /// A key. Nothing while the engine thinks or on a release. Back drops the piece
    /// picked up, or pauses. Confirm starts over after the game ended; otherwise, on the
    /// player's turn, it picks up the player's piece under the cursor, or plays the picked
    /// piece to the cursor (the highest promotion, if several) and lets the engine think
    /// unless the game ended, or picks up another piece. Left, Right, Up and Down move the
    /// cursor, wrapping.
    pub fn key(&mut self, ev: KeyEvent) -> (step: GameStep)
        requires
            old(self).inv(),
        ensures
            final(self).inv(),
            ev.kind == KeyKind::Release || old(self).spec_thinking() ==> step == GameStep::Ignore && *final(self) == *old(
                self,
            ),
            ev.kind != KeyKind::Release && !old(self).spec_thinking() ==> {
                &&& ev.key == Key::Back && ev.kind == KeyKind::Press ==> if old(self).spec_selected() is Some {
                    &&& step == GameStep::Redraw
                    &&& final(self).spec_selected() is None
                    &&& final(self).spec_pos() == old(self).spec_pos()
                    &&& final(self).spec_cursor() == old(self).spec_cursor()
                } else {
                    step == GameStep::Pause && *final(self) == *old(self)
                }
                &&& ev.key == Key::Confirm && ev.kind == KeyKind::Press && over(old(self).spec_pos()) ==> step
                    == GameStep::Redraw && Self::fresh(*final(self))
                &&& ev.key == Key::Confirm && ev.kind == KeyKind::Press && !over(old(self).spec_pos())
                    && !old(self).spec_pos().white_to_move ==> step == GameStep::Ignore && *final(self) == *old(self)
                &&& ev.key == Key::Confirm && ev.kind == KeyKind::Press && !over(old(self).spec_pos())
                    && old(self).spec_pos().white_to_move ==> confirmed(*old(self), *final(self)) && step
                    == GameStep::Redraw
                &&& (ev.key == Key::Left || ev.key == Key::Right || ev.key == Key::Up || ev.key == Key::Down) ==> {
                    &&& step == GameStep::Redraw
                    &&& final(self).spec_cursor() == cursor_after(old(self).spec_cursor() as int, ev.key)
                    &&& final(self).spec_pos() == old(self).spec_pos()
                    &&& final(self).spec_selected() == old(self).spec_selected()
                    &&& final(self).spec_history() == old(self).spec_history()
                }
                &&& (ev.key == Key::Power || ((ev.key == Key::Back || ev.key == Key::Confirm) && ev.kind != KeyKind::Press))
                    ==> step == GameStep::Ignore && *final(self) == *old(self)
            },
    {
        if ev.kind == KeyKind::Release || self.thinking {
            return GameStep::Ignore;
        }
        match ev.key {
            Key::Back => {
                if ev.kind != KeyKind::Press {
                    return GameStep::Ignore;
                }
                if self.selected.is_some() {
                    self.selected = None;
                    return GameStep::Redraw;
                }
                GameStep::Pause
            },
            Key::Confirm => {
                if ev.kind != KeyKind::Press {
                    return GameStep::Ignore;
                }
                if self.game_over() {
                    *self = ChessScreen::new();
                    return GameStep::Redraw;
                }
                if !self.pos.white_to_move {
                    return GameStep::Ignore;
                }
                self.confirm();
                GameStep::Redraw
            },
            Key::Left => {
                self.cursor = if self.cursor % 8 == 0 { self.cursor + 7 } else { self.cursor - 1 };
                GameStep::Redraw
            },
            Key::Right => {
                self.cursor = if self.cursor % 8 == 7 { self.cursor - 7 } else { self.cursor + 1 };
                GameStep::Redraw
            },
            Key::Up => {
                self.cursor = (self.cursor + 56) % 64;
                GameStep::Redraw
            },
            Key::Down => {
                self.cursor = (self.cursor + 8) % 64;
                GameStep::Redraw
            },
            Key::Power => GameStep::Ignore,
        }
    }

    fn confirm(&mut self)
        requires
            old(self).inv(),
            !old(self).thinking,
            !over(old(self).spec_pos()),
            old(self).spec_pos().white_to_move,
        ensures
            final(self).inv(),
            confirmed(*old(self), *final(self)),
    {
        let c = self.cursor;
        match self.selected {
            None => {
                if own(self.pos.board[c], true) {
                    self.selected = Some(c);
                }
            },
            Some(from) => {
                let moves = self.pos.moves();
                let mv = pick(&moves, from, c);
                match mv {
                    Some(m) => {
                        proof {
                            lemma_choice_in(moves@, from as int, c as int, moves@.len() as int);
                        }
                        self.play(m);
                        self.selected = None;
                        self.status();
                        if !self.game_over() {
                            self.thinking = true;
                        }
                    },
                    None => {
                        if own(self.pos.board[c], true) {
                            self.selected = Some(c);
                        } else {
                            self.selected = None;
                        }
                    },
                }
            },
        }
    }

    /// The engine's answer, when it is to answer: its move is played and written down,
    /// and the line under the board is brought up to date.
    pub fn engine_reply(&mut self) -> (step: GameStep)
        requires
            old(self).inv(),
        ensures
            final(self).inv(),
            !old(self).spec_thinking() ==> step == GameStep::Ignore && *final(self) == *old(self),
            old(self).spec_thinking() ==> {
                &&& step == GameStep::Redraw
                &&& !final(self).spec_thinking()
                &&& final(self).spec_message() == status_text(final(self).spec_pos())
                &&& final(self).spec_cursor() == old(self).spec_cursor()
                &&& final(self).spec_selected() == old(self).spec_selected()
                &&& legal_moves(old(self).spec_pos()).len() == 0 ==> final(self).spec_pos() == old(self).spec_pos()
                    && final(self).spec_history() == old(self).spec_history()
                &&& legal_moves(old(self).spec_pos()).len() > 0 ==> exists|m: Mv|
                    #[trigger] legal_moves(old(self).spec_pos()).contains(m) && final(self).spec_pos() == applied(
                        old(self).spec_pos(),
                        m,
                    ) && final(self).spec_history() == old(self).spec_history().push(
                        move_text(old(self).spec_pos().board[m.from as int], m),
                    )
            },
    {
        if !self.thinking {
            return GameStep::Ignore;
        }
        self.thinking = false;
        let r = best_move(&self.pos, 3, &mut self.rng);
        match r {
            Some(m) => {
                self.play(m);
            },
            None => {},
        }
        self.status();
        GameStep::Redraw
    }

    /// The paused card's answer: a fresh game on New game, the list on Quit.
    pub fn resume(&mut self, c: PauseChoice) -> (step: GameStep)
        requires
            old(self).inv(),
        ensures
            final(self).inv(),
            step == crate::games::after_pause(c),
            c == PauseChoice::NewGame ==> Self::fresh(*final(self)),
            c != PauseChoice::NewGame ==> *final(self) == *old(self),
    {
        match c {
            PauseChoice::NewGame => {
                *self = ChessScreen::new();
                GameStep::Redraw
            },
            PauseChoice::Quit => GameStep::Quit,
            PauseChoice::Resume => GameStep::Redraw,
        }
    }
}

/// What Confirm does on the player's turn in a game still on: with nothing picked up, it
/// picks up the player's piece under the cursor; with a piece picked up, it plays the
/// chosen move to the cursor (written down, the line updated, the engine to answer
/// unless the game ended), or, with no such move, picks up the player's piece under the
/// cursor or drops the piece.
pub open spec fn confirmed(a: ChessScreen, b: ChessScreen) -> bool {
    let c = a.spec_cursor();
    let mine = owns(a.spec_pos().board[c as int], true);
    &&& b.spec_cursor() == c
    &&& b.spec_started() == a.spec_started()
    &&& match a.spec_selected() {
        None => {
            &&& b.spec_selected() == (if mine { Some(c) } else { None::<usize> })
            &&& b.spec_pos() == a.spec_pos()
            &&& b.spec_history() == a.spec_history()
            &&& b.spec_thinking() == a.spec_thinking()
        },
        Some(from) => match choice(legal_moves(a.spec_pos()), from as int, c as int, legal_moves(a.spec_pos()).len() as int) {
            Some(m) => {
                &&& b.spec_pos() == applied(a.spec_pos(), m)
                &&& b.spec_history() == a.spec_history().push(move_text(a.spec_pos().board[from as int], m))
                &&& b.spec_selected() is None
                &&& b.spec_message() == status_text(b.spec_pos())
                &&& b.spec_thinking() == !over(b.spec_pos())
            },
            None => {
                &&& b.spec_selected() == (if mine { Some(c) } else { None::<usize> })
                &&& b.spec_pos() == a.spec_pos()
                &&& b.spec_history() == a.spec_history()
                &&& b.spec_thinking() == a.spec_thinking()
            },
        },
    }
}

proof fn lemma_start_board_ok()
    ensures
        board_ok(start_board()),
{
    let b = start_board();
    assert(b[0] <= 12);
    assert(b[1] <= 12);
    assert(b[2] <= 12);
    assert(b[3] <= 12);
    assert(b[4] <= 12);
    assert(b[5] <= 12);
    assert(b[6] <= 12);
    assert(b[7] <= 12);
    assert(b[8] <= 12);
    assert(b[9] <= 12);
    assert(b[10] <= 12);
    assert(b[11] <= 12);
    assert(b[12] <= 12);
    assert(b[13] <= 12);
    assert(b[14] <= 12);
    assert(b[15] <= 12);
    assert(b[16] <= 12);
    assert(b[17] <= 12);
    assert(b[18] <= 12);
    assert(b[19] <= 12);
    assert(b[20] <= 12);
    assert(b[21] <= 12);
    assert(b[22] <= 12);
    assert(b[23] <= 12);
    assert(b[24] <= 12);
    assert(b[25] <= 12);
    assert(b[26] <= 12);
    assert(b[27] <= 12);
    assert(b[28] <= 12);
    assert(b[29] <= 12);
    assert(b[30] <= 12);
    assert(b[31] <= 12);
    assert(b[32] <= 12);
    assert(b[33] <= 12);
    assert(b[34] <= 12);
    assert(b[35] <= 12);
    assert(b[36] <= 12);
    assert(b[37] <= 12);
    assert(b[38] <= 12);
    assert(b[39] <= 12);
    assert(b[40] <= 12);
    assert(b[41] <= 12);
    assert(b[42] <= 12);
    assert(b[43] <= 12);
    assert(b[44] <= 12);
    assert(b[45] <= 12);
    assert(b[46] <= 12);
    assert(b[47] <= 12);
    assert(b[48] <= 12);
    assert(b[49] <= 12);
    assert(b[50] <= 12);
    assert(b[51] <= 12);
    assert(b[52] <= 12);
    assert(b[53] <= 12);
    assert(b[54] <= 12);
    assert(b[55] <= 12);
    assert(b[56] <= 12);
    assert(b[57] <= 12);
    assert(b[58] <= 12);
    assert(b[59] <= 12);
    assert(b[60] <= 12);
    assert(b[61] <= 12);
    assert(b[62] <= 12);
    assert(b[63] <= 12);
    assert forall|i: int| 0 <= i < 64 implies #[trigger] b[i] <= 12 by {
        assert(i == 0 || i == 1 || i == 2 || i == 3 || i == 4 || i == 5 || i == 6 || i == 7 || i == 8 || i == 9 || i == 10 || i == 11 || i == 12 || i == 13 || i == 14 || i == 15 || i == 16 || i == 17 || i == 18 || i == 19 || i == 20 || i == 21 || i == 22 || i == 23 || i == 24 || i == 25 || i == 26 || i == 27 || i == 28 || i == 29 || i == 30 || i == 31 || i == 32 || i == 33 || i == 34 || i == 35 || i == 36 || i == 37 || i == 38 || i == 39 || i == 40 || i == 41 || i == 42 || i == 43 || i == 44 || i == 45 || i == 46 || i == 47 || i == 48 || i == 49 || i == 50 || i == 51 || i == 52 || i == 53 || i == 54 || i == 55 || i == 56 || i == 57 || i == 58 || i == 59 || i == 60 || i == 61 || i == 62 || i == 63);
    }
}

/// A legal move is one of the side's moves, and it never leaves the mover's own king
/// attacked.
pub proof fn lemma_legal_moves_keep_the_king_safe(v: PosView, m: Mv)
    requires
        legal_moves(v).contains(m),
    ensures
        pseudo(v).contains(m),
        !checked(applied(v, m), v.white_to_move),
{
    pseudo(v).filter_lemma(legal_in(v));
    let i = choose|i: int| 0 <= i < legal_moves(v).len() && legal_moves(v)[i] == m;
    assert(legal_in(v)(legal_moves(v)[i]));
    pseudo(v).lemma_filter_contains_rev(legal_in(v), m);
}

/// After a move the other side is to move, and a pawn's double step (and only that)
/// leaves an en passant square, halfway between.
pub proof fn lemma_apply_passes_the_turn(v: PosView, m: Mv)
    requires
        mv_ok(v, m),
    ensures
        applied(v, m).white_to_move == !v.white_to_move,
        applied(v, m).ep is Some <==> (piece_kind(v.board[m.from as int]) == 1 && (m.from - m.to == 16 || m.to - m.from
            == 16)),
        applied(v, m).ep matches Some(e) ==> e as int == (m.from + m.to) / 2,
{
}

fn lift(board: &mut [u8; 64], m: Mv)
    requires
        mv_ok(PosView { board: old(board)@, white_to_move: false, castle: seq![], ep: None, halfmove: 0 }, m),
    ensures
        final(board)@ == lifted(old(board)@, m),
{
    let from = m.from as usize;
    let to = m.to as usize;
    let p = board[from];
    let white = is_white(p);
    board[to] = if m.promo != 0 {
        if white {
            m.promo
        } else {
            m.promo + 6
        }
    } else {
        p
    };
    board[from] = 0;
    if m.ep {
        let cap = if white { to + 8 } else { to - 8 };
        board[cap] = 0;
    }
}

fn castle_rook(board: &mut [u8; 64], m: Mv)
    requires
        m.from < 64,
    ensures
        final(board)@ == castled(old(board)@, m),
{
    if m.castle {
        let row = m.from as usize / 8;
        if m.to % 8 == 6 {
            board[row * 8 + 5] = board[row * 8 + 7];
            board[row * 8 + 7] = 0;
        } else {
            board[row * 8 + 3] = board[row * 8];
            board[row * 8] = 0;
        }
    }
}

fn clear_corner(castle: &mut [bool; 4], sq: usize)
    ensures
        final(castle)@ == corner_rights(old(castle)@, sq as int),
{
    match sq {
        63 => castle[0] = false,
        56 => castle[1] = false,
        7 => castle[2] = false,
        0 => castle[3] = false,
        _ => {},
    }
}

fn update_rights(castle: &mut [bool; 4], from: usize, to: usize)
    ensures
        final(castle)@ == rights_after(old(castle)@, from as int, to as int),
{
    if from == 60 {
        castle[0] = false;
        castle[1] = false;
    } else if from == 4 {
        castle[2] = false;
        castle[3] = false;
    } else {
        clear_corner(castle, from);
    }
    clear_corner(castle, to);
}

#[verifier::rlimit(40)]
fn value_of(p: u8, i: usize) -> (v: i32)
    requires
        i < 64,
        p <= 12,
    ensures
        v == piece_value(p, i as int),
        -950 <= v <= 950,
{
    if p == 0 {
        return 0;
    }
    let k = kind(p);
    let r = (i / 8) as i32;
    let c = (i % 8) as i32;
    let gr = (if r >= 3 { r - 3 } else { 3 - r }) + (if r >= 4 { r - 4 } else { 4 - r });
    let gc = (if c >= 3 { c - 3 } else { 3 - c }) + (if c >= 4 { c - 4 } else { 4 - c });
    assert(0 <= r < 8 && 0 <= c < 8);
    assert(r == i as int / 8 && c == i as int % 8);
    assert(gr == centre_gap(r as int) && gc == centre_gap(c as int));
    let centre = -(gr + gc) + 7;
    assert(-7 <= centre <= 7);
    let val: i32 = if k == 1 {
        100
    } else if k == 2 {
        320
    } else if k == 3 {
        330
    } else if k == 4 {
        500
    } else if k == 5 {
        900
    } else {
        0
    };
    let mut v = val + centre * 2;
    if k == 1 {
        v = v + if is_white(p) { (6 - r) * 6 } else { (r - 1) * 6 };
    }
    if is_white(p) {
        v
    } else {
        -v
    }
}

proof fn lemma_find_from_range(b: Seq<u8>, v: u8, i: int)
    ensures
        find_from(b, v, i) matches Some(k) ==> 0 <= k < 64 && b[k as int] == v,
    decreases 64 - i,
{
    if 0 <= i < 64 && b[i] != v {
        lemma_find_from_range(b, v, i + 1);
    }
}

/// A knight's jump from square `from` to square `to`: one row and two columns apart, or
/// two rows and one column.
pub open spec fn knight_jump(from: int, to: int) -> bool {
    let dr = to / 8 - from / 8;
    let dc = to % 8 - from % 8;
    ||| (dr == 1 || dr == -1) && (dc == 2 || dc == -2)
    ||| (dr == 2 || dr == -2) && (dc == 1 || dc == -1)
}

proof fn lemma_concat_contains(a: Seq<Mv>, b: Seq<Mv>, x: Mv)
    ensures
        (a + b).contains(x) <==> a.contains(x) || b.contains(x),
{
    if (a + b).contains(x) {
        let k = choose|k: int| 0 <= k < (a + b).len() && (a + b)[k] == x;
        if k < a.len() {
            assert(a[k] == x);
        } else {
            assert(b[k - a.len()] == x);
        }
    }
    if a.contains(x) {
        let k = choose|k: int| 0 <= k < a.len() && a[k] == x;
        assert((a + b)[k] == x);
    }
    if b.contains(x) {
        let k = choose|k: int| 0 <= k < b.len() && b[k] == x;
        assert((a + b)[a.len() + k] == x);
    }
}

proof fn lemma_jumps_contains(v: PosView, from: int, r: int, c: int, n: int, x: Mv)
    requires
        0 <= n <= 8,
    ensures
        jumps(v, from, r, c, true, n).contains(x) <==> exists|i: int|
            0 <= i < n && #[trigger] step_moves(v, from, r + knight_off(i).0, c + knight_off(i).1).contains(x),
    decreases n,
{
    if n > 0 {
        lemma_jumps_contains(v, from, r, c, n - 1, x);
        let o = knight_off(n - 1);
        lemma_concat_contains(jumps(v, from, r, c, true, n - 1), step_moves(v, from, r + o.0, c + o.1), x);
        if jumps(v, from, r, c, true, n).contains(x) {
            if !jumps(v, from, r, c, true, n - 1).contains(x) {
                assert(step_moves(v, from, r + knight_off(n - 1).0, c + knight_off(n - 1).1).contains(x));
            }
        }
    }
}

proof fn lemma_pseudo_upto_has(v: PosView, k: int, n: int, x: Mv)
    requires
        0 <= k < n,
        piece_moves(v, k).contains(x),
    ensures
        pseudo_upto(v, n).contains(x),
    decreases n,
{
    if n - 1 > k {
        lemma_pseudo_upto_has(v, k, n - 1, x);
    }
    lemma_concat_contains(pseudo_upto(v, n - 1), piece_moves(v, n - 1), x);
}

/// A knight moves as a knight: each of its moves is a plain jump one row and two columns
/// (or two rows and one column) away onto a square the mover does not hold, and every
/// such square is among the position's moves.
#[verifier::spinoff_prover]
pub proof fn lemma_knight_moves(v: PosView, from: int)
    requires
        v.board.len() == 64,
        0 <= from < 64,
        owns(v.board[from], v.white_to_move),
        piece_kind(v.board[from]) == 2,
    ensures
        forall|m: Mv|
            #[trigger] piece_moves(v, from).contains(m) ==> m == plain(from, m.to as int) && 0 <= m.to < 64 && knight_jump(
                from,
                m.to as int,
            ) && !owns(v.board[m.to as int], v.white_to_move),
        forall|to: int|
            0 <= to < 64 && #[trigger] knight_jump(from, to) && !owns(v.board[to], v.white_to_move) ==> pseudo(v).contains(
                plain(from, to),
            ) && (legal(v, plain(from, to)) ==> legal_moves(v).contains(plain(from, to))),
{
    let r = from / 8;
    let c = from % 8;
    assert(piece_moves(v, from) == jumps(v, from, r, c, true, 8));
    assert forall|m: Mv| #[trigger] piece_moves(v, from).contains(m) implies m == plain(from, m.to as int) && 0 <= m.to < 64
        && knight_jump(from, m.to as int) && !owns(v.board[m.to as int], v.white_to_move) by {
        lemma_jumps_contains(v, from, r, c, 8, m);
        let i = choose|i: int| 0 <= i < 8 && #[trigger] step_moves(v, from, r + knight_off(i).0, c + knight_off(i).1).contains(m);
        let o = knight_off(i);
        let sm = step_moves(v, from, r + o.0, c + o.1);
        assert(sm.len() == 1 && sm[0] == m);
        let to = (r + o.0) * 8 + (c + o.1);
        assert(m == plain(from, to));
        assert(to / 8 == r + o.0 && to % 8 == c + o.1);
    }
    assert forall|to: int| 0 <= to < 64 && #[trigger] knight_jump(from, to) && !owns(v.board[to], v.white_to_move) implies pseudo(
        v,
    ).contains(plain(from, to)) by {
        let dr = to / 8 - r;
        let dc = to % 8 - c;
        let i: int = if dr == 1 && dc == 2 {
            0
        } else if dr == 2 && dc == 1 {
            1
        } else if dr == -1 && dc == 2 {
            2
        } else if dr == -2 && dc == 1 {
            3
        } else if dr == 1 && dc == -2 {
            4
        } else if dr == 2 && dc == -1 {
            5
        } else if dr == -1 && dc == -2 {
            6
        } else {
            7
        };
        assert(knight_off(i) == (dr, dc));
        assert((r + dr) * 8 + (c + dc) == to);
        let sm = step_moves(v, from, r + dr, c + dc);
        assert(sm == seq![plain(from, to)]);
        assert(sm[0] == plain(from, to));
        assert(sm.contains(plain(from, to)));
        assert(step_moves(v, from, r + knight_off(i).0, c + knight_off(i).1).contains(plain(from, to)));
        lemma_jumps_contains(v, from, r, c, 8, plain(from, to));
        assert(jumps(v, from, r, c, true, 8).contains(plain(from, to)));
        assert(piece_moves(v, from).contains(plain(from, to)));
        lemma_pseudo_upto_has(v, from, 64, plain(from, to));
        if legal(v, plain(from, to)) {
            let k = choose|k: int| 0 <= k < pseudo(v).len() && pseudo(v)[k] == plain(from, to);
            assert(legal_in(v)(pseudo(v)[k]));
            pseudo(v).lemma_filter_contains(legal_in(v), k);
        }
    }
}


/// A king's step from square `from` to square `to`: to one of the eight squares around it.
pub open spec fn king_step_to(from: int, to: int) -> bool {
    let dr = to / 8 - from / 8;
    let dc = to % 8 - from % 8;
    &&& -1 <= dr <= 1
    &&& -1 <= dc <= 1
    &&& (dr != 0 || dc != 0)
}

proof fn lemma_steps_contains(v: PosView, from: int, r: int, c: int, n: int, x: Mv)
    requires
        0 <= n <= 8,
    ensures
        jumps(v, from, r, c, false, n).contains(x) <==> exists|i: int|
            0 <= i < n && #[trigger] step_moves(v, from, r + king_off(i).0, c + king_off(i).1).contains(x),
    decreases n,
{
    if n > 0 {
        lemma_steps_contains(v, from, r, c, n - 1, x);
        let o = king_off(n - 1);
        lemma_concat_contains(jumps(v, from, r, c, false, n - 1), step_moves(v, from, r + o.0, c + o.1), x);
        if jumps(v, from, r, c, false, n).contains(x) {
            if !jumps(v, from, r, c, false, n - 1).contains(x) {
                assert(step_moves(v, from, r + king_off(n - 1).0, c + king_off(n - 1).1).contains(x));
            }
        }
    }
}

/// A king moves one square: each of its moves but castling is a plain step to one of the
/// eight squares around it that the mover does not hold, and every such square is among
/// the position's moves.
#[verifier::spinoff_prover]
pub proof fn lemma_king_moves(v: PosView, from: int)
    requires
        v.board.len() == 64,
        0 <= from < 64,
        owns(v.board[from], v.white_to_move),
        piece_kind(v.board[from]) == 6,
    ensures
        forall|m: Mv|
            #[trigger] piece_moves(v, from).contains(m) && !m.castle ==> m == plain(from, m.to as int) && 0 <= m.to < 64
                && king_step_to(from, m.to as int) && !owns(v.board[m.to as int], v.white_to_move),
        forall|to: int|
            0 <= to < 64 && #[trigger] king_step_to(from, to) && !owns(v.board[to], v.white_to_move) ==> pseudo(v).contains(
                plain(from, to),
            ) && (legal(v, plain(from, to)) ==> legal_moves(v).contains(plain(from, to))),
{
    let r = from / 8;
    let c = from % 8;
    let st = jumps(v, from, r, c, false, 8);
    let cs = castles(v, from, r, c);
    assert(piece_moves(v, from) == st + cs);
    assert forall|m: Mv| #[trigger] piece_moves(v, from).contains(m) && !m.castle implies m == plain(from, m.to as int) && 0
        <= m.to < 64 && king_step_to(from, m.to as int) && !owns(v.board[m.to as int], v.white_to_move) by {
        lemma_concat_contains(st, cs, m);
        if cs.contains(m) {
            let k = choose|k: int| 0 <= k < cs.len() && cs[k] == m;
            assert(cs[k].castle);
        }
        assert(st.contains(m));
        lemma_steps_contains(v, from, r, c, 8, m);
        let i = choose|i: int| 0 <= i < 8 && #[trigger] step_moves(v, from, r + king_off(i).0, c + king_off(i).1).contains(m);
        let o = king_off(i);
        let sm = step_moves(v, from, r + o.0, c + o.1);
        assert(sm.len() == 1 && sm[0] == m);
        let to = (r + o.0) * 8 + (c + o.1);
        assert(m == plain(from, to));
        assert(to / 8 == r + o.0 && to % 8 == c + o.1);
    }
    assert forall|to: int| 0 <= to < 64 && #[trigger] king_step_to(from, to) && !owns(v.board[to], v.white_to_move) implies pseudo(
        v,
    ).contains(plain(from, to)) && (legal(v, plain(from, to)) ==> legal_moves(v).contains(plain(from, to))) by {
        let dr = to / 8 - r;
        let dc = to % 8 - c;
        let i: int = if dr == -1 {
            dc + 1
        } else if dr == 0 && dc == -1 {
            3
        } else if dr == 0 {
            4
        } else {
            dc + 6
        };
        assert(king_off(i) == (dr, dc));
        assert((r + dr) * 8 + (c + dc) == to);
        let sm = step_moves(v, from, r + dr, c + dc);
        assert(sm == seq![plain(from, to)]);
        assert(sm[0] == plain(from, to));
        assert(step_moves(v, from, r + king_off(i).0, c + king_off(i).1).contains(plain(from, to)));
        lemma_steps_contains(v, from, r, c, 8, plain(from, to));
        lemma_concat_contains(st, cs, plain(from, to));
        assert(piece_moves(v, from).contains(plain(from, to)));
        lemma_pseudo_upto_has(v, from, 64, plain(from, to));
        if legal(v, plain(from, to)) {
            let k = choose|k: int| 0 <= k < pseudo(v).len() && pseudo(v)[k] == plain(from, to);
            assert(legal_in(v)(pseudo(v)[k]));
            pseudo(v).lemma_filter_contains(legal_in(v), k);
        }
    }
}


/// `j` steps of `d`, a step of -1, 0 or 1.
pub open spec fn steps(j: int, d: int) -> int {
    if d > 0 {
        j
    } else if d < 0 {
        -j
    } else {
        0
    }
}

/// The square `j` steps along (dr, dc) from row `r`, column `c`.
pub open spec fn ray_sq(r: int, c: int, dr: int, dc: int, j: int) -> int {
    (r + steps(j, dr)) * 8 + (c + steps(j, dc))
}

/// The square `j` steps along (dr, dc) from (r, c) is on the board.
pub open spec fn ray_on(r: int, c: int, dr: int, dc: int, j: int) -> bool {
    on_board(r + steps(j, dr), c + steps(j, dc))
}

/// The first `k` squares along (dr, dc) from (r, c) are on the board and empty.
pub open spec fn ray_open(b: Seq<u8>, r: int, c: int, dr: int, dc: int, k: int) -> bool {
    forall|j: int| 0 <= j < k ==> ray_on(r, c, dr, dc, j) && #[trigger] b[ray_sq(r, c, dr, dc, j)] == 0
}

/// `x` is the move from `from` onto the square `k` steps along (dr, dc) from (r, c): on
/// the board, not held by the mover, with the squares before it empty.
pub open spec fn ray_target(v: PosView, from: int, r: int, c: int, dr: int, dc: int, k: int, x: Mv) -> bool {
    &&& ray_on(r, c, dr, dc, k)
    &&& !owns(v.board[ray_sq(r, c, dr, dc, k)], v.white_to_move)
    &&& ray_open(v.board, r, c, dr, dc, k)
    &&& x == plain(from, ray_sq(r, c, dr, dc, k))
}

proof fn lemma_ray_shift(r: int, c: int, dr: int, dc: int, j: int)
    requires
        -1 <= dr <= 1,
        -1 <= dc <= 1,
    ensures
        ray_sq(r + dr, c + dc, dr, dc, j) == ray_sq(r, c, dr, dc, j + 1),
        ray_on(r + dr, c + dc, dr, dc, j) == ray_on(r, c, dr, dc, j + 1),
        ray_sq(r, c, dr, dc, 0) == r * 8 + c,
        ray_on(r, c, dr, dc, 0) == on_board(r, c),
{
}

proof fn lemma_ray_only(v: PosView, from: int, r: int, c: int, dr: int, dc: int, fuel: nat, x: Mv)
    requires
        -1 <= dr <= 1,
        -1 <= dc <= 1,
        ray_moves(v, from, r, c, dr, dc, fuel).contains(x),
    ensures
        exists|k: int| 0 <= k <= fuel && #[trigger] ray_target(v, from, r, c, dr, dc, k, x),
    decreases fuel,
{
    let b = v.board;
    let rest = if b[r * 8 + c] == 0 && fuel > 0 {
        ray_moves(v, from, r + dr, c + dc, dr, dc, (fuel - 1) as nat)
    } else {
        seq![]
    };
    let first = seq![plain(from, r * 8 + c)];
    lemma_ray_shift(r, c, dr, dc, 0);
    assert(on_board(r, c) && !owns(b[r * 8 + c], v.white_to_move)) by {
        if !on_board(r, c) || owns(b[r * 8 + c], v.white_to_move) {
            assert(ray_moves(v, from, r, c, dr, dc, fuel).len() == 0);
        }
    }
    assert(ray_moves(v, from, r, c, dr, dc, fuel) == first + rest);
    lemma_concat_contains(first, rest, x);
    if first.contains(x) {
        assert(first[0] == x);
        assert(ray_target(v, from, r, c, dr, dc, 0, x));
    } else {
        assert(rest.contains(x));
        lemma_ray_only(v, from, r + dr, c + dc, dr, dc, (fuel - 1) as nat, x);
        let k = choose|k: int| 0 <= k <= fuel - 1 && #[trigger] ray_target(v, from, r + dr, c + dc, dr, dc, k, x);
        lemma_ray_shift(r, c, dr, dc, k);
        assert(ray_open(b, r, c, dr, dc, k + 1)) by {
            assert forall|j: int| 0 <= j < k + 1 implies ray_on(r, c, dr, dc, j) && #[trigger] b[ray_sq(r, c, dr, dc, j)] == 0 by {
                if j > 0 {
                    lemma_ray_shift(r, c, dr, dc, j - 1);
                    assert(b[ray_sq(r + dr, c + dc, dr, dc, j - 1)] == 0);
                } else {
                    assert(b[ray_sq(r, c, dr, dc, j)] == 0);
                }
            }
        }
        assert(ray_target(v, from, r, c, dr, dc, k + 1, x));
    }
}

proof fn lemma_ray_reaches(v: PosView, from: int, r: int, c: int, dr: int, dc: int, fuel: nat, k: int, x: Mv)
    requires
        -1 <= dr <= 1,
        -1 <= dc <= 1,
        0 <= k <= fuel,
        ray_target(v, from, r, c, dr, dc, k, x),
    ensures
        ray_moves(v, from, r, c, dr, dc, fuel).contains(x),
    decreases k,
{
    let b = v.board;
    lemma_ray_shift(r, c, dr, dc, 0);
    if k == 0 {
        assert(ray_moves(v, from, r, c, dr, dc, fuel)[0] == x);
    } else {
        assert(b[ray_sq(r, c, dr, dc, 0)] == 0);
        lemma_ray_shift(r, c, dr, dc, k - 1);
        assert forall|j: int| 0 <= j < k - 1 implies ray_on(r + dr, c + dc, dr, dc, j) && #[trigger] b[ray_sq(
            r + dr,
            c + dc,
            dr,
            dc,
            j,
        )] == 0 by {
            lemma_ray_shift(r, c, dr, dc, j);
            assert(b[ray_sq(r, c, dr, dc, j + 1)] == 0);
        }
        assert(ray_target(v, from, r + dr, c + dc, dr, dc, k - 1, x));
        lemma_ray_reaches(v, from, r + dr, c + dc, dr, dc, (fuel - 1) as nat, k - 1, x);
        let rest = ray_moves(v, from, r + dr, c + dc, dr, dc, (fuel - 1) as nat);
        lemma_concat_contains(seq![plain(from, r * 8 + c)], rest, x);
    }
}

proof fn lemma_rays_contains(v: PosView, from: int, r: int, c: int, lo: int, hi: int, x: Mv)
    requires
        0 <= lo <= hi <= 8,
    ensures
        rays(v, from, r, c, lo, hi).contains(x) <==> exists|i: int|
            lo <= i < hi && #[trigger] ray_moves(v, from, r + queen_dir(i).0, c + queen_dir(i).1, queen_dir(i).0, queen_dir(i).1, 8).contains(x),
    decreases hi - lo,
{
    if hi > lo {
        lemma_rays_contains(v, from, r, c, lo, hi - 1, x);
        let d = queen_dir(hi - 1);
        lemma_concat_contains(rays(v, from, r, c, lo, hi - 1), ray_moves(v, from, r + d.0, c + d.1, d.0, d.1, 8), x);
    }
}


/// The sign of `x`: -1, 0 or 1.
pub open spec fn sign(x: int) -> int {
    if x > 0 {
        1
    } else if x < 0 {
        -1
    } else {
        0
    }
}

/// The number of king steps from square `from` to square `to`.
pub open spec fn span(from: int, to: int) -> int {
    let dr = to / 8 - from / 8;
    let dc = to % 8 - from % 8;
    let ar = if dr < 0 { -dr } else { dr };
    let ac = if dc < 0 { -dc } else { dc };
    if ar < ac { ac } else { ar }
}

/// `to` is on the row or the column of `from`, and not `from` itself.
pub open spec fn rook_line(from: int, to: int) -> bool {
    (to / 8 - from / 8 == 0) != (to % 8 - from % 8 == 0)
}

/// `to` is on a diagonal through `from`, and not `from` itself.
pub open spec fn bishop_line(from: int, to: int) -> bool {
    let dr = to / 8 - from / 8;
    let dc = to % 8 - from % 8;
    dr != 0 && (dr == dc || dr == -dc)
}

/// The squares strictly between `from` and `to`, along the line that joins them, are empty.
pub open spec fn path_clear(b: Seq<u8>, from: int, to: int) -> bool {
    let dr = sign(to / 8 - from / 8);
    let dc = sign(to % 8 - from % 8);
    forall|j: int| 0 < j < span(from, to) ==> #[trigger] b[ray_sq(from / 8, from % 8, dr, dc, j)] == 0
}

/// A slider of kind `k` (3 bishop, 4 rook, 5 queen) moves along this line from `from` to `to`.
pub open spec fn slides_to(k: u8, from: int, to: int) -> bool {
    ||| (k == 4 || k == 5) && rook_line(from, to)
    ||| (k == 3 || k == 5) && bishop_line(from, to)
}

/// The first and one past the last queen direction a slider of kind `k` uses.
spec fn dir_range(k: u8) -> (int, int) {
    if k == 3 {
        (0, 4)
    } else if k == 4 {
        (4, 8)
    } else {
        (0, 8)
    }
}

#[verifier::spinoff_prover]
proof fn lemma_slider_sound(v: PosView, from: int, m: Mv)
    requires
        v.board.len() == 64,
        0 <= from < 64,
        owns(v.board[from], v.white_to_move),
        piece_kind(v.board[from]) == 3 || piece_kind(v.board[from]) == 4 || piece_kind(v.board[from]) == 5,
        piece_moves(v, from).contains(m),
    ensures
        m == plain(from, m.to as int),
        0 <= m.to < 64,
        slides_to(piece_kind(v.board[from]), from, m.to as int),
        path_clear(v.board, from, m.to as int),
        !owns(v.board[m.to as int], v.white_to_move),
{
    let b = v.board;
    let kind = piece_kind(b[from]);
    let r = from / 8;
    let c = from % 8;
    let (lo, hi) = dir_range(kind);
    assert(piece_moves(v, from) == rays(v, from, r, c, lo, hi));
    lemma_rays_contains(v, from, r, c, lo, hi, m);
    let i = choose|i: int|
        lo <= i < hi && #[trigger] ray_moves(v, from, r + queen_dir(i).0, c + queen_dir(i).1, queen_dir(i).0, queen_dir(i).1, 8).contains(m);
    let d = queen_dir(i);
    lemma_ray_only(v, from, r + d.0, c + d.1, d.0, d.1, 8, m);
    let k = choose|k: int| 0 <= k <= 8 && #[trigger] ray_target(v, from, r + d.0, c + d.1, d.0, d.1, k, m);
    lemma_ray_shift(r, c, d.0, d.1, k);
    let to = ray_sq(r, c, d.0, d.1, k + 1);
    let rr = r + steps(k + 1, d.0);
    let cc = c + steps(k + 1, d.1);
    assert(to == rr * 8 + cc);
    assert(on_board(rr, cc));
    assert(to / 8 == rr && to % 8 == cc);
    assert(m == plain(from, to));
    assert(m.to as int == to);
    assert(sign(rr - r) == d.0 && sign(cc - c) == d.1);
    assert(span(from, to) == k + 1);
    assert forall|j: int| 0 < j < span(from, to) implies #[trigger] b[ray_sq(from / 8, from % 8, sign(to / 8 - from / 8), sign(to % 8 - from % 8), j)] == 0 by {
        lemma_ray_shift(r, c, d.0, d.1, j - 1);
        assert(b[ray_sq(r + d.0, c + d.1, d.0, d.1, j - 1)] == 0);
    }
}

#[verifier::spinoff_prover]
proof fn lemma_slider_complete(v: PosView, from: int, to: int)
    requires
        v.board.len() == 64,
        0 <= from < 64,
        0 <= to < 64,
        owns(v.board[from], v.white_to_move),
        slides_to(piece_kind(v.board[from]), from, to),
        path_clear(v.board, from, to),
        !owns(v.board[to], v.white_to_move),
    ensures
        piece_moves(v, from).contains(plain(from, to)),
{
    let b = v.board;
    let kind = piece_kind(b[from]);
    let r = from / 8;
    let c = from % 8;
    let rr = to / 8;
    let cc = to % 8;
    let d0 = sign(rr - r);
    let d1 = sign(cc - c);
    let n = span(from, to);
    let (lo, hi) = dir_range(kind);
    let i: int = if d0 == 1 && d1 == 1 {
        0
    } else if d0 == 1 && d1 == -1 {
        1
    } else if d0 == -1 && d1 == 1 {
        2
    } else if d0 == -1 && d1 == -1 {
        3
    } else if d0 == 1 {
        4
    } else if d0 == -1 {
        5
    } else if d1 == 1 {
        6
    } else {
        7
    };
    assert(queen_dir(i) == (d0, d1));
    assert(lo <= i < hi);
    assert(1 <= n <= 7);
    let k = n - 1;
    let x = plain(from, to);
    lemma_ray_shift(r, c, d0, d1, k);
    assert(rr == r + steps(n, d0) && cc == c + steps(n, d1));
    assert(ray_sq(r, c, d0, d1, n) == to);
    assert forall|j: int| 0 <= j < k implies ray_on(r + d0, c + d1, d0, d1, j) && #[trigger] b[ray_sq(r + d0, c + d1, d0, d1, j)] == 0 by {
        lemma_ray_shift(r, c, d0, d1, j);
        assert(b[ray_sq(from / 8, from % 8, d0, d1, j + 1)] == 0);
    }
    assert(ray_open(b, r + d0, c + d1, d0, d1, k));
    assert(ray_target(v, from, r + d0, c + d1, d0, d1, k, x));
    lemma_ray_reaches(v, from, r + d0, c + d1, d0, d1, 8, k, x);
    assert(ray_moves(v, from, r + queen_dir(i).0, c + queen_dir(i).1, queen_dir(i).0, queen_dir(i).1, 8).contains(x));
    lemma_rays_contains(v, from, r, c, lo, hi, x);
    assert(piece_moves(v, from) == rays(v, from, r, c, lo, hi));
}

/// Bishops, rooks and queens slide: each of their moves is a plain move along a diagonal
/// (a bishop's), a row or a column (a rook's), or either (a queen's), over empty squares
/// only, onto a square the mover does not hold; and every such square is among the
/// position's moves.
#[verifier::spinoff_prover]
pub proof fn lemma_slider_moves(v: PosView, from: int)
    requires
        v.board.len() == 64,
        0 <= from < 64,
        owns(v.board[from], v.white_to_move),
        piece_kind(v.board[from]) == 3 || piece_kind(v.board[from]) == 4 || piece_kind(v.board[from]) == 5,
    ensures
        forall|m: Mv|
            #[trigger] piece_moves(v, from).contains(m) ==> m == plain(from, m.to as int) && 0 <= m.to < 64 && slides_to(
                piece_kind(v.board[from]),
                from,
                m.to as int,
            ) && path_clear(v.board, from, m.to as int) && !owns(v.board[m.to as int], v.white_to_move),
        forall|to: int|
            0 <= to < 64 && #[trigger] slides_to(piece_kind(v.board[from]), from, to) && path_clear(v.board, from, to)
                && !owns(v.board[to], v.white_to_move) ==> pseudo(v).contains(plain(from, to)) && (legal(v, plain(from, to))
                ==> legal_moves(v).contains(plain(from, to))),
{
    assert forall|m: Mv| #[trigger] piece_moves(v, from).contains(m) implies m == plain(from, m.to as int) && 0 <= m.to < 64
        && slides_to(piece_kind(v.board[from]), from, m.to as int) && path_clear(v.board, from, m.to as int) && !owns(
        v.board[m.to as int],
        v.white_to_move,
    ) by {
        lemma_slider_sound(v, from, m);
    }
    assert forall|to: int|
        0 <= to < 64 && #[trigger] slides_to(piece_kind(v.board[from]), from, to) && path_clear(v.board, from, to) && !owns(
            v.board[to],
            v.white_to_move,
        ) implies pseudo(v).contains(plain(from, to)) && (legal(v, plain(from, to)) ==> legal_moves(v).contains(
        plain(from, to),
    )) by {
        lemma_slider_complete(v, from, to);
        lemma_pseudo_upto_has(v, from, 64, plain(from, to));
        if legal(v, plain(from, to)) {
            let k = choose|k: int| 0 <= k < pseudo(v).len() && pseudo(v)[k] == plain(from, to);
            assert(legal_in(v)(pseudo(v)[k]));
            pseudo(v).lemma_filter_contains(legal_in(v), k);
        }
    }
}


/// Move `m` is a pawn move from `from` for the side to move: one row forward (up for
/// white) onto an empty square in the same column, or two from the starting row over an
/// empty square; one row forward and one column aside onto an enemy piece, or onto the
/// empty en passant square; a promotion exactly when it reaches the far row.
pub open spec fn pawn_goes(v: PosView, from: int, m: Mv) -> bool {
    let white = v.white_to_move;
    let b = v.board;
    let fwd: int = if white { -1 } else { 1 };
    let last: int = if white { 0 } else { 7 };
    let home: int = if white { 6 } else { 1 };
    let to = m.to as int;
    let dr = to / 8 - from / 8;
    let dc = to % 8 - from % 8;
    &&& m.from as int == from
    &&& 0 <= to < 64
    &&& !m.castle
    &&& !m.ep ==> ((m.promo != 0) == (to / 8 == last))
    &&& m.ep ==> m.promo == 0
    &&& (m.promo == 0 || m.promo == 2 || m.promo == 3 || m.promo == 4 || m.promo == 5)
    &&& {
        ||| dc == 0 && !m.ep && b[to] == 0 && (dr == fwd || (dr == 2 * fwd && from / 8 == home && b[from + 8 * fwd] == 0))
        ||| (dc == 1 || dc == -1) && dr == fwd && !m.ep && b[to] != 0 && !owns(b[to], white)
        ||| (dc == 1 || dc == -1) && dr == fwd && m.ep && b[to] == 0 && v.ep == Some(m.to)
    }
}

proof fn lemma_promotions_go(v: PosView, from: int, to: int, m: Mv)
    requires
        promotions(from, to).contains(m),
    ensures
        m.from == from as u8,
        m.to == to as u8,
        !m.castle && !m.ep,
        m.promo == 2 || m.promo == 3 || m.promo == 4 || m.promo == 5,
{
    let s = promotions(from, to);
    let k = choose|k: int| 0 <= k < s.len() && s[k] == m;
}

#[verifier::spinoff_prover]
proof fn lemma_pawn_sound(v: PosView, from: int, m: Mv)
    requires
        v.board.len() == 64,
        0 <= from < 64,
        owns(v.board[from], v.white_to_move),
        piece_kind(v.board[from]) == 1,
        piece_moves(v, from).contains(m),
    ensures
        pawn_goes(v, from, m),
{
    let b = v.board;
    let white = v.white_to_move;
    let r = from / 8;
    let c = from % 8;
    let pu = pawn_pushes(v, from, r, c);
    let tl = pawn_takes(v, from, r, c, -1);
    let tr = pawn_takes(v, from, r, c, 1);
    assert(piece_moves(v, from) == pu + tl + tr);
    lemma_concat_contains(pu + tl, tr, m);
    lemma_concat_contains(pu, tl, m);
    let dir = pawn_dir(white);
    let one = r + dir;
    let last: int = if white { 0 } else { 7 };
    if pu.contains(m) {
        assert(0 <= one < 8 && b[one * 8 + c] == 0);
        if one == last {
            lemma_promotions_go(v, from, one * 8 + c, m);
            assert((one * 8 + c) / 8 == one && (one * 8 + c) % 8 == c);
        } else {
            let tw = (r + 2 * dir) * 8 + c;
            let rest = if r == (if white { 6int } else { 1int }) && b[tw] == 0 {
                seq![plain(from, tw)]
            } else {
                seq![]
            };
            assert(pu == seq![plain(from, one * 8 + c)] + rest);
            lemma_concat_contains(seq![plain(from, one * 8 + c)], rest, m);
            if rest.contains(m) {
                assert(rest[0] == m);
                assert(tw / 8 == r + 2 * dir && tw % 8 == c);
                assert(from + 8 * dir == one * 8 + c);
            } else {
                assert(seq![plain(from, one * 8 + c)][0] == m);
                assert((one * 8 + c) / 8 == one && (one * 8 + c) % 8 == c);
            }
        }
    } else {
        let dc: int = if tl.contains(m) { -1 } else { 1 };
        let t = pawn_takes(v, from, r, c, dc);
        assert(t.contains(m));
        let cc = c + dc;
        assert(on_board(one, cc));
        let to = one * 8 + cc;
        assert(to / 8 == one && to % 8 == cc);
        if b[to] != 0 && !owns(b[to], white) {
            if one == last {
                lemma_promotions_go(v, from, to, m);
            } else {
                assert(t[0] == m);
            }
        } else {
            assert(t[0] == m);
        }
    }
}

/// A pawn moves as a pawn: each of its moves goes one row forward (up for white) onto an
/// empty square, two from its starting row over an empty square, or one row forward and
/// one column aside onto an enemy piece or the en passant square, promoting exactly on
/// the far row; and the step forward onto an empty square, and the step aside onto an
/// enemy piece, are among its moves.
#[verifier::spinoff_prover]
pub proof fn lemma_pawn_moves(v: PosView, from: int)
    requires
        v.board.len() == 64,
        0 <= from < 64,
        owns(v.board[from], v.white_to_move),
        piece_kind(v.board[from]) == 1,
    ensures
        forall|m: Mv| #[trigger] piece_moves(v, from).contains(m) ==> pawn_goes(v, from, m),
        forall|to: int|
            0 <= to < 64 && to % 8 - from % 8 == 0 && to / 8 - from / 8 == (if v.white_to_move { -1int } else { 1int })
                && v.board[to] == 0 ==> exists|m: Mv| #[trigger] piece_moves(v, from).contains(m) && m.to as int == to,
        forall|to: int|
            0 <= to < 64 && (to % 8 - from % 8 == 1 || to % 8 - from % 8 == -1) && to / 8 - from / 8 == (if v.white_to_move {
                -1int
            } else {
                1int
            }) && v.board[to] != 0 && !owns(v.board[to], v.white_to_move) ==> exists|m: Mv| #[trigger] piece_moves(v, from).contains(m)
                && m.to as int == to,
{
    let b = v.board;
    let white = v.white_to_move;
    let r = from / 8;
    let c = from % 8;
    let pu = pawn_pushes(v, from, r, c);
    let tl = pawn_takes(v, from, r, c, -1);
    let tr = pawn_takes(v, from, r, c, 1);
    assert(piece_moves(v, from) == pu + tl + tr);
    assert forall|m: Mv| #[trigger] piece_moves(v, from).contains(m) implies pawn_goes(v, from, m) by {
        lemma_pawn_sound(v, from, m);
    }
    let dir = pawn_dir(white);
    let last: int = if white { 0 } else { 7 };
    assert forall|to: int|
        0 <= to < 64 && to % 8 - from % 8 == 0 && to / 8 - from / 8 == (if white { -1int } else { 1int }) && b[to] == 0 implies exists|m: Mv|
        #[trigger] piece_moves(v, from).contains(m) && m.to as int == to by {
        let one = r + dir;
        assert(to == one * 8 + c);
        let m = if one == last { promo_mv(from, to, 5) } else { plain(from, to) };
        assert(pu[0] == m);
        assert(pu.contains(m));
        lemma_concat_contains(pu, tl, m);
        lemma_concat_contains(pu + tl, tr, m);
        assert(piece_moves(v, from).contains(m));
    }
    assert forall|to: int|
        0 <= to < 64 && (to % 8 - from % 8 == 1 || to % 8 - from % 8 == -1) && to / 8 - from / 8 == (if white {
            -1int
        } else {
            1int
        }) && b[to] != 0 && !owns(b[to], white) implies exists|m: Mv| #[trigger] piece_moves(v, from).contains(m) && m.to as int
        == to by {
        let one = r + dir;
        let dc = to % 8 - c;
        assert(to == one * 8 + c + dc);
        let t = pawn_takes(v, from, r, c, dc);
        let m = if one == last { promo_mv(from, to, 5) } else { plain(from, to) };
        assert(t[0] == m);
        assert(t.contains(m));
        if dc == -1 {
            lemma_concat_contains(pu, tl, m);
            lemma_concat_contains(pu + tl, tr, m);
        } else {
            lemma_concat_contains(pu + tl, tr, m);
        }
        assert(piece_moves(v, from).contains(m));
    }
}


/// What stands `j` steps along (dr, dc) from (r, c) (255 off the board).
pub open spec fn ray_at(b: Seq<u8>, r: int, c: int, dr: int, dc: int, j: int) -> u8 {
    at(b, r + steps(j, dr), c + steps(j, dc))
}

proof fn lemma_ray_hit_finds(b: Seq<u8>, r: int, c: int, dr: int, dc: int, fuel: nat, n: int)
    requires
        -1 <= dr <= 1,
        -1 <= dc <= 1,
        1 <= n <= fuel + 1,
        forall|j: int| 1 <= j < n ==> #[trigger] ray_at(b, r, c, dr, dc, j) == 0,
        ray_at(b, r, c, dr, dc, n) != 0,
    ensures
        ray_hit(b, r, c, dr, dc, fuel) == ray_at(b, r, c, dr, dc, n),
    decreases n,
{
    if n > 1 {
        assert(ray_at(b, r, c, dr, dc, 1) == 0);
        assert forall|j: int| 1 <= j < n - 1 implies #[trigger] ray_at(b, r + dr, c + dc, dr, dc, j) == 0 by {
            assert(ray_at(b, r, c, dr, dc, j + 1) == 0);
        }
        assert(ray_at(b, r + dr, c + dc, dr, dc, n - 1) == ray_at(b, r, c, dr, dc, n));
        lemma_ray_hit_finds(b, r + dr, c + dc, dr, dc, (fuel - 1) as nat, n - 1);
    }
}

#[verifier::spinoff_prover]
proof fn lemma_slider_attacks(b: Seq<u8>, from: int, sq: int, by_white: bool)
    requires
        b.len() == 64,
        0 <= from < 64,
        0 <= sq < 64,
        owns(b[from], by_white),
        slides_to(piece_kind(b[from]), from, sq),
        path_clear(b, from, sq),
    ensures
        attacked_on(b, sq, by_white),
{
    let r = sq / 8;
    let c = sq % 8;
    let fr = from / 8;
    let fc = from % 8;
    let d0 = sign(fr - r);
    let d1 = sign(fc - c);
    let n = span(from, sq);
    assert(1 <= n <= 7);
    assert(fr == r + steps(n, d0) && fc == c + steps(n, d1));
    assert forall|j: int| 1 <= j < n implies #[trigger] ray_at(b, r, c, d0, d1, j) == 0 by {
        assert(fr + steps(n - j, -d0) == r + steps(j, d0));
        assert(fc + steps(n - j, -d1) == c + steps(j, d1));
        assert(sign(r - fr) == -d0 && sign(c - fc) == -d1);
        assert(b[ray_sq(fr, fc, -d0, -d1, n - j)] == 0);
        assert(on_board(r + steps(j, d0), c + steps(j, d1)));
    }
    assert(ray_at(b, r, c, d0, d1, n) == b[from]);
    lemma_ray_hit_finds(b, r, c, d0, d1, 8, n);
    let i: int = if d1 == 0 && d0 == 1 {
        0
    } else if d1 == 0 {
        1
    } else if d0 == 0 && d1 == 1 {
        2
    } else if d0 == 0 {
        3
    } else if d0 == 1 && d1 == 1 {
        4
    } else if d0 == 1 {
        5
    } else if d1 == 1 {
        6
    } else {
        7
    };
    assert(attack_dir(i) == (d0, d1));
    assert(slider_hit(b, r, c, by_white, i));
}

/// A side attacks every square its pieces reach: a pawn the two squares one row ahead of
/// it (up for white) and one column aside, a knight its jumps, the king the squares
/// around it, and a bishop, rook or queen each square along its lines up to the first
/// piece in the way.
#[verifier::spinoff_prover]
pub proof fn lemma_attacks(b: Seq<u8>, from: int, sq: int, by_white: bool)
    requires
        b.len() == 64,
        0 <= from < 64,
        0 <= sq < 64,
        owns(b[from], by_white),
    ensures
        piece_kind(b[from]) == 1 && from / 8 - sq / 8 == (if by_white { 1int } else { -1int }) && (from % 8 - sq % 8 == 1
            || from % 8 - sq % 8 == -1) ==> attacked_on(b, sq, by_white),
        piece_kind(b[from]) == 2 && knight_jump(from, sq) ==> attacked_on(b, sq, by_white),
        piece_kind(b[from]) == 6 && king_step_to(from, sq) ==> attacked_on(b, sq, by_white),
        slides_to(piece_kind(b[from]), from, sq) && path_clear(b, from, sq) ==> attacked_on(b, sq, by_white),
{
    let r = sq / 8;
    let c = sq % 8;
    let dr = from / 8 - r;
    let dc = from % 8 - c;
    assert(at(b, r + dr, c + dc) == b[from]);
    if piece_kind(b[from]) == 2 && knight_jump(from, sq) {
        let i: int = if dr == 1 && dc == 2 {
            0
        } else if dr == 2 && dc == 1 {
            1
        } else if dr == -1 && dc == 2 {
            2
        } else if dr == -2 && dc == 1 {
            3
        } else if dr == 1 && dc == -2 {
            4
        } else if dr == 2 && dc == -1 {
            5
        } else if dr == -1 && dc == -2 {
            6
        } else {
            7
        };
        assert(knight_off(i) == (dr, dc));
        assert(knight_hit(b, r, c, by_white, i));
    }
    if piece_kind(b[from]) == 6 && king_step_to(from, sq) {
        let i: int = if dr == -1 {
            dc + 1
        } else if dr == 0 && dc == -1 {
            3
        } else if dr == 0 {
            4
        } else {
            dc + 6
        };
        assert(king_off(i) == (dr, dc));
        assert(king_hit(b, r, c, by_white, i));
    }
    if slides_to(piece_kind(b[from]), from, sq) && path_clear(b, from, sq) {
        lemma_slider_attacks(b, from, sq, by_white);
    }
}


/// A legal move never leaves the mover's king attacked: after it, the king of the side
/// that moved stands on its square, and no enemy pawn, knight, king, or bishop, rook or
/// queen with a free path reaches that square.
#[verifier::spinoff_prover]
pub proof fn lemma_legal_keeps_king_safe(v: PosView, m: Mv, k: usize, from: int)
    requires
        v.board.len() == 64,
        mv_ok(v, m),
        legal(v, m),
        king_square(moved_board(v, m), v.white_to_move) == Some(k),
        0 <= from < 64,
        owns(moved_board(v, m)[from], !v.white_to_move),
    ensures
        moved_board(v, m)[k as int] == (if v.white_to_move { 6u8 } else { 12u8 }),
        !(piece_kind(moved_board(v, m)[from]) == 1 && from / 8 - k / 8 == (if v.white_to_move { -1int } else { 1int }) && (
        from % 8 - k % 8 == 1 || from % 8 - k % 8 == -1)),
        !(piece_kind(moved_board(v, m)[from]) == 2 && knight_jump(from, k as int)),
        !(piece_kind(moved_board(v, m)[from]) == 6 && king_step_to(from, k as int)),
        !(slides_to(piece_kind(moved_board(v, m)[from]), from, k as int) && path_clear(moved_board(v, m), from, k as int)),
{
    let b2 = moved_board(v, m);
    let w = v.white_to_move;
    lemma_find_from_range(b2, if w { 6u8 } else { 12u8 }, 0);
    let b1 = lifted(v.board, m);
    assert(b1.len() == 64);
    assert(b2.len() == 64);
    assert(applied(v, m).board == b2);
    assert(!attacked_on(b2, k as int, !w));
    lemma_attacks(b2, from, k as int, !w);
}

} // verus!
