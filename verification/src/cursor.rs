//! The word cursor: lands on the rarest word, moves by rarity or line, looks up, grows a
//! selection for a highlight.

use vstd::prelude::*;
use vstd::utf8::encode_utf8;
use crate::keys::{Key, KeyEvent, KeyKind};
use crate::textutil::{
    ascii_digit, char_lowercase, char_to_lowercase, chars_of, ends_with, is_alnum, is_upper, is_uppercase, push_char,
    push_str, string_of, strips, trim_by, trim_chars, trim_end_by, trim_end_chars, Strip,
};
use crate::words::{fnv1a, fnv_bytes, fnv_over, WordTables};
use crate::bookshop::catalog::{first_after, join, stable_sort, upto};

verus! {

/// How many words Rarer / Next cycle through.
pub const CYCLE: usize = 6;

/// A word's box on the page.
#[derive(Clone, Copy, Debug, PartialEq, Eq, Default, Structural)]
pub struct Rect {
    /// Left edge.
    pub x: i32,
    /// Top edge.
    pub y: i32,
    /// Width.
    pub w: u32,
    /// Height.
    pub h: u32,
}

/// The bytes a word hashes: each character lowercased on its own, in UTF-8.
pub open spec fn lowered_bytes(w: Seq<char>) -> Seq<u8>
    decreases w.len(),
{
    if w.len() == 0 {
        Seq::empty()
    } else {
        lowered_bytes(w.drop_last()) + encode_utf8(char_lowercase(w.last()))
    }
}

/// FNV-1a over the lowercase form of `word`, as the tables hash their words.
pub fn hash_lower(word: &str) -> (h: u32)
    ensures
        h == fnv1a(lowered_bytes(word@)),
{
    let cs = chars_of(word);
    let mut h: u32 = 0x811c_9dc5;
    let mut i: usize = 0;
    proof {
        assert(cs@.take(0) =~= Seq::<char>::empty());
    }
    while i < cs.len()
        invariant
            i <= cs.len(),
            cs@ == word@,
            h == fnv_over(0x811c_9dc5, lowered_bytes(cs@.take(i as int))),
        decreases cs.len() - i,
    {
        let lc = char_to_lowercase(cs[i]);
        let ls = string_of(&lc);
        let ghost before = lowered_bytes(cs@.take(i as int));
        h = fnv_bytes(h, ls.as_str().as_bytes());
        proof {
            crate::words::lemma_fnv_over_append(0x811c_9dc5, before, encode_utf8(char_lowercase(cs@[i as int])));
            assert(cs@.take(i + 1).drop_last() =~= cs@.take(i as int));
        }
        i += 1;
    }
    proof {
        assert(cs@.take(cs.len() as int) =~= word@);
        crate::words::lemma_fnv_over(lowered_bytes(word@));
    }
    h
}

/// `"'s"`.
pub open spec fn apostrophe_s() -> Seq<char> {
    seq!['\'', 's']
}

/// `"’s"`.
pub open spec fn curly_s() -> Seq<char> {
    seq!['\u{2019}', 's']
}

/// The word without surrounding punctuation or a possessive ending, which is what the
/// frequency list and the dictionary know.
pub open spec fn spec_normalise(word: Seq<char>) -> Seq<char> {
    let w = trim_by(word, strips(Strip::NonAlnum));
    let w = if ends_with(w, apostrophe_s()) {
        w.subrange(0, w.len() - 2)
    } else if ends_with(w, curly_s()) {
        w.subrange(0, w.len() - 2)
    } else {
        w
    };
    trim_end_by(w, strips(Strip::NonAlnum))
}

/// The word without surrounding punctuation or a possessive ending.
pub fn normalise(word: &str) -> (r: String)
    ensures
        r@ == spec_normalise(word@),
{
    let cs = chars_of(word);
    let w = trim_chars(&cs, Strip::NonAlnum);
    let a = vec!['\'', 's'];
    let b = vec!['\u{2019}', 's'];
    assert(a@ =~= apostrophe_s());
    assert(b@ =~= curly_s());
    let w2 = if crate::textutil::chars_end_with(&w, &a) {
        crate::textutil::prefix_chars(&w, w.len() - 2)
    } else if crate::textutil::chars_end_with(&w, &b) {
        crate::textutil::prefix_chars(&w, w.len() - 2)
    } else {
        w
    };
    let t = trim_end_chars(&w2, Strip::NonAlnum);
    string_of(&t)
}

/// The rank of a word in the frequency list (0 = the most common): the rank beside the
/// hash of its normalised form; none for an empty form or a hash not in the table.
pub open spec fn spec_rank(word: Seq<char>, t: WordTables) -> Option<u16> {
    let w = spec_normalise(word);
    if w.len() == 0 {
        None
    } else {
        t.spec_rank(fnv1a(lowered_bytes(w)))
    }
}

/// Rank of a word in the frequency list (0 = the first word); None when not in the list.
pub fn rank(word: &str, t: &WordTables) -> (r: Option<u32>)
    requires
        t.wf(),
    ensures
        r == (match spec_rank(word@, *t) {
            Some(k) => Some(k as u32),
            None => None,
        }),
{
    let w = normalise(word);
    if w.as_str().is_empty() {
        return None;
    }
    let h = hash_lower(w.as_str());
    match t.rank_of_hash(h) {
        Some(k) => Some(k as u32),
        None => None,
    }
}

/// The first character is upper case and no other is.
pub open spec fn capitalised(w: Seq<char>) -> bool {
    w.len() > 0 && is_upper(w[0]) && forall|i: int| 1 <= i < w.len() ==> !is_upper(#[trigger] w[i])
}

/// Rarity score: higher is rarer. Words under four characters and numbers score 0; a
/// listed word scores its rank plus one; an unknown word scores 50 000 plus its length
/// when capitalised (names, mostly), else 100 000 plus its length.
pub open spec fn spec_rarity(word: Seq<char>, t: WordTables) -> int {
    let w = spec_normalise(word);
    let n = w.len() as int;
    if n < 4 || (forall|i: int| 0 <= i < n ==> ascii_digit(#[trigger] w[i])) {
        0
    } else {
        match spec_rank(w, t) {
            Some(r) => r + 1,
            None => if capitalised(w) { 50_000 + n } else { 100_000 + n },
        }
    }
}

/// Rarity score: higher is rarer.
pub fn rarity(word: &str, t: &WordTables) -> (r: u32)
    requires
        t.wf(),
        word@.len() <= u32::MAX - 100_000,
    ensures
        r == spec_rarity(word@, *t),
{
    let w = normalise(word);
    let cs = chars_of(w.as_str());
    let n = cs.len();
    let mut digits = true;
    let mut i: usize = 0;
    while i < n
        invariant
            i <= n == cs.len(),
            digits == (forall|j: int| 0 <= j < i ==> ascii_digit(#[trigger] cs@[j])),
        decreases n - i,
    {
        if !('0' <= cs[i] && cs[i] <= '9') {
            digits = false;
        }
        i += 1;
    }
    if n < 4 || digits {
        return 0;
    }
    proof {
        lemma_normalise_len(word@);
    }
    match rank(w.as_str(), t) {
        Some(r) => r + 1,
        None => {
            let mut cap = is_uppercase(cs[0]);
            let mut j: usize = 1;
            while j < n
                invariant
                    1 <= j <= n == cs.len(),
                    cap == (is_upper(cs@[0]) && forall|q: int| 1 <= q < j ==> !is_upper(#[trigger] cs@[q])),
                decreases n - j,
            {
                if is_uppercase(cs[j]) {
                    cap = false;
                }
                j += 1;
            }
            if cap {
                50_000 + n as u32
            } else {
                100_000 + n as u32
            }
        },
    }
}


proof fn lemma_normalise_len(word: Seq<char>)
    ensures
        spec_normalise(word).len() <= word.len(),
{
    crate::textutil::lemma_trim_len(word, strips(Strip::NonAlnum));
    let w = trim_by(word, strips(Strip::NonAlnum));
    let w2 = if ends_with(w, apostrophe_s()) {
        w.subrange(0, w.len() - 2)
    } else if ends_with(w, curly_s()) {
        w.subrange(0, w.len() - 2)
    } else {
        w
    };
    crate::textutil::lemma_trim_end_len(w2, strips(Strip::NonAlnum));
}


/// Coordinates small enough for the cursor's arithmetic.
pub open spec fn page_rect(r: Rect) -> bool {
    -0x2000_0000 <= r.x <= 0x2000_0000 && r.w <= 0x2000_0000
}

/// The horizontal centre of a box.
pub open spec fn centre(r: Rect) -> int {
    r.x + (r.w as int) / 2
}

/// Word `a` is less rare than word `b` (so it comes after it).
pub open spec fn less_rare(scores: Seq<u32>) -> spec_fn(usize, usize) -> bool {
    |a: usize, b: usize| scores[a as int] < scores[b as int]
}

/// The rarity order of the words: rarest first, ties in page order.
pub open spec fn rarity_order(scores: Seq<u32>) -> Seq<usize> {
    stable_sort(upto(scores.len()), less_rare(scores))
}

/// The nearest line below (`down`) or above `cy` among the first `n` boxes.
pub open spec fn next_line(rects: Seq<Rect>, cy: i32, down: bool, n: int) -> Option<i32>
    decreases n,
{
    if n <= 0 {
        None
    } else {
        let prev = next_line(rects, cy, down, n - 1);
        let y = rects[n - 1].y;
        if (down && y > cy) || (!down && y < cy) {
            match prev {
                Some(p) => Some(if (down && y < p) || (!down && y > p) { y } else { p }),
                None => Some(y),
            }
        } else {
            prev
        }
    }
}

/// The first of the first `n` boxes on line `ty` whose centre is nearest `cx`.
pub open spec fn nearest(rects: Seq<Rect>, ty: i32, cx: int, n: int) -> Option<int>
    decreases n,
{
    if n <= 0 {
        None
    } else {
        let prev = nearest(rects, ty, cx, n - 1);
        let d = abs(centre(rects[n - 1]) - cx);
        if rects[n - 1].y == ty {
            match prev {
                Some(p) => if d < abs(centre(rects[p]) - cx) { Some(n - 1) } else { Some(p) },
                None => Some(n - 1),
            }
        } else {
            prev
        }
    }
}

/// The first position at or after `p` holding `x` (`usize::MAX` if none).
pub open spec fn position(s: Seq<usize>, x: usize, p: int) -> usize
    decreases s.len() - p,
{
    if p < 0 || p >= s.len() {
        usize::MAX
    } else if s[p] == x {
        p as usize
    } else {
        position(s, x, p + 1)
    }
}

proof fn lemma_nearest_bounds(rects: Seq<Rect>, ty: i32, cx: int, n: int)
    ensures
        nearest(rects, ty, cx, n) matches Some(j) ==> 0 <= j < n,
    decreases n,
{
    if n > 0 {
        lemma_nearest_bounds(rects, ty, cx, n - 1);
    }
}

/// Absolute value.
pub open spec fn abs(v: int) -> int {
    if v < 0 {
        -v
    } else {
        v
    }
}

/// What the cursor does with a key.
#[derive(Clone, Debug, PartialEq, Eq)]
pub enum CursorStep {
    /// Nothing.
    Ignore,
    /// Redraw.
    Redraw,
    /// Close the cursor.
    Close,
    /// Close and look the word up.
    Define(String),
    /// Close and save the selection as a highlight.
    Save(String),
}

/// The word cursor screen.
pub struct WordCursor {
    words: Vec<(String, Rect)>,
    by_rarity: Vec<usize>,
    cur: usize,
    rare_pos: usize,
    sel_end: Option<usize>,
}

impl WordCursor {
    /// The words of the page.
    pub closed spec fn texts(self) -> Seq<Seq<char>> {
        self.words@.map_values(|w: (String, Rect)| w.0@)
    }

    /// Their boxes.
    pub closed spec fn rects(self) -> Seq<Rect> {
        self.words@.map_values(|w: (String, Rect)| w.1)
    }

    /// The words in rarity order.
    pub closed spec fn order(self) -> Seq<usize> {
        self.by_rarity@
    }

    /// The current word.
    pub closed spec fn spec_cur(self) -> usize {
        self.cur
    }

    /// The position in the rarity order (past the cycle after a line move).
    pub closed spec fn spec_rare_pos(self) -> usize {
        self.rare_pos
    }

    /// The selection's end, when selecting.
    pub closed spec fn spec_sel_end(self) -> Option<usize> {
        self.sel_end
    }

    /// The cursor's own invariant: the order lists every word once, the current word and
    /// the selection's end are words of the page, the boxes are on the page.
    pub closed spec fn inv(self) -> bool {
        &&& self.by_rarity.len() == self.words.len()
        &&& forall|i: int| 0 <= i < self.by_rarity.len() ==> #[trigger] self.by_rarity@[i] < self.words.len()
        &&& (self.words.len() > 0 ==> self.cur < self.words.len())
        &&& (self.sel_end matches Some(e) ==> e < self.words.len())
        &&& forall|i: int| 0 <= i < self.words.len() ==> page_rect(#[trigger] self.words@[i].1)
    }

    /// How many words Rarer / Next cycle through: the count, between 1 and six.
    pub open spec fn spec_cycle(self) -> int {
        let n = self.order().len() as int;
        if n < 1 {
            1
        } else if n > CYCLE {
            CYCLE as int
        } else {
            n
        }
    }

    /// New: no words yet, nothing selected.
    pub fn new() -> (c: WordCursor)
        ensures
            c.inv(),
            c.texts().len() == 0,
            c.rects().len() == 0,
            c.order().len() == 0,
            c.spec_cur() == 0,
            c.spec_rare_pos() == 0,
            c.spec_sel_end() is None,
    {
        let c = WordCursor { words: Vec::new(), by_rarity: Vec::new(), cur: 0, rare_pos: 0, sel_end: None };
        assert(c.words@.map_values(|w: (String, Rect)| w.0@) =~= Seq::<Seq<char>>::empty());
        c
    }

    /// Take the page's words (once): order them by rarity, rarest first, and land on the
    /// rarest.
    pub fn load(&mut self, words: Vec<(String, Rect)>, t: &WordTables)
        requires
            old(self).inv(),
            t.wf(),
            forall|i: int| 0 <= i < words.len() ==> (#[trigger] words@[i]).0@.len() <= u32::MAX - 100_000,
            forall|i: int| 0 <= i < words.len() ==> page_rect(#[trigger] words@[i].1),
        ensures
            final(self).inv(),
            old(self).texts().len() > 0 ==> *final(self) == *old(self),
            old(self).texts().len() == 0 ==> {
                &&& final(self).texts() == words@.map_values(|w: (String, Rect)| w.0@)
                &&& final(self).rects() == words@.map_values(|w: (String, Rect)| w.1)
                &&& final(self).order() == rarity_order(words@.map_values(|w: (String, Rect)| spec_rarity(w.0@, *t) as u32))
                &&& final(self).spec_cur() == (if words.len() > 0 { final(self).order()[0] } else { 0 })
                &&& final(self).spec_rare_pos() == 0
                &&& final(self).spec_sel_end() == old(self).spec_sel_end()
            },
    {
        if self.words.len() > 0 {
            return;
        }
        let ghost sc = words@.map_values(|w: (String, Rect)| spec_rarity(w.0@, *t) as u32);
        let mut scores: Vec<u32> = Vec::new();
        let mut i: usize = 0;
        while i < words.len()
            invariant
                i <= words.len(),
                t.wf(),
                forall|q: int| 0 <= q < words.len() ==> (#[trigger] words@[q]).0@.len() <= u32::MAX - 100_000,
                sc == words@.map_values(|w: (String, Rect)| spec_rarity(w.0@, *t) as u32),
                scores@ == sc.take(i as int),
            decreases words.len() - i,
        {
            let r = rarity(words[i].0.as_str(), t);
            scores.push(r);
            i += 1;
            assert(scores@ =~= sc.take(i as int));
        }
        assert(sc.take(words.len() as int) =~= sc);
        let order = rarity_order_of(&scores);
        self.cur = if order.len() > 0 { order[0] } else { 0 };
        self.by_rarity = order;
        self.words = words;
        self.rare_pos = 0;
    }

    /// How many words Rarer / Next cycle through.
    pub fn cycle(&self) -> (n: usize)
        ensures
            n == self.spec_cycle(),
    {
        let n = self.by_rarity.len();
        if n < 1 {
            1
        } else if n > CYCLE {
            CYCLE
        } else {
            n
        }
    }

    /// Move to the nearest word on the next line down (or up): the line nearest the
    /// current word's top, the word whose centre is nearest the current word's centre.
    /// Without such a line nothing moves. The rarity position follows the word (past
    /// every position when the word is not in the order).
    pub fn move_line(&mut self, down: bool)
        requires
            old(self).inv(),
        ensures
            final(self).inv(),
            final(self).texts() == old(self).texts(),
            final(self).rects() == old(self).rects(),
            final(self).order() == old(self).order(),
            final(self).spec_sel_end() == old(self).spec_sel_end(),
            moved_line(*old(self), *final(self), down),
    {
        let ghost rs = self.rects();
        if self.cur >= self.words.len() {
            return;
        }
        let r = self.words[self.cur].1;
        assert(r == rs[self.cur as int]);
        assert(page_rect(r));
        let cx: i32 = r.x + (r.w / 2) as i32;
        let cy = r.y;
        let n = self.words.len();
        let mut target: Option<i32> = None;
        let mut i: usize = 0;
        while i < n
            invariant
                i <= n == self.words.len(),
                rs == self.rects(),
                target == next_line(rs, cy, down, i as int),
            decreases n - i,
        {
            let y = self.words[i].1.y;
            assert(y == rs[i as int].y);
            if (down && y > cy) || (!down && y < cy) {
                target = match target {
                    Some(p) => Some(if (down && y < p) || (!down && y > p) { y } else { p }),
                    None => Some(y),
                };
            }
            i += 1;
        }
        let ty = match target {
            Some(t) => t,
            None => {
                return;
            },
        };
        let mut best: Option<usize> = None;
        let mut best_d: i64 = 0;
        let mut i: usize = 0;
        while i < n
            invariant
                i <= n == self.words.len(),
                rs == self.rects(),
                self.inv(),
                cx as int == centre(rs[self.cur as int]),
                best == (match nearest(rs, ty, cx as int, i as int) {
                    Some(j) => Some(j as usize),
                    None => None,
                }),
                forall|q: int| 0 <= q < n ==> page_rect(#[trigger] rs[q]),
                best matches Some(b) ==> b < i && best_d as int == abs(centre(rs[b as int]) - cx),
            decreases n - i,
        {
            let w = self.words[i].1;
            assert(w == rs[i as int]);
            proof {
                lemma_nearest_bounds(rs, ty, cx as int, i as int);
                lemma_nearest_bounds(rs, ty, cx as int, i + 1);
            }
            if w.y == ty {
                let c = w.x as i64 + (w.w / 2) as i64;
                let d0 = c - cx as i64;
                let d = if d0 < 0 { -d0 } else { d0 };
                match best {
                    Some(_) => {
                        if d < best_d {
                            best = Some(i);
                            best_d = d;
                        }
                    },
                    None => {
                        best = Some(i);
                        best_d = d;
                    },
                }
            }
            i += 1;
        }
        proof {
            lemma_nearest_bounds(rs, ty, cx as int, n as int);
        }
        if let Some(b) = best {
            self.cur = b;
            let mut p: usize = 0;
            while p < self.by_rarity.len() && self.by_rarity[p] != b
                invariant
                    p <= self.by_rarity.len(),
                    position(self.by_rarity@, b, p as int) == position(self.by_rarity@, b, 0),
                decreases self.by_rarity.len() - p,
            {
                p += 1;
            }
            self.rare_pos = if p < self.by_rarity.len() { p } else { usize::MAX };
        }
    }

    /// The selected words, joined by spaces: from the current word to the selection's
    /// end, in page order.
    pub fn selection_text(&self) -> (s: String)
        requires
            self.inv(),
            self.texts().len() > 0,
        ensures
            s@ == selected(self.texts(), self.spec_cur() as int, self.spec_sel_end()),
    {
        let end = match self.sel_end {
            Some(e) => e,
            None => self.cur,
        };
        let (a, b) = if end >= self.cur { (self.cur, end) } else { (end, self.cur) };
        let last = if b < self.words.len() - 1 { b } else { self.words.len() - 1 };
        let ghost tv = self.texts();
        let mut s = String::new();
        let mut i = a;
        assert(tv.subrange(a as int, a as int) =~= Seq::<Seq<char>>::empty());
        while i <= last
            invariant
                a <= i <= last + 1,
                last < self.words.len(),
                tv == self.texts(),
                s@ == join(tv.subrange(a as int, i as int), seq![' ']),
            decreases last + 1 - i,
        {
            if i > a {
                push_char(&mut s, ' ');
            }
            push_str(&mut s, self.words[i].0.as_str());
            assert(self.words@[i as int].0@ == tv[i as int]);
            i += 1;
            assert(tv.subrange(a as int, i as int).drop_last() =~= tv.subrange(a as int, i - 1));
            if i == a + 1 {
                assert(s@ =~= join(tv.subrange(a as int, i as int), seq![' ']));
            }
        }
        s
    }

    /// A key. With no words the cursor closes. While selecting: Back ends the selection,
    /// Confirm saves it, Right and Down grow it, Left and Up shrink it. Otherwise: Back
    /// closes, a long Confirm starts a selection, Confirm looks the word up, Right and
    /// Left step through the rarest words (wrapping within the cycle), Down and Up move
    /// a line.
    pub fn key(&mut self, ev: KeyEvent) -> (step: CursorStep)
        requires
            old(self).inv(),
        ensures
            final(self).inv(),
            final(self).texts() == old(self).texts(),
            final(self).rects() == old(self).rects(),
            final(self).order() == old(self).order(),
            old(self).texts().len() == 0 ==> step == CursorStep::Close && *final(self) == *old(self),
            old(self).texts().len() > 0 ==> cursor_key(*old(self), *final(self), ev, step),
    {
        if self.words.len() == 0 {
            return CursorStep::Close;
        }
        let n = self.words.len();
        let cycle = self.cycle();
        let selecting = self.sel_end.is_some();
        let e = match self.sel_end {
            Some(e) => e,
            None => self.cur,
        };
        let grow = Some(if e + 1 < n - 1 { e + 1 } else { n - 1 });
        let shrink = Some(if e > self.cur { e - 1 } else { self.cur });
        match (ev.key, ev.kind) {
            (Key::Back, KeyKind::Press) => {
                if selecting {
                    self.sel_end = None;
                    return CursorStep::Redraw;
                }
                CursorStep::Close
            },
            (Key::Confirm, KeyKind::Long) => {
                self.sel_end = Some(self.cur);
                CursorStep::Redraw
            },
            (Key::Confirm, KeyKind::Press) => {
                if selecting {
                    return CursorStep::Save(self.selection_text());
                }
                CursorStep::Define(normalise(self.words[self.cur].0.as_str()))
            },
            (Key::Right, KeyKind::Press) | (Key::Right, KeyKind::Repeat) | (Key::Right, KeyKind::Long) => {
                if selecting {
                    self.sel_end = grow;
                } else {
                    self.rare_pos = if self.rare_pos >= cycle { 0 } else { (self.rare_pos + 1) % cycle };
                    self.cur = self.by_rarity[self.rare_pos];
                }
                CursorStep::Redraw
            },
            (Key::Left, KeyKind::Press) | (Key::Left, KeyKind::Repeat) | (Key::Left, KeyKind::Long) => {
                if selecting {
                    self.sel_end = shrink;
                } else {
                    self.rare_pos = if self.rare_pos == 0 || self.rare_pos >= cycle { cycle - 1 } else { self.rare_pos - 1 };
                    self.cur = self.by_rarity[self.rare_pos];
                }
                CursorStep::Redraw
            },
            (Key::Up, KeyKind::Press) | (Key::Up, KeyKind::Repeat) => {
                if selecting {
                    self.sel_end = shrink;
                } else {
                    self.move_line(false);
                }
                CursorStep::Redraw
            },
            (Key::Down, KeyKind::Press) | (Key::Down, KeyKind::Repeat) => {
                if selecting {
                    self.sel_end = grow;
                } else {
                    self.move_line(true);
                }
                CursorStep::Redraw
            },
            _ => CursorStep::Ignore,
        }
    }
}

/// The cursor after a line move: the nearest word on the nearest line below (`down`) or
/// above, its position in the rarity order; unchanged when there is none.
pub open spec fn moved_line(a: WordCursor, b: WordCursor, down: bool) -> bool {
    let rs = a.rects();
    let c = a.spec_cur() as int;
    if c >= rs.len() {
        b == a
    } else {
        match next_line(rs, rs[c].y, down, rs.len() as int) {
            None => b == a,
            Some(ty) => match nearest(rs, ty, centre(rs[c]), rs.len() as int) {
                None => b == a,
                Some(i) => b.spec_cur() == i && b.spec_rare_pos() == position(a.order(), i as usize, 0),
            },
        }
    }
}

/// The words from the current one to the selection's end (or just the current one),
/// in page order, joined by spaces.
pub open spec fn selected(texts: Seq<Seq<char>>, cur: int, sel: Option<usize>) -> Seq<char> {
    let end = match sel {
        Some(e) => e as int,
        None => cur,
    };
    let a = if end >= cur { cur } else { end };
    let b = if end >= cur { end } else { cur };
    let last = if b < texts.len() - 1 { b } else { texts.len() - 1 };
    join(texts.subrange(a, last + 1), seq![' '])
}

/// The cursor after a key, with words on the page.
pub open spec fn cursor_key(a: WordCursor, b: WordCursor, ev: KeyEvent, step: CursorStep) -> bool {
    let n = a.texts().len() as int;
    let cur = a.spec_cur() as int;
    let selecting = a.spec_sel_end() is Some;
    let e = match a.spec_sel_end() {
        Some(x) => x as int,
        None => cur,
    };
    let grow = Some((if e + 1 < n - 1 { e + 1 } else { n - 1 }) as usize);
    let shrink = Some((if e > cur { e - 1 } else { cur }) as usize);
    let cycle = a.spec_cycle();
    let rp = a.spec_rare_pos() as int;
    let next = if rp >= cycle { 0 } else { (rp + 1) % cycle };
    let prev = if rp == 0 || rp >= cycle { cycle - 1 } else { rp - 1 };
    let press = ev.kind == KeyKind::Press;
    let moving = ev.kind == KeyKind::Press || ev.kind == KeyKind::Repeat;
    if ev.key == Key::Back && press {
        if selecting {
            step == CursorStep::Redraw && b.spec_sel_end() is None && b.spec_cur() == a.spec_cur()
        } else {
            step == CursorStep::Close && b == a
        }
    } else if ev.key == Key::Confirm && ev.kind == KeyKind::Long {
        step == CursorStep::Redraw && b.spec_sel_end() == Some(a.spec_cur()) && b.spec_cur() == a.spec_cur()
    } else if ev.key == Key::Confirm && press {
        b == a && (if selecting {
            step matches CursorStep::Save(t) && t@ == selected(a.texts(), cur, a.spec_sel_end())
        } else {
            step matches CursorStep::Define(w) && w@ == spec_normalise(a.texts()[cur])
        })
    } else if (ev.key == Key::Right && (moving || ev.kind == KeyKind::Long)) || (ev.key == Key::Down && moving) {
        &&& step == CursorStep::Redraw
        &&& if selecting {
            b.spec_sel_end() == grow && b.spec_cur() == a.spec_cur()
        } else if ev.key == Key::Right {
            b.spec_rare_pos() == next && b.spec_cur() == a.order()[next]
        } else {
            b.spec_sel_end() == a.spec_sel_end() && moved_line(a, b, true)
        }
    } else if (ev.key == Key::Left && (moving || ev.kind == KeyKind::Long)) || (ev.key == Key::Up && moving) {
        &&& step == CursorStep::Redraw
        &&& if selecting {
            b.spec_sel_end() == shrink && b.spec_cur() == a.spec_cur()
        } else if ev.key == Key::Left {
            b.spec_rare_pos() == prev && b.spec_cur() == a.order()[prev]
        } else {
            b.spec_sel_end() == a.spec_sel_end() && moved_line(a, b, false)
        }
    } else {
        step == CursorStep::Ignore && b == a
    }
}

fn rarity_order_of(scores: &Vec<u32>) -> (order: Vec<usize>)
    ensures
        order@ == rarity_order(scores@),
        order.len() == scores.len(),
        forall|j: int| 0 <= j < order.len() ==> #[trigger] order@[j] < scores.len(),
{
    let ghost after = less_rare(scores@);
    let mut order: Vec<usize> = Vec::new();
    let mut i: usize = 0;
    while i < scores.len()
        invariant
            i <= scores.len(),
            after == less_rare(scores@),
            order@ == stable_sort(upto(i as nat), after),
            forall|j: int| 0 <= j < order.len() ==> #[trigger] order@[j] < i,
            order.len() == i,
        decreases scores.len() - i,
    {
        let r = scores[i];
        let mut p: usize = 0;
        while p < order.len() && !(scores[order[p]] < r)
            invariant
                p <= order.len() == i,
                i < scores.len(),
                r == scores@[i as int],
                forall|j: int| 0 <= j < order.len() ==> #[trigger] order@[j] < i,
                first_after(order@, i, after, p as int) == first_after(order@, i, after, 0),
                after == less_rare(scores@),
            decreases order.len() - p,
        {
            p += 1;
        }
        proof {
            assert(upto((i + 1) as nat).drop_last() =~= upto(i as nat));
            assert(upto((i + 1) as nat).last() == i);
            crate::bookshop::catalog::lemma_stable_sort_len(upto(i as nat), after);
        }
        let ghost before = order@;
        order.insert(p, i);
        assert forall|j: int| 0 <= j < order.len() implies #[trigger] order@[j] < i + 1 by {
            if j < p {
                assert(order@[j] == before[j]);
            } else if j > p {
                assert(order@[j] == before[j - 1]);
            }
        }
        i += 1;
    }
    order
}


/// The last of the first `n` scores that is the largest.
pub open spec fn last_max(scores: Seq<u32>, n: int) -> int
    decreases n,
{
    if n <= 1 {
        0
    } else {
        let p = last_max(scores, n - 1);
        if scores[n - 1] >= scores[p] {
            n - 1
        } else {
            p
        }
    }
}

proof fn lemma_last_max_bounds(scores: Seq<u32>, n: int)
    requires
        n >= 1,
    ensures
        0 <= last_max(scores, n) < n,
    decreases n,
{
    if n > 1 {
        lemma_last_max_bounds(scores, n - 1);
    }
}

/// The rarest word on a page (the last of the rarest on a tie); none for no words.
pub fn rarest_word(words: &Vec<String>, t: &WordTables) -> (r: Option<String>)
    requires
        t.wf(),
        forall|i: int| 0 <= i < words.len() ==> (#[trigger] words@[i])@.len() <= u32::MAX - 100_000,
    ensures
        words.len() == 0 ==> r is None,
        words.len() > 0 ==> (r matches Some(w) && w@ == words@[last_max(
            words@.map_values(|x: String| spec_rarity(x@, *t) as u32),
            words.len() as int,
        )]@),
{
    if words.len() == 0 {
        return None;
    }
    let ghost sc = words@.map_values(|x: String| spec_rarity(x@, *t) as u32);
    let mut best: usize = 0;
    let mut best_s = rarity(words[0].as_str(), t);
    let mut i: usize = 1;
    while i < words.len()
        invariant
            1 <= i <= words.len(),
            t.wf(),
            forall|q: int| 0 <= q < words.len() ==> (#[trigger] words@[q])@.len() <= u32::MAX - 100_000,
            sc == words@.map_values(|x: String| spec_rarity(x@, *t) as u32),
            best as int == last_max(sc, i as int),
            best < i,
            best_s == sc[best as int],
        decreases words.len() - i,
    {
        let s = rarity(words[i].as_str(), t);
        if s >= best_s {
            best = i;
            best_s = s;
        }
        i += 1;
    }
    Some(crate::textutil::owned(words[best].as_str()))
}

} // verus!
