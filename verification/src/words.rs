//! Word tables built from two word lists: hashed frequency ranks for the word cursor
//! and the dictionary flow, and packed five-letter words for Wordle.
//!
//! * the common words: FNV-1a (32-bit) of every distinct lowercase word of the
//!   frequency list, sorted by hash, with the word's frequency rank beside it
//!   (0 = the first word). A rarity lookup is one hash and a binary search.
//! * the Wordle answers: the five-letter words of the common list that the Wordle list
//!   accepts, most common first.
//! * the accepted Wordle guesses, sorted, for a binary search.

use vstd::prelude::*;
use vstd::utf8::encode_utf8;
use crate::textutil::{chars_of, split_on, str_lowercase, strips, to_lowercase, trim_by, trim_chars, split_chars, string_of, Strip};

verus! {

/// One FNV-1a step.
pub open spec fn fnv_step(h: u32, b: u8) -> u32 {
    vstd::wrapping::u32_specs::wrapping_mul(h ^ (b as u32), 0x0100_0193)
}

/// FNV-1a (32-bit) of a byte string.
pub open spec fn fnv1a(b: Seq<u8>) -> u32
    decreases b.len(),
{
    if b.len() == 0 {
        0x811c_9dc5
    } else {
        fnv_step(fnv1a(b.drop_last()), b.last())
    }
}

/// Hash bytes onto a running FNV-1a state.
pub fn fnv_bytes(h: u32, b: &[u8]) -> (r: u32)
    ensures
        r == fnv_over(h, b@),
{
    let mut x = h;
    let mut i: usize = 0;
    while i < b.len()
        invariant
            i <= b.len(),
            x == fnv_over(h, b@.take(i as int)),
        decreases b.len() - i,
    {
        assert(b@.take(i + 1).drop_last() =~= b@.take(i as int));
        x = (x ^ (b[i] as u32)).wrapping_mul(0x0100_0193);
        i += 1;
    }
    assert(b@.take(b.len() as int) =~= b@);
    x
}

/// FNV-1a steps over bytes from a given state.
pub open spec fn fnv_over(h: u32, b: Seq<u8>) -> u32
    decreases b.len(),
{
    if b.len() == 0 {
        h
    } else {
        fnv_step(fnv_over(h, b.drop_last()), b.last())
    }
}

pub proof fn lemma_fnv_over(b: Seq<u8>)
    ensures
        fnv_over(0x811c_9dc5, b) == fnv1a(b),
    decreases b.len(),
{
    if b.len() > 0 {
        lemma_fnv_over(b.drop_last());
    }
}

pub proof fn lemma_fnv_over_append(h: u32, a: Seq<u8>, b: Seq<u8>)
    ensures
        fnv_over(h, a + b) == fnv_over(fnv_over(h, a), b),
    decreases b.len(),
{
    if b.len() == 0 {
        assert(a + b =~= a);
    } else {
        lemma_fnv_over_append(h, a, b.drop_last());
        assert((a + b).drop_last() =~= a + b.drop_last());
    }
}

/// The distinct lowercase words of a list, one per line, trimmed, in order of first
/// appearance; empty lines skipped.
pub open spec fn distinct_words(lines: Seq<Seq<char>>) -> Seq<Seq<char>>
    decreases lines.len(),
{
    if lines.len() == 0 {
        Seq::empty()
    } else {
        let prev = distinct_words(lines.drop_last());
        let w = str_lowercase(trim_by(lines.last(), strips(Strip::White)));
        if w.len() == 0 || prev.contains(w) {
            prev
        } else {
            prev.push(w)
        }
    }
}

/// Five ASCII lowercase bytes.
pub open spec fn five_lower(b: Seq<u8>) -> bool {
    b.len() == 5 && forall|i: int| 0 <= i < 5 ==> 97 <= #[trigger] b[i] <= 122
}

/// Byte order of five-letter words.
pub open spec fn word_lt(a: Seq<u8>, b: Seq<u8>) -> bool {
    exists|k: int| 0 <= k < 5 && a.take(k) == b.take(k) && #[trigger] a[k] < b[k]
}

/// Strictly increasing five-letter words.
pub open spec fn words_sorted(s: Seq<[u8; 5]>) -> bool {
    forall|i: int, j: int| 0 <= i < j < s.len() ==> word_lt(#[trigger] s[i]@, #[trigger] s[j]@)
}

/// The five-letter lowercase words of a list, one per line, trimmed.
pub open spec fn five_letter_lines(lines: Seq<Seq<char>>) -> Set<Seq<u8>> {
    Set::new(
        |b: Seq<u8>|
            exists|i: int| 0 <= i < lines.len() && b == encode_utf8(#[trigger] trim_by(lines[i], strips(Strip::White))) && five_lower(b),
    )
}

/// The hashes of the words.
pub open spec fn word_hashes(words: Seq<Seq<char>>) -> Seq<u32> {
    words.map_values(|w: Seq<char>| fnv1a(encode_utf8(w)))
}

/// Hash `x` is in the table with rank `k` beside it.
pub open spec fn has_rank(hashes: Seq<u32>, ranks: Seq<u16>, x: u32, k: int) -> bool {
    exists|i: int| 0 <= i < hashes.len() && #[trigger] hashes[i] == x && ranks[i] == k
}

/// Each hash `k` of the list is in the table with rank `k` beside it.
pub open spec fn hashes_rank(hashes: Seq<u32>, ranks: Seq<u16>, wh: Seq<u32>) -> bool {
    forall|k: int| 0 <= k < wh.len() ==> #[trigger] has_rank(hashes, ranks, wh[k], k)
}

/// No two entries are equal.
pub open spec fn hashes_distinct(h: Seq<u32>) -> bool {
    forall|i: int, j: int| 0 <= i < j < h.len() ==> #[trigger] h[i] != #[trigger] h[j]
}

/// The answers two lists give: the common words, in order, whose UTF-8 bytes are five
/// lowercase letters and an accepted guess.
pub open spec fn answer_words(words: Seq<Seq<char>>, accepted: Set<Seq<u8>>) -> Seq<Seq<u8>> {
    words.map_values(|w: Seq<char>| encode_utf8(w)).filter(|b: Seq<u8>| five_lower(b) && accepted.contains(b))
}

/// The lists make no tables: too many common words for a `u16` rank, two common words
/// with one hash, or no answer.
pub open spec fn build_refused(common: Seq<char>, wordle: Seq<char>) -> bool {
    let words = distinct_words(split_on(common, '\n'));
    ||| words.len() >= 65535
    ||| !hashes_distinct(word_hashes(words))
    ||| answer_words(words, five_letter_lines(split_on(wordle, '\n'))).len() == 0
}

/// Word tables, built from the two lists.
pub struct WordTables {
    common_hashes: Vec<u32>,
    common_ranks: Vec<u16>,
    wordle_answers: Vec<[u8; 5]>,
    wordle_accepted: Vec<[u8; 5]>,
}

impl WordTables {
    /// The hashes of the common words, sorted.
    pub closed spec fn hashes(self) -> Seq<u32> {
        self.common_hashes@
    }

    /// The rank of the word at the same index of `hashes`.
    pub closed spec fn ranks(self) -> Seq<u16> {
        self.common_ranks@
    }

    /// The Wordle answers, most common first.
    pub closed spec fn answers(self) -> Seq<[u8; 5]> {
        self.wordle_answers@
    }

    /// The accepted Wordle guesses, sorted.
    pub closed spec fn accepted(self) -> Seq<[u8; 5]> {
        self.wordle_accepted@
    }

    /// The tables' shape: hashes strictly increasing with a rank each, the accepted words
    /// strictly increasing, at least one answer.
    pub closed spec fn wf(self) -> bool {
        &&& self.common_hashes.len() == self.common_ranks.len()
        &&& forall|i: int, j: int| 0 <= i < j < self.common_hashes.len() ==> #[trigger] self.common_hashes@[i] < #[trigger] self.common_hashes@[j]
        &&& words_sorted(self.wordle_accepted@)
        &&& self.wordle_answers.len() > 0
        &&& forall|j: int| 0 <= j < self.wordle_answers.len() ==> five_lower(#[trigger] self.wordle_answers@[j]@)
            && self.wordle_accepted@.map_values(|w: [u8; 5]| w@).contains(self.wordle_answers@[j]@)
    }

    /// Build the tables from the frequency list (most common first) and the Wordle list,
    /// one word per line. None where the build cannot go on: more common words than a
    /// `u16` rank holds, two common words with one hash, or no Wordle answer.
    pub fn build(common: &str, wordle: &str) -> (r: Option<WordTables>)
        ensures
            r is None <==> build_refused(common@, wordle@),
            r matches Some(t) ==> {
                let words = distinct_words(split_on(common@, '\n'));
                &&& t.wf()
                &&& t.hashes().len() == words.len()
                &&& words.len() < 65535
                &&& hashes_rank(t.hashes(), t.ranks(), word_hashes(words))
                &&& t.accepted().map_values(|w: [u8; 5]| w@).to_set() == five_letter_lines(split_on(wordle@, '\n'))
                &&& t.answers().map_values(|w: [u8; 5]| w@) == words.map_values(|w: Seq<char>| encode_utf8(w)).filter(
                    |b: Seq<u8>| five_lower(b) && t.accepted().map_values(|w: [u8; 5]| w@).contains(b),
                )
            },
    {
        let lines = split_chars(common, '\n');
        let ghost lv = lines@.map_values(|x: String| x@);
        // Distinct lowercase words, in order.
        let mut words: Vec<String> = Vec::new();
        let mut k: usize = 0;
        while k < lines.len()
            invariant
                k <= lines.len(),
                lv == lines@.map_values(|x: String| x@),
                lv == split_on(common@, '\n'),
                words@.map_values(|x: String| x@) == distinct_words(lv.take(k as int)),
            decreases lines.len() - k,
        {
            let cs = chars_of(lines[k].as_str());
            let t = trim_chars(&cs, Strip::White);
            let ts = string_of(&t);
            let w = to_lowercase(ts.as_str());
            let ghost wv = words@.map_values(|x: String| x@);
            assert(lv.take(k + 1).drop_last() =~= lv.take(k as int));
            if !w.as_str().is_empty() && !contains_word(&words, &w) {
                words.push(w);
                assert(words@.map_values(|x: String| x@) =~= wv.push(w@));
            }
            k += 1;
        }
        assert(lv.take(lines.len() as int) =~= lv);
        let ghost wv = words@.map_values(|x: String| x@);
        if words.len() >= 65535 {
            return None;
        }
        // Hashes with their ranks, sorted by hash; a repeated hash stops the build.
        let mut hashes: Vec<u32> = Vec::new();
        let mut ranks: Vec<u16> = Vec::new();
        let mut r: usize = 0;
        while r < words.len()
            invariant
                r <= words.len() < 65535,
                wv == words@.map_values(|x: String| x@),
                hashes.len() == ranks.len() == r,
                hashes_sorted(hashes@),
                hashes_rank(hashes@, ranks@, word_hashes(wv).take(r as int)),
                hashes_distinct(word_hashes(wv).take(r as int)),
                forall|x: u32| #[trigger] hashes@.contains(x) <==> word_hashes(wv).take(r as int).contains(x),
                wv == distinct_words(split_on(common@, '\n')),
            decreases words.len() - r,
        {
            let h = fnv_bytes(0x811c_9dc5, words[r].as_str().as_bytes());
            proof {
                lemma_fnv_over(encode_utf8(wv[r as int]));
                assert(word_hashes(wv)[r as int] == fnv1a(encode_utf8(wv[r as int])));
            }
            let ghost wh = word_hashes(wv);
            let ghost hb = hashes@;
            assert(forall|x: u32| #[trigger] hb.contains(x) <==> wh.take(r as int).contains(x));
            if !insert_hash(&mut hashes, &mut ranks, h, r, Ghost(wv)) {
                proof {
                    assert(wh.take(r as int).contains(h));
                    let i = choose|i: int| 0 <= i < r && wh.take(r as int)[i] == h;
                    assert(wh[i] == wh[r as int]);
                    assert(!hashes_distinct(wh));
                }
                return None;
            }
            proof {
                let t0 = wh.take(r as int);
                let t1 = wh.take(r + 1);
                assert(t1 =~= t0.push(h));
                assert(!t0.contains(h));
                assert forall|i: int, j: int| 0 <= i < j < t1.len() implies #[trigger] t1[i] != #[trigger] t1[j] by {
                    if j == r {
                        assert(t0[i] == t1[i]);
                    } else {
                        assert(t0[i] == t1[i] && t0[j] == t1[j]);
                    }
                }
                assert forall|x: u32| #[trigger] hashes@.contains(x) <==> t1.contains(x) by {
                    assert(hashes@.contains(x) <==> (hb.contains(x) || x == h));
                    assert(hb.contains(x) <==> t0.contains(x));
                    if x == h {
                        assert(t1[r as int] == h);
                    }
                    if t1.contains(x) {
                        let i = choose|i: int| 0 <= i < t1.len() && t1[i] == x;
                        if i < r {
                            assert(t0[i] == x);
                        }
                    }
                    if t0.contains(x) {
                        let i = choose|i: int| 0 <= i < t0.len() && t0[i] == x;
                        assert(t1[i] == x);
                    }
                }
            }
            r += 1;
        }
        // The accepted guesses, sorted and without repeats.
        let wlines = split_chars(wordle, '\n');
        let ghost wl = wlines@.map_values(|x: String| x@);
        let mut accepted: Vec<[u8; 5]> = Vec::new();
        let mut k: usize = 0;
        while k < wlines.len()
            invariant
                k <= wlines.len(),
                wl == wlines@.map_values(|x: String| x@),
                words_sorted(accepted@),
                accepted@.map_values(|w: [u8; 5]| w@).to_set() == five_letter_lines(wl.take(k as int)),
            decreases wlines.len() - k,
        {
            let cs = chars_of(wlines[k].as_str());
            let t = trim_chars(&cs, Strip::White);
            let ts = string_of(&t);
            let b = ts.as_str().as_bytes();
            let ghost before = accepted@;
            if let Some(a) = five_letters(b) {
                insert_word(&mut accepted, a);
            }
            proof {
                lemma_five_letter_lines_step(wl, k as int);
                assert(t@ == trim_by(wl[k as int], strips(Strip::White)));
            }
            k += 1;
        }
        assert(wl.take(wlines.len() as int) =~= wl);
        // The answers: the common words, in order, that are accepted guesses.
        let ghost accv = accepted@.map_values(|w: [u8; 5]| w@);
        let ghost f = |b: Seq<u8>| five_lower(b) && accv.contains(b);
        let ghost wb = wv.map_values(|w: Seq<char>| encode_utf8(w));
        let mut answers: Vec<[u8; 5]> = Vec::new();
        let mut q: usize = 0;
        while q < words.len()
            invariant
                q <= words.len(),
                wv == words@.map_values(|x: String| x@),
                wb == wv.map_values(|w: Seq<char>| encode_utf8(w)),
                accv == accepted@.map_values(|w: [u8; 5]| w@),
                words_sorted(accepted@),
                f == (|b: Seq<u8>| five_lower(b) && accv.contains(b)),
                answers@.map_values(|w: [u8; 5]| w@) == wb.take(q as int).filter(f),
                forall|j: int| 0 <= j < answers.len() ==> five_lower(#[trigger] answers@[j]@) && accv.contains(answers@[j]@),
            decreases words.len() - q,
        {
            let b = words[q].as_str().as_bytes();
            let ghost before = answers@;
            assert(wb[q as int] == b@);
            match five_letters(b) {
                Some(a) => {
                    if find_word(&accepted, &a) {
                        answers.push(a);
                        assert(answers@.map_values(|w: [u8; 5]| w@) =~= before.map_values(|w: [u8; 5]| w@).push(a@));
                    }
                },
                None => {},
            }
            proof {
                let s = wb.take(q + 1);
                assert(s.drop_last() =~= wb.take(q as int));
                s.drop_last().lemma_filter_push(s.last(), f);
                assert(s =~= s.drop_last().push(s.last()));
            }
            q += 1;
        }
        assert(wb.take(words.len() as int) =~= wb);
        proof {
            let set = five_letter_lines(wl);
            let g = |b: Seq<u8>| five_lower(b) && set.contains(b);
            assert(f =~= g) by {
                assert forall|b: Seq<u8>| #[trigger] f(b) == g(b) by {
                    assert(accv.to_set().contains(b) == accv.contains(b));
                }
            }
            assert(answer_words(wv, set) == wb.filter(g));
            assert(word_hashes(wv).take(words.len() as int) =~= word_hashes(wv));
        }
        if answers.len() == 0 {
            return None;
        }
        proof {
            assert(word_hashes(wv).take(words.len() as int) =~= word_hashes(wv));
        }
        Some(WordTables { common_hashes: hashes, common_ranks: ranks, wordle_answers: answers, wordle_accepted: accepted })
    }

    /// The rank beside hash `h`, if the table has it.
    pub open spec fn spec_rank(self, h: u32) -> Option<u16> {
        if self.hashes().contains(h) {
            Some(self.ranks()[self.hashes().index_of(h)])
        } else {
            None
        }
    }

    /// How many common words the table holds.
    pub fn common_len(&self) -> (n: usize)
        ensures
            n == self.hashes().len(),
    {
        self.common_hashes.len()
    }

    /// The `i`-th hash of the common words, in increasing order.
    pub fn hash_at(&self, i: usize) -> (h: u32)
        requires
            i < self.hashes().len(),
        ensures
            h == self.hashes()[i as int],
    {
        self.common_hashes[i]
    }

    /// The frequency rank of a hashed word, if the table has that hash.
    pub fn rank_of_hash(&self, h: u32) -> (r: Option<u16>)
        requires
            self.wf(),
        ensures
            r == self.spec_rank(h),
            r matches Some(k) ==> exists|i: int| 0 <= i < self.hashes().len() && #[trigger] self.hashes()[i] == h && self.ranks()[i] == k,
            r is None ==> !self.hashes().contains(h),
    {
        let mut lo: usize = 0;
        let mut hi: usize = self.common_hashes.len();
        while lo < hi
            invariant
                self.wf(),
                lo <= hi <= self.common_hashes.len(),
                forall|i: int| 0 <= i < lo ==> #[trigger] self.common_hashes@[i] < h,
                forall|i: int| hi <= i < self.common_hashes.len() ==> #[trigger] self.common_hashes@[i] > h,
            decreases hi - lo,
        {
            let mid = lo + (hi - lo) / 2;
            let v = self.common_hashes[mid];
            if v == h {
                assert(self.hashes()[mid as int] == h && self.ranks()[mid as int] == self.common_ranks@[mid as int]);
                proof {
                    let j = self.hashes().index_of(h);
                    assert(self.hashes().contains(h));
                    if j != mid {
                        if j < mid {
                            assert(self.common_hashes@[j] < self.common_hashes@[mid as int]);
                        } else {
                            assert(self.common_hashes@[mid as int] < self.common_hashes@[j]);
                        }
                    }
                }
                return Some(self.common_ranks[mid]);
            } else if v < h {
                lo = mid + 1;
            } else {
                hi = mid;
            }
        }
        proof {
            if self.hashes().contains(h) {
                let j = choose|j: int| 0 <= j < self.hashes().len() && self.hashes()[j] == h;
                assert(self.common_hashes@[j] == h);
            }
        }
        None
    }

    /// Whether a five-letter word is an accepted guess.
    pub fn accepts(&self, w: &[u8; 5]) -> (b: bool)
        requires
            self.wf(),
        ensures
            b == self.accepted().map_values(|x: [u8; 5]| x@).contains(w@),
    {
        find_word(&self.wordle_accepted, w)
    }

    /// Well-formed tables have an answer.
    pub proof fn lemma_answers_nonempty(self)
        requires
            self.wf(),
        ensures
            self.answers().len() > 0,
    {
    }

    /// Every answer is five ASCII lowercase letters and an accepted guess.
    pub proof fn lemma_answers_accepted(self)
        requires
            self.wf(),
        ensures
            forall|j: int| 0 <= j < self.answers().len() ==> five_lower(#[trigger] self.answers()[j]@)
                && self.accepted().map_values(|w: [u8; 5]| w@).contains(self.answers()[j]@),
    {
    }

    /// How many answers there are.
    pub fn answer_count(&self) -> (n: usize)
        ensures
            n == self.answers().len(),
    {
        self.wordle_answers.len()
    }

    /// Answer `i`.
    pub fn answer(&self, i: usize) -> (w: [u8; 5])
        requires
            i < self.answers().len(),
        ensures
            w == self.answers()[i as int],
    {
        self.wordle_answers[i]
    }
}

/// Hashes strictly increasing.
pub open spec fn hashes_sorted(h: Seq<u32>) -> bool {
    forall|i: int, j: int| 0 <= i < j < h.len() ==> #[trigger] h[i] < #[trigger] h[j]
}

fn insert_hash(hashes: &mut Vec<u32>, ranks: &mut Vec<u16>, h: u32, r: usize, Ghost(wv): Ghost<Seq<Seq<char>>>) -> (ok: bool)
    requires
        old(hashes).len() == old(ranks).len() == r,
        r < wv.len(),
        r < 65535,
        hashes_sorted(old(hashes)@),
        hashes_rank(old(hashes)@, old(ranks)@, word_hashes(wv).take(r as int)),
        h == word_hashes(wv)[r as int],
    ensures
        ok <==> !old(hashes)@.contains(h),
        ok ==> final(hashes).len() == final(ranks).len() == r + 1,
        ok ==> hashes_sorted(final(hashes)@),
        ok ==> hashes_rank(final(hashes)@, final(ranks)@, word_hashes(wv).take(r + 1)),
        ok ==> forall|x: u32| #[trigger] final(hashes)@.contains(x) <==> (old(hashes)@.contains(x) || x == h),
        !ok ==> final(hashes)@ == old(hashes)@ && final(ranks)@ == old(ranks)@,
{
    let mut p: usize = 0;
    while p < hashes.len() && hashes[p] < h
        invariant
            p <= hashes.len(),
            hashes_sorted(hashes@),
            forall|i: int| 0 <= i < p ==> #[trigger] hashes@[i] < h,
        decreases hashes.len() - p,
    {
        p += 1;
    }
    if p < hashes.len() && hashes[p] == h {
        assert(hashes@[p as int] == h);
        return false;
    }
    let ghost hb = hashes@;
    let ghost rb = ranks@;
    proof {
        assert forall|i: int| 0 <= i < hb.len() implies hb[i] != h by {
            if i >= p {
                if i > p {
                    assert(hb[p as int] < hb[i]);
                }
            }
        }
    }
    hashes.insert(p, h);
    ranks.insert(p, r as u16);
    proof {
        lemma_insert_sorted(hb, p as int, h);
        lemma_insert_rank(hb, rb, p as int, h, r as int, word_hashes(wv));
        let hn = hashes@;
        assert(hn[p as int] == h);
        assert forall|x: u32| #[trigger] hn.contains(x) <==> (hb.contains(x) || x == h) by {
            if hn.contains(x) {
                let i = choose|i: int| 0 <= i < hn.len() && hn[i] == x;
                if i < p {
                    assert(hb[i] == x);
                } else if i > p {
                    assert(hb[i - 1] == x);
                }
            }
            if hb.contains(x) {
                let i = choose|i: int| 0 <= i < hb.len() && hb[i] == x;
                if i < p {
                    assert(hn[i] == x);
                } else {
                    assert(hn[i + 1] == x);
                }
            }
        }
    }
    true
}

proof fn lemma_insert_sorted(hb: Seq<u32>, p: int, h: u32)
    requires
        0 <= p <= hb.len(),
        hashes_sorted(hb),
        forall|i: int| 0 <= i < p ==> #[trigger] hb[i] < h,
        p < hb.len() ==> hb[p] > h,
    ensures
        hashes_sorted(hb.insert(p, h)),
{
    let n = hb.insert(p, h);
    assert forall|i: int, j: int| 0 <= i < j < n.len() implies #[trigger] n[i] < #[trigger] n[j] by {
        if j < p {
            assert(n[i] == hb[i] && n[j] == hb[j]);
        } else if j == p {
            assert(n[i] == hb[i]);
        } else if i < p {
            assert(n[i] == hb[i] && n[j] == hb[j - 1]);
            if j - 1 > p {
                assert(hb[p] < hb[j - 1]);
            }
        } else if i == p {
            assert(n[j] == hb[j - 1]);
            if j - 1 > p {
                assert(hb[p] < hb[j - 1]);
            }
        } else {
            assert(n[i] == hb[i - 1] && n[j] == hb[j - 1]);
        }
    }
}

proof fn lemma_insert_rank(hb: Seq<u32>, rb: Seq<u16>, p: int, h: u32, r: int, wh: Seq<u32>)
    requires
        0 <= p <= hb.len(),
        hb.len() == rb.len() == r,
        0 <= r < wh.len(),
        r < 65535,
        hashes_rank(hb, rb, wh.take(r)),
        h == wh[r],
    ensures
        hashes_rank(hb.insert(p, h), rb.insert(p, r as u16), wh.take(r + 1)),
{
    let hn = hb.insert(p, h);
    let rn = rb.insert(p, r as u16);
    let wt = wh.take(r + 1);
    let wo = wh.take(r);
    assert forall|q: int| 0 <= q < wt.len() implies #[trigger] has_rank(hn, rn, wt[q], q) by {
        if q == r {
            assert(hn[p] == wt[q] && rn[p] == q);
        } else {
            assert(wt[q] == wo[q]);
            assert(has_rank(hb, rb, wo[q], q));
            let i0 = choose|i: int| 0 <= i < hb.len() && #[trigger] hb[i] == wo[q] && rb[i] == q;
            if i0 < p {
                assert(hn[i0] == hb[i0] && rn[i0] == rb[i0]);
            } else {
                assert(hn[i0 + 1] == hb[i0] && rn[i0 + 1] == rb[i0]);
            }
        }
    }
}

fn contains_word(words: &Vec<String>, w: &String) -> (b: bool)
    ensures
        b == words@.map_values(|x: String| x@).contains(w@),
{
    let ghost v = words@.map_values(|x: String| x@);
    let mut i: usize = 0;
    while i < words.len()
        invariant
            i <= words.len(),
            v == words@.map_values(|x: String| x@),
            forall|j: int| 0 <= j < i ==> v[j] != w@,
        decreases words.len() - i,
    {
        if words[i] == *w {
            assert(v[i as int] == w@);
            return true;
        }
        i += 1;
    }
    false
}

fn five_letters(b: &[u8]) -> (r: Option<[u8; 5]>)
    ensures
        r is Some <==> five_lower(b@),
        r matches Some(a) ==> a@ == b@,
{
    if b.len() != 5 {
        return None;
    }
    let mut i: usize = 0;
    while i < 5
        invariant
            i <= 5,
            b.len() == 5,
            forall|j: int| 0 <= j < i ==> 97 <= #[trigger] b@[j] <= 122,
        decreases 5 - i,
    {
        if b[i] < 97 || b[i] > 122 {
            return None;
        }
        i += 1;
    }
    let a: [u8; 5] = [b[0], b[1], b[2], b[3], b[4]];
    assert(a@ =~= b@);
    Some(a)
}

fn word_less(a: &[u8; 5], b: &[u8; 5]) -> (r: bool)
    ensures
        r == word_lt(a@, b@),
{
    let mut k: usize = 0;
    while k < 5
        invariant
            k <= 5,
            a@.take(k as int) == b@.take(k as int),
        decreases 5 - k,
    {
        if a[k] != b[k] {
            if a[k] < b[k] {
                assert(a@.take(k as int) == b@.take(k as int) && a@[k as int] < b@[k as int]);
                return true;
            }
            proof {
                lemma_word_lt_not(a@, b@, k as int);
            }
            return false;
        }
        k += 1;
        assert(a@.take(k as int) =~= a@.take(k - 1).push(a@[k - 1]));
        assert(b@.take(k as int) =~= b@.take(k - 1).push(b@[k - 1]));
    }
    proof {
        assert(a@.take(5) =~= a@);
        assert(b@.take(5) =~= b@);
        assert(a@ =~= b@);
        lemma_word_lt_irrefl(a@);
    }
    false
}

proof fn lemma_word_lt_not(a: Seq<u8>, b: Seq<u8>, k: int)
    requires
        a.len() == 5,
        b.len() == 5,
        0 <= k < 5,
        a.take(k) == b.take(k),
        a[k] > b[k],
    ensures
        !word_lt(a, b),
        word_lt(b, a),
{
    assert(b.take(k) == a.take(k) && b[k] < a[k]);
    assert(word_lt(b, a));
    assert forall|j: int| 0 <= j < 5 && a.take(j) == b.take(j) implies !(#[trigger] a[j] < b[j]) by {
        if j < k {
            assert(a.take(k)[j] == a[j]);
            assert(b.take(k)[j] == b[j]);
        } else if j > k {
            assert(a.take(j)[k] == a[k]);
            assert(b.take(j)[k] == b[k]);
        }
    }
}

proof fn lemma_word_lt_irrefl(a: Seq<u8>)
    ensures
        !word_lt(a, a),
{
    if word_lt(a, a) {
        let j = choose|j: int| 0 <= j < 5 && a.take(j) == a.take(j) && #[trigger] a[j] < a[j];
        assert(false);
    }
}

proof fn lemma_word_lt_trans(a: Seq<u8>, b: Seq<u8>, c: Seq<u8>)
    requires
        a.len() == 5,
        b.len() == 5,
        c.len() == 5,
        word_lt(a, b),
        word_lt(b, c),
    ensures
        word_lt(a, c),
{
    let i = choose|i: int| 0 <= i < 5 && a.take(i) == b.take(i) && #[trigger] a[i] < b[i];
    let j = choose|j: int| 0 <= j < 5 && b.take(j) == c.take(j) && #[trigger] b[j] < c[j];
    if i < j {
        assert(b.take(j)[i] == c.take(j)[i]);
        assert(a.take(i) =~= c.take(i)) by {
            assert forall|q: int| 0 <= q < i implies a.take(i)[q] == c.take(i)[q] by {
                assert(a.take(i)[q] == b.take(i)[q]);
                assert(b.take(j)[q] == c.take(j)[q]);
            }
        }
        assert(a[i] < c[i]);
    } else if j < i {
        assert(a.take(i)[j] == b.take(i)[j]);
        assert(a.take(j) =~= c.take(j)) by {
            assert forall|q: int| 0 <= q < j implies a.take(j)[q] == c.take(j)[q] by {
                assert(a.take(i)[q] == b.take(i)[q]);
                assert(b.take(j)[q] == c.take(j)[q]);
            }
        }
        assert(a[j] < c[j]);
    } else {
        assert(a.take(i) =~= c.take(i));
        assert(a[i] < c[i]);
    }
}

proof fn lemma_word_lt_total(a: Seq<u8>, b: Seq<u8>)
    requires
        a.len() == 5,
        b.len() == 5,
        a != b,
    ensures
        word_lt(a, b) || word_lt(b, a),
{
    let k = choose|k: int| 0 <= k < 5 && a[k] != b[k] && forall|q: int| 0 <= q < k ==> a[q] == b[q];
    assert(exists|k: int| 0 <= k < 5 && a[k] != b[k] && forall|q: int| 0 <= q < k ==> a[q] == b[q]) by {
        lemma_first_diff(a, b, 0);
    }
    assert(a.take(k) =~= b.take(k));
    if a[k] < b[k] {
        assert(word_lt(a, b));
    } else {
        assert(word_lt(b, a));
    }
}

proof fn lemma_first_diff(a: Seq<u8>, b: Seq<u8>, p: int)
    requires
        a.len() == 5,
        b.len() == 5,
        a != b,
        0 <= p <= 5,
        forall|q: int| 0 <= q < p ==> a[q] == b[q],
    ensures
        exists|k: int| 0 <= k < 5 && a[k] != b[k] && forall|q: int| 0 <= q < k ==> a[q] == b[q],
    decreases 5 - p,
{
    if p == 5 {
        assert(a =~= b);
    } else if a[p] != b[p] {
        assert(0 <= p < 5 && a[p] != b[p] && forall|q: int| 0 <= q < p ==> a[q] == b[q]);
    } else {
        lemma_first_diff(a, b, p + 1);
    }
}

fn find_word(s: &Vec<[u8; 5]>, w: &[u8; 5]) -> (b: bool)
    requires
        words_sorted(s@),
    ensures
        b == s@.map_values(|x: [u8; 5]| x@).contains(w@),
{
    let ghost v = s@.map_values(|x: [u8; 5]| x@);
    let mut lo: usize = 0;
    let mut hi: usize = s.len();
    while lo < hi
        invariant
            lo <= hi <= s.len(),
            v == s@.map_values(|x: [u8; 5]| x@),
            words_sorted(s@),
            forall|i: int| 0 <= i < lo ==> word_lt(#[trigger] s@[i]@, w@),
            forall|i: int| hi <= i < s.len() ==> word_lt(w@, #[trigger] s@[i]@),
        decreases hi - lo,
    {
        let mid = lo + (hi - lo) / 2;
        if word_less(&s[mid], w) {
            assert forall|i: int| 0 <= i < mid + 1 implies word_lt(#[trigger] s@[i]@, w@) by {
                if i < mid {
                    lemma_word_lt_trans(s@[i]@, s@[mid as int]@, w@);
                }
            }
            lo = mid + 1;
        } else if word_less(w, &s[mid]) {
            assert forall|i: int| mid <= i < s.len() implies word_lt(w@, #[trigger] s@[i]@) by {
                if i > mid {
                    lemma_word_lt_trans(w@, s@[mid as int]@, s@[i]@);
                }
            }
            hi = mid;
        } else {
            proof {
                if s@[mid as int]@ != w@ {
                    lemma_word_lt_total(s@[mid as int]@, w@);
                }
                assert(v[mid as int] == w@);
            }
            return true;
        }
    }
    proof {
        if v.contains(w@) {
            let j = choose|j: int| 0 <= j < v.len() && v[j] == w@;
            lemma_word_lt_irrefl(w@);
        }
    }
    false
}

fn insert_word(s: &mut Vec<[u8; 5]>, w: [u8; 5])
    requires
        words_sorted(old(s)@),
    ensures
        words_sorted(final(s)@),
        final(s)@.map_values(|x: [u8; 5]| x@).to_set() == old(s)@.map_values(|x: [u8; 5]| x@).to_set().insert(w@),
{
    let ghost sv = s@.map_values(|x: [u8; 5]| x@);
    let mut p: usize = 0;
    while p < s.len() && word_less(&s[p], &w)
        invariant
            p <= s.len(),
            words_sorted(s@),
            forall|i: int| 0 <= i < p ==> word_lt(#[trigger] s@[i]@, w@),
        decreases s.len() - p,
    {
        p += 1;
    }
    if p < s.len() && !word_less(&w, &s[p]) {
        proof {
            if s@[p as int]@ != w@ {
                lemma_word_lt_total(s@[p as int]@, w@);
            }
            assert(sv.to_set().insert(w@) =~= sv.to_set()) by {
                assert(sv[p as int] == w@);
            }
        }
        return;
    }
    let ghost before = s@;
    s.insert(p, w);
    proof {
        assert forall|i: int, j: int| 0 <= i < j < s@.len() implies word_lt(#[trigger] s@[i]@, #[trigger] s@[j]@) by {
            if j < p {
                assert(s@[i] == before[i] && s@[j] == before[j]);
            } else if j == p {
                assert(s@[i] == before[i]);
            } else if i < p {
                assert(s@[i] == before[i] && s@[j] == before[j - 1]);
                if j - 1 == p {
                    lemma_word_lt_trans(before[i]@, w@, before[j - 1]@);
                } else {
                    assert(word_lt(w@, before[p as int]@));
                    assert(word_lt(before[p as int]@, before[j - 1]@));
                    lemma_word_lt_trans(w@, before[p as int]@, before[j - 1]@);
                    lemma_word_lt_trans(before[i]@, w@, before[j - 1]@);
                }
            } else if i == p {
                assert(s@[j] == before[j - 1]);
                if j - 1 > p {
                    lemma_word_lt_trans(w@, before[p as int]@, before[j - 1]@);
                }
            } else {
                assert(s@[i] == before[i - 1] && s@[j] == before[j - 1]);
            }
        }
        let nv = s@.map_values(|x: [u8; 5]| x@);
        assert(nv =~= sv.insert(p as int, w@));
        assert(nv.to_set() =~= sv.to_set().insert(w@)) by {
            assert forall|x: Seq<u8>| nv.to_set().contains(x) <==> sv.to_set().insert(w@).contains(x) by {
                if nv.contains(x) {
                    let j = choose|j: int| 0 <= j < nv.len() && nv[j] == x;
                    if j < p {
                        assert(sv[j] == x);
                    } else if j > p {
                        assert(sv[j - 1] == x);
                    }
                }
                if sv.contains(x) {
                    let j = choose|j: int| 0 <= j < sv.len() && sv[j] == x;
                    if j < p {
                        assert(nv[j] == x);
                    } else {
                        assert(nv[j + 1] == x);
                    }
                }
                if x == w@ {
                    assert(nv[p as int] == x);
                }
            }
        }
    }
}

proof fn lemma_five_letter_lines_step(wl: Seq<Seq<char>>, k: int)
    requires
        0 <= k < wl.len(),
    ensures
        five_letter_lines(wl.take(k + 1)) == (if five_lower(encode_utf8(trim_by(wl[k], strips(Strip::White)))) {
            five_letter_lines(wl.take(k)).insert(encode_utf8(trim_by(wl[k], strips(Strip::White))))
        } else {
            five_letter_lines(wl.take(k))
        }),
{
    let a = wl.take(k + 1);
    let b = wl.take(k);
    let x = encode_utf8(trim_by(wl[k], strips(Strip::White)));
    let rhs = if five_lower(x) { five_letter_lines(b).insert(x) } else { five_letter_lines(b) };
    assert forall|y: Seq<u8>| five_letter_lines(a).contains(y) <==> rhs.contains(y) by {
        if five_letter_lines(a).contains(y) {
            let i = choose|i: int| 0 <= i < a.len() && y == encode_utf8(#[trigger] trim_by(a[i], strips(Strip::White))) && five_lower(y);
            if i < k {
                assert(a[i] == b[i]);
            } else {
                assert(a[i] == wl[k]);
            }
        }
        if five_letter_lines(b).contains(y) {
            let i = choose|i: int| 0 <= i < b.len() && y == encode_utf8(#[trigger] trim_by(b[i], strips(Strip::White))) && five_lower(y);
            assert(a[i] == b[i]);
        }
        if five_lower(x) && y == x {
            assert(a[k] == wl[k]);
        }
    }
    assert(five_letter_lines(a) =~= rhs);
}


/// Every byte an ASCII lowercase letter.
pub open spec fn all_lower(b: Seq<u8>) -> bool {
    forall|i: int| 0 <= i < b.len() ==> 97 <= #[trigger] b[i] <= 122
}

/// Every character an ASCII lowercase letter.
pub open spec fn lower_chars(w: Seq<char>) -> bool {
    forall|i: int| 0 <= i < w.len() ==> 'a' <= #[trigger] w[i] <= 'z'
}

proof fn lemma_scalar_lower(c: char)
    requires
        97 <= vstd::utf8::encode_scalar(c as u32)[0] <= 122,
    ensures
        'a' <= c <= 'z',
        vstd::utf8::encode_scalar(c as u32) == seq![c as u8],
{
    let v = c as u32;
    vstd::utf8::char_is_scalar(c);
    if vstd::utf8::has_width_1_encoding(v) {
        assert((v & 0x7F) as u8 == v as u8) by (bit_vector)
            requires
                v <= 0x7f,
        ;
        assert((c as u8) as u32 == v);
    } else if vstd::utf8::has_width_2_encoding(v) {
        let y = ((v >> 6) & 0x1F) as u8;
        assert((0xC0u8 | y) >= 0xC0u8) by (bit_vector);
    } else if vstd::utf8::has_width_3_encoding(v) {
        let y = ((v >> 12) & 0x0F) as u8;
        assert((0xE0u8 | y) >= 0xE0u8) by (bit_vector);
    } else {
        let y = ((v >> 18) & 0x7) as u8;
        assert((0xF0u8 | y) >= 0xF0u8) by (bit_vector);
    }
}

/// Text whose UTF-8 bytes are all ASCII lowercase letters is those letters, one byte
/// each.
pub proof fn lemma_lower_bytes(w: Seq<char>)
    requires
        all_lower(encode_utf8(w)),
    ensures
        lower_chars(w),
        encode_utf8(w).len() == w.len(),
        forall|i: int| 0 <= i < w.len() ==> encode_utf8(w)[i] == #[trigger] w[i] as u8,
    decreases w.len(),
{
    if w.len() > 0 {
        let head = vstd::utf8::encode_scalar(w[0] as u32);
        let rest = encode_utf8(w.drop_first());
        assert(encode_utf8(w) == head + rest);
        vstd::utf8::char_is_scalar(w[0]);
        assert(head.len() > 0);
        assert(encode_utf8(w)[0] == head[0]);
        lemma_scalar_lower(w[0]);
        assert forall|i: int| 0 <= i < rest.len() implies 97 <= #[trigger] rest[i] <= 122 by {
            assert(encode_utf8(w)[i + 1] == rest[i]);
        }
        lemma_lower_bytes(w.drop_first());
        assert forall|i: int| 0 <= i < w.len() implies 'a' <= #[trigger] w[i] <= 'z' by {
            if i > 0 {
                assert(w[i] == w.drop_first()[i - 1]);
            }
        }
        assert forall|i: int| 0 <= i < w.len() implies encode_utf8(w)[i] == #[trigger] w[i] as u8 by {
            if i > 0 {
                assert(w[i] == w.drop_first()[i - 1]);
                assert(encode_utf8(w)[i] == rest[i - 1]);
            }
        }
    }
}

} // verus!
