//! StarDict dictionaries on the card (`/dict/<name>.ifo`, `.idx`, `.dict`, uncompressed).
//!
//! The `.idx` is a run of records `headword NUL offset size` (big-endian; the offset is 64
//! bits wide when the `.ifo` says `idxoffsetbits=64`). A side file, the `.qix`, samples the
//! start of every [`STRIDE`]th record, so a lookup is a binary search over the samples
//! followed by a short scan. The files' bytes are handed in whole; reading and writing
//! them is the caller's business.

use vstd::prelude::*;
use vstd::slice::slice_subrange;
use crate::dict::builtin::{le32, u32_at};
use crate::dict::{fold, spec_stems, spec_strip_markup, stems, strip_markup, Entry};
use crate::textutil::{
    ends_with,
    chars_of, from_utf8_lossy, lossy_utf8, push_char, split_chars, split_on, str_lowercase, string_of,
    strips, to_lowercase, trim_by, trim_chars, Strip,
};

verus! {

/// Where dictionaries live.
pub const DICT_DIR: &'static str = "/dict";

/// Every `STRIDE`th index record is sampled into the `.qix` side file.
pub const STRIDE: u32 = 32;

/// Bytes before the first sample of a `.qix` file: magic, index length, stride.
pub const QIX_HEADER: u64 = 16;

/// Longest headword kept (bytes); longer records are still skipped correctly.
pub const MAX_WORD: usize = 480;

/// Bytes one read of the index looks at.
pub const WINDOW: usize = 512;

/// How far past a record start a headword's end is looked for (64 windows).
pub const LONG_WINDOW: usize = 32768;

/// Bytes the sampling pass looks at from a record start.
pub const CHUNK: usize = 4096;

/// Most bytes of a definition that are read.
pub const MAX_TEXT: u64 = 16384;

/// The bytes after each headword's NUL: a 32- or 64-bit offset and a 32-bit size.
pub open spec fn tail_len(wide: bool) -> int {
    if wide {
        12
    } else {
        8
    }
}

/// The first NUL byte at or after `r`, before `lim` and inside `b`.
pub open spec fn nul_in(b: Seq<u8>, r: int, lim: int) -> Option<int>
    decreases lim - r,
{
    if r < 0 || r >= lim || r >= b.len() {
        None
    } else if b[r] == 0 {
        Some(r)
    } else {
        nul_in(b, r + 1, lim)
    }
}

/// Big-endian u32 at `o` (the caller checks the bounds).
pub open spec fn be32(d: Seq<u8>, o: int) -> int {
    ((d[o] as int * 256 + d[o + 1] as int) * 256 + d[o + 2] as int) * 256 + d[o + 3] as int
}

/// Big-endian u64 at `o` (the caller checks the bounds).
pub open spec fn be64(d: Seq<u8>, o: int) -> int {
    be32(d, o) * 0x1_0000_0000 + be32(d, o + 4)
}

/// Little-endian u64 at `o` (the caller checks the bounds).
pub open spec fn le64(d: Seq<u8>, o: int) -> int {
    le32(d, o) + 0x1_0000_0000 * le32(d, o + 4)
}

/// `a` sorts at or before `b`, character by character: the order of `str`'s `<=`, as
/// UTF-8 keeps the order of code points.
pub open spec fn chars_le(a: Seq<char>, b: Seq<char>) -> bool
    decreases a.len(),
{
    if a.len() == 0 {
        true
    } else if b.len() == 0 {
        false
    } else if (a[0] as u32) != (b[0] as u32) {
        (a[0] as u32) < (b[0] as u32)
    } else {
        chars_le(a.drop_first(), b.drop_first())
    }
}

/// The starts of the records the sampling pass reads, from the record start `r` on: a
/// record counts when its headword's NUL and its numbers lie within [`CHUNK`] bytes of
/// its start (and inside the index); the pass stops at the first record that does not.
pub open spec fn record_chain(b: Seq<u8>, nums: int, r: int) -> Seq<int>
    decreases b.len() - r,
{
    if r < 0 || r >= b.len() || nums < 0 {
        Seq::empty()
    } else {
        let lim = if b.len() - r < CHUNK { b.len() as int } else { r + CHUNK };
        match nul_in(b, r, lim) {
            Some(q) => {
                proof {
                    lemma_nul_found(b, r, lim);
                }
                if q + 1 + nums <= lim {
                    seq![r] + record_chain(b, nums, q + 1 + nums)
                } else {
                    Seq::empty()
                }
            },
            None => Seq::empty(),
        }
    }
}

/// Every `STRIDE`th element, from the first.
pub open spec fn every_stride(s: Seq<int>) -> Seq<int> {
    Seq::new(((s.len() + 31) / 32) as nat, |k: int| s[32 * k])
}

/// `x` as `n` little-endian bytes.
pub open spec fn le_bytes(x: int, n: nat) -> Seq<u8>
    decreases n,
{
    if n == 0 {
        Seq::empty()
    } else {
        seq![(x % 256) as u8] + le_bytes(x / 256, (n - 1) as nat)
    }
}

/// The magic a `.qix` file starts with: `QIX1`.
pub open spec fn qix_magic() -> Seq<u8> {
    seq![0x51u8, 0x49u8, 0x58u8, 0x31u8]
}

/// Sampled positions as little-endian u64s, in order.
pub open spec fn sample_bytes(s: Seq<int>) -> Seq<u8>
    decreases s.len(),
{
    if s.len() == 0 {
        Seq::empty()
    } else {
        sample_bytes(s.drop_last()) + le_bytes(s.last(), 8)
    }
}

/// The `.qix` file of an index: the magic, the index's length (u64) and the stride
/// (u32), then the start of every `STRIDE`th record the sampling pass reads.
pub open spec fn qix_file(idx: Seq<u8>, wide: bool) -> Seq<u8> {
    qix_magic() + le_bytes(idx.len() as int, 8) + le_bytes(STRIDE as int, 4) + sample_bytes(
        every_stride(record_chain(idx, tail_len(wide), 0)),
    )
}

/// A `.qix` belongs to an index of `idx_len` bytes: it has the magic, that length and
/// the stride in its header.
pub open spec fn qix_valid(q: Seq<u8>, idx_len: int) -> bool {
    &&& q.len() >= QIX_HEADER
    &&& q.subrange(0, 4) == qix_magic()
    &&& le64(q, 4) == idx_len
    &&& le32(q, 12) == STRIDE
}

/// `s` starts with `p`.
pub open spec fn starts_with(s: Seq<char>, p: Seq<char>) -> bool {
    p.len() <= s.len() && s.subrange(0, p.len() as int) == p
}

/// The `.ifo` key of the display name.
pub open spec fn bookname_key() -> Seq<char> {
    seq!['b', 'o', 'o', 'k', 'n', 'a', 'm', 'e', '=']
}

/// The `.ifo` key of the offset width.
pub open spec fn offsetbits_key() -> Seq<char> {
    seq!['i', 'd', 'x', 'o', 'f', 'f', 's', 'e', 't', 'b', 'i', 't', 's', '=']
}

/// The settings of the `.ifo` lines, as a left fold: the display name (the last
/// `bookname=` value, trimmed; `stem` if there is none) and whether offsets are 64-bit
/// (the last `idxoffsetbits=` value, trimmed, is `64`). A line's trailing carriage
/// return falls to the trim.
pub open spec fn ifo_fold(lines: Seq<Seq<char>>, stem: Seq<char>) -> (Seq<char>, bool)
    decreases lines.len(),
{
    if lines.len() == 0 {
        (stem, false)
    } else {
        let (name, wide) = ifo_fold(lines.drop_last(), stem);
        let l = lines.last();
        let name = if starts_with(l, bookname_key()) {
            trim_by(l.skip(9), strips(Strip::White))
        } else {
            name
        };
        let wide = if starts_with(l, offsetbits_key()) {
            trim_by(l.skip(14), strips(Strip::White)) == seq!['6', '4']
        } else {
            wide
        };
        (name, wide)
    }
}

/// The settings an `.ifo` file gives a dictionary opened by `stem`.
pub open spec fn ifo_settings(stem: Seq<char>, ifo: Seq<u8>) -> (Seq<char>, bool) {
    ifo_fold(split_on(lossy_utf8(ifo), '\n'), stem)
}

/// The extension of a dictionary's settings file.
pub open spec fn ifo_ext() -> Seq<char> {
    seq!['.', 'i', 'f', 'o']
}

/// The stems of the names that end in `.ifo`, in order.
pub open spec fn ifo_stems(names: Seq<Seq<char>>) -> Seq<Seq<char>>
    decreases names.len(),
{
    if names.len() == 0 {
        Seq::empty()
    } else {
        let rest = ifo_stems(names.drop_last());
        let n = names.last();
        if ends_with(n, ifo_ext()) {
            rest.push(n.subrange(0, n.len() - 4))
        } else {
            rest
        }
    }
}

/// Each string sorts at or before every later one.
pub open spec fn sorted_chars(s: Seq<Seq<char>>) -> bool {
    forall|i: int, j: int| 0 <= i < j < s.len() ==> chars_le(s[i], s[j])
}

/// What the dictionary's files hold.
pub struct DictView {
    /// The display name.
    pub name: Seq<char>,
    /// The `.idx` bytes.
    pub idx: Seq<u8>,
    /// The `.dict` bytes.
    pub dict: Seq<u8>,
    /// The `.qix` bytes.
    pub qix: Seq<u8>,
    /// Whether offsets are 64-bit.
    pub wide: bool,
}

impl DictView {
    /// How many samples the `.qix` holds.
    pub open spec fn samples(self) -> int {
        if self.qix.len() >= QIX_HEADER {
            (self.qix.len() - QIX_HEADER) / 8
        } else {
            0
        }
    }

    /// Sample `i`: where record `STRIDE * i` starts.
    pub open spec fn sample(self, i: int) -> int {
        le64(self.qix, QIX_HEADER + 8 * i)
    }

    /// The record at `pos`: (headword, data offset, data size, where the next starts).
    /// The headword ends at the first NUL in the [`WINDOW`] bytes from `pos`, and keeps
    /// at most [`MAX_WORD`] bytes; a record whose numbers do not fit in that window is
    /// refused. With no NUL in the window, the record is skipped: its headword reads as
    /// U+FFFD if a NUL follows within [`LONG_WINDOW`] bytes.
    pub open spec fn entry_at(self, pos: int) -> Option<(Seq<char>, u64, u32, int)> {
        let b = self.idx;
        let nums = tail_len(self.wide);
        if pos < 0 || pos >= b.len() {
            None
        } else {
            let end = if b.len() - pos < WINDOW { b.len() as int } else { pos + WINDOW };
            match nul_in(b, pos, end) {
                None => match nul_in(b, pos, pos + LONG_WINDOW) {
                    Some(q) => Some((seq!['\u{fffd}'], 0u64, 0u32, q + 1 + nums)),
                    None => None,
                },
                Some(q) => {
                    if q + 1 + nums > end {
                        None
                    } else {
                        let keep = if q - pos < MAX_WORD { q - pos } else { MAX_WORD as int };
                        let word = lossy_utf8(b.subrange(pos, pos + keep));
                        let off = if self.wide { be64(b, q + 1) } else { be32(b, q + 1) };
                        let size = be32(b, q + 1 + nums - 4);
                        Some((word, off as u64, size as u32, q + 1 + nums))
                    }
                },
            }
        }
    }

    /// The binary search over samples `lo..hi`: the first sample whose record's headword,
    /// folded, sorts after `target`; nothing if a sampled record cannot be read.
    pub open spec fn search(self, target: Seq<char>, lo: int, hi: int) -> Option<int>
        decreases hi - lo,
    {
        if lo >= hi {
            Some(lo)
        } else {
            let mid = lo + (hi - lo) / 2;
            match self.entry_at(self.sample(mid)) {
                None => None,
                Some(e) => if chars_le(str_lowercase(e.0), target) {
                    self.search(target, mid + 1, hi)
                } else {
                    self.search(target, lo, mid)
                },
            }
        }
    }

    /// The scan of at most `k` records from `pos`: where the record whose folded headword
    /// is `target` starts; nothing once one sorts after it, once the index ends, after `k`
    /// records, or at a record that cannot be read.
    pub open spec fn scan(self, target: Seq<char>, pos: int, k: nat) -> Option<int>
        decreases k,
    {
        if k == 0 || pos >= self.idx.len() {
            None
        } else {
            match self.entry_at(pos) {
                None => None,
                Some(e) => {
                    let f = str_lowercase(e.0);
                    if f == target {
                        Some(pos)
                    } else if !chars_le(f, target) {
                        None
                    } else {
                        self.scan(target, e.3, (k - 1) as nat)
                    }
                },
            }
        }
    }

    /// The entry of the record at `pos`: its headword, and the data at its offset (at
    /// most [`MAX_TEXT`] bytes, and none past the end of the `.dict`) read as text with the
    /// markup taken out; nothing if the offset lies past the end.
    pub open spec fn read_entry(self, pos: int) -> Option<(Seq<char>, Seq<char>)> {
        match self.entry_at(pos) {
            None => None,
            Some(e) => if e.1 >= self.dict.len() {
                None
            } else {
                let room = self.dict.len() - e.1;
                let size = if e.2 > MAX_TEXT { MAX_TEXT as int } else { e.2 as int };
                let size = if size > room { room } else { size };
                Some((e.0, spec_strip_markup(lossy_utf8(self.dict.subrange(e.1 as int, e.1 + size)))))
            },
        }
    }

    /// What `lookup` gives for a word: the key is the word trimmed of white space; an
    /// empty key, or a `.qix` without samples, finds nothing; otherwise the folded key
    /// is looked for.
    pub open spec fn lookup(self, word: Seq<char>) -> Option<(Seq<char>, Seq<char>)> {
        let key = trim_by(word, strips(Strip::White));
        if key.len() == 0 || self.samples() == 0 {
            None
        } else {
            self.lookup_folded(str_lowercase(key))
        }
    }

    /// The binary search finds the first sample after `target`, and the stride before it
    /// is scanned.
    pub open spec fn lookup_folded(self, target: Seq<char>) -> Option<(Seq<char>, Seq<char>)> {
        match self.search(target, 0, self.samples()) {
            None => None,
            Some(lo) => self.scan_stride(target, lo),
        }
    }

    /// The scan of the stride before sample `lo`, from its first record (from the start
    /// of the index before the first sample).
    pub open spec fn scan_stride(self, target: Seq<char>, lo: int) -> Option<(Seq<char>, Seq<char>)> {
        let start = if lo == 0 { 0 } else { self.sample(lo - 1) };
        match self.scan(target, start, STRIDE as nat) {
            Some(p) => self.read_entry(p),
            None => None,
        }
    }

    /// The first candidate, in order, that `lookup` finds.
    pub open spec fn first_found(self, cands: Seq<Seq<char>>) -> Option<(Seq<char>, Seq<char>)>
        decreases cands.len(),
    {
        if cands.len() == 0 {
            None
        } else {
            match self.lookup(cands[0]) {
                Some(e) => Some(e),
                None => self.first_found(cands.drop_first()),
            }
        }
    }

    /// What `lookup_stemmed` gives: the word trimmed of white space and then of
    /// non-alphanumeric characters is looked up; failing that, each stem of its
    /// lowercase form, in order.
    pub open spec fn lookup_stemmed(self, word: Seq<char>) -> Option<(Seq<char>, Seq<char>)> {
        let w = trim_by(trim_by(word, strips(Strip::White)), strips(Strip::NonAlnum));
        match self.lookup(w) {
            Some(e) => Some(e),
            None => self.first_found(spec_stems(str_lowercase(w))),
        }
    }
}

/// Lookup ignores the white space around a word: the trimmed word finds what the word
/// finds.
pub proof fn lemma_lookup_ignores_spaces(v: DictView, w: Seq<char>)
    ensures
        v.lookup(trim_by(w, strips(Strip::White))) == v.lookup(w),
{
    crate::textutil::lemma_trim_twice(w, strips(Strip::White));
}

/// Lookup ignores case: two words whose trimmed forms lowercase alike find the same
/// entry.
pub proof fn lemma_lookup_ignores_case(v: DictView, w1: Seq<char>, w2: Seq<char>)
    requires
        trim_by(w1, strips(Strip::White)).len() > 0,
        trim_by(w2, strips(Strip::White)).len() > 0,
        str_lowercase(trim_by(w1, strips(Strip::White))) == str_lowercase(trim_by(w2, strips(Strip::White))),
    ensures
        v.lookup(w1) == v.lookup(w2),
{
}

/// The stem fallback takes candidates in order: what it finds is the entry of the
/// first candidate that lookup finds, every earlier one finding nothing; it finds
/// nothing only when no candidate is found.
pub proof fn lemma_first_found_in_order(v: DictView, cands: Seq<Seq<char>>)
    ensures
        v.first_found(cands) is None <==> forall|k: int| 0 <= k < cands.len() ==> v.lookup(#[trigger] cands[k]) is None,
        v.first_found(cands) is Some ==> exists|k: int|
            0 <= k < cands.len() && v.lookup(#[trigger] cands[k]) == v.first_found(cands) && forall|j: int|
                0 <= j < k ==> v.lookup(#[trigger] cands[j]) is None,
    decreases cands.len(),
{
    if cands.len() > 0 {
        let rest = cands.drop_first();
        lemma_first_found_in_order(v, rest);
        assert forall|k: int| 0 < k < cands.len() implies cands[k] == #[trigger] rest[k - 1] by {}
        if v.lookup(cands[0]) is None && v.first_found(rest) is Some {
            let k = choose|k: int|
                0 <= k < rest.len() && v.lookup(#[trigger] rest[k]) == v.first_found(rest) && forall|j: int|
                    0 <= j < k ==> v.lookup(#[trigger] rest[j]) is None;
            assert(cands[k + 1] == rest[k]);
            assert forall|j: int| 0 <= j < k + 1 implies v.lookup(#[trigger] cands[j]) is None by {
                if j > 0 {
                    assert(cands[j] == rest[j - 1]);
                }
            }
        }
        if v.first_found(cands) is None {
            assert forall|k: int| 0 <= k < cands.len() implies v.lookup(#[trigger] cands[k]) is None by {
                if k > 0 {
                    assert(cands[k] == rest[k - 1]);
                }
            }
        }
    }
}

/// An open dictionary.
pub struct Dict {
    /// Display name.
    pub name: String,
    idx: Vec<u8>,
    dict: Vec<u8>,
    /// Sampled record positions, every `STRIDE`th record.
    qix: Vec<u8>,
    /// Whether offsets are 64-bit.
    wide: bool,
    samples: u64,
}

impl View for Dict {
    type V = DictView;

    closed spec fn view(&self) -> DictView {
        DictView { name: self.name@, idx: self.idx@, dict: self.dict@, qix: self.qix@, wide: self.wide }
    }
}

/// The first NUL in `b[r..lim]`.
fn find_nul(b: &Vec<u8>, r: usize, lim: usize) -> (q: Option<usize>)
    requires
        r <= lim <= b.len(),
    ensures
        q matches Some(x) ==> nul_in(b@, r as int, lim as int) == Some(x as int) && r <= x < lim,
        q is None ==> nul_in(b@, r as int, lim as int) is None,
{
    let mut k = r;
    while k < lim && b[k] != 0
        invariant
            r <= k <= lim <= b.len(),
            nul_in(b@, r as int, lim as int) == nul_in(b@, k as int, lim as int),
        decreases lim - k,
    {
        k += 1;
    }
    if k < lim {
        Some(k)
    } else {
        None
    }
}

/// The big-endian u32 at `o`.
fn be32_at(d: &Vec<u8>, o: usize) -> (r: u32)
    requires
        o + 4 <= d.len(),
    ensures
        r == be32(d@, o as int),
{
    let a = d[o] as u32;
    let b = d[o + 1] as u32;
    let c = d[o + 2] as u32;
    let e = d[o + 3] as u32;
    ((a * 256 + b) * 256 + c) * 256 + e
}

/// The big-endian u64 at `o`.
fn be64_at(d: &Vec<u8>, o: usize) -> (r: u64)
    requires
        o + 8 <= d.len(),
    ensures
        r == be64(d@, o as int),
{
    let hi = be32_at(d, o) as u64;
    let lo = be32_at(d, o + 4) as u64;
    hi * 0x1_0000_0000 + lo
}

/// The little-endian u64 at `o`.
fn le64_at(d: &Vec<u8>, o: usize) -> (r: u64)
    requires
        o + 8 <= d.len(),
    ensures
        r == le64(d@, o as int),
{
    let lo = u32_at(d.as_slice(), o).unwrap() as u64;
    let hi = u32_at(d.as_slice(), o + 4).unwrap() as u64;
    lo + 0x1_0000_0000 * hi
}

/// Whether `a` sorts at or before `b`.
fn chars_le_exec(a: &Vec<char>, b: &Vec<char>) -> (r: bool)
    ensures
        r == chars_le(a@, b@),
{
    let mut i: usize = 0;
    assert(a@.skip(0) =~= a@);
    assert(b@.skip(0) =~= b@);
    while i < a.len()
        invariant
            i <= a.len(),
            i <= b.len(),
            chars_le(a@, b@) == chars_le(a@.skip(i as int), b@.skip(i as int)),
        decreases a.len() - i,
    {
        if i >= b.len() {
            return false;
        }
        if (a[i] as u32) != (b[i] as u32) {
            return (a[i] as u32) < (b[i] as u32);
        }
        assert(a@.skip(i as int).drop_first() =~= a@.skip(i + 1));
        assert(b@.skip(i as int).drop_first() =~= b@.skip(i + 1));
        i += 1;
    }
    true
}

/// Whether two character vectors are equal.
fn same_chars(a: &Vec<char>, b: &Vec<char>) -> (r: bool)
    ensures
        r == (a@ == b@),
{
    if a.len() != b.len() {
        return false;
    }
    let mut i: usize = 0;
    while i < a.len()
        invariant
            i <= a.len() == b.len(),
            forall|j: int| 0 <= j < i ==> a@[j] == b@[j],
        decreases a.len() - i,
    {
        if a[i] != b[i] {
            return false;
        }
        i += 1;
    }
    assert(a@ =~= b@);
    true
}

/// Append `x` as `n` little-endian bytes.
fn push_le(out: &mut Vec<u8>, x: u64, n: usize)
    ensures
        final(out)@ == old(out)@ + le_bytes(x as int, n as nat),
    decreases n,
{
    if n > 0 {
        let ghost before = out@;
        out.push((x % 256) as u8);
        push_le(out, x / 256, n - 1);
        assert(out@ =~= before + le_bytes(x as int, n as nat));
    }
}

/// Taking one more element adds a sample exactly when its index is a multiple of the
/// stride.
proof fn lemma_every_stride_push(s: Seq<int>, x: int)
    ensures
        s.len() % 32 == 0 ==> every_stride(s.push(x)) == every_stride(s).push(x),
        s.len() % 32 != 0 ==> every_stride(s.push(x)) == every_stride(s),
{
    let n = s.len() as int;
    let a = every_stride(s);
    let b = every_stride(s.push(x));
    if n % 32 == 0 {
        assert((n + 1 + 31) / 32 == (n + 31) / 32 + 1);
        assert(32 * ((n + 31) / 32) == n);
        assert(b =~= a.push(x));
    } else {
        assert((n + 1 + 31) / 32 == (n + 31) / 32);
        assert forall|k: int| 0 <= k < b.len() implies b[k] == a[k] by {
            assert(32 * k < n);
        }
        assert(b =~= a);
    }
}

/// The `.qix` file of an index: one pass over the records, keeping the start of every
/// `STRIDE`th.
pub fn build_qix(idx: &Vec<u8>, wide: bool) -> (out: Vec<u8>)
    requires
        idx@.len() + CHUNK + 64 <= usize::MAX,
    ensures
        out@ == qix_file(idx@, wide),
{
    let mut out: Vec<u8> = Vec::new();
    out.push(0x51);
    out.push(0x49);
    out.push(0x58);
    out.push(0x31);
    push_le(&mut out, idx.len() as u64, 8);
    push_le(&mut out, STRIDE as u64, 4);
    let ghost head = out@;
    let nums: usize = if wide { 12 } else { 8 };
    let len = idx.len();
    let mut r: usize = 0;
    let mut n_rec: usize = 0;
    let mut go = true;
    let ghost mut done: Seq<int> = Seq::empty();
    assert(done + record_chain(idx@, nums as int, 0) =~= record_chain(idx@, nums as int, 0));
    assert(every_stride(done) =~= Seq::<int>::empty());
    while go && r < len
        invariant
            len == idx@.len(),
            len + CHUNK + 64 <= usize::MAX,
            nums == tail_len(wide),
            r <= len,
            n_rec == done.len(),
            n_rec <= r,
            done + record_chain(idx@, nums as int, r as int) == record_chain(idx@, nums as int, 0),
            !go ==> record_chain(idx@, nums as int, r as int) == Seq::<int>::empty(),
            out@ == head + sample_bytes(every_stride(done)),
            head == qix_magic() + le_bytes(len as int, 8) + le_bytes(STRIDE as int, 4),
        decreases (if go { len - r + 1 } else { 0 }),
    {
        let lim = if len - r < CHUNK { len } else { r + CHUNK };
        match find_nul(idx, r, lim) {
            Some(q) => {
                if q + 1 + nums > lim {
                    go = false;
                } else {
                    let ghost old_done = done;
                    proof {
                        lemma_every_stride_push(done, r as int);
                        done = done.push(r as int);
                        assert(done.drop_last() =~= old_done);
                        assert(old_done + record_chain(idx@, nums as int, r as int) =~= done
                            + record_chain(idx@, nums as int, q + 1 + nums));
                    }
                    if n_rec % 32 == 0 {
                        let ghost es = every_stride(old_done);
                        push_le(&mut out, r as u64, 8);
                        assert(es.push(r as int).drop_last() =~= es);
                        assert(out@ =~= head + sample_bytes(es.push(r as int)));
                    }
                    n_rec += 1;
                    r = q + 1 + nums;
                }
            },
            None => {
                go = false;
            },
        }
    }
    assert(done =~= record_chain(idx@, nums as int, 0));
    out
}

/// Whether a `.qix` belongs to an index of `idx_len` bytes.
fn qix_valid_exec(q: &Vec<u8>, idx_len: u64) -> (b: bool)
    ensures
        b == qix_valid(q@, idx_len as int),
{
    if q.len() < 16 {
        return false;
    }
    if q[0] != 0x51 || q[1] != 0x49 || q[2] != 0x58 || q[3] != 0x31 {
        assert(q@.subrange(0, 4) != qix_magic()) by {
            assert(q@.subrange(0, 4)[0] == q@[0]);
            assert(q@.subrange(0, 4)[1] == q@[1]);
            assert(q@.subrange(0, 4)[2] == q@[2]);
            assert(q@.subrange(0, 4)[3] == q@[3]);
        }
        return false;
    }
    assert(q@.subrange(0, 4) =~= qix_magic());
    let len = le64_at(q, 4);
    let stride = u32_at(q.as_slice(), 12).unwrap();
    len == idx_len && stride == STRIDE
}

/// Whether `s` starts with `p`.
pub(crate) fn chars_start_with(s: &Vec<char>, p: &Vec<char>) -> (b: bool)
    ensures
        b == starts_with(s@, p@),
{
    if p.len() > s.len() {
        return false;
    }
    let mut i: usize = 0;
    while i < p.len()
        invariant
            i <= p.len() <= s.len(),
            forall|j: int| 0 <= j < i ==> s@[j] == p@[j],
        decreases p.len() - i,
    {
        if s[i] != p[i] {
            assert(s@.subrange(0, p.len() as int)[i as int] != p@[i as int]);
            return false;
        }
        i += 1;
    }
    assert(s@.subrange(0, p.len() as int) =~= p@);
    true
}

/// The characters after the first `n`.
fn skip_chars(s: &Vec<char>, n: usize) -> (r: Vec<char>)
    requires
        n <= s.len(),
    ensures
        r@ == s@.skip(n as int),
{
    let mut r: Vec<char> = Vec::new();
    let mut i = n;
    while i < s.len()
        invariant
            n <= i <= s.len(),
            r@ == s@.subrange(n as int, i as int),
        decreases s.len() - i,
    {
        r.push(s[i]);
        i += 1;
        assert(s@.subrange(n as int, i as int) =~= s@.subrange(n as int, i - 1).push(s@[i - 1]));
    }
    assert(s@.subrange(n as int, s.len() as int) =~= s@.skip(n as int));
    r
}

/// The display name and the offset width an `.ifo` file gives.
pub fn ifo_settings_of(stem: &str, ifo: &[u8]) -> (r: (String, bool))
    ensures
        (r.0@, r.1) == ifo_settings(stem@, ifo@),
{
    let text = from_utf8_lossy(ifo);
    let lines = split_chars(text.as_str(), '\n');
    let ghost lv = lines@.map_values(|x: String| x@);
    let bk = vec!['b', 'o', 'o', 'k', 'n', 'a', 'm', 'e', '='];
    let ok = vec!['i', 'd', 'x', 'o', 'f', 'f', 's', 'e', 't', 'b', 'i', 't', 's', '='];
    let sixty_four = vec!['6', '4'];
    assert(bk@ =~= bookname_key());
    assert(ok@ =~= offsetbits_key());
    let mut name = chars_of(stem);
    let mut wide = false;
    let mut i: usize = 0;
    assert(lv.subrange(0, 0) =~= Seq::<Seq<char>>::empty());
    while i < lines.len()
        invariant
            i <= lines.len(),
            lv == lines@.map_values(|x: String| x@),
            lv == split_on(lossy_utf8(ifo@), '\n'),
            bk@ == bookname_key(),
            ok@ == offsetbits_key(),
            sixty_four@ == seq!['6', '4'],
            (name@, wide) == ifo_fold(lv.subrange(0, i as int), stem@),
        decreases lines.len() - i,
    {
        let line = chars_of(lines[i].as_str());
        assert(lv.subrange(0, i + 1).drop_last() =~= lv.subrange(0, i as int));
        assert(lv.subrange(0, i + 1).last() == line@);
        if chars_start_with(&line, &bk) {
            name = trim_chars(&skip_chars(&line, 9), Strip::White);
        }
        if chars_start_with(&line, &ok) {
            let v = trim_chars(&skip_chars(&line, 14), Strip::White);
            wide = same_chars(&v, &sixty_four);
        }
        i += 1;
    }
    assert(lv.subrange(0, lines.len() as int) =~= lv);
    (string_of(&name), wide)
}

/// Any two strings are ordered one way or the other.
pub proof fn lemma_chars_le_total(a: Seq<char>, b: Seq<char>)
    ensures
        chars_le(a, b) || chars_le(b, a),
    decreases a.len(),
{
    if a.len() > 0 && b.len() > 0 && (a[0] as u32) == (b[0] as u32) {
        lemma_chars_le_total(a.drop_first(), b.drop_first());
    }
}

/// The order is transitive.
pub proof fn lemma_chars_le_trans(a: Seq<char>, b: Seq<char>, c: Seq<char>)
    requires
        chars_le(a, b),
        chars_le(b, c),
    ensures
        chars_le(a, c),
    decreases a.len(),
{
    if a.len() > 0 && b.len() > 0 && c.len() > 0 && (a[0] as u32) == (b[0] as u32) && (b[0] as u32) == (
    c[0] as u32) {
        lemma_chars_le_trans(a.drop_first(), b.drop_first(), c.drop_first());
    }
}

/// Dictionary stems among the names of the dictionary directory's files, sorted.
pub fn list(names: &Vec<String>) -> (out: Vec<String>)
    ensures
        sorted_chars(out@.map_values(|x: String| x@)),
        out@.map_values(|x: String| x@).to_multiset() == ifo_stems(names@.map_values(|x: String| x@)).to_multiset(),
{
    let ghost nv = names@.map_values(|x: String| x@);
    let ext = vec!['.', 'i', 'f', 'o'];
    assert(ext@ =~= ifo_ext());
    let mut out: Vec<String> = Vec::new();
    let mut i: usize = 0;
    assert(nv.subrange(0, 0) =~= Seq::<Seq<char>>::empty());
    assert(out@.map_values(|x: String| x@) =~= Seq::<Seq<char>>::empty());
    while i < names.len()
        invariant
            i <= names.len(),
            nv == names@.map_values(|x: String| x@),
            ext@ == ifo_ext(),
            sorted_chars(out@.map_values(|x: String| x@)),
            out@.map_values(|x: String| x@).to_multiset() == ifo_stems(nv.subrange(0, i as int)).to_multiset(),
        decreases names.len() - i,
    {
        let cs = chars_of(names[i].as_str());
        let ghost pre = nv.subrange(0, i as int);
        let ghost pre1 = nv.subrange(0, i + 1);
        assert(pre1.drop_last() =~= pre);
        assert(pre1.last() == cs@);
        if crate::textutil::chars_end_with(&cs, &ext) {
            let stem = crate::textutil::prefix_chars(&cs, cs.len() - 4);
            let ghost st = stem@;
            insert_sorted(&mut out, stem);
            proof {
                broadcast use vstd::seq_lib::group_to_multiset_ensures;
                assert(ifo_stems(pre1) == ifo_stems(pre).push(st));
            }
        } else {
            assert(ifo_stems(pre1) == ifo_stems(pre));
        }
        i += 1;
    }
    assert(nv.subrange(0, names.len() as int) =~= nv);
    out
}

/// Insert `x` after every string that sorts at or before it.
pub(crate) fn insert_sorted(out: &mut Vec<String>, x: Vec<char>)
    requires
        sorted_chars(old(out)@.map_values(|s: String| s@)),
    ensures
        sorted_chars(final(out)@.map_values(|s: String| s@)),
        final(out)@.map_values(|s: String| s@).to_multiset() == old(out)@.map_values(|s: String| s@).to_multiset().insert(x@),
{
    let ghost ov = out@.map_values(|s: String| s@);
    let mut j: usize = 0;
    while j < out.len() && chars_le_exec(&chars_of(out[j].as_str()), &x)
        invariant
            j <= out.len(),
            ov == out@.map_values(|s: String| s@),
            forall|k: int| 0 <= k < j ==> chars_le(#[trigger] ov[k], x@),
        decreases out.len() - j,
    {
        j += 1;
    }
    let s = string_of(&x);
    out.insert(j, s);
    let ghost nv = out@.map_values(|s: String| s@);
    assert(nv =~= ov.insert(j as int, x@));
    proof {
        if j < ov.len() {
            lemma_chars_le_total(ov[j as int], x@);
        }
        assert forall|a: int, b: int| 0 <= a < b < nv.len() implies chars_le(nv[a], nv[b]) by {
            if b < j {
            } else if a > j {
                assert(nv[a] == ov[a - 1] && nv[b] == ov[b - 1]);
            } else if a == j {
                if b - 1 > j {
                    lemma_chars_le_trans(x@, ov[j as int], ov[b - 1]);
                }
            } else if b == j {
            } else {
                assert(nv[b] == ov[b - 1]);
                if b - 1 > j {
                    lemma_chars_le_trans(ov[a], x@, ov[j as int]);
                    lemma_chars_le_trans(ov[a], ov[j as int], ov[b - 1]);
                } else {
                    lemma_chars_le_trans(ov[a], x@, ov[j as int]);
                }
            }
        }
        let left = ov.subrange(0, j as int);
        let right = ov.subrange(j as int, ov.len() as int);
        assert(ov =~= left + right);
        assert(nv =~= left + (seq![x@] + right));
        vstd::seq_lib::lemma_multiset_commutative(left, right);
        vstd::seq_lib::lemma_multiset_commutative(left, seq![x@] + right);
        vstd::seq_lib::lemma_multiset_commutative(seq![x@], right);
        assert(seq![x@].to_multiset() =~= vstd::multiset::Multiset::empty().insert(x@)) by {
            broadcast use vstd::seq_lib::group_to_multiset_ensures;
            assert(seq![x@] =~= Seq::<Seq<char>>::empty().push(x@));
        }
        assert(nv.to_multiset() =~= ov.to_multiset().insert(x@));
    }
}

impl Dict {
    /// Open a dictionary by stem from its files' bytes: the `.ifo`, `.idx` and `.dict`,
    /// and the `.qix` if there is one. A `.qix` that does not belong to this index, or
    /// none, is built anew from the index; the second result says so, and the caller
    /// stores [`Dict::qix_bytes`] for the opens that follow.
    pub fn open(stem: &str, ifo: &[u8], idx: Vec<u8>, dict: Vec<u8>, qix: Option<Vec<u8>>) -> (r: (Dict, bool))
        requires
            idx@.len() + LONG_WINDOW + 64 <= usize::MAX,
        ensures
            r.0.wf(),
            (r.0@.name, r.0@.wide) == ifo_settings(stem@, ifo@),
            r.0@.idx == idx@,
            r.0@.dict == dict@,
            r.1 <==> !(qix matches Some(q) && qix_valid(q@, idx@.len() as int)),
            r.1 ==> r.0@.qix == qix_file(idx@, r.0@.wide),
            !r.1 ==> (qix matches Some(q) && r.0@.qix == q@),
    {
        let (name, wide) = ifo_settings_of(stem, ifo);
        let idx_len = idx.len() as u64;
        let (q, rebuilt) = match qix {
            Some(q) => {
                if qix_valid_exec(&q, idx_len) {
                    (q, false)
                } else {
                    (build_qix(&idx, wide), true)
                }
            },
            None => (build_qix(&idx, wide), true),
        };
        let samples: u64 = if q.len() >= 16 { ((q.len() - 16) / 8) as u64 } else { 0 };
        (Dict { name, idx, dict, qix: q, wide, samples }, rebuilt)
    }

    /// The `.qix` bytes the dictionary reads its samples from.
    pub fn qix_bytes(&self) -> (r: &Vec<u8>)
        ensures
            r@ == self@.qix,
    {
        &self.qix
    }

    /// The sizes stay clear of the integer limits the reads work with.
    pub closed spec fn wf(self) -> bool {
        &&& self.idx@.len() + LONG_WINDOW + 64 <= usize::MAX
        &&& self.samples as int == self@.samples()
    }

    /// The record at `pos`: (headword, data offset, size, next position).
    fn entry_at(&self, pos: u64) -> (r: Option<(String, u64, u32, u64)>)
        requires
            self.wf(),
        ensures
            r matches Some(e) ==> self@.entry_at(pos as int) == Some((e.0@, e.1, e.2, e.3 as int)),
            r is None ==> self@.entry_at(pos as int) is None,
    {
        let len = self.idx.len();
        if pos >= len as u64 {
            return None;
        }
        let p = pos as usize;
        let nums: usize = if self.wide { 12 } else { 8 };
        let end = if len - p < WINDOW { len } else { p + WINDOW };
        match find_nul(&self.idx, p, end) {
            None => {
                let far = if len - p < LONG_WINDOW { len } else { p + LONG_WINDOW };
                match find_nul(&self.idx, p, far) {
                    Some(q) => {
                        proof {
                            lemma_nul_limit(self.idx@, p as int, far as int, p + LONG_WINDOW);
                        }
                        let mut w = String::new();
                        push_char(&mut w, '\u{fffd}');
                        Some((w, 0, 0, (q + 1 + nums) as u64))
                    },
                    None => {
                        proof {
                            lemma_nul_limit(self.idx@, p as int, far as int, p + LONG_WINDOW);
                        }
                        None
                    },
                }
            },
            Some(q) => {
                if q + 1 + nums > end {
                    return None;
                }
                let keep = if q - p < MAX_WORD { q - p } else { MAX_WORD };
                let word = from_utf8_lossy(slice_subrange(self.idx.as_slice(), p, p + keep));
                let off: u64 = if self.wide {
                    be64_at(&self.idx, q + 1)
                } else {
                    be32_at(&self.idx, q + 1) as u64
                };
                let size = be32_at(&self.idx, q + 1 + nums - 4);
                Some((word, off, size, (q + 1 + nums) as u64))
            },
        }
    }

    /// Sample `i` of the `.qix`.
    fn sample(&self, i: u64) -> (r: u64)
        requires
            self.wf(),
            i < self.samples,
        ensures
            r == self@.sample(i as int),
    {
        let ql = self.qix.len();
        assert(ql >= 16);
        assert(16 + 8 * i + 8 <= ql) by (nonlinear_arith)
            requires
                ql >= 16,
                i < (ql - 16) / 8,
        ;
        let o: usize = 16 + 8 * (i as usize);
        le64_at(&self.qix, o)
    }

    /// The entry of the record at `pos`.
    fn read_entry(&self, pos: u64) -> (r: Option<Entry>)
        requires
            self.wf(),
        ensures
            r matches Some(e) ==> self@.read_entry(pos as int) == Some((e.headword@, e.text@)),
            r is None ==> self@.read_entry(pos as int) is None,
    {
        let e = match self.entry_at(pos) {
            Some(e) => e,
            None => {
                return None;
            },
        };
        let dl = self.dict.len() as u64;
        if e.1 >= dl {
            return None;
        }
        let mut size = e.2 as u64;
        if size > MAX_TEXT {
            size = MAX_TEXT;
        }
        if size > dl - e.1 {
            size = dl - e.1;
        }
        let a = e.1 as usize;
        let data = slice_subrange(self.dict.as_slice(), a, a + size as usize);
        let text = from_utf8_lossy(data);
        Some(Entry { headword: e.0, text: strip_markup(text.as_str()) })
    }

    /// Look up a word (exact, then case-folded), returning its definition.
    pub fn lookup(&self, word: &str) -> (r: Option<Entry>)
        requires
            self.wf(),
        ensures
            r matches Some(e) ==> self@.lookup(word@) == Some((e.headword@, e.text@)),
            r is None ==> self@.lookup(word@) is None,
    {
        let cs = chars_of(word);
        let key = trim_chars(&cs, Strip::White);
        if key.len() == 0 || self.samples == 0 {
            return None;
        }
        let ks = string_of(&key);
        let ts = fold(ks.as_str());
        let target = chars_of(ts.as_str());
        let ghost t = target@;
        let ghost n = self@.samples();
        assert(self@.lookup(word@) == self@.lookup_folded(t));
        // Binary search over the sampled record starts (exact boundaries).
        let mut lo: u64 = 0;
        let mut hi: u64 = self.samples;
        while lo < hi
            invariant
                self.wf(),
                lo <= hi <= self.samples,
                t == target@,
                self@.search(t, 0, n) == self@.search(t, lo as int, hi as int),
                n == self.samples,
                self@.lookup(word@) == self@.lookup_folded(t),
            decreases hi - lo,
        {
            let mid = lo + (hi - lo) / 2;
            let pos = self.sample(mid);
            match self.entry_at(pos) {
                None => {
                    return None;
                },
                Some(e) => {
                    let f = chars_of(fold(e.0.as_str()).as_str());
                    if chars_le_exec(&f, &target) {
                        lo = mid + 1;
                    } else {
                        hi = mid;
                    }
                },
            }
        }
        // `lo` is the first sample greater than the target; the word, if present, lies
        // in the stride before it.
        assert(self@.search(t, 0, n) == Some(lo as int));
        assert(self@.lookup(word@) == self@.scan_stride(t, lo as int));
        let start = if lo == 0 { 0 } else { self.sample(lo - 1) };
        let mut pos = start;
        let mut k: u32 = 0;
        while k < STRIDE
            invariant
                self.wf(),
                k <= STRIDE,
                t == target@,
                self@.scan(t, start as int, STRIDE as nat) == self@.scan(t, pos as int, (STRIDE - k) as nat),
                self@.lookup(word@) == match self@.scan(t, start as int, STRIDE as nat) {
                    Some(p) => self@.read_entry(p),
                    None => None,
                },
            decreases STRIDE - k,
        {
            if pos >= self.idx.len() as u64 {
                return None;
            }
            match self.entry_at(pos) {
                None => {
                    return None;
                },
                Some(e) => {
                    let f = chars_of(fold(e.0.as_str()).as_str());
                    if same_chars(&f, &target) {
                        return self.read_entry(pos);
                    }
                    if !chars_le_exec(&f, &target) {
                        return None;
                    }
                    pos = e.3;
                },
            }
            k += 1;
        }
        None
    }

    /// Look up with stemming fallbacks: exact, lowercase, then common suffixes.
    pub fn lookup_stemmed(&self, word: &str) -> (r: Option<Entry>)
        requires
            self.wf(),
        ensures
            r matches Some(e) ==> self@.lookup_stemmed(word@) == Some((e.headword@, e.text@)),
            r is None ==> self@.lookup_stemmed(word@) is None,
    {
        let cs = chars_of(word);
        let t = trim_chars(&cs, Strip::White);
        let w = trim_chars(&t, Strip::NonAlnum);
        let ws = string_of(&w);
        match self.lookup(ws.as_str()) {
            Some(e) => {
                return Some(e);
            },
            None => {},
        }
        let lower = to_lowercase(ws.as_str());
        let cands = stems(lower.as_str());
        let ghost cv = cands@.map_values(|x: String| x@);
        assert(cv == spec_stems(str_lowercase(w@)));
        assert(cv.subrange(0, cv.len() as int) =~= cv);
        let mut i: usize = 0;
        while i < cands.len()
            invariant
                self.wf(),
                i <= cands.len(),
                cv.len() == cands.len(),
                forall|j: int| 0 <= j < cands.len() ==> #[trigger] cv[j] == cands@[j]@,
                self@.first_found(cv.subrange(i as int, cv.len() as int)) == self@.first_found(cv),
                self@.lookup_stemmed(word@) == self@.first_found(cv),
            decreases cands.len() - i,
        {
            let ghost sub = cv.subrange(i as int, cv.len() as int);
            assert(sub.drop_first() =~= cv.subrange(i + 1, cv.len() as int));
            assert(sub[0] == cv[i as int]);
            let found = self.lookup(cands[i].as_str());
            if found.is_some() {
                assert(self@.lookup(sub[0]) is Some);
                assert(self@.first_found(sub) == self@.lookup(sub[0]));
                return found;
            }
            i += 1;
        }
        None
    }
}

/// What the first NUL found is.
pub proof fn lemma_nul_found(b: Seq<u8>, r: int, lim: int)
    ensures
        nul_in(b, r, lim) matches Some(q) ==> r <= q < lim && q < b.len() && b[q] == 0
            && forall|j: int| r <= j < q ==> b[j] != 0,
        nul_in(b, r, lim) is None && 0 <= r ==> forall|j: int| r <= j < lim && j < b.len() ==> b[j] != 0,
    decreases lim - r,
{
    if 0 <= r < lim && r < b.len() && b[r] != 0 {
        lemma_nul_found(b, r + 1, lim);
    }
}

/// Past the end of `b`, a larger limit finds nothing more.
proof fn lemma_nul_limit(b: Seq<u8>, r: int, lim: int, lim2: int)
    requires
        0 <= r,
        lim <= lim2,
        lim == b.len() || lim == lim2,
    ensures
        nul_in(b, r, lim) == nul_in(b, r, lim2),
    decreases lim - r,
{
    if r < lim && r < b.len() && b[r] != 0 {
        lemma_nul_limit(b, r + 1, lim, lim2);
    }
}

} // verus!
