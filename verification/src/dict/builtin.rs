//! The built-in English dictionary format (`.qdict`, version 1; integers little-endian).
//!
//! Three sections, each a run of independently deflated blocks of at most [`BLOCK`]
//! uncompressed bytes, so a lookup inflates one block at a time:
//!
//! * word blocks: headwords in sorted (lowercase, bytewise) order with their senses,
//!   front-coded in groups of [`GROUP`]; an uncompressed group index lets a lookup
//!   binary-search the groups, inflate the block holding the group, then scan it;
//! * gloss blocks: one record per unique gloss, numbered in first-use order;
//! * vocab blocks: the most useful gloss words, numbered by frequency; gloss text is
//!   tokenised against this vocabulary.
//!
//! ```text
//! header (64 bytes)
//!   0  "QDCT"          4  u16 version = 1      6  u16 flags = 0
//!   8  u32 words       12 u32 glosses          16 u32 vocab        20 u32 groups
//!   24 u32 group_index (u32[groups+1]: absolute offsets of group records; the last is the end)
//!   28 u32 wtab        (u32[wblocks+1]: absolute offsets of word blocks; the last is the end)
//!   32 u32 wblocks
//!   36 u32 gtab        ((u32 first_id, u32 offset)[gblocks+1]; the last is (glosses, end))
//!   40 u32 gblocks
//!   44 u32 vtab        (same shape as gtab, for vocab blocks)
//!   48 u32 vblocks
//!   52 u32 block = 4096   56 u32 total length   60 reserved
//! group record: u16 block, u16 offset in block, u32 gloss id counter at group start,
//!               then the group's first headword (key bytes; length from the index)
//! word block:   entries; front-coding restarts (empty prefix) at every group start
//!   entry: u8 hdr = prefix_len << 4 | suffix_len, or 0xFF, u8 prefix_len, u8 suffix_len
//!          suffix bytes (key = prefix of the previous key + suffix)
//!          u8 info: bits 0-3 sense count, bit 4 = a caps mask follows
//!          [LEB128 caps mask: bit i set = byte i of the key is upper-case in the display form]
//!          per sense: u8 pos (0 noun, 1 verb, 2 adjective, 3 adverb); bit 7 set = a u24 gloss
//!          id follows (back-reference); clear = the gloss id is the running counter, which
//!          then increments
//! gloss block:  records u8 len + token bytes.   vocab block: records u8 len + ASCII word.
//! token bytes:  0x01-0x7E literal ASCII; 0x7F = "…";
//!               0xD0-0xFF = " " + vocab[b - 0xD0];
//!               0x80-0xBF, b1 = " " + vocab[(b0 & 0x3F) << 8 | b1];
//!               0xC0-0xCF, b1 = vocab[(b0 & 0x0F) << 8 | b1] (no leading space)
//! ```
//!
//! Every block is a raw deflate stream (no zlib header).

use vstd::prelude::*;
use vstd::slice::slice_subrange;
use crate::textutil::{chars_of, lossy_utf8, str_lowercase, string_of, strips, to_lowercase, trim_by, trim_chars, Strip};
use crate::dict::{spec_stems, stems};
use vstd::utf8::encode_utf8;
use crate::dict::Entry;

verus! {

/// Display name of the built-in dictionary.
pub const NAME: &'static str = "WordNet 3.1";

/// Uncompressed size of the largest block, and of the one inflate buffer a lookup uses.
pub const BLOCK: usize = 4096;

/// Headwords per group in the index table.
pub const GROUP: usize = 64;

/// Little-endian u16 at `o` (the caller checks the bounds).
pub open spec fn le16(d: Seq<u8>, o: int) -> int {
    d[o] as int + 256 * (d[o + 1] as int)
}

/// Little-endian u32 at `o` (the caller checks the bounds).
pub open spec fn le32(d: Seq<u8>, o: int) -> int {
    le16(d, o) + 65536 * le16(d, o + 2)
}

/// `n` bytes at `o` lie inside `d`.
pub open spec fn fits(d: Seq<u8>, o: int, n: int) -> bool {
    0 <= o && o + n <= d.len()
}

/// The u16 at `o`, if it lies inside `d`.
pub open spec fn get16(d: Seq<u8>, o: int) -> Option<u16> {
    if fits(d, o, 2) {
        Some(le16(d, o) as u16)
    } else {
        None
    }
}

/// The u32 at `o`, if it lies inside `d`.
pub open spec fn get32(d: Seq<u8>, o: int) -> Option<u32> {
    if fits(d, o, 4) {
        Some(le32(d, o) as u32)
    } else {
        None
    }
}

proof fn lemma_le_bounds(d: Seq<u8>, o: int)
    requires
        fits(d, o, 4),
    ensures
        0 <= le16(d, o) < 65536,
        0 <= le16(d, o + 2) < 65536,
        0 <= le32(d, o) <= u32::MAX,
{
}

pub(crate) fn u16_at(d: &[u8], o: usize) -> (r: Option<u16>)
    ensures
        r == get16(d@, o as int),
{
    if o <= d.len() && d.len() - o >= 2 {
        let lo = d[o] as u16;
        let hi = d[o + 1] as u16;
        Some(lo + 256 * hi)
    } else {
        None
    }
}

pub(crate) fn u32_at(d: &[u8], o: usize) -> (r: Option<u32>)
    ensures
        r == get32(d@, o as int),
{
    if o <= d.len() && d.len() - o >= 4 {
        let lo = u16_at(d, o).unwrap();
        let hi = u16_at(d, o + 2).unwrap();
        proof {
            lemma_le_bounds(d@, o as int);
        }
        Some(lo as u32 + 65536 * hi as u32)
    } else {
        None
    }
}

/// A parsed `.qdict` blob (borrowed; parsing reads only the header).
#[derive(Clone, Copy)]
pub struct Blob<'a> {
    data: &'a [u8],
    words: u32,
    groups: u32,
    group_index: usize,
    wtab: usize,
    wblocks: u32,
    gtab: usize,
    gblocks: u32,
    vtab: usize,
    vblocks: u32,
}

/// A well-formed version-1 header: the magic, the version, the block size and the total
/// length agreeing with the blob.
pub open spec fn valid_header(d: Seq<u8>) -> bool {
    &&& d.len() >= 60
    &&& d[0] == 0x51u8 && d[1] == 0x44u8 && d[2] == 0x43u8 && d[3] == 0x54u8
    &&& le16(d, 4) == 1
    &&& le32(d, 56) == d.len()
    &&& le32(d, 52) == BLOCK
}

impl<'a> Blob<'a> {
    /// The blob's bytes.
    pub closed spec fn bytes(self) -> Seq<u8> {
        self.data@
    }

    /// The header fields, as read from the bytes.
    pub closed spec fn header_read(self) -> bool {
        let d = self.data@;
        &&& valid_header(d)
        &&& self.words as int == le32(d, 8)
        &&& self.groups as int == le32(d, 20)
        &&& self.group_index as int == le32(d, 24)
        &&& self.wtab as int == le32(d, 28)
        &&& self.wblocks as int == le32(d, 32)
        &&& self.gtab as int == le32(d, 36)
        &&& self.gblocks as int == le32(d, 40)
        &&& self.vtab as int == le32(d, 44)
        &&& self.vblocks as int == le32(d, 48)
    }

    /// Number of headwords, as the header states it.
    pub closed spec fn spec_words(self) -> u32 {
        self.words
    }

    /// Parse the header; `None` if this is not a version-1 qdict.
    pub fn parse(data: &'a [u8]) -> (r: Option<Blob<'a>>)
        ensures
            r is Some <==> valid_header(data@),
            r matches Some(b) ==> b.bytes() == data@ && b.header_read(),
    {
        if data.len() < 4 {
            return None;
        }
        if !(data[0] == 0x51u8 && data[1] == 0x44u8 && data[2] == 0x43u8 && data[3] == 0x54u8) {
            return None;
        }
        match u16_at(data, 4) {
            Some(v) => {
                if v != 1 {
                    return None;
                }
            },
            None => {
                return None;
            },
        }
        let total = match u32_at(data, 56) {
            Some(t) => t,
            None => {
                return None;
            },
        };
        if total as usize != data.len() {
            return None;
        }
        match u32_at(data, 52) {
            Some(b) => {
                if b as usize != BLOCK {
                    return None;
                }
            },
            None => {
                return None;
            },
        }
        Some(
            Blob {
                data,
                words: u32_at(data, 8).unwrap(),
                groups: u32_at(data, 20).unwrap(),
                group_index: u32_at(data, 24).unwrap() as usize,
                wtab: u32_at(data, 28).unwrap() as usize,
                wblocks: u32_at(data, 32).unwrap(),
                gtab: u32_at(data, 36).unwrap() as usize,
                gblocks: u32_at(data, 40).unwrap(),
                vtab: u32_at(data, 44).unwrap() as usize,
                vblocks: u32_at(data, 48).unwrap(),
            },
        )
    }

    /// Number of headwords.
    pub fn words(&self) -> (n: u32)
        requires
            self.header_read(),
        ensures
            n as int == le32(self.bytes(), 8),
    {
        self.words
    }
}

/// What inflating a raw deflate stream `src` into a buffer of `cap` bytes gives: the
/// decompressed bytes, or nothing when the stream is not a complete, valid one that fits.
pub uninterp spec fn inflate_raw(src: Seq<u8>, cap: nat) -> Option<Seq<u8>>;

/// `miniz_oxide::inflate::core::decompress` over a fresh decoder, with a non-wrapping
/// output buffer of `cap` bytes: the output when the stream ends (`Done`), else nothing.
/// The contract says the result is a function of the stream and the capacity, and that it
/// never exceeds the capacity; what the bytes are is left to the decoder.
#[verifier::external_body]
fn inflate(src: &[u8], cap: usize) -> (r: Option<Vec<u8>>)
    ensures
        r is Some <==> inflate_raw(src@, cap as nat) is Some,
        r matches Some(v) ==> inflate_raw(src@, cap as nat) == Some(v@) && v@.len() <= cap,
{
    let mut state: Box<miniz_oxide::inflate::core::DecompressorOxide> = Box::default();
    let mut buf = vec![0u8; cap];
    let flags = miniz_oxide::inflate::core::inflate_flags::TINFL_FLAG_USING_NON_WRAPPING_OUTPUT_BUF;
    let (status, _, out) = miniz_oxide::inflate::core::decompress(&mut state, src, &mut buf, 0, flags);
    if status != miniz_oxide::inflate::TINFLStatus::Done {
        return None;
    }
    buf.truncate(out);
    Some(buf)
}

/// Section tags for the inflater's block cache.
const SEC_WORD: u8 = 0;
const SEC_GLOSS: u8 = 1;
const SEC_VOCAB: u8 = 2;

/// `base + k * i`, when it fits in a `usize`.
fn offset(base: usize, k: usize, i: u64) -> (r: Option<usize>)
    requires
        k <= 8,
        i <= 0x1_0000_0000u64,
    ensures
        r matches Some(o) ==> o == base + k * i,
        r is None ==> base + k * i > usize::MAX,
{
    assert(k as u64 * i as u64 <= 8 * 0x1_0000_0000u64) by (nonlinear_arith)
        requires
            k <= 8,
            i <= 0x1_0000_0000u64,
    ;
    let ki: u64 = k as u64 * i as u64;
    if ki > (usize::MAX - base) as u64 {
        None
    } else {
        Some(base + ki as usize)
    }
}

/// The id table entry `i` of a gloss/vocab section: (first id, data offset).
pub open spec fn spec_id_entry(d: Seq<u8>, tab: int, i: int) -> Option<(u32, usize)> {
    match (get32(d, tab + 8 * i), get32(d, tab + 8 * i + 4)) {
        (Some(first), Some(off)) => Some((first, off as usize)),
        _ => None,
    }
}

/// Binary search over an id table: the first index in `[lo, hi)` whose first id is greater
/// than `id`, as the halving search finds it (for a table sorted by first id, the one
/// such index); nothing if an entry it reads lies outside the blob.
pub open spec fn id_search(d: Seq<u8>, tab: int, id: u32, lo: int, hi: int) -> Option<int>
    decreases hi - lo,
{
    if lo >= hi {
        Some(lo)
    } else {
        let mid = lo + (hi - lo) / 2;
        match spec_id_entry(d, tab, mid) {
            None => None,
            Some(e) => if e.0 <= id {
                id_search(d, tab, id, mid + 1, hi)
            } else {
                id_search(d, tab, id, lo, mid)
            },
        }
    }
}

/// In a sorted table the search finds the first entry greater than `id`.
pub proof fn lemma_id_search_sorted(d: Seq<u8>, tab: int, id: u32, lo: int, hi: int)
    requires
        0 <= lo <= hi,
        forall|i: int| lo <= i < hi ==> (#[trigger] spec_id_entry(d, tab, i)) is Some,
        forall|i: int, j: int|
            lo <= i <= j < hi ==> (#[trigger] spec_id_entry(d, tab, i)).unwrap().0 <= (
            #[trigger] spec_id_entry(d, tab, j)).unwrap().0,
    ensures
        id_search(d, tab, id, lo, hi) matches Some(k) && lo <= k <= hi && (forall|i: int|
            lo <= i < k ==> (#[trigger] spec_id_entry(d, tab, i)).unwrap().0 <= id) && (forall|
            i: int|
            k <= i < hi ==> (#[trigger] spec_id_entry(d, tab, i)).unwrap().0 > id),
    decreases hi - lo,
{
    if lo < hi {
        let mid = lo + (hi - lo) / 2;
        let e = spec_id_entry(d, tab, mid);
        if e.unwrap().0 <= id {
            lemma_id_search_sorted(d, tab, id, mid + 1, hi);
        } else {
            lemma_id_search_sorted(d, tab, id, lo, mid);
        }
    }
}

/// Skip `k` length-prefixed records from position `p`: the position of the next one.
pub open spec fn skip_records(b: Seq<u8>, p: int, k: nat) -> Option<int>
    decreases k,
{
    if k == 0 {
        Some(p)
    } else if 0 <= p < b.len() {
        skip_records(b, p + 1 + b[p] as int, (k - 1) as nat)
    } else {
        None
    }
}

/// The record at position `p` of a block: its bytes, if they lie inside the block.
pub open spec fn record_at(b: Seq<u8>, p: int) -> Option<Seq<u8>> {
    if 0 <= p < b.len() && p + 1 + b[p] as int <= b.len() {
        Some(b.subrange(p + 1, p + 1 + b[p] as int))
    } else {
        None
    }
}

/// Lexicographic order of byte strings (the order of `<=` on slices).
pub open spec fn bytes_le(a: Seq<u8>, b: Seq<u8>) -> bool
    decreases a.len(),
{
    if a.len() == 0 {
        true
    } else if b.len() == 0 {
        false
    } else if a[0] != b[0] {
        a[0] < b[0]
    } else {
        bytes_le(a.drop_first(), b.drop_first())
    }
}

pub(crate) fn slice_le(a: &[u8], b: &[u8]) -> (r: bool)
    ensures
        r == bytes_le(a@, b@),
{
    let mut i: usize = 0;
    assert(a@.subrange(0, a.len() as int) =~= a@);
    assert(b@.subrange(0, b.len() as int) =~= b@);
    while i < a.len() && i < b.len()
        invariant
            0 <= i <= a.len(),
            i <= b.len(),
            a@.subrange(0, i as int) == b@.subrange(0, i as int),
            bytes_le(a@, b@) == bytes_le(a@.subrange(i as int, a.len() as int), b@.subrange(i as int, b.len() as int)),
        decreases a.len() - i,
    {
        if a[i] != b[i] {
            return a[i] < b[i];
        }
        let ghost a1 = a@.subrange(i as int, a.len() as int);
        let ghost b1 = b@.subrange(i as int, b.len() as int);
        assert(a1.drop_first() =~= a@.subrange(i + 1, a.len() as int));
        assert(b1.drop_first() =~= b@.subrange(i + 1, b.len() as int));
        i += 1;
        assert(a@.subrange(0, i as int) =~= a@.subrange(0, i - 1).push(a@[i - 1]));
        assert(b@.subrange(0, i as int) =~= b@.subrange(0, i - 1).push(b@[i - 1]));
    }
    i == a.len()
}


/// The length of the token at `i`: two bytes for a vocabulary reference with a second id
/// byte (0x80-0xCF), else one.
pub open spec fn tok_len(t: Seq<u8>, i: int) -> int {
    if 0x80 <= t[i] < 0xD0 {
        2
    } else {
        1
    }
}

/// The vocabulary id the token at `i` refers to, if any (the caller checks a two-byte
/// token is complete).
pub open spec fn tok_id(t: Seq<u8>, i: int) -> Option<u32> {
    let b = t[i];
    if b >= 0xD0 {
        Some((b - 0xD0) as u32)
    } else if b >= 0xC0 {
        Some(((b % 16) * 256 + t[i + 1]) as u32)
    } else if b >= 0x80 {
        Some(((b % 64) * 256 + t[i + 1]) as u32)
    } else {
        None
    }
}

/// The vocabulary ids the tokens from `i` on refer to, in order; nothing when a two-byte
/// token is cut off by the end.
pub open spec fn ids_of(t: Seq<u8>, i: int) -> Option<Seq<u32>>
    decreases t.len() - i,
{
    if i < 0 || i >= t.len() {
        Some(Seq::empty())
    } else if i + tok_len(t, i) > t.len() {
        None
    } else {
        match ids_of(t, i + tok_len(t, i)) {
            None => None,
            Some(rest) => match tok_id(t, i) {
                Some(id) => Some(seq![id] + rest),
                None => Some(rest),
            },
        }
    }
}

/// Every id the tokens from `i` on refer to is in `ids` (and the tokens are complete).
pub open spec fn ids_within(t: Seq<u8>, i: int, ids: Seq<u32>) -> bool {
    ids_of(t, i) matches Some(s) && forall|x: u32| s.contains(x) ==> ids.contains(x)
}

/// The tokens refer to `x`.
pub open spec fn refers_to(t: Seq<u8>, x: u32) -> bool {
    ids_of(t, 0) matches Some(s) && s.contains(x)
}

/// Strictly increasing.
pub open spec fn strictly_sorted(s: Seq<u32>) -> bool {
    forall|i: int, j: int| 0 <= i < j < s.len() ==> s[i] < s[j]
}

/// Add `x` to a strictly increasing vector unless it is there.
fn insert_sorted(v: &mut Vec<u32>, x: u32)
    requires
        strictly_sorted(old(v)@),
    ensures
        strictly_sorted(final(v)@),
        final(v)@.contains(x),
        forall|y: u32| #[trigger] final(v)@.contains(y) ==> old(v)@.contains(y) || y == x,
        forall|y: u32| #[trigger] old(v)@.contains(y) ==> final(v)@.contains(y),
{
    let mut pos: usize = 0;
    while pos < v.len() && v[pos] < x
        invariant
            0 <= pos <= v.len(),
            forall|k: int| 0 <= k < pos ==> v@[k] < x,
            v@ == old(v)@,
        decreases v.len() - pos,
    {
        pos += 1;
    }
    if pos < v.len() && v[pos] == x {
        assert(v@.contains(x)) by {
            assert(v@[pos as int] == x);
        }
        return;
    }
    let ghost old_v = v@;
    v.insert(pos, x);
    assert forall|y: u32| v@.contains(y) <==> (old_v.contains(y) || y == x) by {
        if v@.contains(y) {
            let k = choose|k: int| 0 <= k < v@.len() && v@[k] == y;
            if k < pos {
                assert(old_v[k] == y);
            } else if k > pos {
                assert(old_v[k - 1] == y);
            }
        }
        if old_v.contains(y) {
            let k = choose|k: int| 0 <= k < old_v.len() && old_v[k] == y;
            if k < pos {
                assert(v@[k] == y);
            } else {
                assert(v@[k + 1] == y);
            }
        }
        if y == x {
            assert(v@[pos as int] == y);
        }
    }
    assert(old_v == old(v)@);
    assert(v@[pos as int] == x);
}

/// The caps mask (LEB128, at most nine groups) at `p`, accumulated into `mask` from bit
/// `shift` on: the mask and the position after it.
pub open spec fn parse_mask(d: Seq<u8>, p: int, mask: u64, shift: u64) -> Option<(u64, int)>
    decreases 63 - shift,
{
    if p < 0 || p >= d.len() || shift >= 63 {
        None
    } else {
        let b = d[p];
        let m2 = mask | (((b & 0x7F) as u64) << shift);
        let s2 = (shift + 7) as u64;
        if b & 0x80 == 0 || s2 >= 63 {
            Some((m2, p + 1))
        } else {
            parse_mask(d, p + 1, m2, s2)
        }
    }
}

/// `n` senses at `p` with the running gloss counter at `gid`: the (pos, gloss id) pairs,
/// the counter after them and the position after them.
pub open spec fn parse_senses(d: Seq<u8>, p: int, n: nat, gid: u32) -> Option<(Seq<(u8, u32)>, u32, int)>
    decreases n,
{
    if n == 0 {
        Some((Seq::empty(), gid, p))
    } else if p < 0 || p >= d.len() {
        None
    } else {
        let pos = d[p];
        if pos & 0x80 != 0 {
            if p + 3 >= d.len() {
                None
            } else {
                let id = (d[p + 1] as int + 256 * (d[p + 2] as int) + 65536 * (d[p + 3] as int)) as u32;
                match parse_senses(d, p + 4, (n - 1) as nat, gid) {
                    None => None,
                    Some(r) => Some((seq![(pos & 0x7F, id)] + r.0, r.1, r.2)),
                }
            }
        } else if gid == u32::MAX {
            None
        } else {
            match parse_senses(d, p + 1, (n - 1) as nat, (gid + 1) as u32) {
                None => None,
                Some(r) => Some((seq![(pos & 0x7F, gid)] + r.0, r.1, r.2)),
            }
        }
    }
}

/// The key after front-coding: the first `prefix` bytes of the previous key (all of it
/// when it is shorter) and the suffix.
pub open spec fn front_coded(prev: Seq<u8>, prefix: int, suffix: Seq<u8>) -> Seq<u8> {
    (if prefix <= prev.len() {
        prev.subrange(0, prefix)
    } else {
        prev
    }) + suffix
}

/// The word-block entry at `p` after the key `prev`, with the gloss counter at `gid`:
/// (key, caps mask, senses, counter after, position after).
pub open spec fn parse_entry(d: Seq<u8>, p: int, prev: Seq<u8>, gid: u32) -> Option<(Seq<u8>, u64, Seq<(u8, u32)>, u32, int)> {
    if p < 0 || p >= d.len() {
        None
    } else {
        let hdr = d[p];
        let wide = hdr == 0xFF;
        if wide && p + 2 >= d.len() {
            None
        } else {
            let prefix: int = if wide { d[p + 1] as int } else { (hdr / 16) as int };
            let suffix: int = if wide { d[p + 2] as int } else { (hdr % 16) as int };
            let p2: int = if wide { p + 3 } else { p + 1 };
            if p2 + suffix > d.len() || p2 + suffix >= d.len() {
                None
            } else {
                let key = front_coded(prev, prefix, d.subrange(p2, p2 + suffix));
                let info = d[p2 + suffix];
                let p4 = p2 + suffix + 1;
                let m = if info & 0x10 != 0 {
                    parse_mask(d, p4, 0, 0)
                } else {
                    Some((0u64, p4))
                };
                match m {
                    None => None,
                    Some(m) => match parse_senses(d, m.1, (info & 15) as nat, gid) {
                        None => None,
                        Some(ss) => Some((key, m.0, ss.0, ss.1, ss.2)),
                    },
                }
            }
        }
    }
}

/// Scan at most `n` entries of a group from `p`: the entry whose key is `target`, if it
/// comes before a greater key, the end of the group or a malformed entry.
pub open spec fn scan_group(d: Seq<u8>, p: int, prev: Seq<u8>, gid: u32, n: nat, target: Seq<u8>) -> Option<(Seq<u8>, u64, Seq<(u8, u32)>, u32, int)>
    decreases n,
{
    if n == 0 {
        None
    } else {
        match parse_entry(d, p, prev, gid) {
            None => None,
            Some(e) => if e.0 == target {
                Some(e)
            } else if !bytes_le(e.0, target) {
                None
            } else {
                scan_group(d, e.4, e.0, e.3, (n - 1) as nat, target)
            },
        }
    }
}

/// ASCII upper case of a byte.
pub open spec fn upper(b: u8) -> u8 {
    if 0x61 <= b <= 0x7A {
        (b - 32) as u8
    } else {
        b
    }
}

/// The display form of a key: each byte as a character, upper-cased where the caps mask
/// (which covers the first 64 bytes) says so.
pub open spec fn display_key(key: Seq<u8>, mask: u64) -> Seq<char> {
    Seq::new(
        key.len(),
        |i: int|
            if i < 64 && (mask >> (i as u64)) & 1 != 0 {
                upper(key[i]) as char
            } else {
                key[i] as char
            },
    )
}

/// The part-of-speech label of a stored pos byte.
pub open spec fn pos_label(pos: u8) -> Seq<char> {
    if pos == 0 {
        seq!['n', '.']
    } else if pos == 1 {
        seq!['v', '.']
    } else if pos == 2 {
        seq!['a', 'd', 'j', '.']
    } else if pos == 3 {
        seq!['a', 'd', 'v', '.']
    } else {
        seq!['?']
    }
}

/// The definition text: one line per sense, "label gloss".
pub open spec fn entry_text(senses: Seq<(u8, u32)>, glosses: Seq<Seq<char>>, n: int) -> Seq<char>
    decreases n,
{
    if n <= 0 {
        Seq::empty()
    } else {
        let line = pos_label(senses[n - 1].0) + seq![' '] + glosses[n - 1];
        if n == 1 {
            line
        } else {
            entry_text(senses, glosses, n - 1) + seq!['\n'] + line
        }
    }
}

fn read_mask(d: &[u8], p: usize) -> (r: Option<(u64, usize)>)
    ensures
        r matches Some(v) ==> parse_mask(d@, p as int, 0, 0) == Some((v.0, v.1 as int)),
        r is None ==> parse_mask(d@, p as int, 0, 0) is None,
{
    let n = d.len();
    let mut mask: u64 = 0;
    let mut shift: u64 = 0;
    let ghost old_p = p;
    let mut q = p;
    loop
        invariant
            shift < 63,
            n == d@.len(),
            old_p == p,
            parse_mask(d@, q as int, mask, shift) == parse_mask(d@, old_p as int, 0, 0),
        decreases 63 - shift,
    {
        if q >= n {
            return None;
        }
        let ghost p0 = q as int;
        let ghost m0 = mask;
        let ghost s0 = shift;
        let b = d[q];
        q += 1;
        mask = mask | (((b & 0x7F) as u64) << shift);
        shift += 7;
        assert(parse_mask(d@, p0, m0, s0) == (if b & 0x80 == 0 || shift >= 63 {
            Some((mask, q as int))
        } else {
            parse_mask(d@, q as int, mask, shift)
        }));
        if b & 0x80 == 0 || shift >= 63 {
            return Some((mask, q));
        }
    }
}

fn read_senses(d: &[u8], p: usize, n: u8, gid: u32) -> (r: Option<(Vec<(u8, u32)>, u32, usize)>)
    requires
        n < 16,
    ensures
        r matches Some(v) ==> parse_senses(d@, p as int, n as nat, gid) == Some((v.0@, v.1, v.2 as int)),
        r is None ==> parse_senses(d@, p as int, n as nat, gid) is None,
{
    let len = d.len();
    let mut out: Vec<(u8, u32)> = Vec::new();
    let mut k: u8 = 0;
    let mut q = p;
    let mut gg2 = gid;
    let ghost p0 = p as int;
    let ghost g0 = gid;
    while k < n
        invariant
            k <= n < 16,
            len == d@.len(),
            p0 == p,
            g0 == gid,
            match parse_senses(d@, q as int, (n - k) as nat, gg2) {
                Some(r) => parse_senses(d@, p0, n as nat, g0) == Some((out@ + r.0, r.1, r.2)),
                None => parse_senses(d@, p0, n as nat, g0) is None,
            },
        decreases n - k,
    {
        if q >= d.len() {
            return None;
        }
        let pos = d[q];
        let ghost pp = q as int;
        let ghost gg = gg2;
        let ghost before = out@;
        let id: u32;
        if pos & 0x80 != 0 {
            if len - q <= 3 {
                return None;
            }
            id = d[q + 1] as u32 + 256 * d[q + 2] as u32 + 65536 * d[q + 3] as u32;
            q = q + 4;
        } else {
            if gg2 == u32::MAX {
                return None;
            }
            id = gg2;
            gg2 = gg2 + 1;
            q = q + 1;
        }
        out.push((pos & 0x7F, id));
        k += 1;
        proof {
            match parse_senses(d@, q as int, (n - k) as nat, gg2) {
                Some(r) => {
                    assert(parse_senses(d@, pp, (n - k + 1) as nat, gg) == Some((seq![(pos & 0x7F, id)] + r.0, r.1, r.2)));
                    assert(before + (seq![(pos & 0x7F, id)] + r.0) =~= out@ + r.0);
                },
                None => {},
            }
        }
    }
    proof {
        assert(out@ + Seq::<(u8, u32)>::empty() =~= out@);
    }
    Some((out, gg2, q))
}

/// Read the entry at `p`, replacing `key` by the entry's key.
fn read_entry(d: &[u8], p: usize, key: &mut Vec<u8>, gid: u32) -> (r: Option<(u64, Vec<(u8, u32)>, u32, usize)>)
    ensures
        r matches Some(v) ==> parse_entry(d@, p as int, old(key)@, gid) == Some((final(key)@, v.0, v.1@, v.2, v.3 as int)),
        r is None ==> parse_entry(d@, p as int, old(key)@, gid) is None,
{
    let len = d.len();
    if p >= len {
        return None;
    }
    let hdr = d[p];
    let (prefix, suffix, p2) = if hdr == 0xFF {
        if len - p <= 2 {
            return None;
        }
        (d[p + 1] as usize, d[p + 2] as usize, p + 3)
    } else {
        ((hdr / 16) as usize, (hdr % 16) as usize, p + 1)
    };
    if suffix >= len - p2 {
        return None;
    }
    let ghost prev = key@;
    key.truncate(prefix);
    let mut j: usize = p2;
    let ghost base = key@;
    while j < p2 + suffix
        invariant
            p2 <= j <= p2 + suffix < len,
            len == d@.len(),
            key@ == base + d@.subrange(p2 as int, j as int),
        decreases p2 + suffix - j,
    {
        key.push(d[j]);
        j += 1;
        assert(d@.subrange(p2 as int, j as int) =~= d@.subrange(p2 as int, j - 1).push(d@[j - 1]));
    }
    assert(key@ =~= front_coded(prev, prefix as int, d@.subrange(p2 as int, (p2 + suffix) as int)));
    let info = d[p2 + suffix];
    let p4 = p2 + suffix + 1;
    let (mask, p5) = if info & 0x10 != 0 {
        match read_mask(d, p4) {
            Some(m) => m,
            None => {
                return None;
            },
        }
    } else {
        (0u64, p4)
    };
    assert((info & 15) < 16) by (bit_vector);
    match read_senses(d, p5, info & 15, gid) {
        None => None,
        Some((senses, g2, p6)) => Some((mask, senses, g2, p6)),
    }
}

proof fn lemma_bytes_le_antisym(a: Seq<u8>, b: Seq<u8>)
    ensures
        bytes_le(a, b) && bytes_le(b, a) <==> a == b,
    decreases a.len(),
{
    if a.len() == 0 && b.len() == 0 {
        assert(a =~= b);
    }
    if a == b {
        lemma_bytes_le_refl(a);
    } else if a.len() > 0 && b.len() > 0 && a[0] == b[0] {
        lemma_bytes_le_antisym(a.drop_first(), b.drop_first());
        assert(bytes_le(a, b) == bytes_le(a.drop_first(), b.drop_first()));
        assert(bytes_le(b, a) == bytes_le(b.drop_first(), a.drop_first()));
        if a.drop_first() == b.drop_first() {
            assert(a =~= seq![a[0]] + a.drop_first());
            assert(b =~= seq![b[0]] + b.drop_first());
            assert(a =~= b);
        }
    }
}

proof fn lemma_bytes_le_refl(a: Seq<u8>)
    ensures
        bytes_le(a, a),
    decreases a.len(),
{
    if a.len() > 0 {
        lemma_bytes_le_refl(a.drop_first());
    }
}

/// Append the part-of-speech label of a stored pos byte.
fn push_label(s: &mut String, pos: u8)
    ensures
        final(s)@ == old(s)@ + pos_label(pos),
{
    let ghost s0 = s@;
    if pos == 0 {
        crate::textutil::push_char(s, 'n');
        crate::textutil::push_char(s, '.');
    } else if pos == 1 {
        crate::textutil::push_char(s, 'v');
        crate::textutil::push_char(s, '.');
    } else if pos == 2 {
        crate::textutil::push_char(s, 'a');
        crate::textutil::push_char(s, 'd');
        crate::textutil::push_char(s, 'j');
        crate::textutil::push_char(s, '.');
    } else if pos == 3 {
        crate::textutil::push_char(s, 'a');
        crate::textutil::push_char(s, 'd');
        crate::textutil::push_char(s, 'v');
        crate::textutil::push_char(s, '.');
    } else {
        crate::textutil::push_char(s, '?');
    }
    assert(s@ =~= s0 + pos_label(pos));
}

/// The display form of a key.
fn display(key: &Vec<u8>, mask: u64) -> (headword: String)
    ensures
        headword@ == display_key(key@, mask),
{
    let mut headword = String::new();
    let mut i: usize = 0;
    while i < key.len()
        invariant
            0 <= i <= key.len(),
            headword@ == display_key(key@, mask).subrange(0, i as int),
        decreases key.len() - i,
    {
        let b = key[i];
        let c = if i < 64 && (mask >> (i as u64)) & 1 != 0 {
            if 0x61 <= b && b <= 0x7A {
                b - 32
            } else {
                b
            }
        } else {
            b
        };
        crate::textutil::push_char(&mut headword, c as char);
        i += 1;
        assert(headword@ =~= display_key(key@, mask).subrange(0, i as int));
    }
    assert(display_key(key@, mask).subrange(0, key.len() as int) =~= display_key(key@, mask));
    headword
}

/// The definition text of senses with their glosses.
fn join_senses(senses: &Vec<(u8, u32)>, glosses: &Vec<String>, Ghost(gl): Ghost<Seq<Seq<char>>>) -> (text: String)
    requires
        glosses.len() == senses.len(),
        forall|m: int| 0 <= m < senses.len() ==> gl[m] == (#[trigger] glosses@[m])@,
    ensures
        text@ == entry_text(senses@, gl, senses@.len() as int),
{
    let mut text = String::new();
    let mut j: usize = 0;
    while j < senses.len()
        invariant
            0 <= j <= senses.len(),
            glosses.len() == senses.len(),
            forall|m: int| 0 <= m < senses.len() ==> gl[m] == (#[trigger] glosses@[m])@,
            text@ == entry_text(senses@, gl, j as int),
        decreases senses.len() - j,
    {
        let ghost before = text@;
        if j > 0 {
            crate::textutil::push_char(&mut text, '\n');
        }
        push_label(&mut text, senses[j].0);
        crate::textutil::push_char(&mut text, ' ');
        crate::textutil::push_str(&mut text, glosses[j].as_str());
        j += 1;
        proof {
            let line = pos_label(senses@[j - 1].0) + seq![' '] + gl[j - 1];
            if j == 1 {
                assert(text@ =~= line);
            } else {
                assert(text@ =~= before + seq!['\n'] + line);
            }
        }
    }
    text
}

/// One at a time: a buffer holding the last inflated block and which block it is.
struct Inflater {
    buf: Vec<u8>,
    cur: Option<(u8, u32)>,
}

impl Inflater {
    fn new() -> (r: Inflater)
        ensures
            r.cur is None,
    {
        Inflater { buf: Vec::new(), cur: None }
    }
}

impl<'a> Blob<'a> {
    /// The compressed bytes of block `i` of a section, as the tables place them.
    pub closed spec fn block_src(self, sec: u8, i: u32) -> Option<Seq<u8>> {
        let d = self.data@;
        if sec == SEC_WORD {
            self.spec_word_block(i as int)
        } else {
            let tab = if sec == SEC_GLOSS { self.gtab } else { self.vtab };
            match (spec_id_entry(d, tab as int, i as int), spec_id_entry(d, tab as int, i + 1)) {
                (Some(x), Some(y)) => if x.1 <= y.1 <= d.len() {
                    Some(d.subrange(x.1 as int, y.1 as int))
                } else {
                    None
                },
                _ => None,
            }
        }
    }

    /// The uncompressed word block `i`, as the tables place it.
    pub closed spec fn spec_word_block(self, i: int) -> Option<Seq<u8>> {
        let d = self.data@;
        if i < 0 || i >= self.wblocks {
            None
        } else {
            match (get32(d, self.wtab + 4 * i), get32(d, self.wtab + 4 * (i + 1))) {
                (Some(a), Some(b)) => if a <= b <= d.len() {
                    Some(d.subrange(a as int, b as int))
                } else {
                    None
                },
                _ => None,
            }
        }
    }

    /// The cache holds what its tag names.
    closed spec fn inf_ok(self, inf: Inflater) -> bool {
        inf.cur matches Some(t) ==> (self.block_src(t.0, t.1) matches Some(src)
            && inflate_raw(src, BLOCK as nat) == Some(inf.buf@) && inf.buf@.len() <= BLOCK)
    }

    /// Group record `i`: (block, offset, gloss base, first key).
    pub closed spec fn spec_group(self, i: int) -> Option<(u32, usize, u32, Seq<u8>)> {
        let d = self.data@;
        let gi = self.group_index as int;
        match (get32(d, gi + 4 * i), get32(d, gi + 4 * (i + 1))) {
            (Some(at), Some(end)) => match (get16(d, at as int), get16(d, at + 2), get32(d, at + 4)) {
                (Some(b), Some(off), Some(base)) => if at + 8 <= end <= d.len() {
                    Some((b as u32, off as usize, base, d.subrange(at + 8, end as int)))
                } else {
                    None
                },
                _ => None,
            },
            _ => None,
        }
    }

    /// Group record `i`: (block, offset, gloss base, first key).
    fn group(&self, i: u32) -> (r: Option<(u32, usize, u32, &'a [u8])>)
        ensures
            r matches Some(g) ==> self.spec_group(i as int) == Some((g.0, g.1, g.2, g.3@)),
            r is None ==> self.spec_group(i as int) is None,
    {
        let ghost d = self.data@;
        let n = self.data.len();
        let o1 = match offset(self.group_index, 4, i as u64) {
            Some(o) => o,
            None => { return None; },
        };
        let at = match u32_at(self.data, o1) {
            Some(v) => v as usize,
            None => { return None; },
        };
        let o2 = match offset(self.group_index, 4, i as u64 + 1) {
            Some(o) => o,
            None => { return None; },
        };
        let end = match u32_at(self.data, o2) {
            Some(v) => v as usize,
            None => { return None; },
        };
        let block = match u16_at(self.data, at) {
            Some(v) => v as u32,
            None => { return None; },
        };
        let off = match u16_at(self.data, at + 2) {
            Some(v) => v as usize,
            None => { return None; },
        };
        let base = match u32_at(self.data, at + 4) {
            Some(v) => v,
            None => { return None; },
        };
        if at + 8 <= end && end <= self.data.len() {
            Some((block, off, base, slice_subrange(self.data, at + 8, end)))
        } else {
            None
        }
    }

    fn word_block(&self, i: u32) -> (r: Option<&'a [u8]>)
        ensures
            r matches Some(b) ==> self.spec_word_block(i as int) == Some(b@),
            r is None ==> self.spec_word_block(i as int) is None,
    {
        let n = self.data.len();
        if i >= self.wblocks {
            return None;
        }
        let o1 = match offset(self.wtab, 4, i as u64) {
            Some(o) => o,
            None => { return None; },
        };
        let o2 = match offset(self.wtab, 4, i as u64 + 1) {
            Some(o) => o,
            None => { return None; },
        };
        let a = match u32_at(self.data, o1) {
            Some(v) => v as usize,
            None => { return None; },
        };
        let b = match u32_at(self.data, o2) {
            Some(v) => v as usize,
            None => { return None; },
        };
        if a <= b && b <= self.data.len() {
            Some(slice_subrange(self.data, a, b))
        } else {
            None
        }
    }

    /// Id-table entry `i` of a gloss/vocab section: (first id, data offset).
    fn id_entry(tab: usize, data: &[u8], i: u32) -> (r: Option<(u32, usize)>)
        ensures
            r == spec_id_entry(data@, tab as int, i as int),
    {
        let n = data.len();
        let o1 = match offset(tab, 8, i as u64) {
            Some(o) => o,
            None => { return None; },
        };
        let first = match u32_at(data, o1) {
            Some(v) => v,
            None => { return None; },
        };
        if o1 > usize::MAX - 4 {
            return None;
        }
        let o = match u32_at(data, o1 + 4) {
            Some(v) => v as usize,
            None => { return None; },
        };
        Some((first, o))
    }

    /// The record `id` of the gloss (`sec` 1) or vocab section: its bytes.
    #[verifier::opaque]
    pub closed spec fn spec_record(self, sec: u8, id: u32) -> Option<Seq<u8>> {
        let d = self.data@;
        let (tab, n) = if sec == SEC_GLOSS { (self.gtab, self.gblocks) } else { (self.vtab, self.vblocks) };
        match id_search(d, tab as int, id, 0, n as int) {
            None => None,
            Some(lo) => if lo == 0 {
                None
            } else {
                let bi = lo - 1;
                match (spec_id_entry(d, tab as int, bi), self.block_src(sec, bi as u32)) {
                    (Some(e), Some(src)) => match inflate_raw(src, BLOCK as nat) {
                        None => None,
                        Some(blk) => {
                            let k: nat = if id >= e.0 { (id - e.0) as nat } else { 0 };
                            match skip_records(blk, 0, k) {
                                None => None,
                                Some(p) => record_at(blk, p),
                            }
                        },
                    },
                    _ => None,
                }
            },
        }
    }

    /// Inflate block `i` of section `sec` into the buffer unless it is already there.
    fn fetch_block(&self, inf: &mut Inflater, sec: u8, i: u32, src: &[u8]) -> (ok: bool)
        requires
            self.inf_ok(*old(inf)),
            self.block_src(sec, i) == Some(src@),
        ensures
            self.inf_ok(*final(inf)),
            ok == inflate_raw(src@, BLOCK as nat) is Some,
            ok ==> inflate_raw(src@, BLOCK as nat) == Some(final(inf).buf@) && final(inf).buf@.len()
                <= BLOCK,
    {
        let cached = match inf.cur {
            Some(t) => t.0 == sec && t.1 == i,
            None => false,
        };
        if cached {
            return true;
        }
        inf.cur = None;
        match inflate(src, BLOCK) {
            None => false,
            Some(v) => {
                inf.buf = v;
                inf.cur = Some((sec, i));
                true
            },
        }
    }

    /// Find the record with `id` in an id-indexed section; returns its bytes copied out.
    #[verifier::loop_isolation(false)]
    #[verifier::spinoff_prover]
    #[verifier::rlimit(40)]
    fn record(&self, inf: &mut Inflater, sec: u8, id: u32) -> (r: Option<Vec<u8>>)
        requires
            self.inf_ok(*old(inf)),
            sec == SEC_GLOSS || sec == SEC_VOCAB,
        ensures
            self.inf_ok(*final(inf)),
            r matches Some(v) ==> self.spec_record(sec, id) == Some(v@),
            r is None ==> self.spec_record(sec, id) is None,
    {
        reveal(Blob::spec_record);
        let ghost d = self.data@;
        let (tab, n) = if sec == SEC_GLOSS {
            (self.gtab, self.gblocks)
        } else {
            (self.vtab, self.vblocks)
        };
        let mut lo: u32 = 0;
        let mut hi: u32 = n;
        while lo < hi
            invariant
                lo <= hi <= n,
                id_search(d, tab as int, id, lo as int, hi as int) == id_search(d, tab as int, id, 0, n as int),
                d == self.data@,
            decreases hi - lo,
        {
            let mid = lo + (hi - lo) / 2;
            match Self::id_entry(tab, self.data, mid) {
                None => {
                    return None;
                },
                Some(e) => {
                    if e.0 <= id {
                        lo = mid + 1;
                    } else {
                        hi = mid;
                    }
                },
            }
        }
        if lo == 0 {
            return None;
        }
        let bi = lo - 1;
        let (first, a) = match Self::id_entry(tab, self.data, bi) {
            Some(e) => e,
            None => {
                return None;
            },
        };
        let (_, b) = match Self::id_entry(tab, self.data, bi + 1) {
            Some(e) => e,
            None => {
                return None;
            },
        };
        if !(a <= b && b <= self.data.len()) {
            return None;
        }
        let src = slice_subrange(self.data, a, b);
        if !self.fetch_block(inf, sec, bi, src) {
            return None;
        }
        let block = &inf.buf;
        let ghost blk = block@;
        let count: u32 = if id >= first {
            id - first
        } else {
            0
        };
        let mut k: u32 = 0;
        let mut p: usize = 0;
        while k < count
            invariant
                k <= count,
                p <= BLOCK + 256,
                blk == block@,
                blk.len() <= BLOCK,
                skip_records(blk, p as int, (count - k) as nat) == skip_records(blk, 0, count as nat),
            decreases count - k,
        {
            if p >= block.len() {
                return None;
            }
            p = p + 1 + block[p] as usize;
            k += 1;
        }
        if p >= block.len() {
            return None;
        }
        let len = block[p] as usize;
        if p + 1 + len > block.len() {
            return None;
        }
        let mut out: Vec<u8> = Vec::new();
        let mut j: usize = p + 1;
        while j < p + 1 + len
            invariant
                p + 1 <= j <= p + 1 + len <= block.len(),
                out@ == block@.subrange(p + 1, j as int),
            decreases p + 1 + len - j,
        {
            out.push(block[j]);
            j += 1;
            assert(block@.subrange(p + 1, j as int) =~= block@.subrange(p + 1, j - 1).push(block@[j - 1]));
        }
        Some(out)
    }

    /// A vocabulary word: its record, decoded.
    pub closed spec fn vocab_word(self, id: u32) -> Option<Seq<char>> {
        match self.spec_record(SEC_VOCAB, id) {
            Some(b) => Some(lossy_utf8(b)),
            None => None,
        }
    }

    /// The text of the token at `i`.
    pub closed spec fn tok_text(self, t: Seq<u8>, i: int) -> Option<Seq<char>> {
        let b = t[i];
        if b >= 0x80 {
            match self.vocab_word(tok_id(t, i).unwrap()) {
                None => None,
                Some(w) => if 0xC0 <= b < 0xD0 {
                    Some(w)
                } else {
                    Some(seq![' '] + w)
                },
            }
        } else if b == 0x7F {
            Some(seq!['\u{2026}'])
        } else {
            Some(seq![b as char])
        }
    }

    /// Tokenised gloss text from `i` on, expanded against the vocabulary.
    pub closed spec fn detok(self, t: Seq<u8>, i: int) -> Option<Seq<char>>
        decreases t.len() - i,
    {
        if i < 0 || i >= t.len() {
            Some(Seq::empty())
        } else if i + tok_len(t, i) > t.len() {
            None
        } else {
            match (self.tok_text(t, i), self.detok(t, i + tok_len(t, i))) {
                (Some(h), Some(r)) => Some(h + r),
                _ => None,
            }
        }
    }

    proof fn lemma_ids_none(self, t: Seq<u8>, i: int)
        requires
            ids_of(t, i) is None,
        ensures
            self.detok(t, i) is None,
        decreases t.len() - i,
    {

        if 0 <= i < t.len() && i + tok_len(t, i) <= t.len() {
            self.lemma_ids_none(t, i + tok_len(t, i));
        }
    }

    proof fn lemma_missing_word(self, t: Seq<u8>, i: int, x: u32)
        requires
            ids_of(t, i) matches Some(s) && s.contains(x),
            self.vocab_word(x) is None,
        ensures
            self.detok(t, i) is None,
        decreases t.len() - i,
    {

        if 0 <= i < t.len() && i + tok_len(t, i) <= t.len() {
            let s = ids_of(t, i).unwrap();
            let rest = ids_of(t, i + tok_len(t, i)).unwrap();
            match tok_id(t, i) {
                Some(id) => {
                    assert(s == seq![id] + rest);
                    if id != x {
                        let k = choose|k: int| 0 <= k < s.len() && s[k] == x;
                        assert(rest[k - 1] == x);
                        self.lemma_missing_word(t, i + tok_len(t, i), x);
                    }
                },
                None => {
                    self.lemma_missing_word(t, i + tok_len(t, i), x);
                },
            }
        }
    }

    /// Expand tokenised glosses to text. The vocabulary ids of every gloss are resolved
    /// together in sorted order, so each vocab block inflates at most once per lookup.
    fn detokenise(&self, inf: &mut Inflater, glosses: &Vec<Vec<u8>>) -> (r: Option<Vec<String>>)
        requires
            self.inf_ok(*old(inf)),
        ensures
            self.inf_ok(*final(inf)),
            r matches Some(v) ==> v.len() == glosses.len() && forall|k: int|
                0 <= k < v.len() ==> self.detok(glosses@[k]@, 0) == Some(#[trigger] v@[k]@),
            r is None ==> exists|k: int|
                0 <= k < glosses.len() && (#[trigger] self.detok(glosses@[k]@, 0)) is None,
    {

        let mut ids: Vec<u32> = Vec::new();
        let mut g: usize = 0;
        while g < glosses.len()
            invariant
                0 <= g <= glosses.len(),
                self.inf_ok(*inf),
                strictly_sorted(ids@),
                forall|g2: int|
                    0 <= g2 < g ==> ids_within(#[trigger] glosses@[g2]@, 0, ids@),
                forall|x: u32|
                    #[trigger] ids@.contains(x) ==> exists|g2: int|
                        0 <= g2 < g && refers_to(#[trigger] glosses@[g2]@, x),
            decreases glosses.len() - g,
        {
            let tokens = &glosses[g];
            let ghost t = tokens@;
            let ghost mut pre: Seq<u32> = Seq::empty();
            let ghost ids0 = ids@;
            let mut i: usize = 0;
            while i < tokens.len()
                invariant
                    0 <= i <= tokens.len(),
                    t == tokens@,
                    t == glosses@[g as int]@,
                    g < glosses.len(),
                    self.inf_ok(*inf),
                    strictly_sorted(ids@),
                    match ids_of(t, i as int) {
                        Some(r) => ids_of(t, 0) == Some(pre + r),
                        None => ids_of(t, 0) is None,
                    },
                    forall|x: u32| pre.contains(x) ==> ids@.contains(x),
                    forall|x: u32| ids0.contains(x) ==> ids@.contains(x),
                    forall|x: u32| #[trigger] ids@.contains(x) ==> ids0.contains(x) || pre.contains(x),
                decreases tokens.len() - i,
            {
                let b = tokens[i];
                let ghost i0 = i as int;
                assert(ids_of(t, 0) =~= ids_of(t, 0));
                if b >= 0xD0 {
                    let id = (b - 0xD0) as u32;
                    let ghost ids_before = ids@;
                    insert_sorted(&mut ids, id);
                    proof {
                        let r = ids_of(t, i0 + 1);
                        if r is Some {
                            assert(pre + ids_of(t, i0).unwrap() =~= (pre.push(id)) + r.unwrap());
                        }
                        assert forall|x: u32| pre.push(id).contains(x) implies ids@.contains(x) by {
                            if x != id {
                                let k = choose|k: int| 0 <= k < pre.push(id).len() && pre.push(id)[k] == x;
                                assert(pre[k] == x);
                                assert(pre.contains(x));
                                assert(ids_before.contains(x));
                            }
                        }
                        assert forall|x: u32| #[trigger] ids@.contains(x) implies ids0.contains(x) || pre.push(id).contains(x) by {
                            if x == id {
                                assert(pre.push(id)[pre.len() as int] == x);
                            } else if pre.contains(x) {
                                let k = choose|k: int| 0 <= k < pre.len() && pre[k] == x;
                                assert(pre.push(id)[k] == x);
                            }
                        }
                        pre = pre.push(id);
                    }
                } else if b >= 0x80 {
                    if i + 1 >= tokens.len() {
                        proof {
                            self.lemma_ids_none(t, 0);
                        }
                        return None;
                    }
                    let hi: u32 = if b >= 0xC0 {
                        (b % 16) as u32
                    } else {
                        (b % 64) as u32
                    };
                    let id = hi * 256 + tokens[i + 1] as u32;
                    let ghost ids_before = ids@;
                    insert_sorted(&mut ids, id);
                    proof {
                        assert(tok_id(t, i0) == Some(id));
                        let r = ids_of(t, i0 + 2);
                        if r is Some {
                            assert(pre + ids_of(t, i0).unwrap() =~= (pre.push(id)) + r.unwrap());
                        }
                        assert forall|x: u32| pre.push(id).contains(x) implies ids@.contains(x) by {
                            if x != id {
                                let k = choose|k: int| 0 <= k < pre.push(id).len() && pre.push(id)[k] == x;
                                assert(pre[k] == x);
                                assert(pre.contains(x));
                                assert(ids_before.contains(x));
                            }
                        }
                        assert forall|x: u32| #[trigger] ids@.contains(x) implies ids0.contains(x) || pre.push(id).contains(x) by {
                            if x == id {
                                assert(pre.push(id)[pre.len() as int] == x);
                            } else if pre.contains(x) {
                                let k = choose|k: int| 0 <= k < pre.len() && pre[k] == x;
                                assert(pre.push(id)[k] == x);
                            }
                        }
                        pre = pre.push(id);
                    }
                    i += 1;
                }
                i += 1;
            }
            proof {
                assert(ids_of(t, i as int) == Some(Seq::<u32>::empty()));
                assert(pre + Seq::<u32>::empty() =~= pre);
                assert forall|x: u32| #[trigger] ids@.contains(x) implies exists|g2: int|
                    0 <= g2 < g + 1 && refers_to(#[trigger] glosses@[g2]@, x) by {
                    if !ids0.contains(x) {
                        assert(ids_of(glosses@[g as int]@, 0) == Some(pre));
                    }
                }
            }
            g += 1;
        }
        let mut words: Vec<(u32, String)> = Vec::new();
        let mut k: usize = 0;
        while k < ids.len()
            invariant
                0 <= k <= ids.len(),
                self.inf_ok(*inf),
                words.len() == k,
                forall|j: int| 0 <= j < k ==> (#[trigger] words@[j]).0 == ids@[j] && self.vocab_word(ids@[j]) == Some(words@[j].1@),
                forall|x: u32|
                    #[trigger] ids@.contains(x) ==> exists|g2: int|
                        0 <= g2 < glosses.len() && refers_to(#[trigger] glosses@[g2]@, x),
            decreases ids.len() - k,
        {
            let id = ids[k];
            let w = match self.record(inf, SEC_VOCAB, id) {
                Some(w) => w,
                None => {
                    proof {
                        assert(ids@.contains(id)) by {
                            assert(ids@[k as int] == id);
                        }
                        let g2 = choose|g2: int|
                            0 <= g2 < glosses.len() && refers_to(#[trigger] glosses@[g2]@, id);
                        self.lemma_missing_word(glosses@[g2]@, 0, id);
                    }
                    return None;
                },
            };
            let text = crate::textutil::from_utf8_lossy(w.as_slice());
            words.push((id, text));
            k += 1;
        }
        let mut out: Vec<String> = Vec::new();
        let mut g: usize = 0;
        while g < glosses.len()
            invariant
                0 <= g <= glosses.len(),
                out.len() == g,
                forall|j: int| 0 <= j < g ==> self.detok(glosses@[j]@, 0) == Some(#[trigger] out@[j]@),
                words.len() == ids.len(),
                forall|j: int| 0 <= j < words.len() ==> (#[trigger] words@[j]).0 == ids@[j] && self.vocab_word(ids@[j]) == Some(words@[j].1@),
                forall|g2: int|
                    0 <= g2 < glosses.len() ==> ids_within(#[trigger] glosses@[g2]@, 0, ids@),
            decreases glosses.len() - g,
        {
            let tokens = &glosses[g];
            let ghost t = tokens@;
            let mut text = String::new();
            let mut i: usize = 0;
            assert(ids_of(t, 0) is Some);
            while i < tokens.len()
                invariant
                    0 <= i <= tokens.len(),
                    t == tokens@,
                    t == glosses@[g as int]@,
                    g < glosses.len(),
                    ids_within(t, i as int, ids@),
                    match self.detok(t, i as int) {
                        Some(r) => self.detok(t, 0) == Some(text@ + r),
                        None => self.detok(t, 0) is None,
                    },
                    words.len() == ids.len(),
                    forall|j: int| 0 <= j < words.len() ==> (#[trigger] words@[j]).0 == ids@[j] && self.vocab_word(ids@[j]) == Some(words@[j].1@),
                decreases tokens.len() - i,
            {
                let b = tokens[i];
                let ghost i0 = i as int;
                let ghost old_text = text@;
                proof {
                    let s = ids_of(t, i0).unwrap();
                    let rest = ids_of(t, i0 + tok_len(t, i0)).unwrap();
                    if tok_id(t, i0) is Some {
                        assert(s == seq![tok_id(t, i0).unwrap()] + rest);
                        assert(s[0] == tok_id(t, i0).unwrap());
                        assert forall|x: u32| rest.contains(x) implies ids@.contains(x) by {
                            let k = choose|k: int| 0 <= k < rest.len() && rest[k] == x;
                            assert(s[k + 1] == x);
                        }
                    } else {
                        assert(s == rest);
                    }
                }
                if b >= 0x80 {
                    let id: u32 = if b >= 0xD0 {
                        (b - 0xD0) as u32
                    } else {
                        let hi: u32 = if b >= 0xC0 {
                            (b % 16) as u32
                        } else {
                            (b % 64) as u32
                        };
                        hi * 256 + tokens[i + 1] as u32
                    };
                    assert(tok_id(t, i0) == Some(id));
                    proof {
                        assert(ids_of(t, i0).unwrap()[0] == id);
                        assert(ids@.contains(id));
                    }
                    let mut j: usize = 0;
                    while j < words.len() && words[j].0 != id
                        invariant
                            0 <= j <= words.len(),
                            forall|m: int| 0 <= m < j ==> (#[trigger] words@[m]).0 != id,
                        decreases words.len() - j,
                    {
                        j += 1;
                    }
                    if j == words.len() {
                        proof {
                            let m = choose|m: int| 0 <= m < ids@.len() && ids@[m] == id;
                            assert(words@[m].0 == id);
                        }
                        return None;
                    }
                    if b < 0xC0 || b >= 0xD0 {
                        crate::textutil::push_char(&mut text, ' ');
                    }
                    crate::textutil::push_str(&mut text, words[j].1.as_str());
                    if 0x80 <= b && b < 0xD0 {
                        i += 1;
                    }
                } else if b == 0x7F {
                    crate::textutil::push_char(&mut text, '\u{2026}');
                } else {
                    crate::textutil::push_char(&mut text, b as char);
                }
                i += 1;
                proof {
                    let h = self.tok_text(t, i0).unwrap();
                    assert(text@ =~= old_text + h);
                    match self.detok(t, i as int) {
                        Some(r) => {
                            assert(old_text + (h + r) =~= text@ + r);
                        },
                        None => {},
                    }
                }
            }
            proof {
                assert(text@ + Seq::<char>::empty() =~= text@);
            }
            out.push(text);
            g += 1;
        }
        Some(out)
    }

    /// Binary search over the groups: the first group in `[lo, hi)` whose first key is
    /// greater than `target`, as the halving search finds it; nothing if a group record it
    /// reads is malformed.
    pub closed spec fn group_search(self, target: Seq<u8>, lo: int, hi: int) -> Option<int>
        decreases hi - lo,
    {
        if lo >= hi {
            Some(lo)
        } else {
            let mid = lo + (hi - lo) / 2;
            match self.spec_group(mid) {
                None => None,
                Some(g) => if bytes_le(g.3, target) {
                    self.group_search(target, mid + 1, hi)
                } else {
                    self.group_search(target, lo, mid)
                },
            }
        }
    }

    /// The gloss `id` has a record that expands.
    pub closed spec fn gloss_ok(self, id: u32) -> bool {
        self.spec_record(SEC_GLOSS, id) matches Some(rec) && self.detok(rec, 0) is Some
    }

    /// The text of gloss `id` (meaningful when it has one).
    pub closed spec fn gloss_text(self, id: u32) -> Seq<char> {
        self.detok(self.spec_record(SEC_GLOSS, id).unwrap(), 0).unwrap()
    }

    /// The glosses of a list of senses, each its record expanded; nothing if any is
    /// missing.
    pub closed spec fn sense_glosses(self, senses: Seq<(u8, u32)>) -> Option<Seq<Seq<char>>> {
        if forall|k: int| 0 <= k < senses.len() ==> self.gloss_ok(#[trigger] senses[k].1) {
            Some(Seq::new(senses.len(), |k: int| self.gloss_text(senses[k].1)))
        } else {
            None
        }
    }

    /// The entry for a key (lowercase bytes): (display headword, definition text).
    pub closed spec fn spec_lookup_key(self, target: Seq<u8>) -> Option<(Seq<char>, Seq<char>)> {
        match self.group_search(target, 0, self.groups as int) {
            None => None,
            Some(lo) => if lo == 0 {
                None
            } else {
                match self.spec_group(lo - 1) {
                    None => None,
                    Some(g) => match self.spec_word_block(g.0 as int) {
                        None => None,
                        Some(src) => match inflate_raw(src, BLOCK as nat) {
                            None => None,
                            Some(blk) => match scan_group(blk, g.1 as int, Seq::empty(), g.2, GROUP as nat, target) {
                                None => None,
                                Some(e) => match self.sense_glosses(e.2) {
                                    None => None,
                                    Some(gl) => Some((display_key(e.0, e.1), entry_text(e.2, gl, e.2.len() as int))),
                                },
                            },
                        },
                    },
                }
            },
        }
    }


    /// The entry for a found key: its display form, and its senses' glosses as text.
    fn finish_entry(&self, inf: &mut Inflater, key: &Vec<u8>, mask: u64, senses: &Vec<(u8, u32)>) -> (r: Option<Entry>)
        requires
            self.inf_ok(*old(inf)),
        ensures
            r matches Some(e) ==> self.sense_glosses(senses@) matches Some(gl) && e.headword@ == display_key(key@, mask)
                && e.text@ == entry_text(senses@, gl, senses@.len() as int),
            r is None ==> self.sense_glosses(senses@) is None,
    {
        let headword = display(key, mask);
        let mut tokens: Vec<Vec<u8>> = Vec::new();
        let mut k: usize = 0;
        while k < senses.len()
            invariant
                0 <= k <= senses.len(),
                self.inf_ok(*inf),
                tokens.len() == k,
                forall|j: int| 0 <= j < k ==> self.spec_record(SEC_GLOSS, senses@[j].1) == Some(#[trigger] tokens@[j]@),
            decreases senses.len() - k,
        {
            match self.record(inf, SEC_GLOSS, senses[k].1) {
                Some(t) => tokens.push(t),
                None => {
                    assert(self.sense_glosses(senses@) is None) by {
                        assert(!(self.spec_record(SEC_GLOSS, senses@[k as int].1) is Some));
                    }
                    return None;
                },
            }
            k += 1;
        }
        let glosses = match self.detokenise(inf, &tokens) {
            Some(g) => g,
            None => {
                assert(self.sense_glosses(senses@) is None) by {
                    let j = choose|j: int| 0 <= j < tokens.len() && (#[trigger] self.detok(tokens@[j]@, 0)) is None;
                    assert(self.spec_record(SEC_GLOSS, senses@[j].1) == Some(tokens@[j]@));
                }
                return None;
            },
        };
        assert forall|j: int| 0 <= j < senses@.len() implies self.gloss_ok(#[trigger] senses@[j].1) by {
            assert(self.spec_record(SEC_GLOSS, senses@[j].1) == Some(tokens@[j]@));
            assert(self.detok(tokens@[j]@, 0) == Some(glosses@[j]@));
        }
        assert(self.sense_glosses(senses@) is Some);
        let ghost gl = self.sense_glosses(senses@).unwrap();
        assert forall|j: int| 0 <= j < senses.len() implies gl[j] == glosses@[j]@ by {
            assert(self.spec_record(SEC_GLOSS, senses@[j].1) == Some(tokens@[j]@));
            assert(gl[j] == self.gloss_text(senses@[j].1));
        }
        let text = join_senses(&senses, &glosses, Ghost(gl));
        Some(Entry { headword, text })
    }

    #[verifier::loop_isolation(false)]
    fn lookup_key(&self, target: &[u8]) -> (r: Option<Entry>)
        ensures
            r matches Some(e) ==> self.spec_lookup_key(target@) == Some((e.headword@, e.text@)),
            r is None ==> self.spec_lookup_key(target@) is None,
    {
        // Last group whose first key <= target.
        let mut lo: u32 = 0;
        let mut hi: u32 = self.groups;
        while lo < hi
            invariant
                lo <= hi <= self.groups,
                self.group_search(target@, lo as int, hi as int) == self.group_search(target@, 0, self.groups as int),
            decreases hi - lo,
        {
            let mid = lo + (hi - lo) / 2;
            match self.group(mid) {
                None => {
                    return None;
                },
                Some(g) => {
                    if slice_le(g.3, target) {
                        lo = mid + 1;
                    } else {
                        hi = mid;
                    }
                },
            }
        }
        if lo == 0 {
            return None;
        }
        let (block, p0, gid0, _) = match self.group(lo - 1) {
            Some(g) => g,
            None => {
                return None;
            },
        };
        let mut inf = Inflater::new();
        let src = match self.word_block(block) {
            Some(b) => b,
            None => {
                return None;
            },
        };
        if !self.fetch_block(&mut inf, SEC_WORD, block, src) {
            return None;
        }
        let mut data: Vec<u8> = Vec::new();
        core::mem::swap(&mut data, &mut inf.buf);
        inf.cur = None;
        let ghost blk = data@;
        let mut key: Vec<u8> = Vec::new();
        let mut p = p0;
        let mut gloss_id = gid0;
        let mut n: usize = 0;
        while n < GROUP
            invariant
                n <= GROUP,
                data@ == blk,
                self.inf_ok(inf),
                scan_group(blk, p as int, key@, gloss_id, (GROUP - n) as nat, target@)
                    == scan_group(blk, p0 as int, Seq::empty(), gid0, GROUP as nat, target@),
            decreases GROUP - n,
        {
            let ghost prev = key@;
            let (mask, senses, g2, next) = match read_entry(data.as_slice(), p, &mut key, gloss_id) {
                Some(e) => e,
                None => {
                    return None;
                },
            };
            let hit = slice_le(key.as_slice(), target) && slice_le(target, key.as_slice());
            proof {
                lemma_bytes_le_antisym(key@, target@);
                lemma_bytes_le_refl(key@);
            }
            if hit {
                assert(key@ == target@);
                return self.finish_entry(&mut inf, &key, mask, &senses);
            }
            if !slice_le(key.as_slice(), target) {
                return None;
            }
            p = next;
            gloss_id = g2;
            n += 1;
        }
        None
    }

    /// What `lookup` gives for a word: the key is the word trimmed of white space; an
    /// empty key, one of more than 255 UTF-8 bytes, or a blob without groups finds
    /// nothing; otherwise the key's bytes, ASCII-lowercased, are looked up.
    #[verifier::opaque]
    pub closed spec fn spec_lookup(self, word: Seq<char>) -> Option<(Seq<char>, Seq<char>)> {
        let key = trim_by(word, strips(Strip::White));
        let b = encode_utf8(key);
        if key.len() == 0 || b.len() > 255 || self.groups == 0 {
            None
        } else {
            self.spec_lookup_key(lower_bytes(b))
        }
    }

    /// The first candidate, in order, that `lookup` finds.
    pub closed spec fn first_found(self, cands: Seq<Seq<char>>) -> Option<(Seq<char>, Seq<char>)>
        decreases cands.len(),
    {
        if cands.len() == 0 {
            None
        } else {
            match self.spec_lookup(cands[0]) {
                Some(e) => Some(e),
                None => self.first_found(cands.drop_first()),
            }
        }
    }

    /// What `lookup_stemmed` gives: the word trimmed of white space and then of
    /// non-alphanumeric characters is looked up; failing that, each stem of its
    /// lowercase form, in order.
    pub closed spec fn spec_lookup_stemmed(self, word: Seq<char>) -> Option<(Seq<char>, Seq<char>)> {
        let w = trim_by(trim_by(word, strips(Strip::White)), strips(Strip::NonAlnum));
        match self.spec_lookup(w) {
            Some(e) => Some(e),
            None => self.first_found(spec_stems(str_lowercase(w))),
        }
    }

    /// Look a word up (exact bytes, then ASCII-lowercased).
    pub fn lookup(&self, word: &str) -> (r: Option<Entry>)
        ensures
            r matches Some(e) ==> self.spec_lookup(word@) == Some((e.headword@, e.text@)),
            r is None ==> self.spec_lookup(word@) is None,
    {
        reveal(Blob::spec_lookup);
        let cs = chars_of(word);
        let key = trim_chars(&cs, Strip::White);
        let ks = string_of(&key);
        let bytes = ks.as_str().as_bytes();
        if key.len() == 0 || bytes.len() > 255 || self.groups == 0 {
            return None;
        }
        let lower = ascii_lowercase_bytes(bytes);
        self.lookup_key(lower.as_slice())
    }

    /// Look up with stemming fallbacks: exact, lowercase, then common suffixes.
    pub fn lookup_stemmed(&self, word: &str) -> (r: Option<Entry>)
        ensures
            r matches Some(e) ==> self.spec_lookup_stemmed(word@) == Some((e.headword@, e.text@)),
            r is None ==> self.spec_lookup_stemmed(word@) is None,
    {
        let cs = chars_of(word);
        let t = trim_chars(&cs, Strip::White);
        let w = trim_chars(&t, Strip::NonAlnum);
        let ws = string_of(&w);
        match self.lookup(ws.as_str()) {
            Some(e) => {
                return Some(e);
            },
            None => {},
        }
        let lower = to_lowercase(ws.as_str());
        let cands = stems(lower.as_str());
        let ghost cv = cands@.map_values(|x: String| x@);
        assert(cv == spec_stems(str_lowercase(w@)));
        assert(cv.subrange(0, cv.len() as int) =~= cv);
        let mut i: usize = 0;
        while i < cands.len()
            invariant
                i <= cands.len(),
                cv.len() == cands.len(),
                forall|j: int| 0 <= j < cands.len() ==> #[trigger] cv[j] == cands@[j]@,
                self.first_found(cv.subrange(i as int, cv.len() as int)) == self.first_found(cv),
                self.spec_lookup_stemmed(word@) == self.first_found(cv),
            decreases cands.len() - i,
        {
            let ghost sub = cv.subrange(i as int, cv.len() as int);
            assert(sub.drop_first() =~= cv.subrange(i + 1, cv.len() as int));
            assert(sub[0] == cv[i as int]);
            let found = self.lookup(cands[i].as_str());
            if found.is_some() {
                assert(self.spec_lookup(sub[0]) is Some);
                assert(self.first_found(sub) == self.spec_lookup(sub[0]));
                return found;
            }
            i += 1;
        }
        None
    }
}

/// Bytes with `A`-`Z` lowercased, everything else kept.
pub open spec fn lower_bytes(b: Seq<u8>) -> Seq<u8> {
    b.map_values(|x: u8| if 65 <= x <= 90 { (x + 32) as u8 } else { x })
}

fn ascii_lowercase_bytes(b: &[u8]) -> (r: Vec<u8>)
    ensures
        r@ == lower_bytes(b@),
{
    let mut r: Vec<u8> = Vec::new();
    let mut i: usize = 0;
    while i < b.len()
        invariant
            i <= b.len(),
            r@ == lower_bytes(b@.subrange(0, i as int)),
        decreases b.len() - i,
    {
        let x = b[i];
        let y: u8 = if 65 <= x && x <= 90 { x + 32 } else { x };
        r.push(y);
        i += 1;
        assert(lower_bytes(b@.subrange(0, i as int)) =~= lower_bytes(b@.subrange(0, i - 1)).push(y));
    }
    assert(b@.subrange(0, b@.len() as int) =~= b@);
    r
}

/// The dictionary blob linked into this build: none, as no `.qdict` file is linked in.
pub open spec fn linked() -> Option<Blob<'static>> {
    None
}

/// The compiled-in dictionary, if one is linked in.
pub fn blob() -> (r: Option<Blob<'static>>)
    ensures
        r == linked(),
{
    None
}

/// Look a word up in the built-in dictionary (exact, then lowercase).
pub fn lookup(word: &str) -> (r: Option<Entry>)
    ensures
        match linked() {
            None => r is None,
            Some(b) => (r matches Some(e) ==> b.spec_lookup(word@) == Some((e.headword@, e.text@)))
                && (r is None ==> b.spec_lookup(word@) is None),
        },
{
    match blob() {
        Some(b) => b.lookup(word),
        None => None,
    }
}

/// Look up with the same stemming fallbacks as card dictionaries.
pub fn lookup_stemmed(word: &str) -> (r: Option<Entry>)
    ensures
        match linked() {
            None => r is None,
            Some(b) => (r matches Some(e) ==> b.spec_lookup_stemmed(word@) == Some((e.headword@, e.text@)))
                && (r is None ==> b.spec_lookup_stemmed(word@) is None),
        },
{
    match blob() {
        Some(b) => b.lookup_stemmed(word),
        None => None,
    }
}

/// Lookup ignores the white space around a word: the trimmed word finds what the word
/// finds.
pub proof fn lemma_blob_lookup_ignores_spaces(b: Blob, w: Seq<char>)
    ensures
        b.spec_lookup(trim_by(w, strips(Strip::White))) == b.spec_lookup(w),
{
    reveal(Blob::spec_lookup);
    crate::textutil::lemma_trim_twice(w, strips(Strip::White));
}

/// Lookup ignores ASCII case: words whose trimmed forms agree but for the case of ASCII
/// letters ("PARIS", "Paris " and "paris") find the same entry; a word that trims to
/// nothing finds nothing.
pub proof fn lemma_blob_lookup_ignores_case(b: Blob, w1: Seq<char>, w2: Seq<char>)
    requires
        encode_utf8(trim_by(w1, strips(Strip::White))).len() == encode_utf8(trim_by(w2, strips(Strip::White))).len(),
        lower_bytes(encode_utf8(trim_by(w1, strips(Strip::White)))) == lower_bytes(encode_utf8(trim_by(w2, strips(Strip::White)))),
        trim_by(w1, strips(Strip::White)).len() > 0 <==> trim_by(w2, strips(Strip::White)).len() > 0,
    ensures
        b.spec_lookup(w1) == b.spec_lookup(w2),
        trim_by(w1, strips(Strip::White)).len() == 0 ==> b.spec_lookup(w1) is None,
{
    reveal(Blob::spec_lookup);
}

/// The stemmed lookup's order: the word trimmed of white space and then of characters
/// that are not letters or digits is looked up first; failing that, the stems of its
/// lowercase form, in order, the first found winning; nothing when none is found.
pub proof fn lemma_blob_stemmed_order(b: Blob, w: Seq<char>)
    ensures
        ({
            let t = trim_by(trim_by(w, strips(Strip::White)), strips(Strip::NonAlnum));
            let cands = spec_stems(str_lowercase(t));
            &&& b.spec_lookup(t) is Some ==> b.spec_lookup_stemmed(w) == b.spec_lookup(t)
            &&& b.spec_lookup(t) is None ==> (b.spec_lookup_stemmed(w) is None <==> forall|k: int|
                0 <= k < cands.len() ==> b.spec_lookup(#[trigger] cands[k]) is None)
            &&& b.spec_lookup(t) is None && b.spec_lookup_stemmed(w) is Some ==> exists|k: int|
                0 <= k < cands.len() && b.spec_lookup(#[trigger] cands[k]) == b.spec_lookup_stemmed(w) && forall|j: int|
                    0 <= j < k ==> b.spec_lookup(#[trigger] cands[j]) is None
        }),
{
    let t = trim_by(trim_by(w, strips(Strip::White)), strips(Strip::NonAlnum));
    lemma_blob_first_found(b, spec_stems(str_lowercase(t)));
}

proof fn lemma_blob_first_found(b: Blob, cands: Seq<Seq<char>>)
    ensures
        b.first_found(cands) is None <==> forall|k: int| 0 <= k < cands.len() ==> b.spec_lookup(#[trigger] cands[k]) is None,
        b.first_found(cands) is Some ==> exists|k: int|
            0 <= k < cands.len() && b.spec_lookup(#[trigger] cands[k]) == b.first_found(cands) && forall|j: int|
                0 <= j < k ==> b.spec_lookup(#[trigger] cands[j]) is None,
    decreases cands.len(),
{
    if cands.len() > 0 {
        let rest = cands.drop_first();
        lemma_blob_first_found(b, rest);
        assert forall|k: int| 0 < k < cands.len() implies cands[k] == #[trigger] rest[k - 1] by {}
        if b.spec_lookup(cands[0]) is None && b.first_found(rest) is Some {
            let k = choose|k: int|
                0 <= k < rest.len() && b.spec_lookup(#[trigger] rest[k]) == b.first_found(rest) && forall|j: int|
                    0 <= j < k ==> b.spec_lookup(#[trigger] rest[j]) is None;
            assert(cands[k + 1] == rest[k]);
            assert forall|j: int| 0 <= j < k + 1 implies b.spec_lookup(#[trigger] cands[j]) is None by {
                if j > 0 {
                    assert(cands[j] == rest[j - 1]);
                }
            }
        }
        if b.first_found(cands) is None {
            assert forall|k: int| 0 <= k < cands.len() implies b.spec_lookup(#[trigger] cands[k]) is None by {
                if k > 0 {
                    assert(cands[k] == rest[k - 1]);
                }
            }
        }
    }
}

} // verus!
