//! Reading the catalog file: the header once, then one record, one shelf or one group
//! at a time.

use vstd::prelude::*;
use vstd::utf8::encode_utf8;
use crate::bookshop::catalog::{magic, HEADER, MEMBERS_LIMIT, REC, SEARCH_LIMIT, SHELF_LEN, SHELVES};
use crate::bookshop::ShopBook;
use crate::dict::builtin::{fits, le16, le32, u16_at, u32_at};
use crate::textutil::{
    chars_of, from_utf8_lossy, lossy_utf8, split_chars, split_on, string_of, strips, trim_by, trim_chars, words_of,
    ws_words, Strip,
};

verus! {

/// The fields of a record a list row needs.
#[derive(Clone, Debug, Default, PartialEq, Eq)]
pub struct Row {
    /// Record index.
    pub index: u32,
    /// Stable id.
    pub id: String,
    /// Title (may be shortened to the record field).
    pub title: String,
    /// Author (may be shortened).
    pub author: String,
    /// Reading hours × 10.
    pub hours10: u16,
    /// Source code: 0 Gutenberg, 1 Standard Ebooks, 2 Creative Commons.
    pub source: u8,
}

/// A browse group: name, member count and where its member list lives.
#[derive(Clone, Debug, Default, PartialEq, Eq)]
pub struct Group {
    /// Name.
    pub name: String,
    /// Members.
    pub count: u16,
    members_off: u32,
}

impl Group {
    /// Where the group's member list starts in the file.
    pub closed spec fn spec_members_off(self) -> u32 {
        self.members_off
    }

    /// The member count the directory gives.
    pub closed spec fn spec_group_count(self) -> u16 {
        self.count
    }
}

/// Bytes that hold a catalog: long enough for the header, the magic, version 1, and
/// every record inside.
pub open spec fn parses(d: Seq<u8>) -> bool {
    &&& d.len() >= HEADER
    &&& d.subrange(0, 4) == magic()
    &&& le16(d, 4) == 1
    &&& HEADER + REC * le32(d, 8) <= d.len()
}

/// Where record `i` starts.
pub open spec fn rec_at(i: int) -> int {
    HEADER + REC * i
}

/// Bytes read as text: decoded when they are valid UTF-8, else with U+FFFD in place of
/// each invalid sequence.
pub open spec fn text_of(b: Seq<u8>) -> Seq<char> {
    if vstd::utf8::valid_utf8(b) {
        vstd::utf8::decode_utf8(b)
    } else {
        lossy_utf8(b)
    }
}

/// The first NUL at or after `j` (the length if none).
pub open spec fn nul_end(raw: Seq<u8>, j: int) -> int
    decreases raw.len() - j,
{
    if j < 0 || j >= raw.len() {
        raw.len() as int
    } else if raw[j] == 0 {
        j
    } else {
        nul_end(raw, j + 1)
    }
}

/// The text of the NUL-padded field of `n` bytes at `at`.
pub open spec fn field_text(d: Seq<u8>, at: int, n: int) -> Seq<char> {
    let raw = d.subrange(at, at + n);
    text_of(raw.take(nul_end(raw, 0)))
}

/// What `row(i)` holds, read from the bytes.
pub open spec fn row_read(r: Row, d: Seq<u8>, i: u32) -> bool {
    let at = rec_at(i as int);
    &&& r.index == i
    &&& r.id@ == field_text(d, at, 16)
    &&& r.title@ == field_text(d, at + 16, 56)
    &&& r.author@ == field_text(d, at + 72, 32)
    &&& r.hours10 as int == le16(d, at + 142)
    &&& r.source == d[at + 141]
}

/// The string after `at` in a blob of length-prefixed strings, and where the next one
/// starts: a missing length gives an empty string, a short one what is left.
pub open spec fn lp_next(e: Seq<u8>, at: int) -> (Seq<u8>, int) {
    if at + 2 > e.len() {
        (Seq::empty(), at)
    } else {
        let end = if at + 2 + le16(e, at) < e.len() { at + 2 + le16(e, at) } else { e.len() as int };
        (e.subrange(at + 2, end), end)
    }
}

/// Where string `k` of a blob starts.
pub open spec fn lp_pos(e: Seq<u8>, k: nat) -> int
    decreases k,
{
    if k == 0 {
        0
    } else {
        lp_next(e, lp_pos(e, (k - 1) as nat)).1
    }
}

/// String `k` of a blob, decoded.
pub open spec fn lp_text(e: Seq<u8>, k: nat) -> Seq<char> {
    text_of(lp_next(e, lp_pos(e, k)).0)
}

/// The subjects line split at commas, each trimmed, empty ones dropped.
pub open spec fn subject_list(line: Seq<char>) -> Seq<Seq<char>> {
    split_on(line, ',').map_values(|p: Seq<char>| trim_by(p, strips(Strip::White))).filter(|p: Seq<char>| p.len() > 0)
}

/// The strings blob of the record at `at`, if it lies in the file.
pub open spec fn blob_of(d: Seq<u8>, at: int) -> Option<Seq<u8>> {
    let off = le32(d, at + 154);
    let len = le16(d, at + 158);
    if fits(d, off, len) {
        Some(d.subrange(off, off + len))
    } else {
        None
    }
}

/// What `book(i)` holds, read from the record and its blob `e`: the full strings of the
/// blob, falling back to the record's fields for an empty title or author.
pub open spec fn book_read(b: ShopBook, d: Seq<u8>, i: u32, e: Seq<u8>) -> bool {
    let at = rec_at(i as int);
    &&& b.id@ == field_text(d, at, 16)
    &&& b.title@ == (if lp_text(e, 0).len() == 0 { field_text(d, at + 16, 56) } else { lp_text(e, 0) })
    &&& b.author@ == (if lp_text(e, 1).len() == 0 { field_text(d, at + 72, 32) } else { lp_text(e, 1) })
    &&& b.url@ == lp_text(e, 2)
    &&& b.subjects@.map_values(|s: String| s@) == subject_list(lp_text(e, 3))
    &&& b.source@ == lp_text(e, 4)
    &&& b.licence@ == lp_text(e, 5)
    &&& (match b.collection {
        Some(c) => lp_text(e, 6).len() > 0 && c@ == lp_text(e, 6),
        None => lp_text(e, 6).len() == 0,
    })
    &&& b.blurb@ == lp_text(e, 7)
    &&& b.year as int == le16(d, at + 136)
    &&& b.lang@ == field_text(d, at + 138, 2)
    &&& b.size as int == le32(d, at + 148)
    &&& b.rank as int == le32(d, at + 144)
    &&& b.hours10 as int == le16(d, at + 142)
    &&& b.modern == (d[at + 140] % 2 == 1)
    &&& b.added as int == le16(d, at + 152)
}

/// The `u32`s at `at`, `at + 4`, ….
pub open spec fn u32s_at(d: Seq<u8>, at: int, n: nat) -> Seq<u32> {
    Seq::new(n, |j: int| le32(d, at + 4 * j) as u32)
}

/// Directory entries before kind `kind`.
pub open spec fn groups_before(counts: Seq<u16>, kind: int) -> int
    decreases kind,
{
    if kind <= 0 {
        0
    } else {
        groups_before(counts, kind - 1) + counts[kind - 1]
    }
}

/// What directory entry `e` says of a group.
pub closed spec fn group_read(g: Group, d: Seq<u8>, e: int) -> bool {
    let name_off = le32(d, e);
    let name_len = le16(d, e + 4);
    &&& g.name@ == (if fits(d, name_off, name_len) {
        lossy_utf8(d.subrange(name_off, name_off + name_len))
    } else {
        Seq::empty()
    })
    &&& g.count as int == le16(d, e + 6)
    &&& g.members_off as int == le32(d, e + 8)
}

/// The bytes a search looks in for record `at`: title, author and subjects fields,
/// joined by spaces, NULs read as spaces, ASCII lowercased.
pub open spec fn haystack(d: Seq<u8>, at: int) -> Seq<u8> {
    let raw = d.subrange(at + 16, at + 72).push(32u8) + d.subrange(at + 72, at + 104).push(32u8) + d.subrange(at + 104, at + 136);
    raw.map_values(|b: u8| if b == 0 { 32u8 } else if 65 <= b <= 90 { (b + 32) as u8 } else { b })
}

/// `w` occurs in `h`.
pub open spec fn bytes_within(h: Seq<u8>, w: Seq<u8>) -> bool {
    exists|i: int| 0 <= i && i + w.len() <= h.len() && #[trigger] h.subrange(i, i + w.len()) == w
}

/// Every word occurs in the record's haystack.
pub open spec fn record_matches(d: Seq<u8>, i: int, words: Seq<Seq<u8>>) -> bool {
    forall|k: int| 0 <= k < words.len() ==> bytes_within(haystack(d, rec_at(i)), #[trigger] words[k])
}

/// The records among the first `n` that match every word, in order.
pub open spec fn hits(d: Seq<u8>, words: Seq<Seq<u8>>, n: int) -> Seq<u32>
    decreases n,
{
    if n <= 0 {
        Seq::empty()
    } else if record_matches(d, n - 1, words) {
        hits(d, words, n - 1).push((n - 1) as u32)
    } else {
        hits(d, words, n - 1)
    }
}

/// The words of a query: ASCII-lowercased, split at white space, as bytes.
pub open spec fn query_words(q: Seq<char>) -> Seq<Seq<u8>> {
    ws_words(q.map_values(|c: char| crate::textutil::ascii_lower(c))).map_values(|w: Seq<char>| encode_utf8(w))
}

/// The first record among `i..n` whose id is `id`.
pub open spec fn first_id(d: Seq<u8>, id: Seq<char>, i: int, n: int) -> Option<u32>
    decreases n - i,
{
    if i < 0 || i >= n {
        None
    } else if field_text(d, rec_at(i), 16) == id {
        Some(i as u32)
    } else {
        first_id(d, id, i + 1, n)
    }
}

/// The found records of `ids`, in the ids' order, the missing ones left out.
pub open spec fn found_ids(d: Seq<u8>, ids: Seq<Seq<char>>, n: int) -> Seq<u32>
    decreases ids.len(),
{
    if ids.len() == 0 {
        Seq::empty()
    } else {
        let rest = found_ids(d, ids.drop_last(), n);
        match first_id(d, ids.last(), 0, n) {
            Some(i) => rest.push(i),
            None => rest,
        }
    }
}

/// A catalog open for reading.
pub struct CatalogFile {
    data: Vec<u8>,
    count: u32,
    /// When it was fetched (0 for the seed).
    pub fetched: u32,
    shelf_off: u32,
    dir_off: u32,
    shelf_n: Vec<u8>,
    group_n: Vec<u16>,
}

impl CatalogFile {
    /// The file's bytes.
    pub closed spec fn bytes(self) -> Seq<u8> {
        self.data@
    }

    /// The header fields as read from the bytes.
    pub closed spec fn header_read(self) -> bool {
        let d = self.data@;
        &&& parses(d)
        &&& self.count as int == le32(d, 8)
        &&& self.fetched as int == le32(d, 12)
        &&& self.shelf_off as int == le32(d, 16)
        &&& self.dir_off as int == le32(d, 20)
        &&& self.shelf_n@ == d.subrange(28, 34)
        &&& self.group_n.len() == 4
        &&& forall|k: int| 0 <= k < 4 ==> #[trigger] self.group_n@[k] as int == le16(d, 36 + 2 * k)
    }

    /// Books in the catalog, as the header says.
    pub closed spec fn spec_count(self) -> u32 {
        self.count
    }

    /// Group counts per kind, as the header says.
    pub closed spec fn group_counts(self) -> Seq<u16> {
        self.group_n@
    }

    /// Shelf lengths, as the header says.
    pub closed spec fn shelf_counts(self) -> Seq<u8> {
        self.shelf_n@
    }

    /// Where the shelf table starts, as the header says.
    pub closed spec fn spec_shelf_off(self) -> u32 {
        self.shelf_off
    }

    /// Where the group directory starts, as the header says.
    pub closed spec fn spec_dir_off(self) -> u32 {
        self.dir_off
    }

    /// Read the header of an encoded catalog.
    pub fn parse(data: Vec<u8>) -> (r: Option<CatalogFile>)
        ensures
            r is Some <==> parses(data@),
            r matches Some(c) ==> c.bytes() == data@ && c.header_read(),
    {
        if data.len() < HEADER {
            return None;
        }
        let d = data.as_slice();
        if !(d[0] == 0x51u8 && d[1] == 0x43u8 && d[2] == 0x41u8 && d[3] == 0x54u8) {
            proof {
                if data@.subrange(0, 4) == magic() {
                    assert(data@.subrange(0, 4)[0] == 0x51u8);
                    assert(data@.subrange(0, 4)[1] == 0x43u8);
                    assert(data@.subrange(0, 4)[2] == 0x41u8);
                    assert(data@.subrange(0, 4)[3] == 0x54u8);
                }
            }
            return None;
        }
        assert(data@.subrange(0, 4) =~= magic());
        let version = u16_at(d, 4).unwrap();
        if version != 1 {
            return None;
        }
        let count = u32_at(d, 8).unwrap();
        let fetched = u32_at(d, 12).unwrap();
        let shelf_off = u32_at(d, 16).unwrap();
        let dir_off = u32_at(d, 20).unwrap();
        if (d.len() - HEADER) / REC < count as usize {
            return None;
        }
        let mut shelf_n: Vec<u8> = Vec::new();
        let mut k: usize = 0;
        while k < SHELVES
            invariant
                k <= SHELVES,
                d@ == data@,
                d.len() >= HEADER,
                shelf_n@ == d@.subrange(28, 28 + k),
            decreases SHELVES - k,
        {
            shelf_n.push(d[28 + k]);
            k += 1;
            assert(shelf_n@ =~= d@.subrange(28, 28 + k));
        }
        let mut group_n: Vec<u16> = Vec::new();
        let mut k: usize = 0;
        while k < 4
            invariant
                k <= 4,
                d@ == data@,
                d.len() >= HEADER,
                group_n.len() == k,
                forall|q: int| 0 <= q < k ==> #[trigger] group_n@[q] as int == le16(d@, 36 + 2 * q),
            decreases 4 - k,
        {
            group_n.push(u16_at(d, 36 + 2 * k).unwrap());
            k += 1;
        }
        Some(CatalogFile { data, count, fetched, shelf_off, dir_off, shelf_n, group_n })
    }

    /// Books in the catalog.
    pub fn count(&self) -> (n: u32)
        ensures
            n == self.spec_count(),
    {
        self.count
    }

    /// The list-row fields of record `i`.
    pub fn row(&self, i: u32) -> (r: Option<Row>)
        requires
            self.header_read(),
        ensures
            r is Some <==> i < self.spec_count(),
            r matches Some(x) ==> row_read(x, self.bytes(), i),
    {
        if i >= self.count {
            return None;
        }
        let d = self.data.as_slice();
        let len = d.len();
        assert(HEADER + REC * (i as int) + REC <= len) by (nonlinear_arith)
            requires
                HEADER + REC * (self.count as int) <= len,
                i < self.count,
        ;
        let at = HEADER + (i as usize) * REC;
        Some(
            Row {
                index: i,
                id: field_at(d, at, 16),
                title: field_at(d, at + 16, 56),
                author: field_at(d, at + 72, 32),
                hours10: u16_at(d, at + 142).unwrap(),
                source: d[at + 141],
            },
        )
    }

    /// Rows for a set of record indexes (missing ones are skipped).
    pub fn rows(&self, ids: &[u32]) -> (r: Vec<Row>)
        requires
            self.header_read(),
        ensures
            r@.map_values(|x: Row| x.index) == ids@.filter(|i: u32| i < self.spec_count()),
            forall|j: int| 0 <= j < r.len() ==> row_read(#[trigger] r@[j], self.bytes(), r@[j].index),
    {
        let ghost n = self.spec_count();
        let mut r: Vec<Row> = Vec::new();
        let mut j: usize = 0;
        while j < ids.len()
            invariant
                j <= ids.len(),
                self.header_read(),
                n == self.spec_count(),
                r@.map_values(|x: Row| x.index) == ids@.subrange(0, j as int).filter(|i: u32| i < n),
                forall|q: int| 0 <= q < r.len() ==> row_read(#[trigger] r@[q], self.bytes(), r@[q].index),
            decreases ids.len() - j,
        {
            let ghost before = r@;
            assert(ids@.subrange(0, j + 1).drop_last() =~= ids@.subrange(0, j as int));
            match self.row(ids[j]) {
                Some(x) => {
                    r.push(x);
                    assert(r@.map_values(|x: Row| x.index) =~= before.map_values(|x: Row| x.index).push(ids@[j as int]));
                },
                None => {},
            }
            j += 1;
            proof {
                let s = ids@.subrange(0, j as int);
                assert(s.drop_last() =~= ids@.subrange(0, j - 1));
                s.drop_last().lemma_filter_push(s.last(), |i: u32| i < n);
                assert(s =~= s.drop_last().push(s.last()));
            }
        }
        assert(ids@.subrange(0, ids.len() as int) =~= ids@);
        r
    }

    /// The whole book behind record `i` (reads its strings blob).
    pub fn book(&self, i: u32) -> (r: Option<ShopBook>)
        requires
            self.header_read(),
        ensures
            r is Some <==> (i < self.spec_count() && blob_of(self.bytes(), rec_at(i as int)) is Some),
            r matches Some(b) ==> book_read(b, self.bytes(), i, blob_of(self.bytes(), rec_at(i as int))->0),
    {
        if i >= self.count {
            return None;
        }
        let d = self.data.as_slice();
        let len = d.len();
        assert(HEADER + REC * (i as int) + REC <= len) by (nonlinear_arith)
            requires
                HEADER + REC * (self.count as int) <= len,
                i < self.count,
        ;
        let at = HEADER + (i as usize) * REC;
        let off = u32_at(d, at + 154).unwrap() as usize;
        let elen = u16_at(d, at + 158).unwrap() as usize;
        if off > len || len - off < elen {
            return None;
        }
        let e = slice_vec(d, off, elen);
        let (title, p1) = lp_read(&e, 0);
        let (author, p2) = lp_read(&e, p1);
        let (url, p3) = lp_read(&e, p2);
        let (subjects, p4) = lp_read(&e, p3);
        let (source, p5) = lp_read(&e, p4);
        let (licence, p6) = lp_read(&e, p5);
        let (collection, p7) = lp_read(&e, p6);
        let (blurb, _p8) = lp_read(&e, p7);
        proof {
            assert(lp_pos(e@, 0) == 0);
            assert(lp_pos(e@, 1) == p1);
            assert(lp_pos(e@, 2) == p2);
            assert(lp_pos(e@, 3) == p3);
            assert(lp_pos(e@, 4) == p4);
            assert(lp_pos(e@, 5) == p5);
            assert(lp_pos(e@, 6) == p6);
            assert(lp_pos(e@, 7) == p7);
            assert(e@ == blob_of(d@, at as int)->0);
        }
        let title = if title.as_str().is_empty() { field_at(d, at + 16, 56) } else { title };
        let author = if author.as_str().is_empty() { field_at(d, at + 72, 32) } else { author };
        let collection = if collection.as_str().is_empty() { None } else { Some(collection) };
        let subjects = subjects_of(subjects.as_str());
        Some(
            ShopBook {
                id: field_at(d, at, 16),
                title,
                author,
                year: u16_at(d, at + 136).unwrap(),
                lang: field_at(d, at + 138, 2),
                subjects,
                source,
                licence,
                url,
                size: u32_at(d, at + 148).unwrap(),
                rank: u32_at(d, at + 144).unwrap(),
                hours10: u16_at(d, at + 142).unwrap(),
                blurb,
                collection,
                modern: d[at + 140] % 2 == 1,
                added: u16_at(d, at + 152).unwrap(),
            },
        )
    }

    /// Record indexes on shelf `k`: none for `k` past the last shelf or a shelf whose
    /// entries lie outside the file.
    pub fn shelf(&self, k: usize) -> (r: Vec<u32>)
        requires
            self.header_read(),
            k < SHELVES ==> self.shelf_counts()[k as int] <= SHELF_LEN,
        ensures
            ({
                let d = self.bytes();
                let n = if k < SHELVES { self.shelf_counts()[k as int] as int } else { 0 };
                let at = self.spec_shelf_off() + k * SHELF_LEN * 4;
                r@ == (if k < SHELVES && n > 0 && fits(d, at, 4 * n) { u32s_at(d, at, n as nat) } else { Seq::empty() })
            }),
    {
        if k >= SHELVES {
            return Vec::new();
        }
        let n = self.shelf_n[k] as usize;
        let d = self.data.as_slice();
        let at64: u64 = self.shelf_off as u64 + (k * SHELF_LEN * 4) as u64;
        if n == 0 || at64 > d.len() as u64 || (d.len() as u64) - at64 < (n * 4) as u64 {
            return Vec::new();
        }
        let at = at64 as usize;
        read_u32s(d, at, n)
    }

    /// The groups of `kind` as the directory lists them: all of them when the kind's
    /// entries lie in the file, else none.
    pub open spec fn groups_listed(self, kind: int, r: Seq<Group>) -> bool {
        let d = self.bytes();
        let at = self.spec_dir_off() + 12 * groups_before(self.group_counts(), kind);
        if 0 <= kind < 4 && fits(d, at, 12 * self.group_counts()[kind]) {
            &&& r.len() == self.group_counts()[kind]
            &&& forall|j: int| 0 <= j < r.len() ==> group_read(#[trigger] r[j], d, at + 12 * j)
        } else {
            r.len() == 0
        }
    }

    /// The members of group `g`: at most `MEMBERS_LIMIT`, none when the list lies
    /// outside the file.
    pub open spec fn members_listed(self, g: Group) -> Seq<u32> {
        let d = self.bytes();
        let n = if g.spec_group_count() > MEMBERS_LIMIT { MEMBERS_LIMIT as int } else { g.spec_group_count() as int };
        if fits(d, g.spec_members_off() as int, 4 * n) {
            u32s_at(d, g.spec_members_off() as int, n as nat)
        } else {
            Seq::empty()
        }
    }

    /// The browse groups of a kind (0 subjects, 1 authors, 2 collections, 3 languages):
    /// none for a kind past the last or a directory outside the file.
    pub fn groups(&self, kind: usize) -> (r: Vec<Group>)
        requires
            self.header_read(),
        ensures
            self.groups_listed(kind as int, r@),
    {
        if kind >= 4 {
            return Vec::new();
        }
        let ghost gc = self.group_counts();
        let mut before: usize = 0;
        let mut q: usize = 0;
        while q < kind
            invariant
                q <= kind < 4,
                self.header_read(),
                gc == self.group_counts(),
                before == groups_before(gc, q as int),
                before <= 65535 * q,
            decreases kind - q,
        {
            before = before + self.group_n[q] as usize;
            q += 1;
        }
        let n = self.group_n[kind] as usize;
        let d = self.data.as_slice();
        let at64: u64 = self.dir_off as u64 + 12 * before as u64;
        if at64 > d.len() as u64 || (d.len() as u64) - at64 < (12 * n) as u64 {
            return Vec::new();
        }
        let at = at64 as usize;
        let mut out: Vec<Group> = Vec::new();
        let mut j: usize = 0;
        while j < n
            invariant
                j <= n,
                at + 12 * n <= d.len(),
                d@ == self.bytes(),
                out.len() == j,
                forall|q: int| 0 <= q < j ==> group_read(#[trigger] out@[q], d@, at + 12 * q),
            decreases n - j,
        {
            let e = at + 12 * j;
            let name_off = u32_at(d, e).unwrap() as usize;
            let name_len = u16_at(d, e + 4).unwrap() as usize;
            let name = if name_off <= d.len() && d.len() - name_off >= name_len {
                from_utf8_lossy(slice_vec(d, name_off, name_len).as_slice())
            } else {
                String::new()
            };
            out.push(Group { name, count: u16_at(d, e + 6).unwrap(), members_off: u32_at(d, e + 8).unwrap() });
            j += 1;
        }
        out
    }

    /// Record indexes in a group, in rank order (at most [`MEMBERS_LIMIT`]); none when
    /// the list lies outside the file.
    pub fn members(&self, g: &Group) -> (r: Vec<u32>)
        requires
            self.header_read(),
        ensures
            r@ == self.members_listed(*g),
    {
        let n: usize = if g.count as usize > MEMBERS_LIMIT { MEMBERS_LIMIT } else { g.count as usize };
        let d = self.data.as_slice();
        let at = g.members_off as usize;
        if at > d.len() || d.len() - at < n * 4 {
            return Vec::new();
        }
        read_u32s(d, at, n)
    }


    /// Records whose title, author or subjects contain every word of `query`
    /// (ASCII case-insensitive), in rank order, at most [`SEARCH_LIMIT`]; none for a
    /// query without words.
    pub fn search(&self, query: &str) -> (r: Vec<u32>)
        requires
            self.header_read(),
        ensures
            ({
                let words = query_words(query@);
                let h = hits(self.bytes(), words, self.spec_count() as int);
                r@ == (if words.len() == 0 {
                    Seq::empty()
                } else if h.len() > SEARCH_LIMIT {
                    h.take(SEARCH_LIMIT as int)
                } else {
                    h
                })
            }),
    {
        let words = query_bytes(query);
        let ghost wv = words@.map_values(|w: Vec<u8>| w@);
        if words.len() == 0 {
            return Vec::new();
        }
        let d = self.data.as_slice();
        let n = self.count;
        let mut out: Vec<u32> = Vec::new();
        let mut i: u32 = 0;
        while i < n
            invariant
                i <= n == self.spec_count(),
                self.header_read(),
                d@ == self.bytes(),
                wv == words@.map_values(|w: Vec<u8>| w@),
                wv == query_words(query@),
                wv.len() > 0,
                out@ == hits(d@, wv, i as int),
                out.len() < SEARCH_LIMIT,
            decreases n - i,
        {
            let len = d.len();
            assert(HEADER + REC * (i as int) + REC <= len) by (nonlinear_arith)
                requires
                    HEADER + REC * (n as int) <= len,
                    i < n,
            ;
            let at = HEADER + (i as usize) * REC;
            let hay = haystack_of(d, at);
            let m = all_within(&hay, &words);
            proof {
                assert(hay@ == haystack(d@, rec_at(i as int)));
                if m {
                    assert forall|k: int| 0 <= k < wv.len() implies bytes_within(
                        haystack(d@, rec_at(i as int)),
                        #[trigger] wv[k],
                    ) by {
                        assert(wv[k] == words@[k]@);
                    }
                } else {
                    let k = choose|k: int| 0 <= k < words.len() && !bytes_within(hay@, #[trigger] words@[k]@);
                    assert(wv[k] == words@[k]@);
                }
            }
            if m {
                out.push(i);
            }
            i += 1;
            if out.len() >= SEARCH_LIMIT {
                proof {
                    lemma_hits_prefix(d@, wv, i as int, n as int);
                }
                assert(out@.len() == SEARCH_LIMIT);
                assert(wv.len() > 0);
                assert(hits(d@, wv, n as int).take(SEARCH_LIMIT as int) =~= out@);
                proof {
                    if hits(d@, wv, n as int).len() == SEARCH_LIMIT {
                        assert(hits(d@, wv, n as int) =~= out@);
                    }
                }
                return out;
            }
        }
        out
    }

    /// Record indexes of the given ids, in the ids' order, those not found left out
    /// (one pass over the file).
    pub fn find_ids(&self, ids: &[String]) -> (r: Vec<u32>)
        requires
            self.header_read(),
        ensures
            r@ == found_ids(self.bytes(), ids@.map_values(|s: String| s@), self.spec_count() as int),
    {
        let ghost iv = ids@.map_values(|s: String| s@);
        let d = self.data.as_slice();
        let n = self.count;
        let mut found: Vec<Option<u32>> = Vec::new();
        let mut k: usize = 0;
        while k < ids.len()
            invariant
                k <= ids.len(),
                found.len() == k,
                forall|q: int| 0 <= q < k ==> #[trigger] found@[q] is None,
            decreases ids.len() - k,
        {
            found.push(None);
            k += 1;
        }
        let mut i: u32 = 0;
        while i < n
            invariant
                i <= n == self.spec_count(),
                self.header_read(),
                d@ == self.bytes(),
                iv == ids@.map_values(|s: String| s@),
                found.len() == ids.len(),
                forall|q: int| 0 <= q < ids.len() ==> #[trigger] found@[q] == first_id(d@, iv[q], 0, i as int),
            decreases n - i,
        {
            let len = d.len();
            assert(HEADER + REC * (i as int) + REC <= len) by (nonlinear_arith)
                requires
                    HEADER + REC * (n as int) <= len,
                    i < n,
            ;
            let at = HEADER + (i as usize) * REC;
            let id = field_at(d, at, 16);
            let mut k: usize = 0;
            while k < ids.len()
                invariant
                    k <= ids.len() == found.len(),
                    i < n,
                    id@ == field_text(d@, rec_at(i as int), 16),
                    iv == ids@.map_values(|s: String| s@),
                    forall|q: int| 0 <= q < k ==> #[trigger] found@[q] == first_id(d@, iv[q], 0, i + 1),
                    forall|q: int| k <= q < ids.len() ==> #[trigger] found@[q] == first_id(d@, iv[q], 0, i as int),
                decreases ids.len() - k,
            {
                proof {
                    lemma_first_id_step(d@, iv[k as int], 0, i as int);
                }
                if found[k].is_none() && ids[k] == id {
                    found.set(k, Some(i));
                }
                k += 1;
            }
            i += 1;
        }
        let mut r: Vec<u32> = Vec::new();
        let mut k: usize = 0;
        while k < ids.len()
            invariant
                k <= ids.len() == found.len(),
                iv == ids@.map_values(|s: String| s@),
                forall|q: int| 0 <= q < ids.len() ==> #[trigger] found@[q] == first_id(d@, iv[q], 0, n as int),
                r@ == found_ids(d@, iv.subrange(0, k as int), n as int),
            decreases ids.len() - k,
        {
            assert(iv.subrange(0, k + 1).drop_last() =~= iv.subrange(0, k as int));
            match found[k] {
                Some(x) => r.push(x),
                None => {},
            }
            k += 1;
        }
        assert(iv.subrange(0, ids.len() as int) =~= iv);
        r
    }

}

fn field_at(d: &[u8], at: usize, n: usize) -> (s: String)
    requires
        at + n <= d.len(),
    ensures
        s@ == field_text(d@, at as int, n as int),
{
    let ghost raw = d@.subrange(at as int, at + n);
    let mut end: usize = 0;
    while end < n && d[at + end] != 0
        invariant
            end <= n,
            at + n <= d.len(),
            raw == d@.subrange(at as int, at + n),
            nul_end(raw, end as int) == nul_end(raw, 0),
        decreases n - end,
    {
        end += 1;
    }
    let mut b: Vec<u8> = Vec::new();
    let mut q: usize = 0;
    while q < end
        invariant
            q <= end <= n,
            at + n <= d.len(),
            b@ == d@.subrange(at as int, at + q),
        decreases end - q,
    {
        b.push(d[at + q]);
        q += 1;
        assert(b@ =~= d@.subrange(at as int, at + q));
    }
    assert(raw.take(end as int) =~= b@);
    from_utf8_lossy(b.as_slice())
}


fn slice_vec(d: &[u8], off: usize, n: usize) -> (r: Vec<u8>)
    requires
        off + n <= d.len(),
    ensures
        r@ == d@.subrange(off as int, off + n),
{
    let mut r: Vec<u8> = Vec::new();
    let mut q: usize = 0;
    while q < n
        invariant
            q <= n,
            off + n <= d.len(),
            r@ == d@.subrange(off as int, off + q),
        decreases n - q,
    {
        r.push(d[off + q]);
        q += 1;
        assert(r@ =~= d@.subrange(off as int, off + q));
    }
    r
}

fn read_u32s(d: &[u8], at: usize, n: usize) -> (r: Vec<u32>)
    requires
        at + 4 * n <= d.len(),
    ensures
        r@ == u32s_at(d@, at as int, n as nat),
{
    let mut r: Vec<u32> = Vec::new();
    let mut j: usize = 0;
    while j < n
        invariant
            j <= n,
            at + 4 * n <= d.len(),
            r@ == u32s_at(d@, at as int, j as nat),
        decreases n - j,
    {
        r.push(u32_at(d, at + 4 * j).unwrap());
        j += 1;
        assert(r@ =~= u32s_at(d@, at as int, j as nat));
    }
    r
}

fn lp_read(e: &Vec<u8>, at: usize) -> (r: (String, usize))
    requires
        at <= e.len(),
    ensures
        r.0@ == text_of(lp_next(e@, at as int).0),
        r.1 == lp_next(e@, at as int).1,
        r.1 <= e.len(),
{
    if e.len() - at < 2 {
        let none: Vec<u8> = Vec::new();
        assert(none@ =~= lp_next(e@, at as int).0);
        return (from_utf8_lossy(none.as_slice()), at);
    }
    let n = u16_at(e.as_slice(), at).unwrap() as usize;
    let end = if e.len() - (at + 2) > n { at + 2 + n } else { e.len() };
    let s = from_utf8_lossy(slice_vec(e.as_slice(), at + 2, end - (at + 2)).as_slice());
    (s, end)
}

fn subjects_of(line: &str) -> (r: Vec<String>)
    ensures
        r@.map_values(|s: String| s@) == subject_list(line@),
{
    let parts = split_chars(line, ',');
    let ghost pv = parts@.map_values(|x: String| x@);
    let ghost f = |p: Seq<char>| p.len() > 0;
    let ghost tm = pv.map_values(|p: Seq<char>| trim_by(p, strips(Strip::White)));
    let mut r: Vec<String> = Vec::new();
    let mut j: usize = 0;
    while j < parts.len()
        invariant
            j <= parts.len(),
            pv == parts@.map_values(|x: String| x@),
            tm == pv.map_values(|p: Seq<char>| trim_by(p, strips(Strip::White))),
            f == (|p: Seq<char>| p.len() > 0),
            r@.map_values(|s: String| s@) == tm.subrange(0, j as int).filter(f),
        decreases parts.len() - j,
    {
        let cs = chars_of(parts[j].as_str());
        let t = trim_chars(&cs, Strip::White);
        let ghost before = r@;
        if t.len() > 0 {
            r.push(string_of(&t));
            assert(r@.map_values(|s: String| s@) =~= before.map_values(|s: String| s@).push(t@));
        }
        j += 1;
        proof {
            let s = tm.subrange(0, j as int);
            assert(s.drop_last() =~= tm.subrange(0, j - 1));
            s.drop_last().lemma_filter_push(s.last(), f);
            assert(s =~= s.drop_last().push(s.last()));
        }
    }
    assert(tm.subrange(0, tm.len() as int) =~= tm);
    r
}


proof fn lemma_hits_prefix(d: Seq<u8>, words: Seq<Seq<u8>>, i: int, n: int)
    requires
        0 <= i <= n,
    ensures
        hits(d, words, n).len() >= hits(d, words, i).len(),
        hits(d, words, n).take(hits(d, words, i).len() as int) == hits(d, words, i),
    decreases n - i,
{
    if i < n {
        lemma_hits_prefix(d, words, i, n - 1);
        let a = hits(d, words, n - 1);
        let b = hits(d, words, i);
        if record_matches(d, n - 1, words) {
            assert(a.push((n - 1) as u32).take(b.len() as int) =~= a.take(b.len() as int));
        }
    } else {
        assert(hits(d, words, n).take(hits(d, words, n).len() as int) =~= hits(d, words, n));
    }
}

proof fn lemma_first_id_step(d: Seq<u8>, id: Seq<char>, s: int, i: int)
    requires
        0 <= s <= i,
    ensures
        first_id(d, id, s, i + 1) == (match first_id(d, id, s, i) {
            Some(x) => Some(x),
            None => if field_text(d, rec_at(i), 16) == id { Some(i as u32) } else { None },
        }),
    decreases i - s,
{
    if s < i {
        lemma_first_id_step(d, id, s + 1, i);
    } else {
        assert(first_id(d, id, i + 1, i + 1) is None);
    }
}

fn query_bytes(query: &str) -> (r: Vec<Vec<u8>>)
    ensures
        r@.map_values(|w: Vec<u8>| w@) == query_words(query@),
{
    let cs = chars_of(query);
    let mut low: Vec<char> = Vec::new();
    let mut i: usize = 0;
    while i < cs.len()
        invariant
            i <= cs.len(),
            cs@ == query@,
            low@ == cs@.subrange(0, i as int).map_values(|c: char| crate::textutil::ascii_lower(c)),
        decreases cs.len() - i,
    {
        let c = cs[i];
        let l = if 'A' <= c && c <= 'Z' { ((c as u8) + 32) as char } else { c };
        low.push(l);
        i += 1;
        assert(low@ =~= cs@.subrange(0, i as int).map_values(|c: char| crate::textutil::ascii_lower(c)));
    }
    assert(cs@.subrange(0, i as int) =~= query@);
    let ls = string_of(&low);
    let ws = words_of(ls.as_str());
    let ghost wv = ws@.map_values(|x: Vec<char>| x@);
    let mut r: Vec<Vec<u8>> = Vec::new();
    let mut j: usize = 0;
    while j < ws.len()
        invariant
            j <= ws.len(),
            wv == ws@.map_values(|x: Vec<char>| x@),
            r@.map_values(|w: Vec<u8>| w@) == wv.subrange(0, j as int).map_values(|w: Seq<char>| encode_utf8(w)),
        decreases ws.len() - j,
    {
        let s = string_of(&ws[j]);
        let b = s.as_str().as_bytes();
        let ghost before = r@;
        r.push(crate::bookshop::catalog::bytes_vec(b));
        j += 1;
        assert(r@.map_values(|w: Vec<u8>| w@) =~= before.map_values(|w: Vec<u8>| w@).push(encode_utf8(wv[j - 1])));
        assert(wv.subrange(0, j as int).map_values(|w: Seq<char>| encode_utf8(w)) =~= wv.subrange(0, j - 1).map_values(
            |w: Seq<char>| encode_utf8(w),
        ).push(encode_utf8(wv[j - 1])));
    }
    assert(wv.subrange(0, j as int) =~= wv);
    r
}

fn haystack_of(d: &[u8], at: usize) -> (h: Vec<u8>)
    requires
        at + REC <= d.len(),
    ensures
        h@ == haystack(d@, at as int),
{
    let mut raw = slice_vec(d, at + 16, 56);
    raw.push(32u8);
    let mut a = slice_vec(d, at + 72, 32);
    raw.append(&mut a);
    raw.push(32u8);
    let mut b = slice_vec(d, at + 104, 32);
    raw.append(&mut b);
    let ghost rv = raw@;
    assert(rv =~= d@.subrange(at + 16, at + 72).push(32u8) + d@.subrange(at + 72, at + 104).push(32u8) + d@.subrange(
        at + 104,
        at + 136,
    ));
    let mut h: Vec<u8> = Vec::new();
    let mut p: usize = 0;
    while p < raw.len()
        invariant
            p <= raw.len(),
            rv == raw@,
            h@ == rv.subrange(0, p as int).map_values(
                |b: u8| if b == 0 { 32u8 } else if 65 <= b <= 90 { (b + 32) as u8 } else { b },
            ),
        decreases raw.len() - p,
    {
        let x = raw[p];
        let y: u8 = if x == 0 { 32 } else if 65 <= x && x <= 90 { x + 32 } else { x };
        h.push(y);
        p += 1;
        assert(h@ =~= rv.subrange(0, p as int).map_values(
            |b: u8| if b == 0 { 32u8 } else if 65 <= b <= 90 { (b + 32) as u8 } else { b },
        ));
    }
    assert(rv.subrange(0, p as int) =~= rv);
    h
}

fn within(h: &Vec<u8>, w: &Vec<u8>) -> (b: bool)
    ensures
        b == bytes_within(h@, w@),
{
    let n = h.len();
    let m = w.len();
    if m > n {
        assert forall|i: int| 0 <= i && i + m <= n implies #[trigger] h@.subrange(i, i + m) != w@ by {}
        return false;
    }
    if m == 0 {
        assert(h@.subrange(0, 0 + w@.len() as int) =~= w@);
        return true;
    }
    let mut i: usize = 0;
    while i <= n - m
        invariant
            0 < m <= n,
            n == h.len(),
            m == w.len(),
            forall|q: int| 0 <= q < i ==> #[trigger] h@.subrange(q, q + m) != w@,
        decreases n - m + 1 - i,
    {
        let mut j: usize = 0;
        let mut ok = true;
        while j < m && ok
            invariant
                j <= m,
                i + m <= n,
                n == h.len(),
                m == w.len(),
                ok ==> forall|q: int| 0 <= q < j ==> h@[i + q] == w@[q],
                !ok ==> h@.subrange(i as int, i + m) != w@,
            decreases m - j,
        {
            if h[i + j] != w[j] {
                ok = false;
                assert(h@.subrange(i as int, i + m)[j as int] != w@[j as int]);
            }
            j += 1;
        }
        if ok {
            assert(h@.subrange(i as int, i + m) =~= w@);
            return true;
        }
        i += 1;
    }
    false
}

fn all_within(h: &Vec<u8>, words: &Vec<Vec<u8>>) -> (b: bool)
    ensures
        b == (forall|k: int| 0 <= k < words.len() ==> bytes_within(h@, #[trigger] words@[k]@)),
{
    let mut k: usize = 0;
    while k < words.len()
        invariant
            k <= words.len(),
            forall|q: int| 0 <= q < k ==> bytes_within(h@, #[trigger] words@[q]@),
        decreases words.len() - k,
    {
        if !within(h, &words[k]) {
            return false;
        }
        k += 1;
    }
    true
}

} // verus!
