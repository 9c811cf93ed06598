//! What the catalog file promises across its writer and its reader.

use vstd::prelude::*;
use crate::bookshop::catalog::{
    first_after, stable_sort, lemma_first_after_bounds,
    encoded, encoded_len, extra, extras, flags, groups_upto, header, lemma_before_nonneg, lemma_record_len,
    lemma_records_len, lemma_stable_sort_len, magic, member_lists, members_off, name_bytes, rank_after, ranked, record,
    record_head, record_tail, records, shelf_off, shelf_table, source_code, strings_off, subjects_line, upto, dir, dir_off,
    le16s, le32s, HEADER, REC, field_bytes, lp16, min16, text_or_empty, extra_head, extra_tail, zeros, fit_end,
    lemma_field_len, lemma_extras_mono, lemma_shelf_table_len, lemma_dir_len, lemma_member_lists_len,
};
use crate::bookshop::catalog_file::{parses, rec_at, nul_end, field_text, text_of, lp_next, lp_pos, lp_text, blob_of,
    book_read, subject_list};
use vstd::utf8::{encode_utf8, encode_utf8_valid_utf8, encode_utf8_decode_utf8, is_char_boundary_start_end_of_seq};
use crate::bookshop::ShopBook;
use crate::bookshop::catalog::{join, comma_space};
use crate::textutil::{split_state, split_on, trim_by, strips, Strip, is_ws, first_kept, end_kept};
use crate::dict::builtin::{le16, le32};

verus! {

proof fn lemma_le16s(v: int)
    requires
        0 <= v < 65536,
    ensures
        le16(le16s(v), 0) == v,
{
    let s = le16s(v);
    assert(s[0] as int == v % 256);
    assert(s[1] as int == (v / 256) % 256);
    assert(v == 256 * (v / 256) + v % 256) by (nonlinear_arith);
    assert((v / 256) % 256 == v / 256) by (nonlinear_arith)
        requires
            0 <= v < 65536,
    ;
}

proof fn lemma_le32s(v: int)
    requires
        0 <= v <= u32::MAX,
    ensures
        le32(le32s(v), 0) == v,
{
    let s = le32s(v);
    assert(s[0] as int == v % 256);
    assert(s[1] as int == (v / 256) % 256);
    assert(s[2] as int == (v / 65536) % 256);
    assert(s[3] as int == (v / 16777216) % 256);
    assert(le16(s, 0) == v % 65536) by (nonlinear_arith)
        requires
            0 <= v,
            le16(s, 0) == s[0] as int + 256 * (s[1] as int),
            s[0] as int == v % 256,
            s[1] as int == (v / 256) % 256,
    ;
    assert(le16(s, 2) == v / 65536) by (nonlinear_arith)
        requires
            0 <= v <= u32::MAX,
            le16(s, 2) == s[2] as int + 256 * (s[3] as int),
            s[2] as int == (v / 65536) % 256,
            s[3] as int == (v / 16777216) % 256,
    ;
    assert(v == v % 65536 + 65536 * (v / 65536)) by (nonlinear_arith);
}

proof fn lemma_record_at(sb: Seq<ShopBook>, so: int, n: int, i: int)
    requires
        0 <= i < n <= sb.len(),
    ensures
        records(sb, so, n).len() == REC * n,
        records(sb, so, n).subrange(REC * i, REC * i + REC) == record(sb[i], so + extras(sb, i).len(), extra(sb[i]).len() as int),
    decreases n,
{
    lemma_records_len(sb, so, n);
    lemma_records_len(sb, so, n - 1);
    let r = records(sb, so, n - 1);
    let last = record(sb[n - 1], so + extras(sb, n - 1).len(), extra(sb[n - 1]).len() as int);
    lemma_record_len(sb[n - 1], so + extras(sb, n - 1).len(), extra(sb[n - 1]).len() as int);
    assert(REC * i + REC <= REC * n) by (nonlinear_arith)
        requires
            i < n,
    ;
    if i < n - 1 {
        assert(REC * i + REC <= REC * (n - 1)) by (nonlinear_arith)
            requires
                i < n - 1,
        ;
        lemma_record_at(sb, so, n - 1, i);
        assert((r + last).subrange(REC * i, REC * i + REC) =~= r.subrange(REC * i, REC * i + REC));
    } else {
        assert((r + last).subrange(REC * i, REC * i + REC) =~= last);
    }
}

proof fn lemma_layout(books: Seq<ShopBook>, fetched: u32)
    requires
        encoded_len(books) <= u32::MAX,
    ensures
        ranked(books).len() == books.len(),
        ({
            let sb = ranked(books);
            let so = strings_off(sb);
            let h = header(sb, fetched, shelf_off(sb), dir_off(sb), so);
            let r = records(sb, so, books.len() as int);
            &&& h.len() == HEADER
            &&& r.len() == REC * books.len()
            &&& encoded(books, fetched).len() >= HEADER + REC * books.len()
            &&& encoded(books, fetched).subrange(0, HEADER as int) == h
            &&& encoded(books, fetched).subrange(HEADER as int, HEADER + REC * books.len()) == r
            &&& books.len() <= u32::MAX
        }),
{
    let sb = ranked(books);
    let n = sb.len() as int;
    lemma_stable_sort_len(upto(books.len()), rank_after(books));
    let g = groups_upto(sb, 4);
    let so = strings_off(sb);
    let ea = so + extras(sb, n).len();
    let h = header(sb, fetched, shelf_off(sb), dir_off(sb), so);
    let r = records(sb, so, n);
    let rest = shelf_table(sb, 72) + dir(g, ea, members_off(sb), g.len() as int) + member_lists(g, g.len() as int) + extras(sb, n)
        + name_bytes(g, g.len() as int);
    let d = encoded(books, fetched);
    reveal(encoded);
    assert(d =~= h + r + rest);
    lemma_records_len(sb, so, n);
    lemma_before_nonneg(g, g.len() as int);
    assert(d.subrange(0, HEADER as int) =~= h);
    assert(d.subrange(HEADER as int, HEADER + REC * n) =~= r);
}

proof fn lemma_header_read(books: Seq<ShopBook>, fetched: u32)
    requires
        encoded_len(books) <= u32::MAX,
    ensures
        parses(encoded(books, fetched)),
        le32(encoded(books, fetched), 8) == books.len(),
{
    lemma_layout(books, fetched);
    let sb = ranked(books);
    let n = books.len() as int;
    let d = encoded(books, fetched);
    let h = header(sb, fetched, shelf_off(sb), dir_off(sb), strings_off(sb));
    assert(forall|j: int| 0 <= j < HEADER ==> #[trigger] d[j] == h[j]) by {
        assert forall|j: int| 0 <= j < HEADER implies #[trigger] d[j] == h[j] by {
            assert(d.subrange(0, HEADER as int)[j] == d[j]);
        }
    }
    assert(d.subrange(0, 4) =~= magic());
    lemma_le16s(1);
    assert(le16(d, 4) == le16(le16s(1), 0));
    lemma_le32s(n);
    assert(le32(d, 8) == le32(le32s(n as u32 as int), 0));
}

proof fn lemma_record_bytes(books: Seq<ShopBook>, fetched: u32, i: int)
    requires
        encoded_len(books) <= u32::MAX,
        0 <= i < books.len(),
    ensures
        ({
            let sb = ranked(books);
            let so = strings_off(sb);
            let rec = record(sb[i], so + extras(sb, i).len(), extra(sb[i]).len() as int);
            forall|j: int| 0 <= j < REC ==> #[trigger] encoded(books, fetched)[rec_at(i) + j] == rec[j]
        }),
{
    lemma_layout(books, fetched);
    let sb = ranked(books);
    let n = books.len() as int;
    let so = strings_off(sb);
    let d = encoded(books, fetched);
    let r = records(sb, so, n);
    lemma_record_at(sb, so, n, i);
    let rec = record(sb[i], so + extras(sb, i).len(), extra(sb[i]).len() as int);
    assert forall|j: int| 0 <= j < REC implies #[trigger] d[rec_at(i) + j] == rec[j] by {
        assert(REC * i + j < REC * n) by (nonlinear_arith)
            requires
                0 <= j < REC,
                i < n,
        ;
        assert(d.subrange(HEADER as int, HEADER + REC * n)[REC * i + j] == d[rec_at(i) + j]);
        assert(r.subrange(REC * i, REC * i + REC)[j] == r[REC * i + j]);
    }
}

proof fn lemma_tail(b: ShopBook, off: int, len: int)
    ensures
        ({
            let rec = record(b, off, len);
            &&& rec[140] == flags(b)
            &&& rec[141] == source_code(b.source@)
            &&& le16(rec, 142) == b.hours10
            &&& le32(rec, 144) == b.rank
            &&& le32(rec, 148) == b.size
            &&& le16(rec, 152) == b.added
        }),
{
    reveal(record_head);
    reveal(record_tail);
    lemma_field_len(b.id@, 16);
    lemma_field_len(b.title@, 56);
    lemma_field_len(b.author@, 32);
    lemma_field_len(subjects_line(b), 32);
    lemma_field_len(b.lang@, 2);
    let rec = record(b, off, len);
    let tail = record_tail(b, off, len);
    assert(record_head(b).len() == 140);
    assert(forall|j: int| 0 <= j < 20 ==> #[trigger] rec[140 + j] == tail[j]);
    lemma_le16s(b.hours10 as int);
    lemma_le32s(b.rank as int);
    lemma_le32s(b.size as int);
    lemma_le16s(b.added as int);
    assert(le16(rec, 142) == le16(le16s(b.hours10 as int), 0)) by {
        assert(rec[142] == tail[2] && rec[143] == tail[3]);
    }
    assert(le32(rec, 144) == le32(le32s(b.rank as int), 0)) by {
        assert(rec[144] == tail[4] && rec[145] == tail[5] && rec[146] == tail[6] && rec[147] == tail[7]);
    }
    assert(le32(rec, 148) == le32(le32s(b.size as int), 0)) by {
        assert(rec[148] == tail[8] && rec[149] == tail[9] && rec[150] == tail[10] && rec[151] == tail[11]);
    }
    assert(le16(rec, 152) == le16(le16s(b.added as int), 0)) by {
        assert(rec[152] == tail[12] && rec[153] == tail[13]);
    }
}

/// Encoding then parsing gives back the books: for every catalog whose layout fits in
/// `u32` offsets, the encoding parses, its header counts the books, and record `i`
/// holds the `i`-th book in rank order — its flags, source code, reading hours, rank,
/// size and date added.
pub proof fn lemma_catalog_round_trip(books: Seq<ShopBook>, fetched: u32, i: int)
    requires
        encoded_len(books) <= u32::MAX,
        0 <= i < books.len(),
    ensures
        parses(encoded(books, fetched)),
        le32(encoded(books, fetched), 8) == books.len(),
        ({
            let d = encoded(books, fetched);
            let b = ranked(books)[i];
            let at = rec_at(i);
            &&& d[at + 140] == flags(b)
            &&& d[at + 141] == source_code(b.source@)
            &&& le16(d, at + 142) == b.hours10
            &&& le32(d, at + 144) == b.rank
            &&& le32(d, at + 148) == b.size
            &&& le16(d, at + 152) == b.added
        }),
{
    lemma_layout(books, fetched);
    lemma_header_read(books, fetched);
    lemma_record_bytes(books, fetched, i);
    let sb = ranked(books);
    let so = strings_off(sb);
    let b = sb[i];
    let rec = record(b, so + extras(sb, i).len(), extra(b).len() as int);
    lemma_tail(b, so + extras(sb, i).len(), extra(b).len() as int);
    let d = encoded(books, fetched);
    let at = rec_at(i);
    assert(d[at + 140] == rec[140]);
    assert(d[at + 141] == rec[141]);
    assert(d[at + 142] == rec[142] && d[at + 143] == rec[143]);
    assert(d[at + 144] == rec[144] && d[at + 145] == rec[145] && d[at + 146] == rec[146] && d[at + 147] == rec[147]);
    assert(d[at + 148] == rec[148] && d[at + 149] == rec[149] && d[at + 150] == rec[150] && d[at + 151] == rec[151]);
    assert(d[at + 152] == rec[152] && d[at + 153] == rec[153]);
}

proof fn lemma_nul_end(raw: Seq<u8>, m: int, j: int)
    requires
        0 <= j <= m <= raw.len(),
        forall|q: int| j <= q < m ==> raw[q] != 0,
        m < raw.len() ==> raw[m] == 0,
    ensures
        nul_end(raw, j) == m,
    decreases m - j,
{
    if j < m {
        lemma_nul_end(raw, m, j + 1);
    }
}

/// A text whose UTF-8 fits its field and holds no NUL is read back whole.
proof fn lemma_field_text(d: Seq<u8>, at: int, n: int, s: Seq<char>)
    requires
        0 <= at,
        0 <= n,
        at + n <= d.len(),
        forall|j: int| 0 <= j < n ==> #[trigger] d[at + j] == field_bytes(s, n)[j],
        encode_utf8(s).len() <= n,
        !encode_utf8(s).contains(0u8),
    ensures
        field_text(d, at, n) == s,
{
    broadcast use encode_utf8_valid_utf8, encode_utf8_decode_utf8;

    let b = encode_utf8(s);
    is_char_boundary_start_end_of_seq(b);
    let e0 = if b.len() < n { b.len() as int } else { n };
    assert(e0 == b.len());
    let raw = d.subrange(at, at + n);
    let fb = field_bytes(s, n);
    lemma_field_len(s, n);
    assert(raw =~= fb) by {
        assert forall|j: int| 0 <= j < n implies raw[j] == fb[j] by {
            assert(d[at + j] == fb[j]);
        }
    }
    assert(fit_end(b, e0) == e0);
    assert(fb =~= b + zeros(n - b.len()));
    assert forall|q: int| 0 <= q < b.len() implies raw[q] != 0 by {
        assert(raw[q] == b[q]);
        if b[q] == 0 {
            assert(b.contains(0u8));
        }
    }
    lemma_nul_end(raw, b.len() as int, 0);
    assert(raw.take(b.len() as int) =~= b);
}

proof fn lemma_head(b: ShopBook, off: int, len: int)
    requires
        0 <= off <= u32::MAX,
        0 <= len,
    ensures
        ({
            let rec = record(b, off, len);
            &&& forall|j: int| 0 <= j < 16 ==> #[trigger] rec[j] == field_bytes(b.id@, 16)[j]
            &&& forall|j: int| 0 <= j < 56 ==> #[trigger] rec[16 + j] == field_bytes(b.title@, 56)[j]
            &&& forall|j: int| 0 <= j < 32 ==> #[trigger] rec[72 + j] == field_bytes(b.author@, 32)[j]
            &&& forall|j: int| 0 <= j < 2 ==> #[trigger] rec[138 + j] == field_bytes(b.lang@, 2)[j]
            &&& le16(rec, 136) == b.year
            &&& le32(rec, 154) == off
            &&& le16(rec, 158) == min16(len)
        }),
{
    reveal(record_head);
    reveal(record_tail);
    lemma_field_len(b.id@, 16);
    lemma_field_len(b.title@, 56);
    lemma_field_len(b.author@, 32);
    lemma_field_len(subjects_line(b), 32);
    lemma_field_len(b.lang@, 2);
    let rec = record(b, off, len);
    let head = record_head(b);
    let tail = record_tail(b, off, len);
    assert(head.len() == 140);
    assert(forall|j: int| 0 <= j < 140 ==> #[trigger] rec[j] == head[j]);
    assert(forall|j: int| 0 <= j < 20 ==> #[trigger] rec[140 + j] == tail[j]);
    lemma_le16s(b.year as int);
    assert(le16(rec, 136) == le16(le16s(b.year as int), 0)) by {
        assert(rec[136] == head[136] && rec[137] == head[137]);
    }
    lemma_le32s(off);
    assert(off as u32 as int == off);
    assert(le32(rec, 154) == le32(le32s(off), 0)) by {
        assert(rec[154] == tail[14] && rec[155] == tail[15] && rec[156] == tail[16] && rec[157] == tail[17]);
    }
    assert(0 <= min16(len) < 65536);
    lemma_le16s(min16(len));
    assert(le16(rec, 158) == le16(le16s(min16(len)), 0)) by {
        assert(rec[158] == tail[18] && rec[159] == tail[19]);
    }
}

proof fn lemma_extra_at(sb: Seq<ShopBook>, i: int, n: int)
    requires
        0 <= i < n,
    ensures
        extras(sb, i).len() + extra(sb[i]).len() <= extras(sb, n).len(),
        extras(sb, n).subrange(extras(sb, i).len() as int, extras(sb, i).len() + extra(sb[i]).len() as int) == extra(sb[i]),
    decreases n,
{
    let x = extras(sb, n - 1);
    let a = extras(sb, i).len() as int;
    let l = extra(sb[i]).len() as int;
    if i < n - 1 {
        lemma_extra_at(sb, i, n - 1);
        assert((x + extra(sb[n - 1])).subrange(a, a + l) =~= x.subrange(a, a + l));
    } else {
        assert((x + extra(sb[n - 1])).subrange(a, a + l) =~= extra(sb[i]));
    }
}

/// The strings section of the file starts at `strings_off` and holds every blob.
proof fn lemma_strings_at(books: Seq<ShopBook>, fetched: u32)
    requires
        encoded_len(books) <= u32::MAX,
    ensures
        ({
            let sb = ranked(books);
            let so = strings_off(sb);
            let ex = extras(sb, sb.len() as int);
            &&& so + ex.len() <= encoded(books, fetched).len()
            &&& encoded(books, fetched).subrange(so, so + ex.len()) == ex
        }),
{
    lemma_layout(books, fetched);
    let sb = ranked(books);
    let n = sb.len() as int;
    let g = groups_upto(sb, 4);
    let so = strings_off(sb);
    let d = encoded(books, fetched);
    lemma_before_nonneg(g, g.len() as int);
    let h = header(sb, fetched, shelf_off(sb), dir_off(sb), so);
    let r = records(sb, so, n);
    let st = shelf_table(sb, 72);
    let dr = dir(g, so + extras(sb, n).len(), members_off(sb), g.len() as int);
    let ml = member_lists(g, g.len() as int);
    let ex = extras(sb, n);
    let nb = name_bytes(g, g.len() as int);
    let front = h + r + st + dr + ml;
    reveal(encoded);
    assert(d =~= front + ex + nb);
    lemma_records_len(sb, so, n);
    lemma_shelf_table_len(sb, 72);
    lemma_dir_len(g, so + extras(sb, n).len(), members_off(sb), g.len() as int);
    lemma_member_lists_len(g, g.len() as int);
    assert(front.len() == so);
    assert(d.subrange(so, so + ex.len()) =~= ex);
}

proof fn lemma_sub_sub(s: Seq<u8>, a: int, b: int, c: int, e: int)
    requires
        0 <= a <= b <= s.len(),
        0 <= c <= e <= b - a,
    ensures
        s.subrange(a, b).subrange(c, e) == s.subrange(a + c, a + e),
{
    assert(s.subrange(a, b).subrange(c, e) =~= s.subrange(a + c, a + e));
}

proof fn lemma_blob_at(d: Seq<u8>, at: int, rec: Seq<u8>, xb: Seq<u8>)
    requires
        0 <= at,
        at + REC <= d.len(),
        rec.len() == REC,
        forall|j: int| 0 <= j < REC ==> #[trigger] d[at + j] == rec[j],
        0 <= le32(rec, 154),
        le32(rec, 154) + xb.len() <= d.len(),
        le16(rec, 158) == xb.len(),
        d.subrange(le32(rec, 154), le32(rec, 154) + xb.len()) == xb,
    ensures
        blob_of(d, at) == Some(xb),
{
    assert(d[at + 154] == rec[154] && d[at + 155] == rec[155] && d[at + 156] == rec[156] && d[at + 157] == rec[157]);
    assert(d[at + 158] == rec[158] && d[at + 159] == rec[159]);
}

/// Where a book's strings blob lies in the file: record `i` points at it, and the
/// bytes there are the blob.
#[verifier::spinoff_prover]
proof fn lemma_blob_read(books: Seq<ShopBook>, fetched: u32, i: int)
    requires
        encoded_len(books) <= u32::MAX,
        0 <= i < books.len(),
        extra(ranked(books)[i]).len() <= 65535,
    ensures
        blob_of(encoded(books, fetched), rec_at(i)) == Some(extra(ranked(books)[i])),
{
    lemma_header_read(books, fetched);
    lemma_layout(books, fetched);
    lemma_record_bytes(books, fetched, i);
    lemma_strings_at(books, fetched);
    let sb = ranked(books);
    let n = sb.len() as int;
    let so = strings_off(sb);
    let d = encoded(books, fetched);
    let ex = extras(sb, n);
    let x = extras(sb, i).len() as int;
    let xb = extra(sb[i]);
    lemma_extra_at(sb, i, n);
    let g = groups_upto(sb, 4);
    lemma_before_nonneg(g, g.len() as int);
    assert(so + x <= u32::MAX);
    lemma_head(sb[i], so + x, xb.len() as int);
    lemma_record_len(sb[i], so + x, xb.len() as int);
    lemma_sub_sub(d, so, so + ex.len(), x, x + xb.len());
    assert(rec_at(i) + REC <= d.len()) by (nonlinear_arith)
        requires
            HEADER + REC * n <= d.len(),
            i < n,
    ;
    lemma_blob_at(d, rec_at(i), record(sb[i], so + x, xb.len() as int), xb);
}

proof fn lemma_lp_step(e: Seq<u8>, pre: Seq<u8>, t: Seq<u8>, post: Seq<u8>, k: nat)
    requires
        e == pre + lp16(t) + post,
        lp_pos(e, k) == pre.len(),
        t.len() <= 65535,
    ensures
        lp_pos(e, k + 1) == pre.len() + 2 + t.len(),
        lp_next(e, lp_pos(e, k)).0 == t,
{
    let p = pre.len() as int;
    let l = t.len() as int;
    assert(t.take(l) =~= t);
    assert(lp16(t).len() == 2 + l);
    lemma_le16s(l);
    assert(e[p] == le16s(l)[0] && e[p + 1] == le16s(l)[1]);
    assert(le16(e, p) == l);
    assert(e.subrange(p + 2, p + 2 + l) =~= t) by {
        assert forall|j: int| 0 <= j < l implies e.subrange(p + 2, p + 2 + l)[j] == t[j] by {
            assert(e[p + 2 + j] == lp16(t)[2 + j]);
        }
    }
    assert(lp_pos(e, k + 1) == lp_next(e, lp_pos(e, k)).1);
}

proof fn lemma_lp16_len(t: Seq<u8>)
    ensures
        lp16(t).len() == 2 + min16(t.len() as int),
        t.len() <= 65535 ==> lp16(t) == le16s(t.len() as int) + t,
{
    assert(t.len() <= 65535 ==> t.take(t.len() as int) =~= t);
}

proof fn lemma_lp_four(e: Seq<u8>, pre: Seq<u8>, t0: Seq<u8>, t1: Seq<u8>, t2: Seq<u8>, t3: Seq<u8>, post: Seq<u8>, k: nat)
    requires
        e == pre + (lp16(t0) + lp16(t1) + lp16(t2) + lp16(t3)) + post,
        lp_pos(e, k) == pre.len(),
        t0.len() <= 65535,
        t1.len() <= 65535,
        t2.len() <= 65535,
        t3.len() <= 65535,
    ensures
        lp_next(e, lp_pos(e, k)).0 == t0,
        lp_next(e, lp_pos(e, k + 1)).0 == t1,
        lp_next(e, lp_pos(e, k + 2)).0 == t2,
        lp_next(e, lp_pos(e, k + 3)).0 == t3,
        lp_pos(e, k + 4) == pre.len() + (lp16(t0) + lp16(t1) + lp16(t2) + lp16(t3)).len(),
{
    let a0 = lp16(t0);
    let a1 = lp16(t1);
    let a2 = lp16(t2);
    let a3 = lp16(t3);
    lemma_lp16_len(t0);
    lemma_lp16_len(t1);
    lemma_lp16_len(t2);
    lemma_lp16_len(t3);
    assert(e =~= pre + a0 + (a1 + a2 + a3 + post));
    lemma_lp_step(e, pre, t0, a1 + a2 + a3 + post, k);
    assert(e =~= (pre + a0) + a1 + (a2 + a3 + post));
    lemma_lp_step(e, pre + a0, t1, a2 + a3 + post, k + 1);
    assert(e =~= (pre + a0 + a1) + a2 + (a3 + post));
    lemma_lp_step(e, pre + a0 + a1, t2, a3 + post, k + 2);
    assert(e =~= (pre + a0 + a1 + a2) + a3 + post);
    lemma_lp_step(e, pre + a0 + a1 + a2, t3, post, k + 3);
}

/// The strings blob of a book that fits its `u16` length reads back as the book's
/// title, author, url, subjects line, source, licence, collection and blurb.
proof fn lemma_blob_texts(b: ShopBook)
    requires
        extra(b).len() <= 65535,
    ensures
        lp_text(extra(b), 0) == b.title@,
        lp_text(extra(b), 1) == b.author@,
        lp_text(extra(b), 2) == b.url@,
        lp_text(extra(b), 3) == subjects_line(b),
        lp_text(extra(b), 4) == b.source@,
        lp_text(extra(b), 5) == b.licence@,
        lp_text(extra(b), 6) == text_or_empty(b.collection),
        lp_text(extra(b), 7) == b.blurb@,
{
    broadcast use encode_utf8_valid_utf8, encode_utf8_decode_utf8;

    reveal(extra_head);
    reveal(extra_tail);
    let t0 = encode_utf8(b.title@);
    let t1 = encode_utf8(b.author@);
    let t2 = encode_utf8(b.url@);
    let t3 = encode_utf8(subjects_line(b));
    let t4 = encode_utf8(b.source@);
    let t5 = encode_utf8(b.licence@);
    let t6 = encode_utf8(text_or_empty(b.collection));
    let t7 = encode_utf8(b.blurb@);
    lemma_lp16_len(t0);
    lemma_lp16_len(t1);
    lemma_lp16_len(t2);
    lemma_lp16_len(t3);
    lemma_lp16_len(t4);
    lemma_lp16_len(t5);
    lemma_lp16_len(t6);
    lemma_lp16_len(t7);
    let h = extra_head(b);
    let tl = extra_tail(b);
    let e = extra(b);
    let empty = Seq::<u8>::empty();
    assert(t0.len() <= 65535 && t1.len() <= 65535 && t2.len() <= 65535 && t3.len() <= 65535);
    assert(t4.len() <= 65535 && t5.len() <= 65535 && t6.len() <= 65535 && t7.len() <= 65535);
    assert(e =~= empty + h + tl);
    lemma_lp_four(e, empty, t0, t1, t2, t3, tl, 0);
    assert(e =~= h + tl + empty);
    lemma_lp_four(e, h, t4, t5, t6, t7, empty, 4);
}

/// A book the file keeps whole: its id and language fit their fields with no NUL
/// byte, its strings blob fits a `u16` length, and its collection, when it has one,
/// is named.
pub open spec fn kept_whole(b: ShopBook) -> bool {
    &&& encode_utf8(b.id@).len() <= 16
    &&& !encode_utf8(b.id@).contains(0u8)
    &&& encode_utf8(b.lang@).len() <= 2
    &&& !encode_utf8(b.lang@).contains(0u8)
    &&& extra(b).len() <= 65535
    &&& (b.collection matches Some(c) ==> c@.len() > 0)
}

/// `r` holds everything of `b` that the catalog file carries, its subjects as the
/// reader splits `b`'s subjects line.
pub open spec fn same_as_written(r: ShopBook, b: ShopBook) -> bool {
    &&& r.id@ == b.id@
    &&& r.title@ == b.title@
    &&& r.author@ == b.author@
    &&& r.url@ == b.url@
    &&& r.subjects@.map_values(|s: String| s@) == subject_list(subjects_line(b))
    &&& r.source@ == b.source@
    &&& r.licence@ == b.licence@
    &&& (r.collection is Some <==> b.collection is Some)
    &&& text_or_empty(r.collection) == text_or_empty(b.collection)
    &&& r.blurb@ == b.blurb@
    &&& r.year == b.year
    &&& r.lang@ == b.lang@
    &&& r.size == b.size
    &&& r.rank == b.rank
    &&& r.hours10 == b.hours10
    &&& r.modern == b.modern
    &&& r.added == b.added
}

proof fn lemma_record_fields(books: Seq<ShopBook>, fetched: u32, i: int)
    requires
        encoded_len(books) <= u32::MAX,
        0 <= i < books.len(),
        kept_whole(ranked(books)[i]),
    ensures
        ({
            let d = encoded(books, fetched);
            let b = ranked(books)[i];
            let at = rec_at(i);
            &&& field_text(d, at, 16) == b.id@
            &&& b.title@.len() == 0 ==> field_text(d, at + 16, 56) == b.title@
            &&& b.author@.len() == 0 ==> field_text(d, at + 72, 32) == b.author@
            &&& le16(d, at + 136) == b.year
            &&& field_text(d, at + 138, 2) == b.lang@
        }),
{
    lemma_layout(books, fetched);
    lemma_header_read(books, fetched);
    lemma_record_bytes(books, fetched, i);
    let sb = ranked(books);
    let n = sb.len() as int;
    let so = strings_off(sb);
    let b = sb[i];
    let off = so + extras(sb, i).len();
    let len = extra(b).len() as int;
    let g = groups_upto(sb, 4);
    lemma_before_nonneg(g, g.len() as int);
    lemma_extras_mono(sb, i, n);
    lemma_head(b, off, len);
    let rec = record(b, off, len);
    let d = encoded(books, fetched);
    let at = rec_at(i);
    assert(rec_at(i) + REC <= d.len()) by (nonlinear_arith)
        requires
            HEADER + REC * n <= d.len(),
            i < n,
    ;
    assert forall|j: int| 0 <= j < 16 implies #[trigger] d[at + j] == field_bytes(b.id@, 16)[j] by {
        assert(d[rec_at(i) + j] == rec[j]);
    }
    lemma_field_text(d, at, 16, b.id@);
    if b.title@.len() == 0 {
        assert forall|j: int| 0 <= j < 56 implies #[trigger] d[at + 16 + j] == field_bytes(b.title@, 56)[j] by {
            assert(d[rec_at(i) + (16 + j)] == rec[16 + j]);
        }
        assert(encode_utf8(b.title@).len() == 0);
        lemma_field_text(d, at + 16, 56, b.title@);
    }
    if b.author@.len() == 0 {
        assert forall|j: int| 0 <= j < 32 implies #[trigger] d[at + 72 + j] == field_bytes(b.author@, 32)[j] by {
            assert(d[rec_at(i) + (72 + j)] == rec[72 + j]);
        }
        assert(encode_utf8(b.author@).len() == 0);
        lemma_field_text(d, at + 72, 32, b.author@);
    }
    assert forall|j: int| 0 <= j < 2 implies #[trigger] d[at + 138 + j] == field_bytes(b.lang@, 2)[j] by {
        assert(d[rec_at(i) + (138 + j)] == rec[138 + j]);
    }
    lemma_field_text(d, at + 138, 2, b.lang@);
    assert(d[at + 136] == rec[136] && d[at + 137] == rec[137]);
}

/// Encoding then reading gives back each whole book: for a catalog whose layout fits
/// in `u32` offsets, record `i` points at the `i`-th ranked book's strings blob, and
/// whatever `book(i)` reads from the record and that blob holds that book: id, title
/// and author (also past the record's fixed fields), url, subjects, source, licence,
/// collection, blurb, year, language, size, rank, reading hours, era and date added.
pub proof fn lemma_catalog_book_round_trip(books: Seq<ShopBook>, fetched: u32, i: int)
    requires
        encoded_len(books) <= u32::MAX,
        0 <= i < books.len(),
        kept_whole(ranked(books)[i]),
    ensures
        blob_of(encoded(books, fetched), rec_at(i)) == Some(extra(ranked(books)[i])),
        forall|r: ShopBook|
            #[trigger] book_read(r, encoded(books, fetched), i as u32, extra(ranked(books)[i])) ==> same_as_written(
                r,
                ranked(books)[i],
            ),
{
    lemma_layout(books, fetched);
    lemma_catalog_round_trip(books, fetched, i);
    lemma_blob_read(books, fetched, i);
    lemma_record_fields(books, fetched, i);
    let b = ranked(books)[i];
    lemma_blob_texts(b);
    let d = encoded(books, fetched);
    let e = extra(b);
    assert(i as u32 as int == i);
    assert(flags(b) % 2 == 1 <==> b.modern);
    assert forall|r: ShopBook| #[trigger] book_read(r, d, i as u32, e) implies same_as_written(r, b) by {
        if b.title@.len() != 0 {
            assert(lp_text(e, 0).len() != 0);
        }
        if b.author@.len() != 0 {
            assert(lp_text(e, 1).len() != 0);
        }
        match b.collection {
            Some(c) => {
                assert(lp_text(e, 6).len() > 0);
            },
            None => {},
        }
    }
}

proof fn lemma_split_append(s: Seq<char>, t: Seq<char>, sep: char)
    requires
        !t.contains(sep),
    ensures
        split_state(s + t, sep) == (split_state(s, sep).0, split_state(s, sep).1 + t),
    decreases t.len(),
{
    if t.len() == 0 {
        assert(s + t =~= s);
        assert(split_state(s, sep).1 + t =~= split_state(s, sep).1);
    } else {
        let u = t.drop_last();
        assert(!u.contains(sep)) by {
            if u.contains(sep) {
                let k = choose|k: int| 0 <= k < u.len() && u[k] == sep;
                assert(t[k] == sep);
            }
        }
        lemma_split_append(s, u, sep);
        assert((s + t).drop_last() =~= s + u);
        assert((s + t).last() == t.last());
        assert(t.last() != sep) by {
            if t.last() == sep {
                assert(t[t.len() - 1] == sep);
            }
        }
        assert(split_state(s, sep).1 + u + seq![t.last()] =~= split_state(s, sep).1 + t);
        assert((split_state(s, sep).1 + u).push(t.last()) =~= split_state(s, sep).1 + t);
    }
}

proof fn lemma_trimmed(s: Seq<char>)
    requires
        s.len() > 0,
        !is_ws(s[0]),
        !is_ws(s.last()),
    ensures
        trim_by(s, strips(Strip::White)) == s,
{
    let p = strips(Strip::White);
    assert(first_kept(s, p, 0) == 0);
    assert(end_kept(s, p, s.len() as int) == s.len());
    assert(s.subrange(0, s.len() as int) =~= s);
}

proof fn lemma_trim_spaced(s: Seq<char>)
    requires
        is_ws(' '),
        s.len() > 0,
        !is_ws(s[0]),
        !is_ws(s.last()),
    ensures
        trim_by(seq![' '] + s, strips(Strip::White)) == s,
{
    let p = strips(Strip::White);
    let t = seq![' '] + s;
    assert(t[0] == ' ');
    assert(t[1] == s[0]);
    assert(first_kept(t, p, 1) == 1);
    assert(first_kept(t, p, 0) == 1);
    assert(t[t.len() - 1] == s.last());
    assert(end_kept(t, p, t.len() as int) == t.len());
    assert(t.subrange(1, t.len() as int) =~= s);
}

/// Subjects that are non-empty, hold no comma and start and end with a character that
/// is not white space.
pub open spec fn plain_subjects(ss: Seq<Seq<char>>) -> bool {
    forall|k: int|
        0 <= k < ss.len() ==> (#[trigger] ss[k]).len() > 0 && !ss[k].contains(',') && !is_ws(ss[k][0]) && !is_ws(ss[k].last())
}

proof fn lemma_split_join(ss: Seq<Seq<char>>)
    requires
        ss.len() > 0,
        plain_subjects(ss),
    ensures
        split_on(join(ss, comma_space()), ',').len() == ss.len(),
        split_on(join(ss, comma_space()), ',')[0] == ss[0],
        forall|k: int| 1 <= k < ss.len() ==> #[trigger] split_on(join(ss, comma_space()), ',')[k] == seq![' '] + ss[k],
    decreases ss.len(),
{
    let e = Seq::<char>::empty();
    if ss.len() == 1 {
        assert(ss[0].len() > 0);
        lemma_split_append(e, ss[0], ',');
        assert(e + ss[0] =~= ss[0]);
        assert(split_state(e, ',') == (Seq::<Seq<char>>::empty(), e));
        assert(e + ss[0] =~= ss[0]);
    } else {
        let front = ss.drop_last();
        assert forall|k: int| 0 <= k < front.len() implies (#[trigger] front[k]).len() > 0 && !front[k].contains(',')
            && !is_ws(front[k][0]) && !is_ws(front[k].last()) by {
            assert(front[k] == ss[k]);
        }
        lemma_split_join(front);
        let jf = join(front, comma_space());
        let last = ss.last();
        assert(ss[ss.len() - 1] == last);
        let tail = seq![' '] + last;
        assert(!tail.contains(',')) by {
            if tail.contains(',') {
                let k = choose|k: int| 0 <= k < tail.len() && tail[k] == ',';
                if k > 0 {
                    assert(last[k - 1] == ',');
                }
            }
        }
        assert(join(ss, comma_space()) == jf + comma_space() + last);
        let withc = jf + seq![','];
        assert(jf + comma_space() + last =~= withc + tail);
        lemma_split_append(withc, tail, ',');
        assert(withc.drop_last() =~= jf);
        assert(split_state(withc, ',') == (split_on(jf, ','), e));
        assert(e + tail =~= tail);
        assert(split_on(join(ss, comma_space()), ',') =~= split_on(jf, ',').push(tail));
        assert forall|k: int| 1 <= k < ss.len() implies #[trigger] split_on(join(ss, comma_space()), ',')[k] == seq![' '] + ss[k] by {
            if k < ss.len() - 1 {
                assert(split_on(jf, ',')[k] == seq![' '] + front[k]);
            }
        }
    }
}

/// The reader splits a subjects line back into the subjects written when each is
/// non-empty, holds no comma and starts and ends with a character that is not white
/// space (space being white space, as std documents).
pub proof fn lemma_subjects_round_trip(ss: Seq<Seq<char>>)
    requires
        is_ws(' '),
        plain_subjects(ss),
    ensures
        crate::bookshop::catalog_file::subject_list(join(ss, comma_space())) == ss,
    decreases ss.len(),
{
    let f = |p: Seq<char>| trim_by(p, strips(Strip::White));
    let keep = |p: Seq<char>| p.len() > 0;
    let parts = split_on(join(ss, comma_space()), ',');
    if ss.len() == 0 {
        let e = Seq::<char>::empty();
        assert(join(ss, comma_space()) == e);
        assert(parts =~= seq![e]);
        let m = parts.map_values(f);
        assert(f(e) =~= e) by {
            assert(first_kept(e, strips(Strip::White), 0) == 0);
        }
        assert(m =~= Seq::<Seq<char>>::empty().push(e));
        Seq::<Seq<char>>::empty().lemma_filter_push(e, keep);
        assert(Seq::<Seq<char>>::empty().filter(keep) =~= Seq::<Seq<char>>::empty()) by {
            reveal(Seq::filter);
        }
        assert(m.filter(keep) =~= ss);
    } else {
        lemma_split_join(ss);
        let m = parts.map_values(f);
        assert(m =~= ss) by {
            assert forall|k: int| 0 <= k < ss.len() implies m[k] == ss[k] by {
                if k == 0 {
                    lemma_trimmed(ss[0]);
                } else {
                    lemma_trim_spaced(ss[k]);
                }
            }
        }
        lemma_filter_all(ss, keep);
    }
}

proof fn lemma_filter_all(ss: Seq<Seq<char>>, keep: spec_fn(Seq<char>) -> bool)
    requires
        forall|k: int| 0 <= k < ss.len() ==> keep(#[trigger] ss[k]),
    ensures
        ss.filter(keep) == ss,
    decreases ss.len(),
{
    if ss.len() == 0 {
        assert(ss.filter(keep) =~= ss) by {
            reveal(Seq::filter);
        }
    } else {
        let front = ss.drop_last();
        assert forall|k: int| 0 <= k < front.len() implies keep(#[trigger] front[k]) by {
            assert(front[k] == ss[k]);
        }
        lemma_filter_all(front, keep);
        front.lemma_filter_push(ss.last(), keep);
        assert(keep(ss[ss.len() - 1]));
        assert(front.push(ss.last()) =~= ss);
    }
}

/// With plain subjects (see [`plain_subjects`]) the book read back has the very
/// subjects written, so it agrees with the ranked book in every field the file carries.
pub proof fn lemma_catalog_book_subjects(books: Seq<ShopBook>, fetched: u32, i: int)
    requires
        encoded_len(books) <= u32::MAX,
        0 <= i < books.len(),
        kept_whole(ranked(books)[i]),
        is_ws(' '),
        plain_subjects(ranked(books)[i].subjects@.map_values(|s: String| s@)),
    ensures
        forall|r: ShopBook|
            #[trigger] book_read(r, encoded(books, fetched), i as u32, extra(ranked(books)[i])) ==> same_as_written(
                r,
                ranked(books)[i],
            ) && r.subjects@.map_values(|s: String| s@) == ranked(books)[i].subjects@.map_values(|s: String| s@),
{
    lemma_catalog_book_round_trip(books, fetched, i);
    lemma_subjects_round_trip(ranked(books)[i].subjects@.map_values(|s: String| s@));
}

proof fn lemma_first_after_split(s: Seq<usize>, x: usize, after: spec_fn(usize, usize) -> bool, p: int)
    requires
        0 <= p <= s.len(),
    ensures
        forall|q: int| p <= q < first_after(s, x, after, p) ==> !after(#[trigger] s[q], x),
        first_after(s, x, after, p) < s.len() ==> after(s[first_after(s, x, after, p)], x),
    decreases s.len() - p,
{
    if p < s.len() && !after(s[p], x) {
        lemma_first_after_split(s, x, after, p + 1);
    }
}

proof fn lemma_rank_sorted(books: Seq<ShopBook>, items: Seq<usize>)
    requires
        forall|j: int| 0 <= j < items.len() ==> items[j] < books.len(),
    ensures
        ({
            let s = stable_sort(items, rank_after(books));
            &&& s.len() == items.len()
            &&& s.map_values(|i: usize| books[i as int]).to_multiset() == items.map_values(|i: usize| books[i as int]).to_multiset()
            &&& forall|a: int, b: int| 0 <= a <= b < s.len() ==> books[s[a] as int].rank <= books[s[b] as int].rank
        }),
    decreases items.len(),
{
    broadcast use vstd::seq_lib::to_multiset_insert, vstd::seq_lib::to_multiset_build;

    let after = rank_after(books);
    if items.len() > 0 {
        let s0 = stable_sort(items.drop_last(), after);
        let x = items.last();
        lemma_rank_sorted(books, items.drop_last());
        lemma_first_after_bounds(s0, x, after, 0);
        lemma_first_after_split(s0, x, after, 0);
        let p = first_after(s0, x, after, 0);
        let s = s0.insert(p, x);
        let f = |i: usize| books[i as int];
        assert(items.map_values(f) =~= items.drop_last().map_values(f).push(f(x)));
        assert(s.map_values(f) =~= s0.map_values(f).insert(p, f(x)));
        assert forall|a: int, b: int| 0 <= a <= b < s.len() implies books[s[a] as int].rank <= books[s[b] as int].rank by {
            if a < p {
                assert(s[a] == s0[a]);
                assert(!after(s0[a], x));
                if b < p {
                    assert(s[b] == s0[b]);
                } else if b == p {
                    assert(s[b] == x);
                } else {
                    assert(s[b] == s0[b - 1]);
                    assert(after(s0[p], x));
                    assert(books[s0[p] as int].rank <= books[s0[b - 1] as int].rank);
                }
            } else if a == p {
                assert(s[a] == x);
                if b > p {
                    assert(s[b] == s0[b - 1]);
                    assert(after(s0[p], x));
                    assert(books[s0[p] as int].rank <= books[s0[b - 1] as int].rank);
                }
            } else {
                assert(s[a] == s0[a - 1]);
                assert(s[b] == s0[b - 1]);
            }
        }
        assert(s.map_values(f).to_multiset() == s0.map_values(f).to_multiset().insert(f(x)));
        assert(items.map_values(f).to_multiset() == items.drop_last().map_values(f).to_multiset().insert(f(x)));
    } else {
        assert(stable_sort(items, after).map_values(|i: usize| books[i as int]) =~= items.map_values(|i: usize| books[i as int]));
    }
}

/// The file's records are in rank order, and hold every book of the catalog, each
/// once: the record order is a rearrangement of the books, ranks never decreasing.
pub proof fn lemma_records_in_rank_order(books: Seq<ShopBook>)
    requires
        books.len() <= usize::MAX,
    ensures
        ranked(books).len() == books.len(),
        ranked(books).to_multiset() == books.to_multiset(),
        forall|a: int, b: int| 0 <= a <= b < books.len() ==> ranked(books)[a].rank <= ranked(books)[b].rank,
{
    broadcast use vstd::seq_lib::group_to_multiset_ensures;

    let items = upto(books.len());
    assert forall|j: int| 0 <= j < items.len() implies items[j] < books.len() by {}
    lemma_rank_sorted(books, items);
    assert(items.map_values(|i: usize| books[i as int]) =~= books);
}

} // verus!
