//! The catalog file. Little-endian throughout.
//!
//! ```text
//! header (64 B): "QCAT", version u16, pad u16, count u32, fetched u32, shelf table
//!   offset u32, group directory offset u32, strings offset u32, shelf counts [u8; 6],
//!   pad [u8; 2], group counts [u16; 4], reserved.
//! records (160 B each, sorted by rank): id [16], title [56], author [32],
//!   subjects [32], year u16, lang [2], flags u8, source u8, hours10 u16, rank u32,
//!   size u32, added u16, extra offset u32, extra length u16.
//! shelf table: 6 shelves × 12 record indexes (u32).
//! group directory: for each of the 4 browse kinds, `group counts[k]` entries of
//!   name offset u32, name length u16, member count u16, members offset u32; then the
//!   member lists (u32 record indexes, in rank order).
//! strings: per book an "extra" blob of eight u16-length-prefixed strings (full title,
//!   full author, url, subjects, source, licence, collection, blurb); group names.
//! ```

use vstd::prelude::*;
use vstd::utf8::encode_utf8;
use crate::bookshop::{Catalog, ShopBook};
use crate::textutil::{str_lowercase, str_uppercase, to_lowercase, to_uppercase};
use crate::dict::builtin::{bytes_le, slice_le};
use crate::textutil::owned;

verus! {

/// Header bytes.
pub const HEADER: usize = 64;
/// Bytes per record.
pub const REC: usize = 160;
/// Shelves on the home screen.
pub const SHELVES: usize = 6;
/// Record indexes per shelf.
pub const SHELF_LEN: usize = 12;
/// Books a search returns at most.
pub const SEARCH_LIMIT: usize = 200;
/// Members a browse group lists at most.
pub const MEMBERS_LIMIT: usize = 1000;

// ---------------------------------------------------------------------------------------
// Order

/// The first position of `s` at or after `p` whose element must come after `x`.
pub open spec fn first_after(s: Seq<usize>, x: usize, after: spec_fn(usize, usize) -> bool, p: int) -> int
    decreases s.len() - p,
{
    if p >= s.len() || p < 0 {
        s.len() as int
    } else if after(s[p], x) {
        p
    } else {
        first_after(s, x, after, p + 1)
    }
}

/// Stable insertion sort: each element, in turn, goes in front of the first element
/// already placed that must come after it.
pub open spec fn stable_sort(items: Seq<usize>, after: spec_fn(usize, usize) -> bool) -> Seq<usize>
    decreases items.len(),
{
    if items.len() == 0 {
        Seq::empty()
    } else {
        let s = stable_sort(items.drop_last(), after);
        s.insert(first_after(s, items.last(), after, 0), items.last())
    }
}

/// `0, 1, …, n - 1`.
pub open spec fn upto(n: nat) -> Seq<usize> {
    Seq::new(n, |i: int| i as usize)
}

/// Book `a` ranks strictly behind book `b`.
pub open spec fn rank_after(books: Seq<ShopBook>) -> spec_fn(usize, usize) -> bool {
    |a: usize, b: usize| books[a as int].rank > books[b as int].rank
}

/// The books' indexes in rank order, ties in catalog order.
pub open spec fn rank_order(books: Seq<ShopBook>) -> Seq<usize> {
    stable_sort(upto(books.len()), rank_after(books))
}

/// The books in rank order: the record order of the file.
pub open spec fn ranked(books: Seq<ShopBook>) -> Seq<ShopBook> {
    rank_order(books).map_values(|i: usize| books[i as int])
}

pub(crate) proof fn lemma_first_after_bounds(s: Seq<usize>, x: usize, after: spec_fn(usize, usize) -> bool, p: int)
    requires
        0 <= p <= s.len(),
    ensures
        p <= first_after(s, x, after, p) <= s.len(),
    decreases s.len() - p,
{
    if p < s.len() && !after(s[p], x) {
        lemma_first_after_bounds(s, x, after, p + 1);
    }
}

pub(crate) proof fn lemma_stable_sort_len(items: Seq<usize>, after: spec_fn(usize, usize) -> bool)
    ensures
        stable_sort(items, after).len() == items.len(),
    decreases items.len(),
{
    if items.len() > 0 {
        let s = stable_sort(items.drop_last(), after);
        lemma_stable_sort_len(items.drop_last(), after);
        lemma_first_after_bounds(s, items.last(), after, 0);
    }
}

fn rank_order_of(books: &Vec<ShopBook>) -> (order: Vec<usize>)
    ensures
        order@ == rank_order(books@),
        order.len() == books.len(),
        forall|j: int| 0 <= j < order.len() ==> order@[j] < books.len(),
{
    let ghost after = rank_after(books@);
    let mut order: Vec<usize> = Vec::new();
    let mut i: usize = 0;
    while i < books.len()
        invariant
            i <= books.len(),
            after == rank_after(books@),
            order@ == stable_sort(upto(i as nat), after),
            forall|j: int| 0 <= j < order.len() ==> order@[j] < i,
            order.len() == i,
        decreases books.len() - i,
    {
        let r = books[i].rank;
        let mut p: usize = 0;
        while p < order.len() && books[order[p]].rank <= r
            invariant
                p <= order.len() == i,
                i < books.len(),
                r == books@[i as int].rank,
                forall|j: int| 0 <= j < order.len() ==> order@[j] < i,
                first_after(order@, i, after, p as int) == first_after(order@, i, after, 0),
                after == rank_after(books@),
            decreases order.len() - p,
        {
            p += 1;
        }
        proof {
            assert(upto((i + 1) as nat).drop_last() =~= upto(i as nat));
            assert(upto((i + 1) as nat).last() == i);
            lemma_stable_sort_len(upto(i as nat), after);
        }
        let ghost before = order@;
        order.insert(p, i);
        assert forall|j: int| 0 <= j < order.len() implies order@[j] < i + 1 by {
            if j < p {
                assert(order@[j] == before[j]);
            } else if j > p {
                assert(order@[j] == before[j - 1]);
            }
        }
        i += 1;
    }
    order
}

// ---------------------------------------------------------------------------------------
// Shelves

/// `"en"`.
pub open spec fn en() -> Seq<char> {
    seq!['e', 'n']
}

/// `"Start here"`.
pub open spec fn start_here() -> Seq<char> {
    seq!['S', 't', 'a', 'r', 't', ' ', 'h', 'e', 'r', 'e']
}

/// The collection is "Start here".
pub open spec fn is_start_here(c: Option<String>) -> bool {
    match c {
        Some(name) => name@ == start_here(),
        None => false,
    }
}

/// Shelves list English books (or books without a language).
pub open spec fn lang_ok(b: ShopBook) -> bool {
    b.lang@.len() == 0 || b.lang@ == en()
}

/// Whether a book goes on shelf `k` (before the shelf is ordered and cut to length):
/// 0 the "Start here" collection, 1 and 5 everything, 2 everything (newest first),
/// 3 modern books, 4 books in a collection.
pub open spec fn on_shelf(b: ShopBook, k: int) -> bool {
    lang_ok(b) && if k == 0 {
        is_start_here(b.collection)
    } else if k == 3 {
        b.modern
    } else if k == 4 {
        b.collection is Some
    } else {
        true
    }
}

/// Positions `0..n` of the ranked books that go on shelf `k`, in order.
pub open spec fn shelf_members(sb: Seq<ShopBook>, k: int, n: int) -> Seq<u32>
    decreases n,
{
    if n <= 0 {
        Seq::empty()
    } else if on_shelf(sb[n - 1], k) {
        shelf_members(sb, k, n - 1).push((n - 1) as u32)
    } else {
        shelf_members(sb, k, n - 1)
    }
}

/// Entry `a` was added strictly before entry `b` (so it goes after it, newest first).
pub open spec fn older(sb: Seq<ShopBook>, s: Seq<u32>) -> spec_fn(usize, usize) -> bool {
    |a: usize, b: usize| sb[s[a as int] as int].added < sb[s[b as int] as int].added
}

/// Shelf `k` of the ranked books, cut to its length.
pub open spec fn shelf(sb: Seq<ShopBook>, k: int) -> Seq<u32> {
    let all = shelf_members(sb, k, sb.len() as int);
    let ordered = if k == 2 {
        stable_sort(upto(all.len()), older(sb, all)).map_values(|j: usize| all[j as int])
    } else {
        all
    };
    if ordered.len() > SHELF_LEN {
        ordered.take(SHELF_LEN as int)
    } else {
        ordered
    }
}


fn lit_eq(s: &String, lit: &str) -> (b: bool)
    ensures
        b == (s@ == lit@),
{
    *s == owned(lit)
}

fn on_shelf_exec(b: &ShopBook, k: usize) -> (r: bool)
    ensures
        r == on_shelf(*b, k as int),
{
    let en_lit = "en";
    let start_lit = "Start here";
    proof {
        reveal_strlit("en");
        reveal_strlit("Start here");
        assert(en_lit@ =~= en());
        assert(start_lit@ =~= start_here());
    }
    let lang_ok = b.lang.as_str().is_empty() || lit_eq(&b.lang, en_lit);
    if !lang_ok {
        return false;
    }
    if k == 0 {
        match &b.collection {
            Some(c) => lit_eq(c, start_lit),
            None => false,
        }
    } else if k == 3 {
        b.modern
    } else if k == 4 {
        b.collection.is_some()
    } else {
        true
    }
}

/// The ranked books as the exec code reaches them: position `i` is `books[order[i]]`.
pub open spec fn ranked_by(books: Seq<ShopBook>, order: Seq<usize>) -> bool {
    &&& order.len() == books.len()
    &&& forall|j: int| 0 <= j < order.len() ==> order[j] < books.len()
}

fn shelf_members_of(books: &Vec<ShopBook>, order: &Vec<usize>, k: usize) -> (r: Vec<u32>)
    requires
        ranked_by(books@, order@),
    ensures
        r@ == shelf_members(order@.map_values(|i: usize| books@[i as int]), k as int, order.len() as int),
{
    let ghost sb = order@.map_values(|i: usize| books@[i as int]);
    let mut r: Vec<u32> = Vec::new();
    let mut i: usize = 0;
    while i < order.len()
        invariant
            i <= order.len(),
            ranked_by(books@, order@),
            sb == order@.map_values(|i: usize| books@[i as int]),
            r@ == shelf_members(sb, k as int, i as int),
        decreases order.len() - i,
    {
        if on_shelf_exec(&books[order[i]], k) {
            r.push(i as u32);
        }
        i += 1;
    }
    r
}

fn newest_first(books: &Vec<ShopBook>, order: &Vec<usize>, all: &Vec<u32>) -> (r: Vec<u32>)
    requires
        ranked_by(books@, order@),
        forall|j: int| 0 <= j < all.len() ==> all@[j] < order.len(),
    ensures
        r@ == stable_sort(upto(all.len() as nat), older(order@.map_values(|i: usize| books@[i as int]), all@)).map_values(
            |j: usize| all@[j as int],
        ),
{
    let ghost sb = order@.map_values(|i: usize| books@[i as int]);
    let ghost after = older(sb, all@);
    let mut idx: Vec<usize> = Vec::new();
    let mut i: usize = 0;
    while i < all.len()
        invariant
            i <= all.len(),
            ranked_by(books@, order@),
            forall|j: int| 0 <= j < all.len() ==> all@[j] < order.len(),
            sb == order@.map_values(|i: usize| books@[i as int]),
            after == older(sb, all@),
            idx@ == stable_sort(upto(i as nat), after),
            idx.len() == i,
            forall|j: int| 0 <= j < idx.len() ==> idx@[j] < i,
        decreases all.len() - i,
    {
        let a = books[order[all[i] as usize]].added;
        let mut p: usize = 0;
        while p < idx.len() && !(books[order[all[idx[p]] as usize]].added < a)
            invariant
                p <= idx.len() == i,
                i < all.len(),
                ranked_by(books@, order@),
                forall|j: int| 0 <= j < all.len() ==> all@[j] < order.len(),
                sb == order@.map_values(|i: usize| books@[i as int]),
                a == sb[all@[i as int] as int].added,
                forall|j: int| 0 <= j < idx.len() ==> idx@[j] < i,
                first_after(idx@, i, after, p as int) == first_after(idx@, i, after, 0),
                after == older(sb, all@),
            decreases idx.len() - p,
        {
            p += 1;
        }
        proof {
            assert(upto((i + 1) as nat).drop_last() =~= upto(i as nat));
            assert(upto((i + 1) as nat).last() == i);
            lemma_stable_sort_len(upto(i as nat), after);
        }
        let ghost before = idx@;
        idx.insert(p, i);
        assert forall|j: int| 0 <= j < idx.len() implies idx@[j] < i + 1 by {
            if j < p {
                assert(idx@[j] == before[j]);
            } else if j > p {
                assert(idx@[j] == before[j - 1]);
            }
        }
        i += 1;
    }
    let mut r: Vec<u32> = Vec::new();
    let mut j: usize = 0;
    while j < idx.len()
        invariant
            j <= idx.len() == all.len(),
            forall|q: int| 0 <= q < idx.len() ==> idx@[q] < all.len(),
            r@ == idx@.subrange(0, j as int).map_values(|q: usize| all@[q as int]),
        decreases idx.len() - j,
    {
        r.push(all[idx[j]]);
        j += 1;
        assert(idx@.subrange(0, j as int).map_values(|q: usize| all@[q as int]) =~= idx@.subrange(0, j - 1).map_values(
            |q: usize| all@[q as int],
        ).push(all@[idx@[j - 1] as int]));
    }
    assert(idx@.subrange(0, idx.len() as int) =~= idx@);
    r
}

fn shelf_of(books: &Vec<ShopBook>, order: &Vec<usize>, k: usize) -> (r: Vec<u32>)
    requires
        ranked_by(books@, order@),
    ensures
        r@ == shelf(order@.map_values(|i: usize| books@[i as int]), k as int),
{
    let ghost sb = order@.map_values(|i: usize| books@[i as int]);
    let all = shelf_members_of(books, order, k);
    proof {
        lemma_shelf_members_bound(sb, k as int, order.len() as int);
    }
    let mut ordered = if k == 2 {
        newest_first(books, order, &all)
    } else {
        all
    };
    ordered.truncate(SHELF_LEN);
    ordered
}

pub(crate) proof fn lemma_shelf_members_bound(sb: Seq<ShopBook>, k: int, n: int)
    requires
        0 <= n <= sb.len(),
    ensures
        forall|j: int| 0 <= j < shelf_members(sb, k, n).len() ==> shelf_members(sb, k, n)[j] < n,
        shelf_members(sb, k, n).len() <= n,
    decreases n,
{
    if n > 0 {
        lemma_shelf_members_bound(sb, k, n - 1);
    }
}


// ---------------------------------------------------------------------------------------
// Browse groups

/// The names a book is listed under in browse kind `k`: 0 its subjects, 1 its author,
/// 2 its collection, 3 its language in upper case.
pub open spec fn kind_names(b: ShopBook, k: int) -> Seq<Seq<char>> {
    if k == 0 {
        b.subjects@.map_values(|s: String| s@)
    } else if k == 1 {
        seq![b.author@]
    } else if k == 2 {
        match b.collection {
            Some(c) => seq![c@],
            None => Seq::empty(),
        }
    } else {
        seq![str_uppercase(b.lang@)]
    }
}

/// The first group at or after `j` with this name (the length if none).
pub open spec fn find_group(g: Seq<(Seq<char>, Seq<u32>)>, name: Seq<char>, j: int) -> int
    decreases g.len() - j,
{
    if j < 0 || j >= g.len() {
        g.len() as int
    } else if g[j].0 == name {
        j
    } else {
        find_group(g, name, j + 1)
    }
}

/// Record `i` joins the group of that name, which is opened if new; an empty name joins
/// nothing.
pub open spec fn add_to_group(g: Seq<(Seq<char>, Seq<u32>)>, name: Seq<char>, i: u32) -> Seq<(Seq<char>, Seq<u32>)> {
    if name.len() == 0 {
        g
    } else {
        let j = find_group(g, name, 0);
        if j < g.len() {
            g.update(j, (name, g[j].1.push(i)))
        } else {
            g.push((name, seq![i]))
        }
    }
}

/// Record `i` joins the group of each name, in order.
pub open spec fn add_names(g: Seq<(Seq<char>, Seq<u32>)>, names: Seq<Seq<char>>, i: u32) -> Seq<(Seq<char>, Seq<u32>)>
    decreases names.len(),
{
    if names.len() == 0 {
        g
    } else {
        add_names(add_to_group(g, names[0], i), names.drop_first(), i)
    }
}

/// The groups of kind `k` gathered from the first `n` ranked books, in order of first use.
pub open spec fn gather(sb: Seq<ShopBook>, k: int, n: int) -> Seq<(Seq<char>, Seq<u32>)>
    decreases n,
{
    if n <= 0 {
        Seq::empty()
    } else {
        add_names(gather(sb, k, n - 1), kind_names(sb[n - 1], k), (n - 1) as u32)
    }
}

/// The sort key of a group: its name lowercased, as bytes.
pub open spec fn name_key(name: Seq<char>) -> Seq<u8> {
    encode_utf8(str_lowercase(name))
}

/// Group `a` sorts strictly after group `b`.
pub open spec fn name_after(g: Seq<(Seq<char>, Seq<u32>)>) -> spec_fn(usize, usize) -> bool {
    |a: usize, b: usize| !bytes_le(name_key(g[a as int].0), name_key(g[b as int].0))
}

/// The browse groups of kind `k`, names sorted case-insensitively (ties in order of
/// first use).
pub open spec fn groups_of(sb: Seq<ShopBook>, k: int) -> Seq<(Seq<char>, Seq<u32>)> {
    let g = gather(sb, k, sb.len() as int);
    stable_sort(upto(g.len()), name_after(g)).map_values(|j: usize| g[j as int])
}

/// A group being gathered: its name and its members.
pub struct NamedList {
    /// The name.
    pub name: String,
    /// Record indexes.
    pub members: Vec<u32>,
}

/// The view of gathered groups.
pub open spec fn lists(g: Seq<NamedList>) -> Seq<(Seq<char>, Seq<u32>)> {
    g.map_values(|l: NamedList| (l.name@, l.members@))
}

fn string_copy(s: &String) -> (r: String)
    ensures
        r@ == s@,
{
    owned(s.as_str())
}

fn add_to_group_exec(g: &mut Vec<NamedList>, name: &String, i: u32)
    ensures
        lists(final(g)@) == add_to_group(lists(old(g)@), name@, i),
{
    if name.as_str().is_empty() {
        return;
    }
    let ghost lg = lists(g@);
    let mut j: usize = 0;
    while j < g.len()
        invariant
            j <= g.len(),
            lg == lists(g@),
            lg == lists(old(g)@),
            name@.len() != 0,
            find_group(lg, name@, j as int) == find_group(lg, name@, 0),
        decreases g.len() - j,
    {
        if g[j].name == *name {
            assert(lg[j as int].0 == name@);
            assert(find_group(lg, name@, j as int) == j);
            let mut l = g.remove(j);
            l.members.push(i);
            g.insert(j, l);
            assert(lists(g@) =~= lg.update(j as int, (name@, lg[j as int].1.push(i))));
            return;
        }
        j += 1;
    }
    let l = NamedList { name: string_copy(name), members: vec![i] };
    assert(l.members@ =~= seq![i]);
    assert(find_group(lg, name@, 0) == lg.len());
    g.push(l);
    assert(lists(g@) =~= lg.push((name@, seq![i])));
}

fn kind_names_exec(b: &ShopBook, k: usize) -> (r: Vec<String>)
    ensures
        r@.map_values(|s: String| s@) == kind_names(*b, k as int),
{
    let mut r: Vec<String> = Vec::new();
    if k == 0 {
        let mut j: usize = 0;
        while j < b.subjects.len()
            invariant
                j <= b.subjects.len(),
                r@.map_values(|s: String| s@) == b.subjects@.subrange(0, j as int).map_values(|s: String| s@),
            decreases b.subjects.len() - j,
        {
            r.push(string_copy(&b.subjects[j]));
            j += 1;
            assert(b.subjects@.subrange(0, j as int).map_values(|s: String| s@) =~= b.subjects@.subrange(0, j - 1).map_values(
                |s: String| s@,
            ).push(b.subjects@[j - 1]@));
            assert(r@.map_values(|s: String| s@) =~= r@.drop_last().map_values(|s: String| s@).push(r@.last()@));
        }
        assert(b.subjects@.subrange(0, j as int) =~= b.subjects@);
    } else if k == 1 {
        r.push(string_copy(&b.author));
        assert(r@.map_values(|s: String| s@) =~= seq![b.author@]);
    } else if k == 2 {
        match &b.collection {
            Some(c) => {
                r.push(string_copy(c));
                assert(r@.map_values(|s: String| s@) =~= seq![c@]);
            },
            None => {
                assert(r@.map_values(|s: String| s@) =~= Seq::<Seq<char>>::empty());
            },
        }
    } else {
        r.push(to_uppercase(b.lang.as_str()));
        assert(r@.map_values(|s: String| s@) =~= seq![str_uppercase(b.lang@)]);
    }
    r
}

fn gather_exec(books: &Vec<ShopBook>, order: &Vec<usize>, k: usize) -> (g: Vec<NamedList>)
    requires
        ranked_by(books@, order@),
    ensures
        lists(g@) == gather(order@.map_values(|i: usize| books@[i as int]), k as int, order.len() as int),
{
    let ghost sb = order@.map_values(|i: usize| books@[i as int]);
    let mut g: Vec<NamedList> = Vec::new();
    assert(lists(g@) =~= Seq::<(Seq<char>, Seq<u32>)>::empty());
    let mut i: usize = 0;
    while i < order.len()
        invariant
            i <= order.len(),
            ranked_by(books@, order@),
            sb == order@.map_values(|i: usize| books@[i as int]),
            lists(g@) == gather(sb, k as int, i as int),
        decreases order.len() - i,
    {
        let names = kind_names_exec(&books[order[i]], k);
        let ghost nv = names@.map_values(|s: String| s@);
        let ghost start = lists(g@);
        let mut q: usize = 0;
        assert(nv.subrange(0, nv.len() as int) =~= nv);
        while q < names.len()
            invariant
                q <= names.len(),
                nv == names@.map_values(|s: String| s@),
                add_names(lists(g@), nv.subrange(q as int, nv.len() as int), i as u32) == add_names(start, nv, i as u32),
            decreases names.len() - q,
        {
            assert(nv.subrange(q as int, nv.len() as int).drop_first() =~= nv.subrange(q + 1, nv.len() as int));
            add_to_group_exec(&mut g, &names[q], i as u32);
            q += 1;
        }
        assert(nv.subrange(names.len() as int, nv.len() as int) =~= Seq::<Seq<char>>::empty());
        assert(nv.subrange(0, nv.len() as int) =~= nv);
        i += 1;
    }
    g
}


fn sort_groups(g: &Vec<NamedList>) -> (idx: Vec<usize>)
    ensures
        idx@ == stable_sort(upto(g.len() as nat), name_after(lists(g@))),
        idx.len() == g.len(),
        forall|j: int| 0 <= j < idx.len() ==> idx@[j] < g.len(),
{
    let ghost lg = lists(g@);
    let ghost after = name_after(lg);
    let mut keys: Vec<Vec<u8>> = Vec::new();
    let mut q: usize = 0;
    while q < g.len()
        invariant
            q <= g.len(),
            lg == lists(g@),
            keys.len() == q,
            forall|j: int| 0 <= j < q ==> #[trigger] keys@[j]@ == name_key(lg[j].0),
        decreases g.len() - q,
    {
        let low = to_lowercase(g[q].name.as_str());
        keys.push(bytes_vec(low.as_str().as_bytes()));
        q += 1;
    }
    let mut idx: Vec<usize> = Vec::new();
    let mut i: usize = 0;
    while i < g.len()
        invariant
            i <= g.len() == keys.len(),
            lg == lists(g@),
            after == name_after(lg),
            forall|j: int| 0 <= j < keys.len() ==> #[trigger] keys@[j]@ == name_key(lg[j].0),
            idx@ == stable_sort(upto(i as nat), after),
            idx.len() == i,
            forall|j: int| 0 <= j < idx.len() ==> idx@[j] < i,
        decreases g.len() - i,
    {
        let mut p: usize = 0;
        while p < idx.len() && slice_le(keys[idx[p]].as_slice(), keys[i].as_slice())
            invariant
                p <= idx.len() == i,
                i < g.len() == keys.len(),
                lg == lists(g@),
                forall|j: int| 0 <= j < keys.len() ==> #[trigger] keys@[j]@ == name_key(lg[j].0),
                forall|j: int| 0 <= j < idx.len() ==> idx@[j] < i,
                first_after(idx@, i, after, p as int) == first_after(idx@, i, after, 0),
                after == name_after(lg),
            decreases idx.len() - p,
        {
            p += 1;
        }
        proof {
            assert(upto((i + 1) as nat).drop_last() =~= upto(i as nat));
            assert(upto((i + 1) as nat).last() == i);
            lemma_stable_sort_len(upto(i as nat), after);
        }
        let ghost before = idx@;
        idx.insert(p, i);
        assert forall|j: int| 0 <= j < idx.len() implies idx@[j] < i + 1 by {
            if j < p {
                assert(idx@[j] == before[j]);
            } else if j > p {
                assert(idx@[j] == before[j - 1]);
            }
        }
        i += 1;
    }
    idx
}

pub(crate) fn bytes_vec(b: &[u8]) -> (r: Vec<u8>)
    ensures
        r@ == b@,
{
    let mut r: Vec<u8> = Vec::new();
    let mut i: usize = 0;
    while i < b.len()
        invariant
            i <= b.len(),
            r@ == b@.subrange(0, i as int),
        decreases b.len() - i,
    {
        r.push(b[i]);
        i += 1;
        assert(b@.subrange(0, i as int) =~= b@.subrange(0, i - 1).push(b@[i - 1]));
    }
    assert(b@.subrange(0, b.len() as int) =~= b@);
    r
}


// ---------------------------------------------------------------------------------------
// Bytes

/// A `u16` in little-endian bytes.
pub open spec fn le16s(v: int) -> Seq<u8> {
    seq![(v % 256) as u8, ((v / 256) % 256) as u8]
}

/// A `u32` in little-endian bytes.
pub open spec fn le32s(v: int) -> Seq<u8> {
    seq![(v % 256) as u8, ((v / 256) % 256) as u8, ((v / 65536) % 256) as u8, ((v / 16777216) % 256) as u8]
}

/// A length capped at `u16::MAX`.
pub open spec fn min16(n: int) -> int {
    if n > 65535 {
        65535
    } else {
        n
    }
}

/// `n` zero bytes.
pub open spec fn zeros(n: int) -> Seq<u8> {
    Seq::new(n as nat, |i: int| 0u8)
}

fn push16(out: &mut Vec<u8>, v: u16)
    ensures
        final(out)@ == old(out)@ + le16s(v as int),
{
    out.push((v % 256) as u8);
    out.push(((v / 256) % 256) as u8);
    assert(final(out)@ =~= old(out)@ + le16s(v as int));
}

fn push32(out: &mut Vec<u8>, v: u32)
    ensures
        final(out)@ == old(out)@ + le32s(v as int),
{
    out.push((v % 256) as u8);
    out.push(((v / 256) % 256) as u8);
    out.push(((v / 65536) % 256) as u8);
    out.push(((v / 16777216) % 256) as u8);
    assert(final(out)@ =~= old(out)@ + le32s(v as int));
}

fn push_zeros(out: &mut Vec<u8>, n: usize)
    ensures
        final(out)@ == old(out)@ + zeros(n as int),
{
    let mut i: usize = 0;
    while i < n
        invariant
            i <= n,
            out@ == old(out)@ + zeros(i as int),
        decreases n - i,
    {
        out.push(0u8);
        i += 1;
        assert(out@ =~= old(out)@ + zeros(i as int));
    }
}

fn push_bytes(out: &mut Vec<u8>, b: &[u8], n: usize)
    requires
        n <= b@.len(),
    ensures
        final(out)@ == old(out)@ + b@.take(n as int),
{
    let mut i: usize = 0;
    while i < n
        invariant
            i <= n <= b@.len(),
            out@ == old(out)@ + b@.take(i as int),
        decreases n - i,
    {
        out.push(b[i]);
        i += 1;
        assert(out@ =~= old(out)@ + b@.take(i as int));
    }
}

/// The last character boundary at or before `e`.
pub open spec fn fit_end(b: Seq<u8>, e: int) -> int
    decreases e,
{
    if e <= 0 {
        0
    } else if vstd::utf8::is_char_boundary(b, e) {
        e
    } else {
        fit_end(b, e - 1)
    }
}

/// A text in a NUL-padded field of `n` bytes, cut at a character boundary.
pub open spec fn field_bytes(s: Seq<char>, n: int) -> Seq<u8> {
    let b = encode_utf8(s);
    let e = fit_end(b, if b.len() < n { b.len() as int } else { n });
    b.take(e) + zeros(n - e)
}

pub(crate) proof fn lemma_fit_end(b: Seq<u8>, e: int)
    requires
        0 <= e,
    ensures
        0 <= fit_end(b, e) <= e,
    decreases e,
{
    if e > 0 && !vstd::utf8::is_char_boundary(b, e) {
        lemma_fit_end(b, e - 1);
    }
}

fn push_field(out: &mut Vec<u8>, s: &str, n: usize)
    ensures
        final(out)@ == old(out)@ + field_bytes(s@, n as int),
{
    let b = s.as_bytes();
    let mut end: usize = if b.len() < n { b.len() } else { n };
    let ghost e0 = end as int;
    while end > 0 && !s.is_char_boundary(end)
        invariant
            end <= e0,
            fit_end(b@, end as int) == fit_end(b@, e0),
            b@ == encode_utf8(s@),
        decreases end,
    {
        end -= 1;
    }
    proof {
        lemma_fit_end(b@, e0);
    }
    push_bytes(out, b, end);
    push_zeros(out, n - end);
}

/// A byte string behind its `u16` length, cut at `u16::MAX` bytes.
pub open spec fn lp16(b: Seq<u8>) -> Seq<u8> {
    le16s(min16(b.len() as int)) + b.take(min16(b.len() as int))
}

fn push_lp16(out: &mut Vec<u8>, s: &str)
    ensures
        final(out)@ == old(out)@ + lp16(encode_utf8(s@)),
{
    let b = s.as_bytes();
    let n: usize = if b.len() > 65535 { 65535 } else { b.len() };
    push16(out, n as u16);
    push_bytes(out, b, n);
    assert(final(out)@ =~= old(out)@ + lp16(encode_utf8(s@)));
}

/// Texts joined with a separator.
pub open spec fn join(ss: Seq<Seq<char>>, sep: Seq<char>) -> Seq<char>
    decreases ss.len(),
{
    if ss.len() == 0 {
        Seq::empty()
    } else if ss.len() == 1 {
        ss[0]
    } else {
        join(ss.drop_last(), sep) + sep + ss.last()
    }
}

/// `", "`.
pub open spec fn comma_space() -> Seq<char> {
    seq![',', ' ']
}

/// A book's subjects as one line, comma-separated.
pub open spec fn subjects_line(b: ShopBook) -> Seq<char> {
    join(b.subjects@.map_values(|s: String| s@), comma_space())
}

fn join_subjects(subjects: &Vec<String>) -> (r: String)
    ensures
        r@ == join(subjects@.map_values(|s: String| s@), comma_space()),
{
    let mut r = String::new();
    let ghost v = subjects@.map_values(|s: String| s@);
    let mut i: usize = 0;
    while i < subjects.len()
        invariant
            i <= subjects.len(),
            v == subjects@.map_values(|s: String| s@),
            r@ == join(v.subrange(0, i as int), comma_space()),
        decreases subjects.len() - i,
    {
        let sep = ", ";
        proof {
            reveal_strlit(", ");
        }
        if i > 0 {
            crate::textutil::push_str(&mut r, sep);
        }
        crate::textutil::push_str(&mut r, subjects[i].as_str());
        i += 1;
        assert(v.subrange(0, i as int).drop_last() =~= v.subrange(0, i - 1));
        assert(sep@ =~= comma_space());
        if i == 1 {
            assert(r@ =~= join(v.subrange(0, i as int), comma_space()));
        }
    }
    assert(v.subrange(0, v.len() as int) =~= v);
    r
}

/// `s` contains `pat` at some position.
pub open spec fn has_infix(s: Seq<char>, pat: Seq<char>) -> bool {
    exists|i: int| 0 <= i && i + pat.len() <= s.len() && #[trigger] s.subrange(i, i + pat.len()) == pat
}

fn contains_text(s: &str, pat: &str) -> (b: bool)
    ensures
        b == has_infix(s@, pat@),
{
    let cs = crate::textutil::chars_of(s);
    let ps = crate::textutil::chars_of(pat);
    let n = cs.len();
    let m = ps.len();
    if m > n {
        assert forall|i: int| 0 <= i && i + m <= n implies #[trigger] cs@.subrange(i, i + m) != ps@ by {}
        return false;
    }
    if m == 0 {
        assert(s@.subrange(0, 0 + pat@.len() as int) =~= pat@);
        return true;
    }
    let mut i: usize = 0;
    while i <= n - m
        invariant
            0 < m <= n,
            n == cs.len(),
            m == ps.len(),
            cs@ == s@,
            ps@ == pat@,
            forall|q: int| 0 <= q < i ==> #[trigger] cs@.subrange(q, q + m) != ps@,
        decreases n - m + 1 - i,
    {
        let mut j: usize = 0;
        let mut ok = true;
        while j < m && ok
            invariant
                j <= m,
                i + m <= n,
                n == cs.len(),
                m == ps.len(),
                ok ==> forall|q: int| 0 <= q < j ==> cs@[i + q] == ps@[q],
                !ok ==> cs@.subrange(i as int, i + m) != ps@,
            decreases m - j,
        {
            if cs[i + j] != ps[j] {
                ok = false;
                assert(cs@.subrange(i as int, i + m)[j as int] != ps@[j as int]);
            }
            j += 1;
        }
        if ok {
            assert(cs@.subrange(i as int, i + m) =~= ps@);
            return true;
        }
        i += 1;
    }
    false
}

/// "Gutenberg" in the source name gives 0, else "Standard" 1, else 2.
pub open spec fn source_code(source: Seq<char>) -> u8 {
    if has_infix(source, seq!['G', 'u', 't', 'e', 'n', 'b', 'e', 'r', 'g']) {
        0
    } else if has_infix(source, seq!['S', 't', 'a', 'n', 'd', 'a', 'r', 'd']) {
        1
    } else {
        2
    }
}

fn source_code_of(source: &str) -> (c: u8)
    ensures
        c == source_code(source@),
{
    let g = "Gutenberg";
    let st = "Standard";
    proof {
        reveal_strlit("Gutenberg");
        reveal_strlit("Standard");
        assert(g@ =~= seq!['G', 'u', 't', 'e', 'n', 'b', 'e', 'r', 'g']);
        assert(st@ =~= seq!['S', 't', 'a', 'n', 'd', 'a', 'r', 'd']);
    }
    if contains_text(source, g) {
        0
    } else if contains_text(source, st) {
        1
    } else {
        2
    }
}


// ---------------------------------------------------------------------------------------
// Layout

/// The text of an optional string, empty when absent.
pub open spec fn text_or_empty(c: Option<String>) -> Seq<char> {
    match c {
        Some(x) => x@,
        None => Seq::empty(),
    }
}

/// The first half of a strings blob: full title, full author, url, subjects.
#[verifier::opaque]
pub open spec fn extra_head(b: ShopBook) -> Seq<u8> {
    lp16(encode_utf8(b.title@)) + lp16(encode_utf8(b.author@)) + lp16(encode_utf8(b.url@)) + lp16(
        encode_utf8(subjects_line(b)),
    )
}

/// The second half: source, licence, collection, blurb.
#[verifier::opaque]
pub open spec fn extra_tail(b: ShopBook) -> Seq<u8> {
    lp16(encode_utf8(b.source@)) + lp16(encode_utf8(b.licence@)) + lp16(encode_utf8(text_or_empty(b.collection)))
        + lp16(encode_utf8(b.blurb@))
}

/// A book's strings blob: full title, full author, url, subjects, source, licence,
/// collection and blurb, each behind its `u16` length.
pub open spec fn extra(b: ShopBook) -> Seq<u8> {
    extra_head(b) + extra_tail(b)
}

/// Record flags: bit 0 modern, bit 1 in a collection.
pub open spec fn flags(b: ShopBook) -> u8 {
    ((if b.modern { 1int } else { 0int }) + (if b.collection is Some { 2int } else { 0int })) as u8
}

/// The text fields of a record: id, title, author, subjects (140 bytes with year and
/// language).
#[verifier::opaque]
pub open spec fn record_head(b: ShopBook) -> Seq<u8> {
    field_bytes(b.id@, 16) + field_bytes(b.title@, 56) + field_bytes(b.author@, 32) + field_bytes(subjects_line(b), 32)
        + le16s(b.year as int) + field_bytes(b.lang@, 2)
}

/// The number fields of a record.
#[verifier::opaque]
pub open spec fn record_tail(b: ShopBook, extra_off: int, extra_len: int) -> Seq<u8> {
    seq![flags(b), source_code(b.source@)] + le16s(b.hours10 as int) + le32s(b.rank as int) + le32s(b.size as int)
        + le16s(b.added as int) + le32s(extra_off as u32 as int) + le16s(min16(extra_len))
}

/// One 160-byte record.
pub open spec fn record(b: ShopBook, extra_off: int, extra_len: int) -> Seq<u8> {
    record_head(b) + record_tail(b, extra_off, extra_len)
}

/// The strings blobs of the first `n` ranked books.
pub open spec fn extras(sb: Seq<ShopBook>, n: int) -> Seq<u8>
    decreases n,
{
    if n <= 0 {
        Seq::empty()
    } else {
        extras(sb, n - 1) + extra(sb[n - 1])
    }
}

/// The records of the first `n` ranked books, whose blobs start at `strings_off`.
pub open spec fn records(sb: Seq<ShopBook>, strings_off: int, n: int) -> Seq<u8>
    decreases n,
{
    if n <= 0 {
        Seq::empty()
    } else {
        records(sb, strings_off, n - 1) + record(sb[n - 1], strings_off + extras(sb, n - 1).len(), extra(sb[n - 1]).len() as int)
    }
}

/// Slot `t` of the shelf table: entry `t % 12` of shelf `t / 12`, zero past its end.
pub open spec fn shelf_slot(sb: Seq<ShopBook>, t: int) -> u32 {
    let sh = shelf(sb, t / 12);
    if t % 12 < sh.len() {
        sh[t % 12]
    } else {
        0
    }
}

/// The first `t` slots of the shelf table.
pub open spec fn shelf_table(sb: Seq<ShopBook>, t: int) -> Seq<u8>
    decreases t,
{
    if t <= 0 {
        Seq::empty()
    } else {
        shelf_table(sb, t - 1) + le32s(shelf_slot(sb, t - 1) as int)
    }
}

/// The groups of kinds `0..k`, kind after kind.
pub open spec fn groups_upto(sb: Seq<ShopBook>, k: int) -> Seq<(Seq<char>, Seq<u32>)>
    decreases k,
{
    if k <= 0 {
        Seq::empty()
    } else {
        groups_upto(sb, k - 1) + groups_of(sb, k - 1)
    }
}

/// Name bytes of the first `t` groups.
pub open spec fn names_before(g: Seq<(Seq<char>, Seq<u32>)>, t: int) -> int
    decreases t,
{
    if t <= 0 {
        0
    } else {
        names_before(g, t - 1) + encode_utf8(g[t - 1].0).len()
    }
}

/// Members of the first `t` groups.
pub open spec fn members_before(g: Seq<(Seq<char>, Seq<u32>)>, t: int) -> int
    decreases t,
{
    if t <= 0 {
        0
    } else {
        members_before(g, t - 1) + g[t - 1].1.len()
    }
}

/// Directory entry `t`: name offset, name length, member count, members offset.
#[verifier::opaque]
pub open spec fn dir_entry(g: Seq<(Seq<char>, Seq<u32>)>, t: int, names_at: int, members_at: int) -> Seq<u8> {
    le32s((names_at + names_before(g, t)) as u32 as int) + le16s(min16(encode_utf8(g[t].0).len() as int)) + le16s(
        min16(g[t].1.len() as int),
    ) + le32s((members_at + 4 * members_before(g, t)) as u32 as int)
}

/// The first `t` directory entries.
pub open spec fn dir(g: Seq<(Seq<char>, Seq<u32>)>, names_at: int, members_at: int, t: int) -> Seq<u8>
    decreases t,
{
    if t <= 0 {
        Seq::empty()
    } else {
        dir(g, names_at, members_at, t - 1) + dir_entry(g, t - 1, names_at, members_at)
    }
}

/// The first `j` indexes of a list, as `u32`s.
pub open spec fn index_bytes(ms: Seq<u32>, j: int) -> Seq<u8>
    decreases j,
{
    if j <= 0 {
        Seq::empty()
    } else {
        index_bytes(ms, j - 1) + le32s(ms[j - 1] as int)
    }
}

/// The member lists of the first `t` groups.
pub open spec fn member_lists(g: Seq<(Seq<char>, Seq<u32>)>, t: int) -> Seq<u8>
    decreases t,
{
    if t <= 0 {
        Seq::empty()
    } else {
        member_lists(g, t - 1) + index_bytes(g[t - 1].1, g[t - 1].1.len() as int)
    }
}

/// The names of the first `t` groups, back to back.
pub open spec fn name_bytes(g: Seq<(Seq<char>, Seq<u32>)>, t: int) -> Seq<u8>
    decreases t,
{
    if t <= 0 {
        Seq::empty()
    } else {
        name_bytes(g, t - 1) + encode_utf8(g[t - 1].0)
    }
}

/// `"QCAT"`.
pub open spec fn magic() -> Seq<u8> {
    seq![0x51u8, 0x43u8, 0x41u8, 0x54u8]
}

/// The header.
pub open spec fn header(sb: Seq<ShopBook>, fetched: u32, shelf_off: int, dir_off: int, strings_off: int) -> Seq<u8> {
    magic() + le16s(1) + zeros(2) + le32s(sb.len() as u32 as int) + le32s(fetched as int) + le32s(shelf_off as u32 as int)
        + le32s(dir_off as u32 as int) + le32s(strings_off as u32 as int) + Seq::new(
        6,
        |k: int| shelf(sb, k).len() as u8,
    ) + zeros(2) + le16s(min16(groups_of(sb, 0).len() as int)) + le16s(min16(groups_of(sb, 1).len() as int)) + le16s(
        min16(groups_of(sb, 2).len() as int),
    ) + le16s(min16(groups_of(sb, 3).len() as int)) + zeros(20)
}

/// Where the shelf table starts.
pub open spec fn shelf_off(sb: Seq<ShopBook>) -> int {
    HEADER + REC * sb.len()
}

/// Where the group directory starts.
pub open spec fn dir_off(sb: Seq<ShopBook>) -> int {
    shelf_off(sb) + SHELVES * SHELF_LEN * 4
}

/// Where the member lists start.
pub open spec fn members_off(sb: Seq<ShopBook>) -> int {
    dir_off(sb) + 12 * groups_upto(sb, 4).len()
}

/// Where the strings start.
pub open spec fn strings_off(sb: Seq<ShopBook>) -> int {
    members_off(sb) + 4 * members_before(groups_upto(sb, 4), groups_upto(sb, 4).len() as int)
}

/// A catalog laid out in the fixed-record format.
#[verifier::opaque]
pub open spec fn encoded(books: Seq<ShopBook>, fetched: u32) -> Seq<u8> {
    let sb = ranked(books);
    let g = groups_upto(sb, 4);
    let so = strings_off(sb);
    header(sb, fetched, shelf_off(sb), dir_off(sb), so) + records(sb, so, sb.len() as int) + shelf_table(sb, 72) + dir(
        g,
        so + extras(sb, sb.len() as int).len(),
        members_off(sb),
        g.len() as int,
    ) + member_lists(g, g.len() as int) + extras(sb, sb.len() as int) + name_bytes(g, g.len() as int)
}

/// The length of the layout.
pub open spec fn encoded_len(books: Seq<ShopBook>) -> int {
    let sb = ranked(books);
    let g = groups_upto(sb, 4);
    strings_off(sb) + extras(sb, sb.len() as int).len() + names_before(g, g.len() as int)
}


fn push_extra_head(strings: &mut Vec<u8>, b: &ShopBook)
    ensures
        final(strings)@ == old(strings)@ + extra_head(*b),
{
    reveal(extra_head);
    let sj = join_subjects(&b.subjects);
    push_lp16(strings, b.title.as_str());
    push_lp16(strings, b.author.as_str());
    push_lp16(strings, b.url.as_str());
    push_lp16(strings, sj.as_str());
    assert(final(strings)@ =~= old(strings)@ + extra_head(*b));
}

fn push_extra_tail(strings: &mut Vec<u8>, b: &ShopBook)
    ensures
        final(strings)@ == old(strings)@ + extra_tail(*b),
{
    reveal(extra_tail);
    let empty = "";
    proof {
        reveal_strlit("");
    }
    push_lp16(strings, b.source.as_str());
    push_lp16(strings, b.licence.as_str());
    match &b.collection {
        Some(c) => push_lp16(strings, c.as_str()),
        None => {
            assert(empty@ =~= text_or_empty(b.collection));
            push_lp16(strings, empty)
        },
    }
    push_lp16(strings, b.blurb.as_str());
    assert(final(strings)@ =~= old(strings)@ + extra_tail(*b));
}

fn push_extra(strings: &mut Vec<u8>, b: &ShopBook)
    ensures
        final(strings)@ == old(strings)@ + extra(*b),
{
    push_extra_head(strings, b);
    push_extra_tail(strings, b);
    assert(final(strings)@ =~= old(strings)@ + extra(*b));
}

fn push_record_head(out: &mut Vec<u8>, b: &ShopBook)
    ensures
        final(out)@ == old(out)@ + record_head(*b),
{
    reveal(record_head);
    let sj = join_subjects(&b.subjects);
    push_field(out, b.id.as_str(), 16);
    push_field(out, b.title.as_str(), 56);
    push_field(out, b.author.as_str(), 32);
    push_field(out, sj.as_str(), 32);
    push16(out, b.year);
    push_field(out, b.lang.as_str(), 2);
    assert(final(out)@ =~= old(out)@ + record_head(*b));
}

fn push_record_tail(out: &mut Vec<u8>, b: &ShopBook, extra_off: usize, extra_len: usize)
    ensures
        final(out)@ == old(out)@ + record_tail(*b, extra_off as int, extra_len as int),
{
    reveal(record_tail);
    let fl: u8 = (if b.modern { 1u8 } else { 0u8 }) + (if b.collection.is_some() { 2u8 } else { 0u8 });
    out.push(fl);
    out.push(source_code_of(b.source.as_str()));
    push16(out, b.hours10);
    push32(out, b.rank);
    push32(out, b.size);
    push16(out, b.added);
    push32(out, extra_off as u32);
    let n: usize = if extra_len > 65535 { 65535 } else { extra_len };
    push16(out, n as u16);
    assert(final(out)@ =~= old(out)@ + record_tail(*b, extra_off as int, extra_len as int));
}

fn push_record(out: &mut Vec<u8>, b: &ShopBook, extra_off: usize, extra_len: usize)
    ensures
        final(out)@ == old(out)@ + record(*b, extra_off as int, extra_len as int),
{
    push_record_head(out, b);
    push_record_tail(out, b, extra_off, extra_len);
    assert(final(out)@ =~= old(out)@ + record(*b, extra_off as int, extra_len as int));
}

fn copy_list(l: &NamedList) -> (r: NamedList)
    ensures
        r.name@ == l.name@,
        r.members@ == l.members@,
{
    let mut m: Vec<u32> = Vec::new();
    let mut i: usize = 0;
    while i < l.members.len()
        invariant
            i <= l.members.len(),
            m@ == l.members@.subrange(0, i as int),
        decreases l.members.len() - i,
    {
        m.push(l.members[i]);
        i += 1;
        assert(l.members@.subrange(0, i as int) =~= l.members@.subrange(0, i - 1).push(l.members@[i - 1]));
    }
    assert(l.members@.subrange(0, i as int) =~= l.members@);
    NamedList { name: string_copy(&l.name), members: m }
}

fn all_groups(books: &Vec<ShopBook>, order: &Vec<usize>) -> (r: (Vec<NamedList>, Vec<usize>))
    requires
        ranked_by(books@, order@),
    ensures
        lists(r.0@) == groups_upto(order@.map_values(|i: usize| books@[i as int]), 4),
        r.1.len() == 4,
        forall|k: int| 0 <= k < 4 ==> r.1@[k] == groups_of(order@.map_values(|i: usize| books@[i as int]), k).len(),
{
    let ghost sb = order@.map_values(|i: usize| books@[i as int]);
    let mut flat: Vec<NamedList> = Vec::new();
    let mut counts: Vec<usize> = Vec::new();
    let mut k: usize = 0;
    assert(lists(flat@) =~= groups_upto(sb, 0));
    while k < 4
        invariant
            k <= 4,
            ranked_by(books@, order@),
            sb == order@.map_values(|i: usize| books@[i as int]),
            lists(flat@) == groups_upto(sb, k as int),
            counts.len() == k,
            forall|q: int| 0 <= q < k ==> counts@[q] == groups_of(sb, q).len(),
        decreases 4 - k,
    {
        let g = gather_exec(books, order, k);
        let idx = sort_groups(&g);
        let ghost lg = lists(g@);
        let ghost start = lists(flat@);
        let mut j: usize = 0;
        while j < idx.len()
            invariant
                j <= idx.len() == g.len(),
                forall|q: int| 0 <= q < idx.len() ==> idx@[q] < g.len(),
                lg == lists(g@),
                lists(flat@) == start + idx@.subrange(0, j as int).map_values(|q: usize| lg[q as int]),
            decreases idx.len() - j,
        {
            let c = copy_list(&g[idx[j]]);
            let ghost before = flat@;
            flat.push(c);
            assert(lists(flat@) =~= lists(before).push(lg[idx@[j as int] as int]));
            assert(idx@.subrange(0, j + 1).map_values(|q: usize| lg[q as int]) =~= idx@.subrange(0, j as int).map_values(
                |q: usize| lg[q as int],
            ).push(lg[idx@[j as int] as int]));
            j += 1;
        }
        assert(idx@.subrange(0, j as int) =~= idx@);
        assert(lists(flat@) =~= groups_upto(sb, k + 1));
        counts.push(idx.len());
        k += 1;
    }
    (flat, counts)
}


// ---------------------------------------------------------------------------------------
// Lengths

pub(crate) proof fn lemma_field_len(s: Seq<char>, n: int)
    requires
        0 <= n,
    ensures
        field_bytes(s, n).len() == n,
{
    let b = encode_utf8(s);
    let e0 = if b.len() < n { b.len() as int } else { n };
    lemma_fit_end(b, e0);
}

pub(crate) proof fn lemma_record_len(b: ShopBook, off: int, len: int)
    ensures
        record(b, off, len).len() == REC,
{
    reveal(record_head);
    reveal(record_tail);
    lemma_field_len(b.id@, 16);
    lemma_field_len(b.title@, 56);
    lemma_field_len(b.author@, 32);
    lemma_field_len(subjects_line(b), 32);
    lemma_field_len(b.lang@, 2);
}

pub(crate) proof fn lemma_records_len(sb: Seq<ShopBook>, so: int, n: int)
    requires
        0 <= n,
    ensures
        records(sb, so, n).len() == REC * n,
    decreases n,
{
    if n > 0 {
        lemma_records_len(sb, so, n - 1);
        lemma_record_len(sb[n - 1], so + extras(sb, n - 1).len(), extra(sb[n - 1]).len() as int);
    }
}

pub(crate) proof fn lemma_shelf_table_len(sb: Seq<ShopBook>, t: int)
    requires
        0 <= t,
    ensures
        shelf_table(sb, t).len() == 4 * t,
    decreases t,
{
    if t > 0 {
        lemma_shelf_table_len(sb, t - 1);
    }
}

pub(crate) proof fn lemma_dir_len(g: Seq<(Seq<char>, Seq<u32>)>, na: int, ma: int, t: int)
    requires
        0 <= t,
    ensures
        dir(g, na, ma, t).len() == 12 * t,
    decreases t,
{
    reveal(dir_entry);
    if t > 0 {
        lemma_dir_len(g, na, ma, t - 1);
    }
}

pub(crate) proof fn lemma_index_bytes_len(ms: Seq<u32>, j: int)
    requires
        0 <= j,
    ensures
        index_bytes(ms, j).len() == 4 * j,
    decreases j,
{
    if j > 0 {
        lemma_index_bytes_len(ms, j - 1);
    }
}

pub(crate) proof fn lemma_member_lists_len(g: Seq<(Seq<char>, Seq<u32>)>, t: int)
    requires
        0 <= t,
    ensures
        member_lists(g, t).len() == 4 * members_before(g, t),
    decreases t,
{
    if t > 0 {
        lemma_member_lists_len(g, t - 1);
        lemma_index_bytes_len(g[t - 1].1, g[t - 1].1.len() as int);
    }
}

pub(crate) proof fn lemma_name_bytes_len(g: Seq<(Seq<char>, Seq<u32>)>, t: int)
    requires
        0 <= t,
    ensures
        name_bytes(g, t).len() == names_before(g, t),
    decreases t,
{
    if t > 0 {
        lemma_name_bytes_len(g, t - 1);
    }
}

pub(crate) proof fn lemma_extras_mono(sb: Seq<ShopBook>, i: int, n: int)
    requires
        0 <= i <= n,
    ensures
        extras(sb, i).len() <= extras(sb, n).len(),
    decreases n,
{
    if i < n {
        lemma_extras_mono(sb, i, n - 1);
    }
}

pub(crate) proof fn lemma_before_nonneg(g: Seq<(Seq<char>, Seq<u32>)>, t: int)
    ensures
        0 <= members_before(g, t),
        0 <= names_before(g, t),
    decreases t,
{
    if t > 0 {
        lemma_before_nonneg(g, t - 1);
    }
}

pub(crate) proof fn lemma_before_mono(g: Seq<(Seq<char>, Seq<u32>)>, t: int, u: int)
    requires
        0 <= t <= u,
    ensures
        0 <= members_before(g, t) <= members_before(g, u),
        0 <= names_before(g, t) <= names_before(g, u),
    decreases u,
{
    lemma_before_nonneg(g, t);
    if t < u {
        lemma_before_mono(g, t, u - 1);
    }
}


// ---------------------------------------------------------------------------------------
// Writing

fn cap16(c: usize) -> (v: u16)
    ensures
        v == min16(c as int),
{
    if c > 65535 {
        65535
    } else {
        c as u16
    }
}

#[verifier::rlimit(60)]
#[verifier::spinoff_prover]
fn put_header(
    out: &mut Vec<u8>,
    Ghost(sb): Ghost<Seq<ShopBook>>,
    n: usize,
    fetched: u32,
    offs: (usize, usize, usize),
    shelves: &Vec<Vec<u32>>,
    counts: &Vec<usize>,
)
    requires
        n == sb.len(),
        shelves.len() == 6,
        forall|k: int| 0 <= k < 6 ==> #[trigger] shelves@[k]@ == shelf(sb, k),
        counts.len() == 4,
        forall|k: int| 0 <= k < 4 ==> #[trigger] counts@[k] == groups_of(sb, k).len(),
    ensures
        final(out)@ == old(out)@ + header(sb, fetched, offs.0 as int, offs.1 as int, offs.2 as int),
{
    out.push(0x51u8);
    out.push(0x43u8);
    out.push(0x41u8);
    out.push(0x54u8);
    push16(out, 1);
    push_zeros(out, 2);
    push32(out, n as u32);
    push32(out, fetched);
    push32(out, offs.0 as u32);
    push32(out, offs.1 as u32);
    push32(out, offs.2 as u32);
    let ghost mid = out@;
    let mut k: usize = 0;
    while k < 6
        invariant
            k <= 6,
            shelves.len() == 6,
            forall|q: int| 0 <= q < 6 ==> #[trigger] shelves@[q]@ == shelf(sb, q),
            out@ == mid + Seq::new(k as nat, |q: int| shelf(sb, q).len() as u8),
        decreases 6 - k,
    {
        out.push(shelves[k].len() as u8);
        k += 1;
        assert(out@ =~= mid + Seq::new(k as nat, |q: int| shelf(sb, q).len() as u8));
    }
    push_zeros(out, 2);
    let ghost mid2 = out@;
    push16(out, cap16(counts[0]));
    push16(out, cap16(counts[1]));
    push16(out, cap16(counts[2]));
    push16(out, cap16(counts[3]));
    let ghost mid3 = out@;
    push_zeros(out, 20);
    assert(mid3 =~= mid2 + le16s(min16(groups_of(sb, 0).len() as int)) + le16s(min16(groups_of(sb, 1).len() as int))
        + le16s(min16(groups_of(sb, 2).len() as int)) + le16s(min16(groups_of(sb, 3).len() as int)));
    assert(final(out)@ =~= old(out)@ + header(sb, fetched, offs.0 as int, offs.1 as int, offs.2 as int));
}

fn put_records(out: &mut Vec<u8>, strings: &mut Vec<u8>, books: &Vec<ShopBook>, order: &Vec<usize>, so: usize)
    requires
        ranked_by(books@, order@),
        old(strings)@.len() == 0,
        so + extras(order@.map_values(|i: usize| books@[i as int]), order.len() as int).len() <= usize::MAX,
    ensures
        final(out)@ == old(out)@ + records(order@.map_values(|i: usize| books@[i as int]), so as int, order.len() as int),
        final(strings)@ == extras(order@.map_values(|i: usize| books@[i as int]), order.len() as int),
{
    let ghost sb = order@.map_values(|i: usize| books@[i as int]);
    let ghost start = out@;
    let mut i: usize = 0;
    assert(strings@ =~= extras(sb, 0));
    while i < order.len()
        invariant
            i <= order.len(),
            ranked_by(books@, order@),
            sb == order@.map_values(|i: usize| books@[i as int]),
            so + extras(sb, order.len() as int).len() <= usize::MAX,
            out@ == start + records(sb, so as int, i as int),
            strings@ == extras(sb, i as int),
            start == old(out)@,
        decreases order.len() - i,
    {
        let b = &books[order[i]];
        let at = strings.len();
        proof {
            lemma_extras_mono(sb, i + 1, order.len() as int);
        }
        push_extra(strings, b);
        let elen = strings.len() - at;
        push_record(out, b, so + at, elen);
        i += 1;
        assert(out@ =~= start + records(sb, so as int, i as int));
    }
}

fn put_shelf_table(out: &mut Vec<u8>, Ghost(sb): Ghost<Seq<ShopBook>>, shelves: &Vec<Vec<u32>>)
    requires
        shelves.len() == 6,
        forall|k: int| 0 <= k < 6 ==> #[trigger] shelves@[k]@ == shelf(sb, k),
    ensures
        final(out)@ == old(out)@ + shelf_table(sb, 72),
{
    let mut t: usize = 0;
    while t < 72
        invariant
            t <= 72,
            shelves.len() == 6,
            forall|k: int| 0 <= k < 6 ==> #[trigger] shelves@[k]@ == shelf(sb, k),
            out@ == old(out)@ + shelf_table(sb, t as int),
        decreases 72 - t,
    {
        let k = t / 12;
        let j = t % 12;
        let v: u32 = if j < shelves[k].len() { shelves[k][j] } else { 0 };
        push32(out, v);
        t += 1;
        assert(out@ =~= old(out)@ + shelf_table(sb, t as int));
    }
}

fn put_dir(out: &mut Vec<u8>, flat: &Vec<NamedList>, names_at: usize, members_at: usize)
    requires
        names_at + names_before(lists(flat@), flat.len() as int) <= usize::MAX,
        members_at + 4 * members_before(lists(flat@), flat.len() as int) <= usize::MAX,
    ensures
        final(out)@ == old(out)@ + dir(lists(flat@), names_at as int, members_at as int, flat.len() as int),
{
    let ghost g = lists(flat@);
    let mut nb: usize = 0;
    let mut mb: usize = 0;
    let mut t: usize = 0;
    while t < flat.len()
        invariant
            t <= flat.len(),
            g == lists(flat@),
            names_at + names_before(g, flat.len() as int) <= usize::MAX,
            members_at + 4 * members_before(g, flat.len() as int) <= usize::MAX,
            nb == names_before(g, t as int),
            mb == members_before(g, t as int),
            out@ == old(out)@ + dir(g, names_at as int, members_at as int, t as int),
        decreases flat.len() - t,
    {
        proof {
            lemma_before_mono(g, t + 1, flat.len() as int);
        }
        let nl = flat[t].name.as_str().as_bytes().len();
        let ml = flat[t].members.len();
        reveal(dir_entry);
        push32(out, (names_at + nb) as u32);
        push16(out, (if nl > 65535 { 65535 } else { nl }) as u16);
        push16(out, (if ml > 65535 { 65535 } else { ml }) as u16);
        push32(out, (members_at + 4 * mb) as u32);
        nb = nb + nl;
        mb = mb + ml;
        t += 1;
        assert(out@ =~= old(out)@ + dir(g, names_at as int, members_at as int, t as int));
    }
}

fn put_members(out: &mut Vec<u8>, flat: &Vec<NamedList>)
    ensures
        final(out)@ == old(out)@ + member_lists(lists(flat@), flat.len() as int),
{
    let ghost g = lists(flat@);
    let mut t: usize = 0;
    while t < flat.len()
        invariant
            t <= flat.len(),
            g == lists(flat@),
            out@ == old(out)@ + member_lists(g, t as int),
        decreases flat.len() - t,
    {
        let ms = &flat[t].members;
        let ghost mid = out@;
        let mut j: usize = 0;
        while j < ms.len()
            invariant
                j <= ms.len(),
                out@ == mid + index_bytes(ms@, j as int),
            decreases ms.len() - j,
        {
            push32(out, ms[j]);
            j += 1;
            assert(out@ =~= mid + index_bytes(ms@, j as int));
        }
        t += 1;
        assert(out@ =~= old(out)@ + member_lists(g, t as int));
    }
}

fn put_names(out: &mut Vec<u8>, flat: &Vec<NamedList>)
    ensures
        final(out)@ == old(out)@ + name_bytes(lists(flat@), flat.len() as int),
{
    let ghost g = lists(flat@);
    let mut t: usize = 0;
    while t < flat.len()
        invariant
            t <= flat.len(),
            g == lists(flat@),
            out@ == old(out)@ + name_bytes(g, t as int),
        decreases flat.len() - t,
    {
        let b = flat[t].name.as_str().as_bytes();
        push_bytes(out, b, b.len());
        t += 1;
        assert(b@.take(b@.len() as int) =~= b@);
        assert(out@ =~= old(out)@ + name_bytes(g, t as int));
    }
}


fn shelves_of(books: &Vec<ShopBook>, order: &Vec<usize>) -> (r: Vec<Vec<u32>>)
    requires
        ranked_by(books@, order@),
    ensures
        r.len() == 6,
        forall|k: int| 0 <= k < 6 ==> #[trigger] r@[k]@ == shelf(order@.map_values(|i: usize| books@[i as int]), k),
{
    let ghost sb = order@.map_values(|i: usize| books@[i as int]);
    let mut r: Vec<Vec<u32>> = Vec::new();
    let mut k: usize = 0;
    while k < 6
        invariant
            k <= 6,
            ranked_by(books@, order@),
            sb == order@.map_values(|i: usize| books@[i as int]),
            r.len() == k,
            forall|q: int| 0 <= q < k ==> #[trigger] r@[q]@ == shelf(sb, q),
        decreases 6 - k,
    {
        r.push(shelf_of(books, order, k));
        k += 1;
    }
    r
}

fn members_total(flat: &Vec<NamedList>, Ghost(bound): Ghost<int>) -> (m: usize)
    requires
        members_before(lists(flat@), flat.len() as int) <= bound <= usize::MAX,
    ensures
        m == members_before(lists(flat@), flat.len() as int),
{
    let ghost g = lists(flat@);
    let mut m: usize = 0;
    let mut t: usize = 0;
    while t < flat.len()
        invariant
            t <= flat.len(),
            g == lists(flat@),
            members_before(g, flat.len() as int) <= bound <= usize::MAX,
            m == members_before(g, t as int),
        decreases flat.len() - t,
    {
        proof {
            lemma_before_mono(g, t + 1, flat.len() as int);
        }
        m = m + flat[t].members.len();
        t += 1;
    }
    m
}

/// Lay a decoded catalog out in the fixed-record format: the header, the records in
/// rank order, the shelf table, the group directory, the member lists, then the
/// strings.
pub fn encode(cat: &Catalog) -> (out: Vec<u8>)
    requires
        encoded_len(cat.books@) <= usize::MAX,
    ensures
        out@ == encoded(cat.books@, cat.fetched),
{
    let books = &cat.books;
    let order = rank_order_of(books);
    let ghost sb = order@.map_values(|i: usize| books@[i as int]);
    assert(sb =~= ranked(books@));
    let n = books.len();
    let shelves = shelves_of(books, &order);
    let (flat, counts) = all_groups(books, &order);
    let ghost g = lists(flat@);
    proof {
        lemma_before_nonneg(g, g.len() as int);
        lemma_extras_mono(sb, 0, n as int);
    }
    let shelf_off = HEADER + REC * n;
    let dir_off = shelf_off + SHELVES * SHELF_LEN * 4;
    let members_off = dir_off + 12 * flat.len();
    let m = members_total(&flat, Ghost(encoded_len(books@)));
    let strings_off = members_off + 4 * m;
    let mut out: Vec<u8> = Vec::new();
    put_header(&mut out, Ghost(sb), n, cat.fetched, (shelf_off, dir_off, strings_off), &shelves, &counts);
    let mut strings: Vec<u8> = Vec::new();
    put_records(&mut out, &mut strings, books, &order, strings_off);
    put_shelf_table(&mut out, Ghost(sb), &shelves);
    let names_at = strings_off + strings.len();
    put_dir(&mut out, &flat, names_at, members_off);
    put_members(&mut out, &flat);
    let ghost before = out@;
    out.append(&mut strings);
    put_names(&mut out, &flat);
    reveal(encoded);
    assert(out@ =~= encoded(books@, cat.fetched));
    out
}

} // verus!
