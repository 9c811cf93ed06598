//! The news store's index: fetched articles merged into it, newest first, bounded.
//!
//! The store keeps one small [`ArticleMeta`] per article in an index and each body in a
//! file of its own; merging decides which bodies are written, what the index becomes,
//! and which articles (and so which body files) are dropped.

use vstd::prelude::*;
use crate::screens::apps::{Article, ArticleMeta};

verus! {

/// Where the news store lives.
pub const NEWS_DIR: &'static str = "/.quire/news";

/// The article index (metadata only).
pub const INDEX_FILE: &'static str = "/.quire/news/index.bin";

/// Articles kept at most (the newest by date).
pub const MAX_ARTICLES: usize = 200;

/// The first position, from `i` on, of an entry with `url`.
pub open spec fn url_from(idx: Seq<ArticleMeta>, url: Seq<char>, i: int) -> Option<int>
    decreases idx.len() - i,
{
    if i < 0 || i >= idx.len() {
        None
    } else if idx[i].url@ == url {
        Some(i)
    } else {
        url_from(idx, url, i + 1)
    }
}

/// A known article refetched: the title and feed title are the fetched ones, and so is
/// the date unless the fetch has none (zero); feed, link and read flag stay.
pub open spec fn refreshed(m: ArticleMeta, a: Article) -> ArticleMeta {
    ArticleMeta {
        feed: m.feed,
        feed_title: a.feed_title,
        title: a.title,
        url: m.url,
        published: if a.published != 0 { a.published } else { m.published },
        read: m.read,
    }
}

/// A new article's index entry: everything but the body.
pub open spec fn meta_of(a: Article) -> ArticleMeta {
    ArticleMeta {
        feed: a.feed,
        feed_title: a.feed_title,
        title: a.title,
        url: a.url,
        published: a.published,
        read: a.read,
    }
}

/// One fetched article merged in: the first entry with its link is refreshed in place,
/// or a new entry is appended.
pub open spec fn merge_one(idx: Seq<ArticleMeta>, a: Article) -> Seq<ArticleMeta> {
    match url_from(idx, a.url@, 0) {
        Some(i) => idx.update(i, refreshed(idx[i], a)),
        None => idx.push(meta_of(a)),
    }
}

/// The fetched articles merged in, in order.
pub open spec fn merge_all(idx: Seq<ArticleMeta>, fetched: Seq<Article>) -> Seq<ArticleMeta>
    decreases fetched.len(),
{
    if fetched.len() == 0 {
        idx
    } else {
        merge_one(merge_all(idx, fetched.drop_last()), fetched.last())
    }
}

/// Positions, in order, of the fetched articles whose link the index (as merged so far)
/// does not hold when their turn comes: their bodies are written.
pub open spec fn new_ones(idx: Seq<ArticleMeta>, fetched: Seq<Article>) -> Seq<int>
    decreases fetched.len(),
{
    if fetched.len() == 0 {
        Seq::empty()
    } else {
        let before = new_ones(idx, fetched.drop_last());
        if url_from(merge_all(idx, fetched.drop_last()), fetched.last().url@, 0) is None {
            before.push(fetched.len() - 1)
        } else {
            before
        }
    }
}

/// The first position, from `j` on, of an entry older than `p` (the length if none).
pub open spec fn older_from(s: Seq<ArticleMeta>, p: u32, j: int) -> int
    decreases s.len() - j,
{
    if j < 0 || j >= s.len() {
        s.len() as int
    } else if s[j].published < p {
        j
    } else {
        older_from(s, p, j + 1)
    }
}

/// `x` placed after every entry at least as new.
pub open spec fn insert_by_date(s: Seq<ArticleMeta>, x: ArticleMeta) -> Seq<ArticleMeta> {
    s.insert(older_from(s, x.published, 0), x)
}

/// The entries newest first, those of one date in their order: a stable sort by falling
/// date.
pub open spec fn newest_first(s: Seq<ArticleMeta>) -> Seq<ArticleMeta>
    decreases s.len(),
{
    if s.len() == 0 {
        s
    } else {
        insert_by_date(newest_first(s.drop_last()), s.last())
    }
}

/// The merged index, newest first.
pub open spec fn sorted_index(idx: Seq<ArticleMeta>, fetched: Seq<Article>) -> Seq<ArticleMeta> {
    newest_first(merge_all(idx, fetched))
}

/// The index kept: the newest [`MAX_ARTICLES`].
pub open spec fn kept(idx: Seq<ArticleMeta>, fetched: Seq<Article>) -> Seq<ArticleMeta> {
    let s = sorted_index(idx, fetched);
    if s.len() > MAX_ARTICLES { s.take(MAX_ARTICLES as int) } else { s }
}

/// The entries dropped past the bound.
pub open spec fn dropped(idx: Seq<ArticleMeta>, fetched: Seq<Article>) -> Seq<ArticleMeta> {
    let s = sorted_index(idx, fetched);
    if s.len() > MAX_ARTICLES { s.skip(MAX_ARTICLES as int) } else { Seq::empty() }
}

/// What a merge decides.
pub struct Stored {
    /// The new index, newest first, at most [`MAX_ARTICLES`] long.
    pub index: Vec<ArticleMeta>,
    /// Positions in the fetched list of the articles whose bodies are written.
    pub write: Vec<usize>,
    /// Links of the articles dropped from the index (their bodies are removed).
    pub dropped: Vec<String>,
}

/// Each entry at least as new as every later one.
pub open spec fn by_date_desc(s: Seq<ArticleMeta>) -> bool {
    forall|i: int, j: int| 0 <= i < j < s.len() ==> s[i].published >= s[j].published
}

/// Some entry has the link `url`.
pub open spec fn has_link(s: Seq<ArticleMeta>, url: Seq<char>) -> bool {
    exists|i: int| 0 <= i < s.len() && #[trigger] s[i].url@ == url
}

/// No two entries share a link.
pub open spec fn distinct_links(s: Seq<ArticleMeta>) -> bool {
    forall|i: int, j: int| 0 <= i < j < s.len() ==> s[i].url@ != s[j].url@
}

/// What `url_from` finds: an entry with the link, after none.
proof fn lemma_url_from(idx: Seq<ArticleMeta>, url: Seq<char>, i: int)
    requires
        0 <= i,
    ensures
        url_from(idx, url, i) matches Some(k) ==> i <= k < idx.len() && idx[k].url@ == url,
        url_from(idx, url, i) is None ==> forall|k: int| i <= k < idx.len() ==> idx[k].url@ != url,
    decreases idx.len() - i,
{
    if i < idx.len() && idx[i].url@ != url {
        lemma_url_from(idx, url, i + 1);
    }
}

/// What `older_from` finds: entries at least as new before it, an older one at it.
proof fn lemma_older_from(s: Seq<ArticleMeta>, p: u32, j: int)
    requires
        0 <= j <= s.len(),
    ensures
        j <= older_from(s, p, j) <= s.len(),
        forall|k: int| j <= k < older_from(s, p, j) ==> s[k].published >= p,
        older_from(s, p, j) < s.len() ==> s[older_from(s, p, j)].published < p,
    decreases s.len() - j,
{
    if j < s.len() && s[j].published >= p {
        lemma_older_from(s, p, j + 1);
    }
}

/// Inserting into a sequence adds the element to its multiset.
proof fn lemma_insert_multiset(s: Seq<ArticleMeta>, j: int, x: ArticleMeta)
    requires
        0 <= j <= s.len(),
    ensures
        s.insert(j, x).to_multiset() == s.to_multiset().insert(x),
{
    let left = s.subrange(0, j);
    let right = s.subrange(j, s.len() as int);
    assert(s =~= left + right);
    assert(s.insert(j, x) =~= left + (seq![x] + right));
    vstd::seq_lib::lemma_multiset_commutative(left, right);
    vstd::seq_lib::lemma_multiset_commutative(left, seq![x] + right);
    vstd::seq_lib::lemma_multiset_commutative(seq![x], right);
    assert(seq![x].to_multiset() =~= vstd::multiset::Multiset::empty().insert(x)) by {
        broadcast use vstd::seq_lib::group_to_multiset_ensures;
        assert(seq![x] =~= Seq::<ArticleMeta>::empty().push(x));
    }
}

/// The index is kept newest first: after a merge, every entry is at least as new as
/// every later one.
pub proof fn lemma_newest_first_sorted(s: Seq<ArticleMeta>)
    ensures
        by_date_desc(newest_first(s)),
    decreases s.len(),
{
    if s.len() > 0 {
        let t = newest_first(s.drop_last());
        lemma_newest_first_sorted(s.drop_last());
        let x = s.last();
        let j = older_from(t, x.published, 0);
        lemma_older_from(t, x.published, 0);
        let u = t.insert(j, x);
        assert forall|a: int, b: int| 0 <= a < b < u.len() implies u[a].published >= u[b].published by {
            if b < j {
            } else if a > j {
                assert(u[a] == t[a - 1] && u[b] == t[b - 1]);
            } else if a == j {
                assert(t[j] == u[j + 1]);
                assert(u[b] == t[b - 1]);
            } else if b == j {
            } else {
                assert(u[b] == t[b - 1]);
            }
        }
    }
}

/// Ordering by date loses and adds no entry.
pub proof fn lemma_newest_first_same_entries(s: Seq<ArticleMeta>)
    ensures
        newest_first(s).to_multiset() == s.to_multiset(),
    decreases s.len(),
{
    broadcast use vstd::seq_lib::group_to_multiset_ensures;
    if s.len() > 0 {
        let t = newest_first(s.drop_last());
        lemma_newest_first_same_entries(s.drop_last());
        lemma_older_from(t, s.last().published, 0);
        lemma_insert_multiset(t, older_from(t, s.last().published, 0), s.last());
        assert(s =~= s.drop_last().push(s.last()));
    }
}

/// Read flags of known articles survive a refetch: merging keeps every entry of the
/// index in its place with its link, feed and read flag, and only appends.
pub proof fn lemma_merge_keeps_known(idx: Seq<ArticleMeta>, fetched: Seq<Article>)
    ensures
        merge_all(idx, fetched).len() >= idx.len(),
        forall|i: int| 0 <= i < idx.len() ==> {
            let m = #[trigger] merge_all(idx, fetched)[i];
            m.url == idx[i].url && m.feed == idx[i].feed && m.read == idx[i].read
        },
    decreases fetched.len(),
{
    if fetched.len() > 0 {
        let prev = merge_all(idx, fetched.drop_last());
        lemma_merge_keeps_known(idx, fetched.drop_last());
        lemma_url_from(prev, fetched.last().url@, 0);
        assert forall|i: int| 0 <= i < idx.len() implies {
            let m = #[trigger] merge_all(idx, fetched)[i];
            m.url == idx[i].url && m.feed == idx[i].feed && m.read == idx[i].read
        } by {
            assert(prev[i].url == idx[i].url);
        }
    }
}

/// A refetch does not duplicate: merging into an index whose links are distinct keeps
/// them distinct, and every fetched link is then in the index.
pub proof fn lemma_merge_no_duplicates(idx: Seq<ArticleMeta>, fetched: Seq<Article>)
    requires
        distinct_links(idx),
    ensures
        distinct_links(merge_all(idx, fetched)),
        forall|k: int| 0 <= k < fetched.len() ==> has_link(merge_all(idx, fetched), #[trigger] fetched[k].url@),
    decreases fetched.len(),
{
    if fetched.len() > 0 {
        let prev = merge_all(idx, fetched.drop_last());
        let a = fetched.last();
        lemma_merge_no_duplicates(idx, fetched.drop_last());
        lemma_url_from(prev, a.url@, 0);
        let cur = merge_all(idx, fetched);
        assert(cur == merge_one(prev, a));
        assert forall|i: int| 0 <= i < prev.len() implies #[trigger] cur[i].url@ == prev[i].url@ by {}
        assert forall|k: int| 0 <= k < fetched.len() implies has_link(cur, #[trigger] fetched[k].url@) by {
            if k == fetched.len() - 1 {
                match url_from(prev, a.url@, 0) {
                    Some(w) => {
                        assert(cur[w].url@ == a.url@);
                    },
                    None => {
                        assert(cur[prev.len() as int].url@ == a.url@);
                    },
                }
            } else {
                assert(fetched.drop_last()[k] == fetched[k]);
                assert(has_link(prev, fetched.drop_last()[k].url@));
                let w = choose|i: int| 0 <= i < prev.len() && #[trigger] prev[i].url@ == fetched[k].url@;
                assert(cur[w].url@ == fetched[k].url@);
            }
        }
    }
}

/// The first entry with `url`.
fn find_url(idx: &Vec<ArticleMeta>, url: &String) -> (r: Option<usize>)
    ensures
        r matches Some(i) ==> url_from(idx@, url@, 0) == Some(i as int) && i < idx.len(),
        r is None ==> url_from(idx@, url@, 0) is None,
{
    let mut i: usize = 0;
    while i < idx.len()
        invariant
            i <= idx.len(),
            url_from(idx@, url@, 0) == url_from(idx@, url@, i as int),
        decreases idx.len() - i,
    {
        if idx[i].url == *url {
            return Some(i);
        }
        i += 1;
    }
    None
}

/// Merge fetched articles into the index: known articles (by link) keep their place,
/// feed and read flag and take the fetched title, feed title and date (a zero date
/// keeps the old one); new ones are appended and their bodies written. The index is
/// then ordered newest first (articles of one date keep their order) and cut to the
/// newest [`MAX_ARTICLES`]; the bodies of the others are removed.
pub fn store_articles(index: Vec<ArticleMeta>, fetched: &Vec<Article>) -> (r: Stored)
    ensures
        r.index@ == kept(index@, fetched@),
        r.write@.map_values(|i: usize| i as int) == new_ones(index@, fetched@),
        r.dropped@.map_values(|u: String| u@) == dropped(index@, fetched@).map_values(
            |m: ArticleMeta| m.url@,
        ),
{
    let mut idx = index;
    let mut write: Vec<usize> = Vec::new();
    let mut k: usize = 0;
    assert(fetched@.take(0) =~= Seq::<Article>::empty());
    while k < fetched.len()
        invariant
            k <= fetched.len(),
            idx@ == merge_all(index@, fetched@.take(k as int)),
            write@.map_values(|i: usize| i as int) == new_ones(index@, fetched@.take(k as int)),
            forall|j: int| 0 <= j < write.len() ==> write@[j] < k,
        decreases fetched.len() - k,
    {
        let a = &fetched[k];
        let ghost pre = fetched@.take(k as int);
        let ghost pre1 = fetched@.take(k + 1);
        assert(pre1.drop_last() =~= pre);
        assert(pre1.last() == *a);
        let ghost wv = write@.map_values(|i: usize| i as int);
        match find_url(&idx, &a.url) {
            Some(j) => {
                let m = ArticleMeta {
                    feed: idx[j].feed.clone(),
                    feed_title: a.feed_title.clone(),
                    title: a.title.clone(),
                    url: idx[j].url.clone(),
                    published: if a.published != 0 { a.published } else { idx[j].published },
                    read: idx[j].read,
                };
                idx.set(j, m);
                assert(write@.map_values(|i: usize| i as int) == new_ones(index@, pre1));
            },
            None => {
                let m = ArticleMeta {
                    feed: a.feed.clone(),
                    feed_title: a.feed_title.clone(),
                    title: a.title.clone(),
                    url: a.url.clone(),
                    published: a.published,
                    read: a.read,
                };
                idx.push(m);
                write.push(k);
                assert(write@.map_values(|i: usize| i as int) =~= wv.push(k as int));
            },
        }
        k += 1;
    }
    assert(fetched@.take(fetched.len() as int) =~= fetched@);
    let ghost merged = idx@;
    // Newest first, in a stable insertion order.
    let mut out: Vec<ArticleMeta> = Vec::new();
    let n = idx.len();
    let mut i: usize = 0;
    assert(merged.take(0) =~= Seq::<ArticleMeta>::empty());
    assert(merged.skip(0) =~= merged);
    while i < n
        invariant
            i <= n == merged.len(),
            idx@ == merged.skip(i as int),
            out@ == newest_first(merged.take(i as int)),
        decreases n - i,
    {
        let x = idx.remove(0);
        assert(x == merged[i as int]);
        assert(idx@ =~= merged.skip(i + 1));
        let ghost o = out@;
        let mut j: usize = 0;
        while j < out.len() && out[j].published >= x.published
            invariant
                j <= out.len(),
                o == out@,
                older_from(o, x.published, 0) == older_from(o, x.published, j as int),
            decreases out.len() - j,
        {
            j += 1;
        }
        proof {
            lemma_older_from(o, x.published, 0);
        }
        let ghost p1 = merged.take(i + 1);
        assert(p1.drop_last() =~= merged.take(i as int));
        assert(p1.last() == x);
        out.insert(j, x);
        i += 1;
    }
    assert(merged.take(n as int) =~= merged);
    let mut gone: Vec<String> = Vec::new();
    if out.len() > MAX_ARTICLES {
        let ghost s = out@;
        let mut d = MAX_ARTICLES;
        assert(gone@.map_values(|u: String| u@) =~= s.subrange(MAX_ARTICLES as int, MAX_ARTICLES as int).map_values(
            |m: ArticleMeta| m.url@,
        ));
        while d < out.len()
            invariant
                MAX_ARTICLES <= d <= out.len(),
                out@ == s,
                gone@.map_values(|u: String| u@) == s.subrange(MAX_ARTICLES as int, d as int).map_values(
                    |m: ArticleMeta| m.url@,
                ),
            decreases out.len() - d,
        {
            let ghost g = gone@.map_values(|u: String| u@);
            let ghost before = gone@;
            gone.push(out[d].url.clone());
            assert(gone@ =~= before.push(s[d as int].url));
            assert(gone@.map_values(|u: String| u@) =~= g.push(s[d as int].url@));
            assert(s.subrange(MAX_ARTICLES as int, d + 1).map_values(|m: ArticleMeta| m.url@) =~= s.subrange(
                MAX_ARTICLES as int,
                d as int,
            ).map_values(|m: ArticleMeta| m.url@).push(s[d as int].url@));
            assert(gone@.map_values(|u: String| u@) =~= s.subrange(MAX_ARTICLES as int, d + 1).map_values(
                |m: ArticleMeta| m.url@,
            ));
            d += 1;
        }
        assert(s.subrange(MAX_ARTICLES as int, s.len() as int) =~= s.skip(MAX_ARTICLES as int));
        out.truncate(MAX_ARTICLES);
        assert(out@ =~= s.take(MAX_ARTICLES as int));
    } else {
        assert(gone@.map_values(|u: String| u@) =~= Seq::<Seq<char>>::empty());
        assert(dropped(index@, fetched@).map_values(|m: ArticleMeta| m.url@) =~= Seq::<Seq<char>>::empty());
    }
    Stored { index: out, write, dropped: gone }
}

} // verus!
