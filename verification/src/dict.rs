//! Dictionaries: StarDict dictionaries on the card, the built-in WordNet blob, the
//! shared definition type, and the text helpers every dictionary uses (stemming,
//! markup stripping).

use vstd::prelude::*;
use crate::textutil::{chars_end_with, chars_of, ends_with, extend_chars, prefix_chars, push_char, str_lowercase, string_of};

pub mod builtin;
pub mod card;

pub use card::{list, Dict, DictView, DICT_DIR};

verus! {

/// A definition.
#[derive(Clone, Debug, PartialEq, Eq)]
pub struct Entry {
    /// The headword as stored.
    pub headword: String,
    /// The definition text (plain, with newlines).
    pub text: String,
}

/// Case folding for comparisons: the Unicode lowercase.
pub fn fold(s: &str) -> (r: String)
    ensures
        r@ == str_lowercase(s@),
{
    crate::textutil::to_lowercase(s)
}

/// The suffix rules, in the order they are tried: (suffix, replacement).
pub open spec fn stem_rules() -> Seq<(Seq<char>, Seq<char>)> {
    seq![
        (seq!['i', 'e', 's'], seq!['y']),
        (seq!['e', 's'], seq![]),
        (seq!['s'], seq![]),
        (seq!['e', 'd'], seq![]),
        (seq!['e', 'd'], seq!['e']),
        (seq!['i', 'n', 'g'], seq![]),
        (seq!['i', 'n', 'g'], seq!['e']),
        (seq!['e', 'r'], seq![]),
        (seq!['e', 's', 't'], seq![]),
        (seq!['l', 'y'], seq![]),
        (seq!['n', 'e', 's', 's'], seq![]),
        (seq!['m', 'e', 'n', 't'], seq![]),
    ]
}

/// The candidate of one rule: `w` with the suffix replaced, if `w` ends with it.
pub open spec fn rule_candidate(w: Seq<char>, rule: (Seq<char>, Seq<char>)) -> Option<Seq<char>> {
    if ends_with(w, rule.0) {
        Some(w.subrange(0, w.len() - rule.0.len()) + rule.1)
    } else {
        None
    }
}

/// The stem left by "-ed", else by "-ing".
pub open spec fn ed_ing_stem(w: Seq<char>) -> Option<Seq<char>> {
    if ends_with(w, seq!['e', 'd']) {
        Some(w.subrange(0, w.len() - 2))
    } else if ends_with(w, seq!['i', 'n', 'g']) {
        Some(w.subrange(0, w.len() - 3))
    } else {
        None
    }
}

/// The doubled-consonant candidate: "wadded" gives "wad". The stem's last two bytes are
/// compared; it applies when the stem ends in an ASCII character.
pub open spec fn doubled_candidate(w: Seq<char>) -> Option<Seq<char>> {
    match ed_ing_stem(w) {
        None => None,
        Some(st) => if st.len() >= 2 && (st[st.len() - 1] as u32) < 128 && st[st.len() - 1]
            == st[st.len() - 2] {
            Some(st.subrange(0, st.len() - 1))
        } else {
            None
        },
    }
}

/// At least two bytes in UTF-8: two characters, or one outside ASCII.
pub open spec fn two_bytes_or_more(s: Seq<char>) -> bool {
    s.len() >= 2 || (s.len() == 1 && (s[0] as u32) >= 128)
}

/// Add a candidate unless it is shorter than two bytes or already listed.
pub open spec fn add_candidate(out: Seq<Seq<char>>, s: Seq<char>) -> Seq<Seq<char>> {
    if two_bytes_or_more(s) && !out.contains(s) {
        out.push(s)
    } else {
        out
    }
}

/// The candidates of the first `k` rules.
pub open spec fn stems_upto(w: Seq<char>, k: int) -> Seq<Seq<char>>
    decreases k,
{
    if k <= 0 {
        Seq::empty()
    } else {
        let out = stems_upto(w, k - 1);
        match rule_candidate(w, stem_rules()[k - 1]) {
            Some(c) => add_candidate(out, c),
            None => out,
        }
    }
}

/// Candidate base forms for an inflected word, in order, without repeats.
pub open spec fn spec_stems(w: Seq<char>) -> Seq<Seq<char>> {
    let out = stems_upto(w, 12);
    match doubled_candidate(w) {
        Some(c) => add_candidate(out, c),
        None => out,
    }
}

fn contains_string(out: &Vec<String>, s: &String) -> (b: bool)
    ensures
        b == out@.map_values(|x: String| x@).contains(s@),
{
    let ghost v = out@.map_values(|x: String| x@);
    let mut i: usize = 0;
    while i < out.len()
        invariant
            0 <= i <= out.len(),
            v == out@.map_values(|x: String| x@),
            forall|j: int| 0 <= j < i ==> v[j] != s@,
        decreases out.len() - i,
    {
        if out[i] == *s {
            assert(v[i as int] == s@);
            return true;
        }
        i += 1;
    }
    false
}

fn add_stem(out: &mut Vec<String>, c: &Vec<char>)
    ensures
        final(out)@.map_values(|x: String| x@) == add_candidate(old(out)@.map_values(|x: String| x@), c@),
{
    let s = string_of(c);
    let long = c.len() >= 2 || (c.len() == 1 && (c[0] as u32) >= 128u32);
    if long && !contains_string(out, &s) {
        let ghost before = out@;
        out.push(s);
        assert(out@.map_values(|x: String| x@) =~= before.map_values(|x: String| x@).push(c@));
    }
}

fn apply_rule(w: &Vec<char>, suffix: &Vec<char>, repl: &Vec<char>) -> (r: Option<Vec<char>>)
    ensures
        r matches Some(c) ==> rule_candidate(w@, (suffix@, repl@)) == Some(c@),
        r is None ==> rule_candidate(w@, (suffix@, repl@)) is None,
{
    if chars_end_with(w, suffix) {
        let mut c = prefix_chars(w, w.len() - suffix.len());
        extend_chars(&mut c, repl);
        Some(c)
    } else {
        None
    }
}

fn try_rule(out: &mut Vec<String>, cs: &Vec<char>, suffix: Vec<char>, repl: Vec<char>, Ghost(k): Ghost<int>)
    requires
        0 <= k < 12,
        old(out)@.map_values(|x: String| x@) == stems_upto(cs@, k),
        suffix@ =~= stem_rules()[k].0,
        repl@ =~= stem_rules()[k].1,
    ensures
        final(out)@.map_values(|x: String| x@) == stems_upto(cs@, k + 1),
{
    assert((suffix@, repl@) == stem_rules()[k]);
    match apply_rule(cs, &suffix, &repl) {
        Some(c) => add_stem(out, &c),
        None => {},
    }
}


/// Candidate base forms for an inflected word.
pub fn stems(w: &str) -> (out: Vec<String>)
    ensures
        out@.map_values(|x: String| x@) == spec_stems(w@),
{
    let cs = chars_of(w);
    let mut out: Vec<String> = Vec::new();
    assert(out@.map_values(|x: String| x@) =~= stems_upto(cs@, 0));
    try_rule(&mut out, &cs, vec!['i', 'e', 's'], vec!['y'], Ghost(0));
    try_rule(&mut out, &cs, vec!['e', 's'], vec![], Ghost(1));
    try_rule(&mut out, &cs, vec!['s'], vec![], Ghost(2));
    try_rule(&mut out, &cs, vec!['e', 'd'], vec![], Ghost(3));
    try_rule(&mut out, &cs, vec!['e', 'd'], vec!['e'], Ghost(4));
    try_rule(&mut out, &cs, vec!['i', 'n', 'g'], vec![], Ghost(5));
    try_rule(&mut out, &cs, vec!['i', 'n', 'g'], vec!['e'], Ghost(6));
    try_rule(&mut out, &cs, vec!['e', 'r'], vec![], Ghost(7));
    try_rule(&mut out, &cs, vec!['e', 's', 't'], vec![], Ghost(8));
    try_rule(&mut out, &cs, vec!['l', 'y'], vec![], Ghost(9));
    try_rule(&mut out, &cs, vec!['n', 'e', 's', 's'], vec![], Ghost(10));
    try_rule(&mut out, &cs, vec!['m', 'e', 'n', 't'], vec![], Ghost(11));
    // Doubled consonant: "wadded" gives "wad".
    let ed = vec!['e', 'd'];
    let ing = vec!['i', 'n', 'g'];
    let stem: Option<Vec<char>> = if chars_end_with(&cs, &ed) {
        Some(prefix_chars(&cs, cs.len() - 2))
    } else if chars_end_with(&cs, &ing) {
        Some(prefix_chars(&cs, cs.len() - 3))
    } else {
        None
    };
    match stem {
        Some(st) => {
            let n = st.len();
            if n >= 2 && (st[n - 1] as u32) < 128u32 && st[n - 1] == st[n - 2] {
                add_stem(&mut out, &prefix_chars(&st, n - 1));
            }
        },
        None => {},
    }
    out
}

/// Text without markup tags (`<...>` removed).
pub open spec fn untagged(s: Seq<char>, in_tag: bool) -> Seq<char>
    decreases s.len(),
{
    if s.len() == 0 {
        Seq::empty()
    } else {
        let c = s[0];
        if c == '<' {
            untagged(s.drop_first(), true)
        } else if c == '>' {
            untagged(s.drop_first(), false)
        } else if in_tag {
            untagged(s.drop_first(), in_tag)
        } else {
            seq![c] + untagged(s.drop_first(), in_tag)
        }
    }
}

/// Every non-overlapping occurrence of `pat`, left to right, replaced by `rep`.
pub open spec fn replace_all(s: Seq<char>, pat: Seq<char>, rep: Seq<char>) -> Seq<char>
    decreases s.len(),
{
    if s.len() == 0 {
        Seq::empty()
    } else if 0 < pat.len() <= s.len() && s.subrange(0, pat.len() as int) == pat {
        rep + replace_all(s.subrange(pat.len() as int, s.len() as int), pat, rep)
    } else {
        seq![s[0]] + replace_all(s.drop_first(), pat, rep)
    }
}

/// The text of a definition: tags removed, then the entities `&lt;`, `&gt;`, `&amp;` and
/// `&quot;` replaced in that order.
pub open spec fn spec_strip_markup(s: Seq<char>) -> Seq<char> {
    let t = untagged(s, false);
    let t = replace_all(t, seq!['&', 'l', 't', ';'], seq!['<']);
    let t = replace_all(t, seq!['&', 'g', 't', ';'], seq!['>']);
    let t = replace_all(t, seq!['&', 'a', 'm', 'p', ';'], seq!['&']);
    replace_all(t, seq!['&', 'q', 'u', 'o', 't', ';'], seq!['"'])
}

fn replace(s: &Vec<char>, pat: &Vec<char>, rep: &Vec<char>) -> (r: Vec<char>)
    requires
        pat.len() > 0,
    ensures
        r@ == replace_all(s@, pat@, rep@),
{
    let mut out: Vec<char> = Vec::new();
    let mut i: usize = 0;
    let n = s.len();
    let m = pat.len();
    assert(s@.subrange(0, n as int) =~= s@);
    while i < n
        invariant
            0 <= i <= n == s.len(),
            m == pat.len() > 0,
            out@ + replace_all(s@.subrange(i as int, n as int), pat@, rep@) == replace_all(s@, pat@, rep@),
        decreases n - i,
    {
        let ghost rest = s@.subrange(i as int, n as int);
        let mut matched = m <= n - i;
        let mut j: usize = 0;
        while matched && j < m
            invariant
                0 <= j <= m,
                m == pat.len(),
                i < n == s.len(),
                matched ==> m <= n - i,
                matched ==> forall|q: int| 0 <= q < j ==> s@[i + q] == pat@[q],
                !matched ==> !(m <= n - i && rest.subrange(0, m as int) == pat@),
                rest == s@.subrange(i as int, n as int),
            decreases m - j,
        {
            if s[i + j] != pat[j] {
                matched = false;
                assert(rest.subrange(0, m as int)[j as int] != pat@[j as int]);
            }
            j += 1;
        }
        if matched {
            assert(rest.subrange(0, m as int) =~= pat@);
            extend_chars(&mut out, rep);
            assert(rest.subrange(m as int, rest.len() as int) =~= s@.subrange((i + m) as int, n as int));
            i += m;
        } else {
            out.push(s[i]);
            assert(rest.drop_first() =~= s@.subrange(i + 1, n as int));
            i += 1;
        }
    }
    assert(replace_all(s@.subrange(n as int, n as int), pat@, rep@) == Seq::<char>::empty());
    assert(out@ + Seq::<char>::empty() =~= out@);
    out
}

/// Remove light markup (StarDict "m"/"h" types): tags and entities.
pub fn strip_markup(s: &str) -> (r: String)
    ensures
        r@ == spec_strip_markup(s@),
{
    let cs = chars_of(s);
    let mut out: Vec<char> = Vec::new();
    let mut in_tag = false;
    let mut i: usize = 0;
    assert(cs@.subrange(0, cs.len() as int) =~= cs@);
    while i < cs.len()
        invariant
            0 <= i <= cs.len(),
            out@ + untagged(cs@.subrange(i as int, cs.len() as int), in_tag) == untagged(cs@, false),
        decreases cs.len() - i,
    {
        let c = cs[i];
        let ghost rest = cs@.subrange(i as int, cs.len() as int);
        assert(rest.drop_first() =~= cs@.subrange(i + 1, cs.len() as int));
        if c == '<' {
            in_tag = true;
        } else if c == '>' {
            in_tag = false;
        } else if !in_tag {
            out.push(c);
            assert(out@ + untagged(rest.drop_first(), in_tag) =~= out@.drop_last() + (seq![c] + untagged(rest.drop_first(), in_tag)));
        }
        i += 1;
    }
    assert(cs@.subrange(0, cs.len() as int) =~= cs@);
    assert(untagged(cs@.subrange(cs.len() as int, cs.len() as int), in_tag) == Seq::<char>::empty());
    assert(out@ + Seq::<char>::empty() =~= out@);
    let lt = vec!['&', 'l', 't', ';'];
    let gt = vec!['&', 'g', 't', ';'];
    let amp = vec!['&', 'a', 'm', 'p', ';'];
    let quot = vec!['&', 'q', 'u', 'o', 't', ';'];
    assert(lt@ =~= seq!['&', 'l', 't', ';']);
    assert(gt@ =~= seq!['&', 'g', 't', ';']);
    assert(amp@ =~= seq!['&', 'a', 'm', 'p', ';']);
    assert(quot@ =~= seq!['&', 'q', 'u', 'o', 't', ';']);
    let c_lt = vec!['<'];
    let c_gt = vec!['>'];
    let c_amp = vec!['&'];
    let c_quot = vec!['"'];
    assert(c_lt@ =~= seq!['<'] && c_gt@ =~= seq!['>'] && c_amp@ =~= seq!['&'] && c_quot@ =~= seq!['"']);
    assert(out@ == untagged(s@, false));
    let t1 = replace(&out, &lt, &c_lt);
    let t2 = replace(&t1, &gt, &c_gt);
    let t3 = replace(&t2, &amp, &c_amp);
    let t4 = replace(&t3, &quot, &c_quot);
    assert(t4@ == spec_strip_markup(s@));
    string_of(&t4)
}

proof fn lemma_add_candidate_keeps(out: Seq<Seq<char>>, s: Seq<char>, x: Seq<char>)
    ensures
        out.contains(x) ==> add_candidate(out, s).contains(x),
        two_bytes_or_more(s) ==> add_candidate(out, s).contains(s),
{
    if out.contains(x) && two_bytes_or_more(s) && !out.contains(s) {
        let k = choose|k: int| 0 <= k < out.len() && out[k] == x;
        assert(out.push(s)[k] == x);
    }
    if two_bytes_or_more(s) && !out.contains(s) {
        assert(out.push(s)[out.len() as int] == s);
    }
}

proof fn lemma_stems_upto_keep(w: Seq<char>, k: int, m: int, x: Seq<char>)
    requires
        0 <= k <= m,
        stems_upto(w, k).contains(x),
    ensures
        stems_upto(w, m).contains(x),
    decreases m,
{
    if m > k {
        lemma_stems_upto_keep(w, k, m - 1, x);
        match rule_candidate(w, stem_rules()[m - 1]) {
            Some(c) => lemma_add_candidate_keeps(stems_upto(w, m - 1), c, x),
            None => {},
        }
    }
}

proof fn lemma_rule_stem(w: Seq<char>, k: int)
    requires
        0 <= k < 12,
        ends_with(w, stem_rules()[k].0),
        two_bytes_or_more(w.subrange(0, w.len() - stem_rules()[k].0.len()) + stem_rules()[k].1),
    ensures
        spec_stems(w).contains(w.subrange(0, w.len() - stem_rules()[k].0.len()) + stem_rules()[k].1),
{
    let c = w.subrange(0, w.len() - stem_rules()[k].0.len()) + stem_rules()[k].1;
    assert(rule_candidate(w, stem_rules()[k]) == Some(c));
    lemma_add_candidate_keeps(stems_upto(w, k), c, c);
    lemma_stems_upto_keep(w, k + 1, 12, c);
    match doubled_candidate(w) {
        Some(d) => lemma_add_candidate_keeps(stems_upto(w, 12), d, c),
        None => {},
    }
}

/// A doubled consonant before "-ing" or "-ed" is undone: when the letters before the
/// suffix are the same ASCII character twice, the stems hold the word without the suffix
/// and one of the pair ("running" gives "run", "wadded" gives "wad"), when that keeps at
/// least two letters.
pub proof fn lemma_doubled_stems(w: Seq<char>)
    ensures
        w.len() >= 6 && w[w.len() - 3] == 'i' && w[w.len() - 2] == 'n' && w[w.len() - 1] == 'g' && w[w.len() - 4]
            == w[w.len() - 5] && (w[w.len() - 4] as u32) < 128 ==> spec_stems(w).contains(w.subrange(0, w.len() - 4)),
        w.len() >= 5 && w[w.len() - 2] == 'e' && w[w.len() - 1] == 'd' && w[w.len() - 3] == w[w.len() - 4] && (w[w.len()
            - 3] as u32) < 128 ==> spec_stems(w).contains(w.subrange(0, w.len() - 3)),
{
    let n = w.len() as int;
    if n >= 6 && w[n - 3] == 'i' && w[n - 2] == 'n' && w[n - 1] == 'g' && w[n - 4] == w[n - 5] && (w[n - 4] as u32) < 128 {
        assert(w.subrange(n - 3, n) =~= seq!['i', 'n', 'g']);
        assert(!ends_with(w, seq!['e', 'd'])) by {
            assert(w.subrange(n - 2, n)[0] == 'n');
        }
        let st = w.subrange(0, n - 3);
        assert(ed_ing_stem(w) == Some(st));
        assert(st.subrange(0, st.len() - 1) =~= w.subrange(0, n - 4));
        assert(doubled_candidate(w) == Some(w.subrange(0, n - 4)));
        lemma_add_candidate_keeps(stems_upto(w, 12), w.subrange(0, n - 4), w.subrange(0, n - 4));
    }
    if n >= 5 && w[n - 2] == 'e' && w[n - 1] == 'd' && w[n - 3] == w[n - 4] && (w[n - 3] as u32) < 128 {
        assert(w.subrange(n - 2, n) =~= seq!['e', 'd']);
        let st = w.subrange(0, n - 2);
        assert(ed_ing_stem(w) == Some(st));
        assert(st.subrange(0, st.len() - 1) =~= w.subrange(0, n - 3));
        assert(doubled_candidate(w) == Some(w.subrange(0, n - 3)));
        lemma_add_candidate_keeps(stems_upto(w, 12), w.subrange(0, n - 3), w.subrange(0, n - 3));
    }
}

/// Whether the stems of `w` hold `w` with the suffix `suf` replaced by `rep`, when `w`
/// ends in `suf` and the result is at least two bytes.
pub open spec fn replaces(w: Seq<char>, suf: Seq<char>, rep: Seq<char>) -> bool {
    ends_with(w, suf) && two_bytes_or_more(w.subrange(0, w.len() - suf.len()) + rep) ==> spec_stems(w).contains(
        w.subrange(0, w.len() - suf.len()) + rep,
    )
}

/// Each suffix is undone: "-ies" becomes "-y"; "-es", "-s", "-ed", "-ing", "-er", "-est",
/// "-ly", "-ness" and "-ment" are dropped; "-ed" and "-ing" also become "-e" ("rated"
/// gives "rate", "taking" gives "take").
pub proof fn lemma_suffix_stems(w: Seq<char>)
    ensures
        replaces(w, seq!['i', 'e', 's'], seq!['y']),
        replaces(w, seq!['e', 's'], seq![]),
        replaces(w, seq!['s'], seq![]),
        replaces(w, seq!['e', 'd'], seq![]),
        replaces(w, seq!['e', 'd'], seq!['e']),
        replaces(w, seq!['i', 'n', 'g'], seq![]),
        replaces(w, seq!['i', 'n', 'g'], seq!['e']),
        replaces(w, seq!['e', 'r'], seq![]),
        replaces(w, seq!['e', 's', 't'], seq![]),
        replaces(w, seq!['l', 'y'], seq![]),
        replaces(w, seq!['n', 'e', 's', 's'], seq![]),
        replaces(w, seq!['m', 'e', 'n', 't'], seq![]),
{
    let r = stem_rules();
    assert forall|k: int| 0 <= k < 12 implies #[trigger] replaces(w, r[k].0, r[k].1) by {
        if ends_with(w, r[k].0) && two_bytes_or_more(w.subrange(0, w.len() - r[k].0.len()) + r[k].1) {
            lemma_rule_stem(w, k);
        }
    }
    assert(replaces(w, r[0].0, r[0].1));
    assert(replaces(w, r[1].0, r[1].1));
    assert(replaces(w, r[2].0, r[2].1));
    assert(replaces(w, r[3].0, r[3].1));
    assert(replaces(w, r[4].0, r[4].1));
    assert(replaces(w, r[5].0, r[5].1));
    assert(replaces(w, r[6].0, r[6].1));
    assert(replaces(w, r[7].0, r[7].1));
    assert(replaces(w, r[8].0, r[8].1));
    assert(replaces(w, r[9].0, r[9].1));
    assert(replaces(w, r[10].0, r[10].1));
    assert(replaces(w, r[11].0, r[11].1));
}


/// `s` is `w` with the suffix `suf` replaced by `rep`.
pub open spec fn undone(w: Seq<char>, s: Seq<char>, suf: Seq<char>, rep: Seq<char>) -> bool {
    ends_with(w, suf) && s == w.subrange(0, w.len() - suf.len()) + rep
}

/// `s` is a base form of `w` under one of the suffix rules, or `w` without "-ing" or
/// "-ed" and one letter of a doubled ASCII pair before it.
pub open spec fn stem_of(w: Seq<char>, s: Seq<char>) -> bool {
    let n = w.len() as int;
    ||| undone(w, s, seq!['i', 'e', 's'], seq!['y'])
    ||| undone(w, s, seq!['e', 's'], seq![])
    ||| undone(w, s, seq!['s'], seq![])
    ||| undone(w, s, seq!['e', 'd'], seq![])
    ||| undone(w, s, seq!['e', 'd'], seq!['e'])
    ||| undone(w, s, seq!['i', 'n', 'g'], seq![])
    ||| undone(w, s, seq!['i', 'n', 'g'], seq!['e'])
    ||| undone(w, s, seq!['e', 'r'], seq![])
    ||| undone(w, s, seq!['e', 's', 't'], seq![])
    ||| undone(w, s, seq!['l', 'y'], seq![])
    ||| undone(w, s, seq!['n', 'e', 's', 's'], seq![])
    ||| undone(w, s, seq!['m', 'e', 'n', 't'], seq![])
    ||| ends_with(w, seq!['e', 'd']) && n >= 4 && w[n - 3] == w[n - 4] && (w[n - 3] as u32) < 128 && s == w.subrange(0, n - 3)
    ||| ends_with(w, seq!['i', 'n', 'g']) && n >= 5 && w[n - 4] == w[n - 5] && (w[n - 4] as u32) < 128 && s == w.subrange(
        0,
        n - 4,
    )
}

#[verifier::spinoff_prover]
proof fn lemma_stems_upto_only(w: Seq<char>, k: int)
    requires
        0 <= k <= 12,
    ensures
        forall|i: int|
            0 <= i < stems_upto(w, k).len() ==> two_bytes_or_more(#[trigger] stems_upto(w, k)[i]) && exists|q: int|
                0 <= q < k && #[trigger] rule_candidate(w, stem_rules()[q]) == Some(stems_upto(w, k)[i]),
        forall|i: int, j: int|
            0 <= i < j < stems_upto(w, k).len() ==> #[trigger] stems_upto(w, k)[i] != #[trigger] stems_upto(w, k)[j],
    decreases k,
{
    if k > 0 {
        lemma_stems_upto_only(w, k - 1);
        let out = stems_upto(w, k - 1);
        match rule_candidate(w, stem_rules()[k - 1]) {
            Some(c) => {
                if two_bytes_or_more(c) && !out.contains(c) {
                    let o2 = out.push(c);
                    assert forall|i: int| 0 <= i < o2.len() implies two_bytes_or_more(#[trigger] o2[i]) && exists|q: int|
                        0 <= q < k && #[trigger] rule_candidate(w, stem_rules()[q]) == Some(o2[i]) by {
                        if i < out.len() {
                            assert(o2[i] == out[i]);
                            let q = choose|q: int| 0 <= q < k - 1 && #[trigger] rule_candidate(w, stem_rules()[q]) == Some(out[i]);
                            assert(rule_candidate(w, stem_rules()[q]) == Some(o2[i]));
                        } else {
                            assert(rule_candidate(w, stem_rules()[k - 1]) == Some(o2[i]));
                        }
                    }
                    assert forall|i: int, j: int| 0 <= i < j < o2.len() implies #[trigger] o2[i] != #[trigger] o2[j] by {
                        if j == out.len() {
                            assert(o2[i] == out[i]);
                        }
                    }
                }
            },
            None => {},
        }
    }
}

/// The stems are only base forms: each is at least two bytes, is `w` with one of the
/// suffixes undone or a doubled letter dropped, and none is listed twice.
#[verifier::spinoff_prover]
pub proof fn lemma_stems_only(w: Seq<char>)
    ensures
        forall|i: int|
            0 <= i < spec_stems(w).len() ==> two_bytes_or_more(#[trigger] spec_stems(w)[i]) && stem_of(w, spec_stems(w)[i]),
        forall|i: int, j: int| 0 <= i < j < spec_stems(w).len() ==> #[trigger] spec_stems(w)[i] != #[trigger] spec_stems(w)[j],
{
    lemma_stems_upto_only(w, 12);
    let out = stems_upto(w, 12);
    let n = w.len() as int;
    let r = stem_rules();
    assert forall|i: int| 0 <= i < out.len() implies #[trigger] stem_of(w, out[i]) by {
        let q = choose|q: int| 0 <= q < 12 && #[trigger] rule_candidate(w, stem_rules()[q]) == Some(out[i]);
        assert(undone(w, out[i], r[q].0, r[q].1));
    }
    match doubled_candidate(w) {
        Some(d) => {
            if two_bytes_or_more(d) && !out.contains(d) {
                let o2 = out.push(d);
                assert(stem_of(w, d)) by {
                    if ends_with(w, seq!['e', 'd']) {
                        assert(w.subrange(0, n - 2).subrange(0, n - 3) =~= w.subrange(0, n - 3));
                    } else {
                        assert(w.subrange(0, n - 3).subrange(0, n - 4) =~= w.subrange(0, n - 4));
                    }
                }
                assert forall|i: int| 0 <= i < o2.len() implies two_bytes_or_more(#[trigger] o2[i]) && stem_of(w, o2[i]) by {
                    if i < out.len() {
                        assert(o2[i] == out[i]);
                    }
                }
                assert forall|i: int, j: int| 0 <= i < j < o2.len() implies #[trigger] o2[i] != #[trigger] o2[j] by {
                    if j == out.len() {
                        assert(o2[i] == out[i]);
                    }
                }
            }
        },
        None => {},
    }
}

} // verus!
