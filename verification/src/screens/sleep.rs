//! The sleep screen's quote of the day: from `quotes.txt` on the card (one per line,
//! `text | source`) or from the built-in list.

use vstd::prelude::*;
use crate::textutil::{chars_of, owned, split_chars, split_on, string_of, strips, trim_by, trim_chars, Strip};

verus! {

/// Built-in quotes (text, author · work).
pub open spec fn builtin_quotes() -> Seq<(Seq<char>, Seq<char>)> {
    seq![
        ("Rather than love, than money, than fame, give me truth."@, "Thoreau · Walden"@),
        (
            "It is a truth universally acknowledged, that a single man in possession of a good fortune, must be in want of a wife."@,
            "Austen · Pride and Prejudice"@,
        ),
        ("Call me Ishmael."@, "Melville · Moby-Dick"@),
        ("All that we see or seem is but a dream within a dream."@, "Poe · A Dream Within a Dream"@),
        ("The world is a book, and those who do not travel read only one page."@, "Augustine"@),
        ("We read to know we are not alone."@, "attributed to C. S. Lewis"@),
        (
            "A reader lives a thousand lives before he dies. The man who never reads lives only one."@,
            "Martin · A Dance with Dragons"@,
        ),
        ("There is no friend as loyal as a book."@, "Hemingway"@),
        ("Books are a uniquely portable magic."@, "King · On Writing"@),
        (
            "Until I feared I would lose it, I never loved to read. One does not love breathing."@,
            "Lee · To Kill a Mockingbird"@,
        ),
        ("So many books, so little time."@, "Zappa"@),
        (
            "The reading of all good books is like a conversation with the finest minds of past centuries."@,
            "Descartes"@,
        ),
        ("I have always imagined that Paradise will be a kind of library."@, "Borges"@),
        ("You can never get a cup of tea large enough or a book long enough to suit me."@, "C. S. Lewis"@),
    ]
}

/// Built-in quote `k`.
fn builtin_quote(k: usize) -> (r: (&'static str, &'static str))
    requires
        k < 14,
    ensures
        (r.0@, r.1@) == builtin_quotes()[k as int],
{
    match k {
        0 => ("Rather than love, than money, than fame, give me truth.", "Thoreau · Walden"),
        1 => (
            "It is a truth universally acknowledged, that a single man in possession of a good fortune, must be in want of a wife.",
            "Austen · Pride and Prejudice",
        ),
        2 => ("Call me Ishmael.", "Melville · Moby-Dick"),
        3 => ("All that we see or seem is but a dream within a dream.", "Poe · A Dream Within a Dream"),
        4 => ("The world is a book, and those who do not travel read only one page.", "Augustine"),
        5 => ("We read to know we are not alone.", "attributed to C. S. Lewis"),
        6 => (
            "A reader lives a thousand lives before he dies. The man who never reads lives only one.",
            "Martin · A Dance with Dragons",
        ),
        7 => ("There is no friend as loyal as a book.", "Hemingway"),
        8 => ("Books are a uniquely portable magic.", "King · On Writing"),
        9 => (
            "Until I feared I would lose it, I never loved to read. One does not love breathing.",
            "Lee · To Kill a Mockingbird",
        ),
        10 => ("So many books, so little time.", "Zappa"),
        11 => (
            "The reading of all good books is like a conversation with the finest minds of past centuries.",
            "Descartes",
        ),
        12 => ("I have always imagined that Paradise will be a kind of library.", "Borges"),
        _ => ("You can never get a cup of tea large enough or a book long enough to suit me.", "C. S. Lewis"),
    }
}

/// The quotes of a `quotes.txt`'s lines: each trimmed, the empty ones left out.
pub open spec fn kept_lines(lines: Seq<Seq<char>>) -> Seq<Seq<char>>
    decreases lines.len(),
{
    if lines.len() == 0 {
        Seq::empty()
    } else {
        let rest = kept_lines(lines.drop_last());
        let t = trim_by(lines.last(), strips(Strip::White));
        if t.len() > 0 {
            rest.push(t)
        } else {
            rest
        }
    }
}

/// The first `|` at or after `i`.
pub open spec fn bar_from(l: Seq<char>, i: int) -> Option<int>
    decreases l.len() - i,
{
    if i < 0 || i >= l.len() {
        None
    } else if l[i] == '|' {
        Some(i)
    } else {
        bar_from(l, i + 1)
    }
}

/// A card quote's text and source: what comes before and after the first `|`, each
/// trimmed (no source without one).
pub open spec fn split_quote(l: Seq<char>) -> (Seq<char>, Seq<char>) {
    match bar_from(l, 0) {
        Some(p) => (trim_by(l.take(p), strips(Strip::White)), trim_by(l.skip(p + 1), strips(Strip::White))),
        None => (trim_by(l, strips(Strip::White)), Seq::empty()),
    }
}

/// The quote of day `day`: line `day` (round again) of the card's quotes when there are
/// any, else built-in quote `day` (round again).
pub open spec fn spec_quote_of_day(day: int, card: Option<Seq<char>>) -> (Seq<char>, Seq<char>) {
    let lines = match card {
        Some(t) => kept_lines(split_on(t, '\n')),
        None => Seq::empty(),
    };
    if lines.len() > 0 {
        split_quote(lines[day % (lines.len() as int)])
    } else {
        builtin_quotes()[day % 14]
    }
}

fn bar_in(l: &Vec<char>) -> (r: Option<usize>)
    ensures
        r matches Some(p) ==> bar_from(l@, 0) == Some(p as int) && p < l.len(),
        r is None ==> bar_from(l@, 0) is None,
{
    let mut i: usize = 0;
    while i < l.len()
        invariant
            i <= l.len(),
            bar_from(l@, 0) == bar_from(l@, i as int),
        decreases l.len() - i,
    {
        if l[i] == '|' {
            return Some(i);
        }
        i += 1;
    }
    None
}

/// Quote of the day `day`: from the text of `quotes.txt` on the card (one per line,
/// `text | source`), when it is given and holds a quote, or built in.
pub fn quote_of_day(day: u64, card: Option<&str>) -> (r: (String, String))
    ensures
        (r.0@, r.1@) == spec_quote_of_day(
            day as int,
            match card {
                Some(t) => Some(t@),
                None => None,
            },
        ),
{
    let ghost cv: Option<Seq<char>> = match card {
        Some(t) => Some(t@),
        None => None,
    };
    let mut lines: Vec<Vec<char>> = Vec::new();
    match card {
        Some(t) => {
            let pieces = split_chars(t, '\n');
            let ghost pv = pieces@.map_values(|x: String| x@);
            let mut i: usize = 0;
            assert(pv.take(0) =~= Seq::<Seq<char>>::empty());
            assert(lines@.map_values(|v: Vec<char>| v@) =~= Seq::<Seq<char>>::empty());
            while i < pieces.len()
                invariant
                    i <= pieces.len(),
                    pv == pieces@.map_values(|x: String| x@),
                    lines@.map_values(|v: Vec<char>| v@) == kept_lines(pv.take(i as int)),
                decreases pieces.len() - i,
            {
                let cs = chars_of(pieces[i].as_str());
                let tr = trim_chars(&cs, Strip::White);
                assert(pv.take(i + 1).drop_last() =~= pv.take(i as int));
                assert(pv.take(i + 1).last() == cs@);
                if tr.len() > 0 {
                    let ghost before = lines@.map_values(|v: Vec<char>| v@);
                    lines.push(tr);
                    assert(lines@.map_values(|v: Vec<char>| v@) =~= before.push(tr@));
                }
                i += 1;
            }
            assert(pv.take(pieces.len() as int) =~= pv);
        },
        None => {
            assert(lines@.map_values(|v: Vec<char>| v@) =~= Seq::<Seq<char>>::empty());
        },
    }
    let ghost lv = lines@.map_values(|v: Vec<char>| v@);
    if lines.len() > 0 {
        let k = (day % (lines.len() as u64)) as usize;
        let l = &lines[k];
        assert(lv[k as int] == l@);
        match bar_in(l) {
            Some(p) => {
                let q = trim_chars(&crate::textutil::prefix_chars(l, p), Strip::White);
                let mut rest: Vec<char> = Vec::new();
                let mut j = p + 1;
                while j < l.len()
                    invariant
                        p < j <= l.len(),
                        rest@ == l@.subrange(p + 1, j as int),
                    decreases l.len() - j,
                {
                    rest.push(l[j]);
                    j += 1;
                    assert(l@.subrange(p + 1, j as int) =~= l@.subrange(p + 1, j - 1).push(l@[j - 1]));
                }
                assert(l@.subrange(p + 1, l.len() as int) =~= l@.skip(p + 1));
                let src = trim_chars(&rest, Strip::White);
                (string_of(&q), string_of(&src))
            },
            None => {
                let q = trim_chars(l, Strip::White);
                (string_of(&q), String::new())
            },
        }
    } else {
        let (q, src) = builtin_quote((day % 14) as usize);
        (owned(q), owned(src))
    }
}

} // verus!
