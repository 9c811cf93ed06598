//! The Bookshop's offline catalog: the decoded books, the built-in seed, and the
//! fixed-record catalog file the screens read one record at a time.

use vstd::prelude::*;
use crate::textutil::{decimal, push_decimal, push_str};

pub mod catalog;
pub mod catalog_file;
pub mod seed;
pub mod laws;

pub use catalog::encode;
pub use catalog_file::{CatalogFile, Group, Row};
pub use seed::seed;

verus! {

/// One catalog book, fully decoded (only ever one at a time: the book page).
#[derive(Clone, Debug, PartialEq, Eq)]
pub struct ShopBook {
    /// Stable id ("pg1342", "se/…").
    pub id: String,
    /// Title.
    pub title: String,
    /// Author.
    pub author: String,
    /// Year.
    pub year: u16,
    /// Language code.
    pub lang: String,
    /// Subjects.
    pub subjects: Vec<String>,
    /// Source name ("Project Gutenberg", "Standard Ebooks", "Creative Commons").
    pub source: String,
    /// Licence line.
    pub licence: String,
    /// Download URL (EPUB).
    pub url: String,
    /// Size in bytes.
    pub size: u32,
    /// Popularity rank (lower is more popular).
    pub rank: u32,
    /// Estimated reading hours × 10.
    pub hours10: u16,
    /// Blurb.
    pub blurb: String,
    /// Collection name, if part of a curated collection.
    pub collection: Option<String>,
    /// Modern (post-1928) or Creative Commons.
    pub modern: bool,
    /// Days since epoch the edition was added.
    pub added: u16,
}

/// A decoded catalog: what the fetcher builds before it is laid out on the card.
#[derive(Clone, Debug)]
pub struct Catalog {
    /// Books.
    pub books: Vec<ShopBook>,
    /// When it was fetched.
    pub fetched: u32,
}

impl Default for Catalog {
    fn default() -> (c: Self)
        ensures
            c.books@.len() == 0,
            c.fetched == 0,
    {
        Catalog { books: Vec::new(), fetched: 0 }
    }
}


/// `" MB"`.
pub open spec fn mb_unit() -> Seq<char> {
    seq![' ', 'M', 'B']
}

/// A size in megabytes: "—" for nothing, one decimal below 10 MB ("0.7 MB"), whole
/// megabytes above ("33 MB").
pub open spec fn spec_fmt_mb(b: nat) -> Seq<char> {
    if b == 0 {
        seq!['\u{2014}']
    } else if b < 10_000_000 {
        decimal(b / 1_000_000) + seq!['.'] + decimal((b % 1_000_000) / 100_000) + mb_unit()
    } else {
        decimal(b / 1_000_000) + mb_unit()
    }
}

/// "0.7 MB" / "12 MB" / "—".
pub fn fmt_mb(b: u64) -> (s: String)
    ensures
        s@ == spec_fmt_mb(b as nat),
{
    let mut s = String::new();
    if b == 0 {
        crate::textutil::push_char(&mut s, '\u{2014}');
        assert(s@ =~= spec_fmt_mb(b as nat));
        return s;
    }
    let unit = " MB";
    proof {
        reveal_strlit(" MB");
        assert(unit@ =~= mb_unit());
    }
    push_decimal(&mut s, b / 1_000_000);
    if b < 10_000_000 {
        crate::textutil::push_char(&mut s, '.');
        push_decimal(&mut s, (b % 1_000_000) / 100_000);
    }
    push_str(&mut s, unit);
    assert(s@ =~= spec_fmt_mb(b as nat));
    s
}

/// Reading time from hours × 10: minutes below an hour ("30 min"), whole hours above
/// ("6 h").
pub open spec fn spec_hours_text(h10: nat) -> Seq<char> {
    if h10 < 10 {
        decimal(h10 * 6) + seq![' ', 'm', 'i', 'n']
    } else {
        decimal(h10 / 10) + seq![' ', 'h']
    }
}

/// "30 min" / "6 h".
pub fn hours_text(h10: u16) -> (s: String)
    ensures
        s@ == spec_hours_text(h10 as nat),
{
    let mut s = String::new();
    if h10 < 10 {
        let unit = " min";
        proof {
            reveal_strlit(" min");
        }
        push_decimal(&mut s, h10 as u64 * 6);
        push_str(&mut s, unit);
    } else {
        let unit = " h";
        proof {
            reveal_strlit(" h");
        }
        push_decimal(&mut s, (h10 / 10) as u64);
        push_str(&mut s, unit);
    }
    assert(s@ =~= spec_hours_text(h10 as nat));
    s
}

/// The short mark of a source code: "PG", "SE", else "CC".
pub fn src_glyph(source: u8) -> (s: &'static str)
    ensures
        source == 0 ==> s@ == seq!['P', 'G'],
        source == 1 ==> s@ == seq!['S', 'E'],
        source > 1 ==> s@ == seq!['C', 'C'],
{
    proof {
        reveal_strlit("PG");
        reveal_strlit("SE");
        reveal_strlit("CC");
    }
    match source {
        0 => "PG",
        1 => "SE",
        _ => "CC",
    }
}

} // verus!
