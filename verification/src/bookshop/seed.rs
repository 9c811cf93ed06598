//! The built-in seed: a few public-domain classics, so the shop works before any
//! catalog download.

use vstd::prelude::*;
use crate::bookshop::{Catalog, ShopBook};
use crate::textutil::{chars_of, owned, split_chars, split_on, string_of, strips, trim_by, trim_chars, Strip};

verus! {

/// The subjects of a comma-separated list: each piece trimmed.
pub open spec fn seed_subjects(subj: Seq<char>) -> Seq<Seq<char>> {
    split_on(subj, ',').map_values(|p: Seq<char>| trim_by(p, strips(Strip::White)))
}

/// What every seed book shares: English, from Project Gutenberg, in the public domain,
/// in the "Start here" collection, not modern, added on day 0.
pub open spec fn seed_book(b: ShopBook) -> bool {
    &&& b.lang@ == seq!['e', 'n']
    &&& b.source@ == seq!['P', 'r', 'o', 'j', 'e', 'c', 't', ' ', 'G', 'u', 't', 'e', 'n', 'b', 'e', 'r', 'g']
    &&& b.licence@ == seq!['P', 'u', 'b', 'l', 'i', 'c', ' ', 'd', 'o', 'm', 'a', 'i', 'n']
    &&& (match b.collection {
        Some(c) => c@ == seq!['S', 't', 'a', 'r', 't', ' ', 'h', 'e', 'r', 'e'],
        None => false,
    })
    &&& !b.modern
    &&& b.added == 0
}

fn trimmed_pieces(subj: &str) -> (r: Vec<String>)
    ensures
        r@.map_values(|s: String| s@) == seed_subjects(subj@),
{
    let parts = split_chars(subj, ',');
    let ghost pv = parts@.map_values(|x: String| x@);
    let mut r: Vec<String> = Vec::new();
    let mut j: usize = 0;
    while j < parts.len()
        invariant
            j <= parts.len(),
            pv == parts@.map_values(|x: String| x@),
            pv == split_on(subj@, ','),
            r@.map_values(|s: String| s@) == pv.subrange(0, j as int).map_values(
                |p: Seq<char>| trim_by(p, strips(Strip::White)),
            ),
        decreases parts.len() - j,
    {
        let cs = chars_of(parts[j].as_str());
        let t = trim_chars(&cs, Strip::White);
        let ghost before = r@;
        r.push(string_of(&t));
        j += 1;
        assert(r@.map_values(|s: String| s@) =~= before.map_values(|s: String| s@).push(t@));
        assert(pv.subrange(0, j as int).map_values(|p: Seq<char>| trim_by(p, strips(Strip::White))) =~= pv.subrange(
            0,
            j - 1,
        ).map_values(|p: Seq<char>| trim_by(p, strips(Strip::White))).push(trim_by(pv[j - 1], strips(Strip::White))));
    }
    assert(pv.subrange(0, j as int) =~= pv);
    r
}

fn mk(
    id: &str,
    title: &str,
    author: &str,
    year: u16,
    subj: &str,
    url: &str,
    size: u32,
    rank: u32,
    hours10: u16,
    blurb: &str,
) -> (b: ShopBook)
    ensures
        b.id@ == id@,
        b.title@ == title@,
        b.author@ == author@,
        b.year == year,
        b.subjects@.map_values(|s: String| s@) == seed_subjects(subj@),
        b.url@ == url@,
        b.size == size,
        b.rank == rank,
        b.hours10 == hours10,
        b.blurb@ == blurb@,
        seed_book(b),
{
    let en = "en";
    let pg = "Project Gutenberg";
    let pd = "Public domain";
    let sh = "Start here";
    proof {
        reveal_strlit("en");
        reveal_strlit("Project Gutenberg");
        reveal_strlit("Public domain");
        reveal_strlit("Start here");
        assert(en@ =~= seq!['e', 'n']);
        assert(pg@ =~= seq!['P', 'r', 'o', 'j', 'e', 'c', 't', ' ', 'G', 'u', 't', 'e', 'n', 'b', 'e', 'r', 'g']);
        assert(pd@ =~= seq!['P', 'u', 'b', 'l', 'i', 'c', ' ', 'd', 'o', 'm', 'a', 'i', 'n']);
        assert(sh@ =~= seq!['S', 't', 'a', 'r', 't', ' ', 'h', 'e', 'r', 'e']);
    }
    ShopBook {
        id: owned(id),
        title: owned(title),
        author: owned(author),
        year,
        lang: owned(en),
        subjects: trimmed_pieces(subj),
        source: owned(pg),
        licence: owned(pd),
        url: owned(url),
        size,
        rank,
        hours10,
        blurb: owned(blurb),
        collection: Some(owned(sh)),
        modern: false,
        added: 0,
    }
}

/// The seed's books, in rank order: (id, title, author, year, subjects, link, size,
/// reading time in tenths of an hour, blurb).
pub open spec fn seed_rows() -> Seq<(Seq<char>, Seq<char>, Seq<char>, u16, Seq<char>, Seq<char>, u32, u16, Seq<char>)> {
    seq![
        ("pg1342"@, "Pride and Prejudice"@, "Jane Austen"@, 1813u16, "romance, classics"@, "https://www.gutenberg.org/ebooks/1342.epub3.images"@, 720_000u32, 60u16, "Elizabeth Bennet and Mr Darcy misjudge each other, and slowly learn better, in the best-loved comedy of manners in English."@),
        ("pg1661"@, "The Adventures of Sherlock Holmes"@, "Arthur Conan Doyle"@, 1892u16, "mystery, short stories"@, "https://www.gutenberg.org/ebooks/1661.epub3.images"@, 640_000u32, 50u16, "Twelve cases from Baker Street, from A Scandal in Bohemia to The Copper Beeches."@),
        ("pg205"@, "Walden"@, "Henry David Thoreau"@, 1854u16, "nature, philosophy"@, "https://www.gutenberg.org/ebooks/205.epub3.images"@, 520_000u32, 80u16, "Two years in a cabin by a pond, and what a deliberate life costs and gives."@),
        ("pg2701"@, "Moby-Dick"@, "Herman Melville"@, 1851u16, "adventure, classics"@, "https://www.gutenberg.org/ebooks/2701.epub3.images"@, 1_400_000u32, 180u16, "Call me Ishmael. A whaling voyage, a wounded captain, and the white whale."@),
        ("pg84"@, "Frankenstein"@, "Mary Shelley"@, 1818u16, "gothic, science fiction"@, "https://www.gutenberg.org/ebooks/84.epub3.images"@, 480_000u32, 55u16, "A young scientist creates a living being and abandons it."@),
        ("pg1232"@, "The Prince"@, "Niccolò Machiavelli"@, 1532u16, "politics, philosophy"@, "https://www.gutenberg.org/ebooks/1232.epub3.images"@, 260_000u32, 30u16, "How princes gain and keep power, told without illusions."@),
        ("pg11"@, "Alice's Adventures in Wonderland"@, "Lewis Carroll"@, 1865u16, "fantasy, children"@, "https://www.gutenberg.org/ebooks/11.epub3.images"@, 340_000u32, 25u16, "Down the rabbit hole with the Cheshire Cat, the Hatter and the Queen of Hearts."@),
        ("pg2600"@, "War and Peace"@, "Leo Tolstoy"@, 1869u16, "historical, classics"@, "https://www.gutenberg.org/ebooks/2600.epub3.images"@, 3_300_000u32, 350u16, "Five families and Napoleon's invasion of Russia."@),
        ("pg145"@, "Middlemarch"@, "George Eliot"@, 1871u16, "classics"@, "https://www.gutenberg.org/ebooks/145.epub3.images"@, 1_500_000u32, 210u16, "A study of provincial life: Dorothea, Lydgate, and the town that shapes them."@),
        ("pg1400"@, "Great Expectations"@, "Charles Dickens"@, 1861u16, "classics"@, "https://www.gutenberg.org/ebooks/1400.epub3.images"@, 1_000_000u32, 130u16, "Pip, Estella, Magwitch and the fortune that was not what it seemed."@),
        ("pg2814"@, "Dubliners"@, "James Joyce"@, 1914u16, "short stories"@, "https://www.gutenberg.org/ebooks/2814.epub3.images"@, 380_000u32, 45u16, "Fifteen stories of a city and its paralysis, ending with The Dead."@),
        ("pg174"@, "The Picture of Dorian Gray"@, "Oscar Wilde"@, 1890u16, "gothic, classics"@, "https://www.gutenberg.org/ebooks/174.epub3.images"@, 520_000u32, 50u16, "A portrait ages so that its subject need not."@),
        ("pg35"@, "The Time Machine"@, "H. G. Wells"@, 1895u16, "science fiction"@, "https://www.gutenberg.org/ebooks/35.epub3.images"@, 220_000u32, 20u16, "A traveller into the year 802,701 and beyond."@),
        ("pg2680"@, "Meditations"@, "Marcus Aurelius"@, 180u16, "philosophy"@, "https://www.gutenberg.org/ebooks/2680.epub3.images"@, 360_000u32, 35u16, "The private notebook of a Roman emperor on how to live."@),
        ("pg43"@, "The Strange Case of Dr Jekyll and Mr Hyde"@, "Robert Louis Stevenson"@, 1886u16, "gothic, mystery"@, "https://www.gutenberg.org/ebooks/43.epub3.images"@, 200_000u32, 15u16, "A lawyer investigates his friend's sinister associate."@),
        ("pg1184"@, "The Count of Monte Cristo"@, "Alexandre Dumas"@, 1846u16, "adventure, revenge"@, "https://www.gutenberg.org/ebooks/1184.epub3.images"@, 2_800_000u32, 300u16, "Wrongly imprisoned, Edmond Dantès escapes with a fortune and a plan."@),
        ("pg98"@, "A Tale of Two Cities"@, "Charles Dickens"@, 1859u16, "historical, classics"@, "https://www.gutenberg.org/ebooks/98.epub3.images"@, 800_000u32, 100u16, "London and Paris in the years of the Revolution."@),
        ("pg1952"@, "The Yellow Wallpaper"@, "Charlotte Perkins Gilman"@, 1892u16, "short stories"@, "https://www.gutenberg.org/ebooks/1952.epub3.images"@, 90_000u32, 5u16, "A rest cure, a room, and the pattern on the wall."@),
        ("pg244"@, "A Study in Scarlet"@, "Arthur Conan Doyle"@, 1887u16, "mystery"@, "https://www.gutenberg.org/ebooks/244.epub3.images"@, 300_000u32, 25u16, "Holmes and Watson meet, and a body is found in Lauriston Gardens."@),
        ("pg2148"@, "The Works of Edgar Allan Poe, Volume 2"@, "Edgar Allan Poe"@, 1845u16, "horror, short stories"@, "https://www.gutenberg.org/ebooks/2148.epub3.images"@, 700_000u32, 60u16, "The Raven, The Tell-Tale Heart, and the rest of the second volume."@),
    ]
}

/// A seed book is row `r` of the table, at rank `rank`.
pub open spec fn seed_entry(
    b: ShopBook,
    r: (Seq<char>, Seq<char>, Seq<char>, u16, Seq<char>, Seq<char>, u32, u16, Seq<char>),
    rank: int,
) -> bool {
    &&& b.id@ == r.0
    &&& b.title@ == r.1
    &&& b.author@ == r.2
    &&& b.year == r.3
    &&& b.subjects@.map_values(|s: String| s@) == seed_subjects(r.4)
    &&& b.url@ == r.5
    &&& b.size == r.6
    &&& b.rank == rank
    &&& b.hours10 == r.7
    &&& b.blurb@ == r.8
    &&& seed_book(b)
}

/// A built-in seed so the shop works before any catalog download: twenty classics,
/// ranked 1 to 20 in order.
pub fn seed() -> (c: Catalog)
    ensures
        c.fetched == 0,
        c.books.len() == 20,
        forall|i: int| 0 <= i < 20 ==> #[trigger] c.books@[i].rank == i + 1,
        forall|i: int| 0 <= i < 20 ==> seed_book(#[trigger] c.books@[i]),
        forall|i: int| 0 <= i < 20 ==> seed_entry(#[trigger] c.books@[i], seed_rows()[i], i + 1),
{
    let mut books: Vec<ShopBook> = Vec::new();
    books.push(mk("pg1342", "Pride and Prejudice", "Jane Austen", 1813, "romance, classics", "https://www.gutenberg.org/ebooks/1342.epub3.images", 720_000, 1, 60, "Elizabeth Bennet and Mr Darcy misjudge each other, and slowly learn better, in the best-loved comedy of manners in English."));
    books.push(mk("pg1661", "The Adventures of Sherlock Holmes", "Arthur Conan Doyle", 1892, "mystery, short stories", "https://www.gutenberg.org/ebooks/1661.epub3.images", 640_000, 2, 50, "Twelve cases from Baker Street, from A Scandal in Bohemia to The Copper Beeches."));
    books.push(mk("pg205", "Walden", "Henry David Thoreau", 1854, "nature, philosophy", "https://www.gutenberg.org/ebooks/205.epub3.images", 520_000, 3, 80, "Two years in a cabin by a pond, and what a deliberate life costs and gives."));
    books.push(mk("pg2701", "Moby-Dick", "Herman Melville", 1851, "adventure, classics", "https://www.gutenberg.org/ebooks/2701.epub3.images", 1_400_000, 4, 180, "Call me Ishmael. A whaling voyage, a wounded captain, and the white whale."));
    books.push(mk("pg84", "Frankenstein", "Mary Shelley", 1818, "gothic, science fiction", "https://www.gutenberg.org/ebooks/84.epub3.images", 480_000, 5, 55, "A young scientist creates a living being and abandons it."));
    books.push(mk("pg1232", "The Prince", "Niccolò Machiavelli", 1532, "politics, philosophy", "https://www.gutenberg.org/ebooks/1232.epub3.images", 260_000, 6, 30, "How princes gain and keep power, told without illusions."));
    books.push(mk("pg11", "Alice's Adventures in Wonderland", "Lewis Carroll", 1865, "fantasy, children", "https://www.gutenberg.org/ebooks/11.epub3.images", 340_000, 7, 25, "Down the rabbit hole with the Cheshire Cat, the Hatter and the Queen of Hearts."));
    books.push(mk("pg2600", "War and Peace", "Leo Tolstoy", 1869, "historical, classics", "https://www.gutenberg.org/ebooks/2600.epub3.images", 3_300_000, 8, 350, "Five families and Napoleon's invasion of Russia."));
    books.push(mk("pg145", "Middlemarch", "George Eliot", 1871, "classics", "https://www.gutenberg.org/ebooks/145.epub3.images", 1_500_000, 9, 210, "A study of provincial life: Dorothea, Lydgate, and the town that shapes them."));
    books.push(mk("pg1400", "Great Expectations", "Charles Dickens", 1861, "classics", "https://www.gutenberg.org/ebooks/1400.epub3.images", 1_000_000, 10, 130, "Pip, Estella, Magwitch and the fortune that was not what it seemed."));
    books.push(mk("pg2814", "Dubliners", "James Joyce", 1914, "short stories", "https://www.gutenberg.org/ebooks/2814.epub3.images", 380_000, 11, 45, "Fifteen stories of a city and its paralysis, ending with The Dead."));
    books.push(mk("pg174", "The Picture of Dorian Gray", "Oscar Wilde", 1890, "gothic, classics", "https://www.gutenberg.org/ebooks/174.epub3.images", 520_000, 12, 50, "A portrait ages so that its subject need not."));
    books.push(mk("pg35", "The Time Machine", "H. G. Wells", 1895, "science fiction", "https://www.gutenberg.org/ebooks/35.epub3.images", 220_000, 13, 20, "A traveller into the year 802,701 and beyond."));
    books.push(mk("pg2680", "Meditations", "Marcus Aurelius", 180, "philosophy", "https://www.gutenberg.org/ebooks/2680.epub3.images", 360_000, 14, 35, "The private notebook of a Roman emperor on how to live."));
    books.push(mk("pg43", "The Strange Case of Dr Jekyll and Mr Hyde", "Robert Louis Stevenson", 1886, "gothic, mystery", "https://www.gutenberg.org/ebooks/43.epub3.images", 200_000, 15, 15, "A lawyer investigates his friend's sinister associate."));
    books.push(mk("pg1184", "The Count of Monte Cristo", "Alexandre Dumas", 1846, "adventure, revenge", "https://www.gutenberg.org/ebooks/1184.epub3.images", 2_800_000, 16, 300, "Wrongly imprisoned, Edmond Dantès escapes with a fortune and a plan."));
    books.push(mk("pg98", "A Tale of Two Cities", "Charles Dickens", 1859, "historical, classics", "https://www.gutenberg.org/ebooks/98.epub3.images", 800_000, 17, 100, "London and Paris in the years of the Revolution."));
    books.push(mk("pg1952", "The Yellow Wallpaper", "Charlotte Perkins Gilman", 1892, "short stories", "https://www.gutenberg.org/ebooks/1952.epub3.images", 90_000, 18, 5, "A rest cure, a room, and the pattern on the wall."));
    books.push(mk("pg244", "A Study in Scarlet", "Arthur Conan Doyle", 1887, "mystery", "https://www.gutenberg.org/ebooks/244.epub3.images", 300_000, 19, 25, "Holmes and Watson meet, and a body is found in Lauriston Gardens."));
    books.push(mk("pg2148", "The Works of Edgar Allan Poe, Volume 2", "Edgar Allan Poe", 1845, "horror, short stories", "https://www.gutenberg.org/ebooks/2148.epub3.images", 700_000, 20, 60, "The Raven, The Tell-Tale Heart, and the rest of the second volume."));
    Catalog { fetched: 0, books }
}

} // verus!
