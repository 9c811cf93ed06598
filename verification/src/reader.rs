//! What the reading page knows of a rendered page, and the page arithmetic of a book:
//! pages per section, page numbers, chapter marks and where a page turn goes.

use vstd::prelude::*;

verus! {

/// A rendered page's bookkeeping.
#[derive(Clone, Debug)]
pub struct PageInfo {
    /// Chapter title shown in the running head.
    pub chapter: String,
    /// Global character offset at the page start.
    pub chars: u32,
    /// Percent × 10.
    pub permille: u32,
    /// Whether this is the last page of the book.
    pub last: bool,
    /// Whether the page starts a chapter.
    pub chapter_start: bool,
}

impl Default for PageInfo {
    fn default() -> (p: PageInfo)
        ensures
            p.chapter@.len() == 0,
            p.chars == 0,
            p.permille == 0,
            !p.last,
            !p.chapter_start,
    {
        PageInfo { chapter: String::new(), chars: 0, permille: 0, last: false, chapter_start: false }
    }
}

/// Characters per page where a section's pages are not counted yet.
pub const CHARS_PER_PAGE_DEFAULT: u32 = 900;

/// Pages of section `s`: its count once known, else its characters over
/// `CHARS_PER_PAGE_DEFAULT`, at least one (no characters past the last section).
pub open spec fn pages_of(secs: Seq<(u16, u32)>, counts: Seq<Option<u16>>, s: int) -> int {
    if 0 <= s < counts.len() && counts[s] is Some {
        counts[s]->0 as int
    } else {
        let c = if 0 <= s < secs.len() { secs[s].1 as int } else { 0 };
        if c / (CHARS_PER_PAGE_DEFAULT as int) >= 1 { c / (CHARS_PER_PAGE_DEFAULT as int) } else { 1 }
    }
}

/// Pages of sections `a..b`.
pub open spec fn pages_between(secs: Seq<(u16, u32)>, counts: Seq<Option<u16>>, a: int, b: int) -> int
    decreases b - a,
{
    if b <= a {
        0
    } else {
        pages_between(secs, counts, a, b - 1) + pages_of(secs, counts, b - 1)
    }
}

/// The first section of the chapter that section `s` belongs to.
pub open spec fn chapter_first(secs: Seq<(u16, u32)>, s: int) -> int
    decreases s,
{
    if s > 0 && s < secs.len() && secs[s].0 != 0 {
        chapter_first(secs, s - 1)
    } else {
        s
    }
}

/// The section after the chapter that starts at `first`, scanning from `s`.
pub open spec fn chapter_end(secs: Seq<(u16, u32)>, first: int, s: int) -> int
    decreases secs.len() - s,
{
    if s < secs.len() && (s == first || secs[s].0 != 0) {
        chapter_end(secs, first, s + 1)
    } else {
        s
    }
}

/// The first chapter start at or after section `s`.
pub open spec fn chapter_from(secs: Seq<(u16, u32)>, s: int) -> Option<int>
    decreases secs.len() - s,
{
    if s < 0 || s >= secs.len() {
        None
    } else if secs[s].0 == 0 {
        Some(s)
    } else {
        chapter_from(secs, s + 1)
    }
}

/// The page where each chapter after the first starts, among sections `0..n`.
pub open spec fn chapter_marks(secs: Seq<(u16, u32)>, counts: Seq<Option<u16>>, n: int) -> Seq<u32>
    decreases n,
{
    if n <= 0 {
        Seq::empty()
    } else if secs[n - 1].0 == 0 && n - 1 > 0 {
        chapter_marks(secs, counts, n - 1).push(pages_between(secs, counts, 0, n - 1) as u32)
    } else {
        chapter_marks(secs, counts, n - 1)
    }
}

/// Where a page turn goes.
#[derive(Clone, Copy, Debug, PartialEq, Eq, Structural)]
pub enum Turn {
    /// Another page of this section.
    Page(usize),
    /// The first page of this section.
    SectionStart(u16),
    /// The last page of this section.
    SectionEnd(u16),
    /// Nowhere: the book ends (or starts) here.
    Stop,
}

/// The progress strip: total pages, where each chapter after the first starts, and
/// the current page (from 0).
#[derive(Clone, Debug)]
pub struct SpineModel {
    /// Total pages.
    pub total: u32,
    /// First page of each chapter after the first.
    pub chapters: Vec<u32>,
    /// The current page, from 0.
    pub current: u32,
}

/// A book's sections and the reader's place in it.
pub struct PageMap {
    /// Each section's part number (0 where a chapter starts) and characters.
    pub sections: Vec<(u16, u32)>,
    /// Each section's page count, once known.
    pub counts: Vec<Option<u16>>,
    /// The current section.
    pub section: u16,
    /// The current page in it.
    pub page: usize,
    /// How many pages of the current section are laid out.
    pub laid_out: usize,
}

impl PageMap {
    /// The book has at most `u16::MAX` sections and the reader stands in one.
    pub open spec fn wf(&self) -> bool {
        &&& self.sections.len() <= u16::MAX
        &&& self.section < self.sections.len()
    }

    /// Pages of section `s`, counted or estimated.
    pub fn section_pages(&self, s: u16) -> (n: u32)
        ensures
            n == pages_of(self.sections@, self.counts@, s as int),
    {
        self.pages_at(s as usize)
    }

    fn pages_at(&self, s: usize) -> (n: u32)
        ensures
            n == pages_of(self.sections@, self.counts@, s as int),
    {
        if s < self.counts.len() {
            match self.counts[s] {
                Some(n) => {
                    return n as u32;
                },
                None => {},
            }
        }
        let c: u32 = if s < self.sections.len() { self.sections[s].1 } else { 0 };
        let e = c / CHARS_PER_PAGE_DEFAULT;
        if e >= 1 { e } else { 1 }
    }

    fn pages_sum(&self, a: usize, b: usize) -> (n: u32)
        requires
            a <= b,
            pages_between(self.sections@, self.counts@, a as int, b as int) <= u32::MAX,
        ensures
            n == pages_between(self.sections@, self.counts@, a as int, b as int),
    {
        let mut n: u32 = 0;
        let mut s: usize = a;
        while s < b
            invariant
                a <= s <= b,
                n == pages_between(self.sections@, self.counts@, a as int, s as int),
                pages_between(self.sections@, self.counts@, a as int, b as int) <= u32::MAX,
            decreases b - s,
        {
            proof {
                lemma_pages_mono(self.sections@, self.counts@, a as int, s + 1, b as int);
            }
            n = n + self.pages_at(s);
            s += 1;
        }
        n
    }

    /// Total pages, counted or estimated (at least one).
    pub fn total_pages(&self) -> (n: u32)
        requires
            pages_between(self.sections@, self.counts@, 0, self.sections.len() as int) <= u32::MAX,
        ensures
            n == (if pages_between(self.sections@, self.counts@, 0, self.sections.len() as int) >= 1 {
                pages_between(self.sections@, self.counts@, 0, self.sections.len() as int)
            } else {
                1
            }),
    {
        let n = self.pages_sum(0, self.sections.len());
        if n >= 1 { n } else { 1 }
    }

    /// The current page's number in the book, from 1.
    pub fn page_number(&self) -> (n: u32)
        requires
            pages_between(self.sections@, self.counts@, 0, self.section as int) + self.page + 1 <= u32::MAX,
        ensures
            n == pages_between(self.sections@, self.counts@, 0, self.section as int) + self.page + 1,
    {
        proof {
            lemma_pages_nonneg(self.sections@, self.counts@, 0, self.section as int);
        }
        let before = self.pages_sum(0, self.section as usize);
        before + self.page as u32 + 1
    }

    /// Whether this is the book's last page.
    pub fn at_end(&self) -> (b: bool)
        ensures
            b == (self.section + 1 >= self.sections.len() && self.page + 1 >= self.laid_out),
    {
        (self.section as usize) + 1 >= self.sections.len() && (self.laid_out == 0 || self.page >= self.laid_out - 1)
    }

    /// Whether this is the book's first page.
    pub fn at_start(&self) -> (b: bool)
        ensures
            b == (self.section == 0 && self.page == 0),
    {
        self.section == 0 && self.page == 0
    }

    /// Where the next page is: the next laid-out page, else the next section's first.
    pub fn next_page(&self) -> (t: Turn)
        requires
            self.wf(),
        ensures
            t == (if self.page + 1 < self.laid_out {
                Turn::Page((self.page + 1) as usize)
            } else if self.section + 1 < self.sections.len() {
                Turn::SectionStart((self.section + 1) as u16)
            } else {
                Turn::Stop
            }),
    {
        if self.page < self.laid_out && self.page + 1 < self.laid_out {
            Turn::Page(self.page + 1)
        } else if (self.section as usize) + 1 < self.sections.len() {
            Turn::SectionStart(self.section + 1)
        } else {
            Turn::Stop
        }
    }

    /// Where the previous page is: the previous page here, else the previous section's
    /// last.
    pub fn prev_page(&self) -> (t: Turn)
        ensures
            t == (if self.page > 0 {
                Turn::Page((self.page - 1) as usize)
            } else if self.section > 0 {
                Turn::SectionEnd((self.section - 1) as u16)
            } else {
                Turn::Stop
            }),
    {
        if self.page > 0 {
            Turn::Page(self.page - 1)
        } else if self.section > 0 {
            Turn::SectionEnd(self.section - 1)
        } else {
            Turn::Stop
        }
    }

    /// The progress strip for the current place.
    pub fn spine_model(&self) -> (m: SpineModel)
        requires
            self.wf(),
            pages_between(self.sections@, self.counts@, 0, self.sections.len() as int) <= u32::MAX,
            pages_between(self.sections@, self.counts@, 0, self.section as int) + self.page + 1 <= u32::MAX,
        ensures
            m.total == (if pages_between(self.sections@, self.counts@, 0, self.sections.len() as int) >= 1 {
                pages_between(self.sections@, self.counts@, 0, self.sections.len() as int)
            } else {
                1
            }),
            m.chapters@ == chapter_marks(self.sections@, self.counts@, self.sections.len() as int),
            m.current == pages_between(self.sections@, self.counts@, 0, self.section as int) + self.page,
    {
        let total = self.total_pages();
        let mut chapters: Vec<u32> = Vec::new();
        let mut acc: u32 = 0;
        let mut i: usize = 0;
        while i < self.sections.len()
            invariant
                i <= self.sections.len(),
                acc == pages_between(self.sections@, self.counts@, 0, i as int),
                chapters@ == chapter_marks(self.sections@, self.counts@, i as int),
                pages_between(self.sections@, self.counts@, 0, self.sections.len() as int) <= u32::MAX,
            decreases self.sections.len() - i,
        {
            if self.sections[i].0 == 0 && i > 0 {
                chapters.push(acc);
            }
            proof {
                lemma_pages_mono(self.sections@, self.counts@, 0, i + 1, self.sections.len() as int);
            }
            acc = acc + self.pages_at(i);
            i += 1;
        }
        proof {
            lemma_pages_nonneg(self.sections@, self.counts@, 0, self.section as int);
        }
        let n = self.page_number();
        SpineModel { total, chapters, current: n - 1 }
    }

    /// Pages left in the current chapter after this one.
    pub fn pages_left_in_chapter(&self) -> (n: u32)
        requires
            self.wf(),
            pages_between(self.sections@, self.counts@, 0, self.sections.len() as int) <= u32::MAX,
            pages_between(self.sections@, self.counts@, 0, self.section as int) + self.page + 1 <= u32::MAX,
        ensures
            ({
                let first = chapter_first(self.sections@, self.section as int);
                let total = pages_between(self.sections@, self.counts@, first, chapter_end(self.sections@, first, first));
                let before = pages_between(self.sections@, self.counts@, first, self.section as int) + self.page;
                n == (if total >= before + 1 { total - before - 1 } else { 0 })
            }),
    {
        let ghost secs = self.sections@;
        let ghost counts = self.counts@;
        let ghost len = self.sections.len() as int;
        proof {
            lemma_chapter_first_bounds(secs, self.section as int);
        }
        let first = self.chapter_first_section(self.section);
        let mut s: usize = first as usize;
        let mut total: u32 = 0;
        while s < self.sections.len() && (s == first as usize || self.sections[s].0 != 0)
            invariant
                first <= s <= self.sections.len(),
                first <= self.section < self.sections.len(),
                secs == self.sections@,
                counts == self.counts@,
                len == self.sections.len(),
                total == pages_between(secs, counts, first as int, s as int),
                chapter_end(secs, first as int, s as int) == chapter_end(secs, first as int, first as int),
                pages_between(secs, counts, 0, len) <= u32::MAX,
            decreases self.sections.len() - s,
        {
            proof {
                lemma_pages_split(secs, counts, 0, first as int, s + 1);
                lemma_pages_nonneg(secs, counts, 0, first as int);
                lemma_pages_mono(secs, counts, 0, s + 1, len);
            }
            total = total + self.pages_at(s);
            s += 1;
        }
        proof {
            lemma_pages_split(secs, counts, 0, first as int, self.section as int);
            lemma_pages_nonneg(secs, counts, 0, first as int);
            lemma_pages_nonneg(secs, counts, first as int, self.section as int);
        }
        let before = self.pages_sum(first as usize, self.section as usize) + self.page as u32;
        if total >= before + 1 {
            total - (before + 1)
        } else {
            0
        }
    }

    /// The first section of the chapter that section `s` belongs to.
    pub fn chapter_first_section(&self, s: u16) -> (f: u16)
        ensures
            f == chapter_first(self.sections@, s as int),
    {
        let mut f = s;
        while f > 0 && (f as usize) < self.sections.len() && self.sections[f as usize].0 != 0
            invariant
                chapter_first(self.sections@, f as int) == chapter_first(self.sections@, s as int),
            decreases f,
        {
            f -= 1;
        }
        f
    }

    /// The next chapter's first section, if there is one.
    pub fn next_chapter(&self) -> (r: Option<u16>)
        requires
            self.wf(),
        ensures
            r == (match chapter_from(self.sections@, self.section + 1) {
                Some(s) => Some(s as u16),
                None => None::<u16>,
            }),
    {
        let mut s: usize = self.section as usize + 1;
        while s < self.sections.len() && self.sections[s].0 != 0
            invariant
                self.section + 1 <= s <= self.sections.len() <= u16::MAX,
                chapter_from(self.sections@, s as int) == chapter_from(self.sections@, self.section + 1),
            decreases self.sections.len() - s,
        {
            s += 1;
        }
        if s >= self.sections.len() {
            None
        } else {
            Some(s as u16)
        }
    }

    /// The start of this chapter when past its first page, else the previous chapter's
    /// start, if there is one.
    pub fn prev_chapter(&self) -> (r: Option<u16>)
        requires
            self.wf(),
        ensures
            ({
                let first = chapter_first(self.sections@, self.section as int);
                r == (if self.section != first || self.page > 0 {
                    Some(first as u16)
                } else if first > 0 {
                    Some(chapter_first(self.sections@, first - 1) as u16)
                } else {
                    None::<u16>
                })
            }),
    {
        proof {
            lemma_chapter_first_bounds(self.sections@, self.section as int);
        }
        let first = self.chapter_first_section(self.section);
        if self.section != first || self.page > 0 {
            Some(first)
        } else if first > 0 {
            proof {
                lemma_chapter_first_bounds(self.sections@, first - 1);
            }
            Some(self.chapter_first_section(first - 1))
        } else {
            None
        }
    }
}

proof fn lemma_pages_of_pos(secs: Seq<(u16, u32)>, counts: Seq<Option<u16>>, s: int)
    ensures
        0 <= pages_of(secs, counts, s),
{
}

pub proof fn lemma_pages_nonneg(secs: Seq<(u16, u32)>, counts: Seq<Option<u16>>, a: int, b: int)
    ensures
        0 <= pages_between(secs, counts, a, b),
    decreases b - a,
{
    if b > a {
        lemma_pages_nonneg(secs, counts, a, b - 1);
        lemma_pages_of_pos(secs, counts, b - 1);
    }
}

/// More sections never have fewer pages.
pub proof fn lemma_pages_mono(secs: Seq<(u16, u32)>, counts: Seq<Option<u16>>, a: int, m: int, b: int)
    requires
        a <= m <= b,
    ensures
        pages_between(secs, counts, a, m) <= pages_between(secs, counts, a, b),
    decreases b - m,
{
    if m < b {
        lemma_pages_mono(secs, counts, a, m, b - 1);
        lemma_pages_of_pos(secs, counts, b - 1);
    }
}

/// The pages of `a..b` are those of `a..m` and then of `m..b`.
pub proof fn lemma_pages_split(secs: Seq<(u16, u32)>, counts: Seq<Option<u16>>, a: int, m: int, b: int)
    requires
        a <= m <= b,
    ensures
        pages_between(secs, counts, a, b) == pages_between(secs, counts, a, m) + pages_between(secs, counts, m, b),
    decreases b - m,
{
    if m < b {
        lemma_pages_split(secs, counts, a, m, b - 1);
    }
}

/// A page's number in the book, from 1.
pub open spec fn number_of(secs: Seq<(u16, u32)>, counts: Seq<Option<u16>>, section: int, page: int) -> int {
    pages_between(secs, counts, 0, section) + page + 1
}

/// Page numbers run on across sections: the first page of the next section comes
/// right after the last page of this one, and every page of a section lies within the
/// book's total.
pub proof fn lemma_numbers_run_on(secs: Seq<(u16, u32)>, counts: Seq<Option<u16>>, section: int, page: int)
    requires
        0 <= section < secs.len(),
        0 <= page < pages_of(secs, counts, section),
    ensures
        page + 1 == pages_of(secs, counts, section) ==> number_of(secs, counts, section + 1, 0) == number_of(
            secs,
            counts,
            section,
            page,
        ) + 1,
        1 <= number_of(secs, counts, section, page) <= pages_between(secs, counts, 0, secs.len() as int),
{
    lemma_pages_nonneg(secs, counts, 0, section);
    lemma_pages_mono(secs, counts, 0, section + 1, secs.len() as int);
}

proof fn lemma_chapter_first_bounds(secs: Seq<(u16, u32)>, s: int)
    requires
        0 <= s,
    ensures
        0 <= chapter_first(secs, s) <= s,
    decreases s,
{
    if s > 0 && s < secs.len() && secs[s].0 != 0 {
        lemma_chapter_first_bounds(secs, s - 1);
    }
}

} // verus!
