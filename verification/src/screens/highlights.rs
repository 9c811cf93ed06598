//! The highlights of the open book.

use vstd::prelude::*;
use crate::keys::Key;
use crate::screens::back_one;

verus! {

/// Blocks `i..` paged greedily, given the blocks of the page being filled (`cur`, using
/// `used` of the height `avail`) and the pages already full: a block starts a new page
/// when it would overflow a page that holds something; the last page is kept when it
/// holds something, or when it is the only one.
pub open spec fn page_blocks(hs: Seq<i32>, avail: int, i: int, cur: Seq<usize>, used: int, done: Seq<Seq<usize>>) -> Seq<Seq<usize>>
    decreases hs.len() - i,
{
    if i < 0 || i >= hs.len() {
        if cur.len() > 0 || done.len() == 0 {
            done.push(cur)
        } else {
            done
        }
    } else if used + hs[i] > avail && cur.len() > 0 {
        page_blocks(hs, avail, i + 1, seq![i as usize], hs[i] as int, done.push(cur))
    } else {
        page_blocks(hs, avail, i + 1, cur.push(i as usize), used + hs[i], done)
    }
}

/// The first page holding block `focus` (the first page when none does).
pub open spec fn page_holding(pages: Seq<Seq<usize>>, focus: usize, p: int) -> int
    decreases pages.len() - p,
{
    if p < 0 || p >= pages.len() {
        0
    } else if pages[p].contains(focus) {
        p
    } else {
        page_holding(pages, focus, p + 1)
    }
}

/// The highlights screen.
pub struct Highlights {
    focus: usize,
    page: usize,
    layout: Vec<Vec<usize>>,
}

impl Highlights {
    /// The focused highlight.
    pub closed spec fn spec_focus(self) -> usize {
        self.focus
    }

    /// The blocks on each page.
    pub closed spec fn spec_layout(self) -> Seq<Seq<usize>> {
        self.layout@.map_values(|p: Vec<usize>| p@)
    }

    /// The page shown.
    pub closed spec fn spec_page(self) -> usize {
        self.page
    }

    /// Page the blocks, of heights `heights`, into pages of height `avail` (see
    /// [`page_blocks`]), and show the page holding the focus.
    pub fn lay_out(&mut self, heights: &Vec<i32>, avail: i32)
        requires
            forall|i: int| 0 <= i < heights.len() ==> #[trigger] heights@[i] >= 0,
        ensures
            final(self).spec_layout() == page_blocks(heights@, avail as int, 0, Seq::empty(), 0, Seq::empty()),
            final(self).spec_page() == page_holding(final(self).spec_layout(), old(self).spec_focus(), 0),
            final(self).spec_focus() == old(self).spec_focus(),
    {
        let mut layout: Vec<Vec<usize>> = Vec::new();
        let mut cur: Vec<usize> = Vec::new();
        let mut used: i64 = 0;
        let mut i: usize = 0;
        let ghost target = page_blocks(heights@, avail as int, 0, Seq::empty(), 0, Seq::empty());
        assert(cur@ =~= Seq::<usize>::empty());
        assert(layout@.map_values(|p: Vec<usize>| p@) =~= Seq::<Seq<usize>>::empty());
        while i < heights.len()
            invariant
                i <= heights.len(),
                forall|k: int| 0 <= k < heights.len() ==> #[trigger] heights@[k] >= 0,
                0 <= used <= i32::MAX,
                cur.len() == 0 ==> used == 0,
                cur.len() <= i,
                page_blocks(heights@, avail as int, i as int, cur@, used as int, layout@.map_values(|p: Vec<usize>| p@)) == target,
            decreases heights.len() - i,
        {
            let h = heights[i] as i64;
            let ghost done = layout@.map_values(|p: Vec<usize>| p@);
            if used + h > avail as i64 && cur.len() > 0 {
                let full = cur;
                layout.push(full);
                cur = Vec::new();
                cur.push(i);
                used = h;
                assert(layout@.map_values(|p: Vec<usize>| p@) =~= done.push(full@));
                assert(cur@ =~= seq![i]);
            } else {
                let ghost before = cur@;
                cur.push(i);
                used = used + h;
                assert(layout@.map_values(|p: Vec<usize>| p@) =~= done);
            }
            i += 1;
        }
        let ghost done = layout@.map_values(|p: Vec<usize>| p@);
        if cur.len() > 0 || layout.len() == 0 {
            let last = cur;
            layout.push(last);
            assert(layout@.map_values(|p: Vec<usize>| p@) =~= done.push(last@));
        }
        let ghost pages = layout@.map_values(|p: Vec<usize>| p@);
        let mut p: usize = 0;
        let mut page: usize = 0;
        let mut found = false;
        while p < layout.len() && !found
            invariant
                p <= layout.len(),
                pages == layout@.map_values(|q: Vec<usize>| q@),
                !found ==> page_holding(pages, self.focus, p as int) == page_holding(pages, self.focus, 0),
                found ==> page == page_holding(pages, self.focus, 0),
                !found ==> page == 0,
            decreases layout.len() - p + (if found { 0int } else { 1int }),
        {
            if vec_has(&layout[p], self.focus) {
                page = p;
                found = true;
            } else {
                p += 1;
            }
        }
        self.layout = layout;
        self.page = page;
    }

    /// The page shown.
    pub fn page(&self) -> (p: usize)
        ensures
            p == self.spec_page(),
    {
        self.page
    }

    /// The blocks on page `p` (none past the last page).
    pub fn page_blocks(&self, p: usize) -> (r: Vec<usize>)
        ensures
            r@ == (if p < self.spec_layout().len() { self.spec_layout()[p as int] } else { Seq::empty() }),
    {
        if p < self.layout.len() {
            self.layout[p].clone()
        } else {
            Vec::new()
        }
    }

    /// New.
    pub fn new() -> (h: Highlights)
        ensures
            h.spec_focus() == 0,
    {
        Highlights { focus: 0, page: 0, layout: Vec::new() }
    }

    /// Move the focus among `n` highlights: Down and Right forward, Left back, wrapping.
    pub fn step(&mut self, key: Key, n: usize)
        requires
            old(self).spec_focus() < n || n == 0,
        ensures
            final(self).spec_focus() == (if n > 0 && (key == Key::Down || key == Key::Right) {
                (old(self).spec_focus() + 1) % n as int
            } else if n > 0 && key == Key::Left {
                (old(self).spec_focus() + n - 1) % n as int
            } else {
                old(self).spec_focus() as int
            }),
    {
        if n > 0 {
            if key == Key::Down || key == Key::Right {
                self.focus = (self.focus + 1) % n;
            } else if key == Key::Left {
                self.focus = back_one(self.focus, n);
            }
        }
    }
}

fn vec_has(v: &Vec<usize>, x: usize) -> (b: bool)
    ensures
        b == v@.contains(x),
{
    let mut i: usize = 0;
    while i < v.len()
        invariant
            i <= v.len(),
            forall|j: int| 0 <= j < i ==> v@[j] != x,
        decreases v.len() - i,
    {
        if v[i] == x {
            assert(v@[i as int] == x);
            return true;
        }
        i += 1;
    }
    false
}

/// The highlights screen, boxed for pushing.
pub fn boxed() -> (b: Box<Highlights>)
    ensures
        b.spec_focus() == 0,
{
    Box::new(Highlights::new())
}

} // verus!
