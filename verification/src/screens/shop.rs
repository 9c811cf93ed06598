//! The Bookshop's screens: the home shelves, a shelf, a book's page, search, the
//! downloads, OPDS catalogs, Calibre and position sync.

use vstd::prelude::*;
use crate::bookshop::{CatalogFile, Group, Row, ShopBook};
use crate::keys::{Key, KeyEvent, KeyKind};
use crate::net::{DownloadState, OpdsEntry};
use crate::screens::ListNav;
use crate::textutil::{chars_of, owned, string_of, strips, trim_by, trim_chars, Strip};

verus! {

/// The rows of a list's current page, read when the page changes.
pub struct PageRows {
    page: Option<usize>,
    rows: Vec<Row>,
}

impl PageRows {
    /// Nothing read yet.
    pub closed spec fn spec_empty(self) -> bool {
        self.page is None && self.rows.len() == 0
    }

    /// Nothing read yet.
    pub fn empty() -> (p: PageRows)
        ensures
            p.spec_empty(),
    {
        PageRows { page: None, rows: Vec::new() }
    }
}

/// What a key asks of the Bookshop home.
#[derive(Clone, Copy, Debug, PartialEq, Eq, Structural)]
pub enum HomeStep {
    /// Nothing.
    Ignore,
    /// Close the Bookshop.
    Pop,
    /// Open Browse.
    Browse,
    /// Open Search.
    Search,
    /// Redraw.
    Redraw,
    /// Open shelf `k` as a list.
    Shelf(usize),
    /// Open the page of the book at this record.
    Book(u32),
}

/// The Bookshop home: six shelves of three covers plus More, under the search row.
pub struct BookshopHome {
    shelves: Vec<Vec<Row>>,
    loaded: bool,
    focus: (usize, usize),
    first: bool,
}

impl BookshopHome {
    /// The focus: row 0 is search, rows 1 to 6 the shelves; column 3 is More.
    pub closed spec fn spec_focus(self) -> (usize, usize) {
        self.focus
    }

    /// The first rows of each shelf, once read.
    pub closed spec fn spec_shelves(self) -> Seq<Seq<Row>> {
        self.shelves@.map_values(|r: Vec<Row>| r@)
    }

    /// The shelves have been read.
    pub closed spec fn spec_loaded(self) -> bool {
        self.loaded
    }

    /// The focus is on the page, and six shelves are there once read.
    pub closed spec fn inv(self) -> bool {
        &&& self.focus.0 <= 6
        &&& self.focus.1 <= 3
        &&& self.loaded ==> self.shelves.len() == 6
    }

    /// The first drawing is still to come.
    pub closed spec fn spec_first(self) -> bool {
        self.first
    }

    /// New.
    pub fn new() -> (h: BookshopHome)
        ensures
            h.inv(),
            !h.spec_loaded(),
            h.spec_focus() == (0usize, 0usize),
            h.spec_shelves().len() == 0,
            h.spec_first(),
    {
        BookshopHome { shelves: Vec::new(), loaded: false, focus: (0, 0), first: true }
    }

    /// The shelves as read from the catalog.
    pub fn set_shelves(&mut self, shelves: Vec<Vec<Row>>)
        requires
            old(self).inv(),
            shelves.len() == 6,
        ensures
            final(self).inv(),
            final(self).spec_loaded(),
            final(self).spec_shelves() == shelves@.map_values(|r: Vec<Row>| r@),
            final(self).spec_focus() == old(self).spec_focus(),
    {
        self.shelves = shelves;
        self.loaded = true;
    }

    /// A press, with the shelves read: Back closes; on the search row Left browses and
    /// Right or Confirm search; Up and Down move between rows, Left and Right along one
    /// (stopping at the ends); Confirm opens the focused book, or the shelf on More or
    /// past its books.
    pub fn key(&mut self, ev: KeyEvent) -> (s: HomeStep)
        requires
            old(self).inv(),
            old(self).spec_loaded(),
        ensures
            final(self).inv(),
            final(self).spec_shelves() == old(self).spec_shelves(),
            final(self).spec_loaded(),
            ({
                let (r, c) = old(self).spec_focus();
                if ev.kind != KeyKind::Press {
                    s == HomeStep::Ignore && final(self).spec_focus() == old(self).spec_focus()
                } else {
                    match ev.key {
                        Key::Back => s == HomeStep::Pop && final(self).spec_focus() == old(self).spec_focus(),
                        Key::Left => if r == 0 {
                            s == HomeStep::Browse && final(self).spec_focus() == old(self).spec_focus()
                        } else {
                            s == HomeStep::Redraw && final(self).spec_focus() == (r, if c == 0 { 0usize } else { (c - 1) as usize })
                        },
                        Key::Right => if r == 0 {
                            s == HomeStep::Search && final(self).spec_focus() == old(self).spec_focus()
                        } else {
                            s == HomeStep::Redraw && final(self).spec_focus() == (r, if c >= 3 { 3usize } else { (c + 1) as usize })
                        },
                        Key::Up => s == HomeStep::Redraw && final(self).spec_focus() == (if r == 0 { 0usize } else { (r - 1) as usize }, c),
                        Key::Down => s == HomeStep::Redraw && final(self).spec_focus() == (if r >= 6 { 6usize } else { (r + 1) as usize }, c),
                        Key::Confirm => final(self).spec_focus() == old(self).spec_focus() && if r == 0 {
                            s == HomeStep::Search
                        } else {
                            let rows = old(self).spec_shelves()[r - 1];
                            if c >= 3 || c >= rows.len() {
                                s == HomeStep::Shelf((r - 1) as usize)
                            } else {
                                s == HomeStep::Book(rows[c as int].index)
                            }
                        },
                        Key::Power => s == HomeStep::Ignore && final(self).spec_focus() == old(self).spec_focus(),
                    }
                }
            }),
    {
        if ev.kind != KeyKind::Press {
            return HomeStep::Ignore;
        }
        let (r, c) = self.focus;
        match ev.key {
            Key::Back => HomeStep::Pop,
            Key::Left => {
                if r == 0 {
                    HomeStep::Browse
                } else {
                    self.focus = (r, if c == 0 { 0 } else { c - 1 });
                    HomeStep::Redraw
                }
            },
            Key::Right => {
                if r == 0 {
                    HomeStep::Search
                } else {
                    self.focus = (r, if c >= 3 { 3 } else { c + 1 });
                    HomeStep::Redraw
                }
            },
            Key::Up => {
                self.focus = (if r == 0 { 0 } else { r - 1 }, c);
                HomeStep::Redraw
            },
            Key::Down => {
                self.focus = (if r >= 6 { 6 } else { r + 1 }, c);
                HomeStep::Redraw
            },
            Key::Confirm => {
                if r == 0 {
                    return HomeStep::Search;
                }
                let k = r - 1;
                let rows = &self.shelves[k];
                if c >= 3 || c >= rows.len() {
                    HomeStep::Shelf(k)
                } else {
                    HomeStep::Book(rows[c].index)
                }
            },
            Key::Power => HomeStep::Ignore,
        }
    }
}

/// What a key on a shelf list asks for.
#[derive(Clone, Copy, Debug, PartialEq, Eq, Structural)]
pub enum ShelfStep {
    /// Nothing.
    Ignore,
    /// Back to the shop.
    Pop,
    /// The page of this record.
    Open(u32),
    /// The list's navigation takes the key.
    Nav,
}

/// A full shelf as a list.
pub struct ShelfList {
    title: String,
    ids: Vec<u32>,
    rows: PageRows,
    nav: ListNav,
}

impl ShelfList {
    /// The shelf's title.
    pub closed spec fn spec_title(self) -> Seq<char> {
        self.title@
    }

    /// The records on the shelf.
    pub closed spec fn spec_ids(self) -> Seq<u32> {
        self.ids@
    }

    /// The list's rows.
    pub closed spec fn spec_nav(self) -> (usize, usize, usize) {
        (self.nav.n, self.nav.per_page, self.nav.focus)
    }

    /// No page of rows has been read yet.
    pub closed spec fn spec_rows_empty(self) -> bool {
        self.rows.spec_empty()
    }

    /// New: the records `ids`, ten to a page, no page read yet.
    pub fn new(title: &str, ids: Vec<u32>) -> (s: ShelfList)
        ensures
            s.spec_title() == title@,
            s.spec_ids() == ids@,
            s.spec_nav() == (ids.len(), 10usize, 0usize),
            s.spec_rows_empty(),
    {
        let n = ids.len();
        ShelfList { title: owned(title), ids, rows: PageRows::empty(), nav: ListNav::new(n, 10) }
    }

    /// A key: Back pops, Confirm opens the focused book, a release does nothing and any
    /// other key goes to the list's navigation.
    pub fn key(&self, ev: KeyEvent) -> (s: ShelfStep)
        ensures
            s == (if ev.kind == KeyKind::Release {
                ShelfStep::Ignore
            } else if ev.key == Key::Back && ev.kind == KeyKind::Press {
                ShelfStep::Pop
            } else if ev.key == Key::Confirm && ev.kind == KeyKind::Press {
                if self.spec_nav().2 < self.spec_ids().len() {
                    ShelfStep::Open(self.spec_ids()[self.spec_nav().2 as int])
                } else {
                    ShelfStep::Ignore
                }
            } else {
                ShelfStep::Nav
            }),
    {
        if ev.kind == KeyKind::Release {
            return ShelfStep::Ignore;
        }
        if ev.is(Key::Back) {
            return ShelfStep::Pop;
        }
        if ev.is(Key::Confirm) {
            return if self.nav.focus < self.ids.len() {
                ShelfStep::Open(self.ids[self.nav.focus])
            } else {
                ShelfStep::Ignore
            };
        }
        ShelfStep::Nav
    }
}

/// The book page's state line and the action its button offers: a book in the
/// library is read; a download in flight, waiting for a retry or failed says so; with
/// Wi-Fi off the page asks for it; else the book can be got.
pub open spec fn state_line(state: Option<DownloadState>, in_library: bool, wifi_on: bool) -> (Seq<char>, Seq<char>) {
    if in_library {
        ("In your library"@, "Read"@)
    } else {
        match state {
            Some(DownloadState::Working) | Some(DownloadState::Queued) => ("Downloading"@, ""@),
            Some(DownloadState::Retrying(_)) => ("Gutenberg is limiting requests, retrying"@, ""@),
            Some(DownloadState::Failed(_)) => ("Couldn't download"@, "Retry"@),
            _ => if !wifi_on {
                ("Wi-Fi off · Connect to get this book"@, "Wi-Fi"@)
            } else {
                ("Get"@, "Get"@)
            },
        }
    }
}

/// The book page's state line and button action for a download state, whether the
/// book is in the library and whether Wi-Fi is connected.
pub fn book_state_line(state: &Option<DownloadState>, in_library: bool, wifi_on: bool) -> (r: (String, String))
    ensures
        (r.0@, r.1@) == state_line(*state, in_library, wifi_on),
{
    if in_library {
        return (owned("In your library"), owned("Read"));
    }
    match state {
        Some(DownloadState::Working) | Some(DownloadState::Queued) => (owned("Downloading"), owned("")),
        Some(DownloadState::Retrying(_)) => (owned("Gutenberg is limiting requests, retrying"), owned("")),
        Some(DownloadState::Failed(_)) => (owned("Couldn't download"), owned("Retry")),
        _ => if !wifi_on {
            (owned("Wi-Fi off · Connect to get this book"), owned("Wi-Fi"))
        } else {
            (owned("Get"), owned("Get"))
        },
    }
}

/// A catalog book's page.
pub struct BookPage {
    index: u32,
    book: Option<ShopBook>,
    saved: Option<bool>,
    blurb: Vec<String>,
    page: usize,
    focus: usize,
}

impl BookPage {
    /// The record shown.
    pub closed spec fn spec_index(self) -> u32 {
        self.index
    }

    /// The book has been read from the catalog.
    pub closed spec fn spec_read(self) -> bool {
        self.book is Some
    }

    /// New, for record `index` (read on the first drawing).
    pub fn new(index: u32) -> (p: BookPage)
        ensures
            p.spec_index() == index,
            !p.spec_read(),
    {
        BookPage { index, book: None, saved: None, blurb: Vec::new(), page: 0, focus: 0 }
    }

    /// The blurb page shown.
    pub closed spec fn spec_page(self) -> usize {
        self.page
    }

    /// Whether the book is saved for later, once known.
    pub closed spec fn spec_saved(self) -> Option<bool> {
        self.saved
    }

    /// A key press (other kinds do nothing): Back pops; with the book read, Left saves or
    /// unsaves it, Right turns the blurb page, Down searches for its author and Confirm
    /// asks for the book.
    pub fn key(&mut self, ev: KeyEvent) -> (s: BookStep)
        ensures
            final(self).spec_index() == old(self).spec_index(),
            final(self).spec_read() == old(self).spec_read(),
            final(self).spec_saved() == old(self).spec_saved(),
            s == (if ev.kind != KeyKind::Press {
                BookStep::Ignore
            } else if ev.key == Key::Back {
                BookStep::Pop
            } else if !old(self).spec_read() {
                BookStep::Ignore
            } else {
                match ev.key {
                    Key::Left => BookStep::ToggleSaved,
                    Key::Right => if old(self).spec_page() < usize::MAX {
                        BookStep::Redraw
                    } else {
                        BookStep::Ignore
                    },
                    Key::Down => BookStep::SearchAuthor,
                    Key::Confirm => BookStep::Get,
                    _ => BookStep::Ignore,
                }
            }),
            final(self).spec_page() == (if s == BookStep::Redraw {
                old(self).spec_page() + 1
            } else {
                old(self).spec_page() as int
            }),
    {
        if ev.kind != KeyKind::Press {
            return BookStep::Ignore;
        }
        if ev.key == Key::Back {
            return BookStep::Pop;
        }
        if self.book.is_none() {
            return BookStep::Ignore;
        }
        match ev.key {
            Key::Left => BookStep::ToggleSaved,
            Key::Right => if self.page < usize::MAX {
                self.page = self.page + 1;
                BookStep::Redraw
            } else {
                BookStep::Ignore
            },
            Key::Down => BookStep::SearchAuthor,
            Key::Confirm => BookStep::Get,
            _ => BookStep::Ignore,
        }
    }
}

/// What Confirm on a book page does: a book already in the library (by its library
/// id) opens; with Wi-Fi off the Wi-Fi screen is asked for; else the book is fetched.
pub fn get_book(in_library: Option<u64>, wifi_on: bool) -> (s: GetStep)
    ensures
        s == (match in_library {
            Some(id) => GetStep::Open(id),
            None => if wifi_on {
                GetStep::Fetch
            } else {
                GetStep::AskWifi
            },
        }),
{
    match in_library {
        Some(id) => GetStep::Open(id),
        None => if wifi_on {
            GetStep::Fetch
        } else {
            GetStep::AskWifi
        },
    }
}

/// What a key on a book page asks for.
#[derive(Clone, Copy, Debug, PartialEq, Eq, Structural)]
pub enum BookStep {
    /// Nothing.
    Ignore,
    /// Back.
    Pop,
    /// Save the book for later, or unsave it.
    ToggleSaved,
    /// Draw again.
    Redraw,
    /// Search the catalog for the author.
    SearchAuthor,
    /// Get the book (see `get_book`).
    Get,
}

/// What getting a book does.
#[derive(Clone, Copy, Debug, PartialEq, Eq, Structural)]
pub enum GetStep {
    /// Open it from the library.
    Open(u64),
    /// Ask for Wi-Fi first.
    AskWifi,
    /// Fetch it.
    Fetch,
}

impl BookPage {
    /// The book read from the catalog, and whether it is saved for later.
    pub fn show(&mut self, book: ShopBook, saved: bool)
        ensures
            final(self).spec_read(),
            final(self).spec_saved() == Some(saved),
            final(self).spec_index() == old(self).spec_index(),
            final(self).spec_page() == old(self).spec_page(),
    {
        self.book = Some(book);
        self.saved = Some(saved);
    }

    /// Whether the book is saved for later, once known.
    pub fn set_saved(&mut self, saved: bool)
        ensures
            final(self).spec_saved() == Some(saved),
            final(self).spec_index() == old(self).spec_index(),
            final(self).spec_read() == old(self).spec_read(),
            final(self).spec_page() == old(self).spec_page(),
    {
        self.saved = Some(saved);
    }
}

/// What a key on the search screen asks for.
#[derive(Clone, Copy, Debug, PartialEq, Eq, Structural)]
pub enum SearchStep {
    /// Nothing.
    Ignore,
    /// Back.
    Pop,
    /// Edit the query on the keyboard.
    EditQuery,
    /// Search if the query changed, then open the focused result.
    Open,
    /// The list's navigation takes the key.
    Nav,
}

/// Search the offline catalog as you type.
pub struct Search {
    query: String,
    searched: Option<String>,
    results: Vec<u32>,
    rows: PageRows,
    nav: ListNav,
}

impl Search {
    /// The query.
    pub closed spec fn spec_query(self) -> Seq<char> {
        self.query@
    }

    /// Nothing searched yet.
    pub closed spec fn spec_fresh(self) -> bool {
        self.searched is None && self.results.len() == 0
    }

    /// The rows of the results' page read so far.
    pub closed spec fn spec_rows_empty(self) -> bool {
        self.rows.spec_empty()
    }

    /// The list's position.
    pub closed spec fn spec_nav(self) -> ListNav {
        self.nav
    }

    /// New, with no query.
    pub fn new() -> (s: Search)
        ensures
            s.spec_query().len() == 0,
            s.spec_fresh(),
            s.spec_rows_empty(),
            s.spec_nav() == (ListNav { n: 0, per_page: 9, focus: 0 }),
    {
        Search { query: String::new(), searched: None, results: Vec::new(), rows: PageRows::empty(), nav: ListNav::new(0, 9) }
    }

    /// New, with a query to search for at once.
    pub fn with_query(q: &str) -> (s: Search)
        ensures
            s.spec_query() == q@,
            s.spec_fresh(),
            s.spec_rows_empty(),
            s.spec_nav() == (ListNav { n: 0, per_page: 9, focus: 0 }),
    {
        Search { query: owned(q), searched: None, results: Vec::new(), rows: PageRows::empty(), nav: ListNav::new(0, 9) }
    }

    /// The results found so far.
    pub closed spec fn spec_results(self) -> Seq<u32> {
        self.results@
    }

    /// Nothing searched yet means no results.
    pub proof fn lemma_fresh(self)
        requires
            self.spec_fresh(),
        ensures
            self.spec_results().len() == 0,
    {
    }

    /// A key: Back pops; Right, or holding Confirm, edits the query; Confirm opens the
    /// focused result (once the query has been searched); a release does nothing and
    /// any other key goes to the list's navigation.
    pub fn key(&self, ev: KeyEvent) -> (s: SearchStep)
        ensures
            s == (if ev.kind == KeyKind::Release {
                SearchStep::Ignore
            } else if ev.key == Key::Back && ev.kind == KeyKind::Press {
                SearchStep::Pop
            } else if (ev.key == Key::Right && ev.kind == KeyKind::Press) || (ev.key == Key::Confirm && ev.kind
                == KeyKind::Long) {
                SearchStep::EditQuery
            } else if ev.key == Key::Confirm && ev.kind == KeyKind::Press {
                SearchStep::Open
            } else {
                SearchStep::Nav
            }),
    {
        if ev.kind == KeyKind::Release {
            return SearchStep::Ignore;
        }
        if ev.is(Key::Back) {
            return SearchStep::Pop;
        }
        if ev.is(Key::Right) || ev.is_long(Key::Confirm) {
            return SearchStep::EditQuery;
        }
        if ev.is(Key::Confirm) {
            return SearchStep::Open;
        }
        SearchStep::Nav
    }

    /// A new query, typed or sent from the phone: the focus goes back to the top.
    pub fn set_query(&mut self, q: String)
        ensures
            final(self).spec_query() == q@,
            final(self).spec_nav() == (ListNav { focus: 0, ..old(self).spec_nav() }),
            final(self).spec_results() == old(self).spec_results(),
    {
        self.query = q;
        self.nav.focus = 0;
    }

    /// The focused result, if the list has one there.
    pub fn focused_result(&self) -> (r: Option<u32>)
        ensures
            r == (if self.spec_nav().focus < self.spec_results().len() {
                Some(self.spec_results()[self.spec_nav().focus as int])
            } else {
                None::<u32>
            }),
    {
        if self.nav.focus < self.results.len() {
            Some(self.results[self.nav.focus])
        } else {
            None
        }
    }
}

/// Browse: subjects, authors A–Z, collections, languages.
pub struct Browse {
    level: u8,
    kind: usize,
    groups: Vec<Group>,
    group: usize,
    members: Vec<u32>,
    rows: PageRows,
    nav: ListNav,
}

impl Browse {
    /// The level shown: 0 the kinds, 1 a kind's groups, 2 a group's books.
    pub closed spec fn spec_level(self) -> u8 {
        self.level
    }

    /// The list's rows.
    pub closed spec fn spec_nav(self) -> (usize, usize, usize) {
        (self.nav.n, self.nav.per_page, self.nav.focus)
    }

    /// New: the four kinds.
    pub fn new() -> (b: Browse)
        ensures
            b.spec_level() == 0,
            b.spec_nav() == (4usize, 10usize, 0usize),
    {
        Browse {
            level: 0,
            kind: 0,
            groups: Vec::new(),
            group: 0,
            members: Vec::new(),
            rows: PageRows::empty(),
            nav: ListNav::new(4, 10),
        }
    }

    /// The kind open at level 1 and below.
    pub closed spec fn spec_kind(self) -> usize {
        self.kind
    }

    /// The groups of the open kind.
    pub closed spec fn spec_groups(self) -> Seq<Group> {
        self.groups@
    }

    /// The open group and its books.
    pub closed spec fn spec_group(self) -> (usize, Seq<u32>) {
        (self.group, self.members@)
    }

    /// No page of rows is read.
    pub closed spec fn spec_rows_empty(self) -> bool {
        self.rows.spec_empty()
    }

    /// A key, with the catalog to read groups and members from: Back goes up a level
    /// (pops at the kinds); Confirm opens the focused kind, group or book; a release does
    /// nothing and any other key goes to the list's navigation.
    pub fn key(&mut self, ev: KeyEvent, cat: &CatalogFile) -> (s: BrowseStep)
        requires
            cat.header_read(),
        ensures
            ({
                let lv = old(self).spec_level();
                let (n, per, focus) = old(self).spec_nav();
                if ev.kind == KeyKind::Release {
                    s == BrowseStep::Ignore && *final(self) == *old(self)
                } else if ev.key == Key::Back && ev.kind == KeyKind::Press {
                    if lv == 0 {
                        s == BrowseStep::Pop && *final(self) == *old(self)
                    } else {
                        &&& s == BrowseStep::Redraw
                        &&& final(self).spec_level() == lv - 1
                        &&& final(self).spec_nav() == (n, per, 0usize)
                        &&& final(self).spec_rows_empty()
                        &&& final(self).spec_kind() == old(self).spec_kind()
                        &&& final(self).spec_groups() == old(self).spec_groups()
                        &&& final(self).spec_group() == old(self).spec_group()
                    }
                } else if ev.key == Key::Confirm && ev.kind == KeyKind::Press {
                    if lv == 0 {
                        &&& s == BrowseStep::Redraw
                        &&& final(self).spec_level() == 1
                        &&& final(self).spec_kind() == focus
                        &&& cat.groups_listed(focus as int, final(self).spec_groups())
                        &&& final(self).spec_nav() == (n, per, 0usize)
                        &&& final(self).spec_group() == old(self).spec_group()
                    } else if lv == 1 {
                        &&& s == BrowseStep::Redraw
                        &&& final(self).spec_kind() == old(self).spec_kind()
                        &&& final(self).spec_groups() == old(self).spec_groups()
                        &&& if focus < old(self).spec_groups().len() {
                            &&& final(self).spec_level() == 2
                            &&& final(self).spec_group() == (focus, cat.members_listed(old(self).spec_groups()[focus as int]))
                            &&& final(self).spec_nav() == (n, per, 0usize)
                            &&& final(self).spec_rows_empty()
                        } else {
                            *final(self) == *old(self)
                        }
                    } else {
                        *final(self) == *old(self) && s == (if focus < old(self).spec_group().1.len() {
                            BrowseStep::Open(old(self).spec_group().1[focus as int])
                        } else {
                            BrowseStep::Redraw
                        })
                    }
                } else {
                    s == BrowseStep::Nav && *final(self) == *old(self)
                }
            }),
    {
        if ev.kind == KeyKind::Release {
            return BrowseStep::Ignore;
        }
        if ev.is(Key::Back) {
            if self.level == 0 {
                return BrowseStep::Pop;
            }
            self.level = self.level - 1;
            self.nav.focus = 0;
            self.rows = PageRows::empty();
            return BrowseStep::Redraw;
        }
        if ev.is(Key::Confirm) {
            if self.level == 0 {
                self.kind = self.nav.focus;
                self.groups = cat.groups(self.nav.focus);
                self.level = 1;
                self.nav.focus = 0;
            } else if self.level == 1 {
                if self.nav.focus < self.groups.len() {
                    self.members = cat.members(&self.groups[self.nav.focus]);
                    self.group = self.nav.focus;
                    self.level = 2;
                    self.nav.focus = 0;
                    self.rows = PageRows::empty();
                }
            } else {
                if self.nav.focus < self.members.len() {
                    return BrowseStep::Open(self.members[self.nav.focus]);
                }
            }
            return BrowseStep::Redraw;
        }
        BrowseStep::Nav
    }
}

/// What a key on the browse screen asks for.
#[derive(Clone, Copy, Debug, PartialEq, Eq, Structural)]
pub enum BrowseStep {
    /// Nothing.
    Ignore,
    /// Back to the shop.
    Pop,
    /// Draw again.
    Redraw,
    /// The page of this record.
    Open(u32),
    /// The list's navigation takes the key.
    Nav,
}

/// The download queue and the saved list.
pub struct Downloads {
    nav: ListNav,
    saved_tab: bool,
    saved: Option<Vec<Row>>,
}

impl Downloads {
    /// The saved list's tab is shown.
    pub closed spec fn spec_saved_tab(self) -> bool {
        self.saved_tab
    }

    /// The saved list, once read.
    pub closed spec fn spec_saved_read(self) -> bool {
        self.saved is Some
    }

    /// The list's position.
    pub closed spec fn spec_nav(self) -> ListNav {
        self.nav
    }

    /// New: the queue, the saved list not read.
    pub fn new() -> (d: Downloads)
        ensures
            !d.spec_saved_tab(),
            !d.spec_saved_read(),
            d.spec_nav() == (ListNav { n: 0, per_page: 9, focus: 0 }),
    {
        Downloads { nav: ListNav::new(0, 9), saved_tab: false, saved: None }
    }

    /// A key press (other kinds do nothing), given whether the download queue is empty:
    /// Back pops; Left switches between the queue and the saved list (focus to the top,
    /// the saved list read afresh); Confirm opens the focused saved book, or retries the
    /// focused download (the shop when the queue is empty); Right fetches every saved
    /// book and shows the queue, or cancels the focused download; other keys go to the
    /// list's navigation.
    pub fn key(&mut self, ev: KeyEvent, queue_empty: bool) -> (s: DownloadsStep)
        ensures
            ({
                let tab = old(self).spec_saved_tab();
                let focus = old(self).spec_nav().focus;
                if ev.kind != KeyKind::Press {
                    s == DownloadsStep::Ignore && *final(self) == *old(self)
                } else {
                    match ev.key {
                        Key::Back => s == DownloadsStep::Pop && *final(self) == *old(self),
                        Key::Left => s == DownloadsStep::Redraw && final(self).spec_saved_tab() == !tab
                            && final(self).spec_nav() == (ListNav { focus: 0, ..old(self).spec_nav() })
                            && (!tab ==> !final(self).spec_saved_read())
                            && (tab ==> final(self).spec_saved_read() == old(self).spec_saved_read()),
                        Key::Confirm => *final(self) == *old(self) && s == (if tab {
                            DownloadsStep::OpenSaved(focus)
                        } else if queue_empty {
                            DownloadsStep::Shop
                        } else {
                            DownloadsStep::Retry(focus)
                        }),
                        Key::Right => if tab {
                            s == DownloadsStep::FetchSaved && !final(self).spec_saved_tab() && final(self).spec_nav() == (
                            ListNav { focus: 0, ..old(self).spec_nav() }) && final(self).spec_saved_read()
                                == old(self).spec_saved_read()
                        } else {
                            *final(self) == *old(self) && s == (if queue_empty {
                                DownloadsStep::Ignore
                            } else {
                                DownloadsStep::Cancel(focus)
                            })
                        },
                        _ => s == DownloadsStep::Nav && *final(self) == *old(self),
                    }
                }
            }),
    {
        if ev.kind != KeyKind::Press {
            return DownloadsStep::Ignore;
        }
        match ev.key {
            Key::Back => DownloadsStep::Pop,
            Key::Left => {
                self.saved_tab = !self.saved_tab;
                self.nav.focus = 0;
                if self.saved_tab {
                    self.saved = None;
                }
                DownloadsStep::Redraw
            },
            Key::Confirm => if self.saved_tab {
                DownloadsStep::OpenSaved(self.nav.focus)
            } else if queue_empty {
                DownloadsStep::Shop
            } else {
                DownloadsStep::Retry(self.nav.focus)
            },
            Key::Right => if self.saved_tab {
                self.saved_tab = false;
                self.nav.focus = 0;
                DownloadsStep::FetchSaved
            } else if queue_empty {
                DownloadsStep::Ignore
            } else {
                DownloadsStep::Cancel(self.nav.focus)
            },
            _ => DownloadsStep::Nav,
        }
    }
}

/// What a key on the downloads screen asks for.
#[derive(Clone, Copy, Debug, PartialEq, Eq, Structural)]
pub enum DownloadsStep {
    /// Nothing.
    Ignore,
    /// Back.
    Pop,
    /// Draw again.
    Redraw,
    /// Open the page of the saved book at this row.
    OpenSaved(usize),
    /// The shop (nothing is queued).
    Shop,
    /// Retry the download at this row.
    Retry(usize),
    /// Cancel the download at this row.
    Cancel(usize),
    /// Fetch every saved book not in the library yet.
    FetchSaved,
    /// The list's navigation takes the key.
    Nav,
}

/// OPDS catalogs: saved servers, a feed's entries, downloads.
pub struct OpdsScreen {
    feed: Option<(String, Vec<OpdsEntry>)>,
    history: Vec<String>,
    loading: Option<String>,
    error: Option<String>,
    nav: ListNav,
}

impl OpdsScreen {
    /// At the server list.
    pub closed spec fn spec_at_servers(self) -> bool {
        self.feed is None && self.history.len() == 0 && self.loading is None && self.error is None
    }

    /// The list's position.
    pub closed spec fn spec_nav(self) -> ListNav {
        self.nav
    }

    /// New: the server list.
    pub fn new() -> (o: OpdsScreen)
        ensures
            o.spec_at_servers(),
            o.spec_nav() == (ListNav { n: 0, per_page: 9, focus: 0 }),
    {
        OpdsScreen { feed: None, history: Vec::new(), loading: None, error: None, nav: ListNav::new(0, 9) }
    }
}

/// The Calibre wireless connection.
pub struct CalibreScreen {
    started: bool,
}

impl CalibreScreen {
    /// The connection has been asked for.
    pub closed spec fn spec_started(self) -> bool {
        self.started
    }

    /// New: the connection is asked for when first shown.
    pub fn new() -> (c: CalibreScreen)
        ensures
            !c.spec_started(),
    {
        CalibreScreen { started: false }
    }

    /// The first drawing asks the platform to start the wireless connection (true);
    /// later drawings ask for nothing.
    pub fn first_draw(&mut self) -> (start: bool)
        ensures
            start == !old(self).spec_started(),
            final(self).spec_started(),
    {
        if self.started {
            return false;
        }
        self.started = true;
        true
    }
}

/// What a key asks of the sync screen.
#[derive(Clone, Copy, Debug, PartialEq, Eq, Structural)]
pub enum SyncStep {
    /// Nothing.
    Ignore,
    /// Close.
    Pop,
    /// Redraw.
    Redraw,
    /// Wi-Fi is needed first: open its screen with a hint.
    NeedWifi,
    /// Sync now (the screen waits for the answer).
    SyncNow,
    /// Edit the server address.
    EditUrl,
    /// Edit the user.
    EditUser,
    /// Edit the key.
    EditKey,
}

/// Position sync with a KOReader-compatible server.
pub struct SyncScreen {
    focus: usize,
    last: Option<Result<u32, String>>,
    working: bool,
}

impl SyncScreen {
    /// The focused row: sync now, server, user, key.
    pub closed spec fn spec_focus(self) -> usize {
        self.focus
    }

    /// Waiting for the server.
    pub closed spec fn spec_working(self) -> bool {
        self.working
    }

    /// No result yet.
    pub closed spec fn spec_no_result(self) -> bool {
        self.last is None
    }

    /// The last answer: positions synced, or the error.
    pub closed spec fn spec_last(self) -> Option<Result<u32, Seq<char>>> {
        match self.last {
            Some(Ok(n)) => Some(Ok(n)),
            Some(Err(e)) => Some(Err(e@)),
            None => None,
        }
    }

    /// New.
    pub fn new() -> (s: SyncScreen)
        ensures
            s.spec_focus() == 0,
            !s.spec_working(),
            s.spec_no_result(),
    {
        SyncScreen { focus: 0, last: None, working: false }
    }

    /// A press: Back closes, Up and Down move round the four rows, Confirm or Right acts
    /// on the focused one (a sync needs Wi-Fi to be connected).
    pub fn key(&mut self, ev: KeyEvent, connected: bool) -> (s: SyncStep)
        requires
            old(self).spec_focus() < 4,
        ensures
            final(self).spec_focus() < 4,
            ev.kind != KeyKind::Press ==> s == SyncStep::Ignore && *final(self) == *old(self),
            ev.kind == KeyKind::Press ==> match ev.key {
                Key::Back => s == SyncStep::Pop && *final(self) == *old(self),
                Key::Up => s == SyncStep::Redraw && final(self).spec_focus() == (old(self).spec_focus() + 3) % 4
                    && final(self).spec_working() == old(self).spec_working(),
                Key::Down => s == SyncStep::Redraw && final(self).spec_focus() == (old(self).spec_focus() + 1) % 4
                    && final(self).spec_working() == old(self).spec_working(),
                Key::Confirm | Key::Right => final(self).spec_focus() == old(self).spec_focus() && if old(self).spec_focus()
                    == 0 {
                    if connected {
                        s == SyncStep::SyncNow && final(self).spec_working() && final(self).spec_no_result()
                    } else {
                        s == SyncStep::NeedWifi && *final(self) == *old(self)
                    }
                } else {
                    *final(self) == *old(self) && s == (if old(self).spec_focus() == 1 {
                        SyncStep::EditUrl
                    } else if old(self).spec_focus() == 2 {
                        SyncStep::EditUser
                    } else {
                        SyncStep::EditKey
                    })
                },
                _ => s == SyncStep::Ignore && *final(self) == *old(self),
            },
    {
        if ev.kind != KeyKind::Press {
            return SyncStep::Ignore;
        }
        match ev.key {
            Key::Back => SyncStep::Pop,
            Key::Up => {
                self.focus = (self.focus + 3) % 4;
                SyncStep::Redraw
            },
            Key::Down => {
                self.focus = (self.focus + 1) % 4;
                SyncStep::Redraw
            },
            Key::Confirm | Key::Right => {
                if self.focus == 0 {
                    if !connected {
                        return SyncStep::NeedWifi;
                    }
                    self.working = true;
                    self.last = None;
                    SyncStep::SyncNow
                } else if self.focus == 1 {
                    SyncStep::EditUrl
                } else if self.focus == 2 {
                    SyncStep::EditUser
                } else {
                    SyncStep::EditKey
                }
            },
            _ => SyncStep::Ignore,
        }
    }

    /// The server's answer: the number of positions synced, or an error.
    pub fn finished(&mut self, r: Result<u32, String>)
        ensures
            !final(self).spec_working(),
            !final(self).spec_no_result(),
            final(self).spec_last() == Some(
                match r {
                    Ok(n) => Ok::<u32, Seq<char>>(n),
                    Err(e) => Err(e@),
                },
            ),
            final(self).spec_focus() == old(self).spec_focus(),
    {
        self.working = false;
        self.last = Some(r);
    }

    /// Text typed for the focused row: the server address and the user name are
    /// trimmed, the key is kept as typed; the first row takes no text.
    pub fn typed(&self, text: &str) -> (r: Option<(SyncField, String)>)
        ensures
            self.spec_focus() == 1 ==> (r matches Some((f, v)) && f == SyncField::Url && v@ == trim_by(
                text@,
                strips(Strip::White),
            )),
            self.spec_focus() == 2 ==> (r matches Some((f, v)) && f == SyncField::User && v@ == trim_by(
                text@,
                strips(Strip::White),
            )),
            self.spec_focus() == 3 ==> (r matches Some((f, v)) && f == SyncField::Key && v@ == text@),
            self.spec_focus() != 1 && self.spec_focus() != 2 && self.spec_focus() != 3 ==> r is None,
    {
        if self.focus == 1 || self.focus == 2 {
            let t = string_of(&trim_chars(&chars_of(text), Strip::White));
            if self.focus == 1 {
                Some((SyncField::Url, t))
            } else {
                Some((SyncField::User, t))
            }
        } else if self.focus == 3 {
            Some((SyncField::Key, owned(text)))
        } else {
            None
        }
    }
}

/// A sync setting typed on the keyboard.
#[derive(Clone, Copy, Debug, PartialEq, Eq, Structural)]
pub enum SyncField {
    /// The server address.
    Url,
    /// The user name.
    User,
    /// The key.
    Key,
}

/// What a key asks of the Calibre screen.
#[derive(Clone, Copy, Debug, PartialEq, Eq, Structural)]
pub enum CalibreStep {
    /// Nothing.
    Ignore,
    /// Stop the wireless connection and close.
    StopAndPop,
    /// Wi-Fi is needed first: open its screen with a hint.
    NeedWifi,
}

impl CalibreScreen {
    /// A press: Back stops the connection and closes; Confirm asks for Wi-Fi when it
    /// is not connected.
    pub fn key(&self, ev: KeyEvent, connected: bool) -> (s: CalibreStep)
        ensures
            s == (if ev.kind == KeyKind::Press && ev.key == Key::Back {
                CalibreStep::StopAndPop
            } else if ev.kind == KeyKind::Press && ev.key == Key::Confirm && !connected {
                CalibreStep::NeedWifi
            } else {
                CalibreStep::Ignore
            }),
    {
        if ev.is(Key::Back) {
            return CalibreStep::StopAndPop;
        }
        if ev.is(Key::Confirm) && !connected {
            return CalibreStep::NeedWifi;
        }
        CalibreStep::Ignore
    }
}

} // verus!
