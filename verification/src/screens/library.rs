//! The library screen's keys: tabs, the grid and the list, groups, and opening a book.

use vstd::prelude::*;
use crate::keys::{Key, KeyEvent, KeyKind};

verus! {

/// The tabs: Recent, All, Authors, Series, Collections, Folders.
pub const TABS: usize = 6;

/// A row of the current tab, as the platform lists it from the library.
#[derive(Clone, Debug, PartialEq, Eq)]
pub enum LibItem {
    /// A book, by its library id, and whether it is ready to read.
    Book(u64, bool),
    /// A group (author, series or collection) by name.
    Group(String),
}

/// What a key on the library asks for.
#[derive(Clone, Debug, PartialEq, Eq)]
pub enum LibraryStep {
    /// Nothing.
    Ignore,
    /// Back.
    Pop,
    /// Draw again (the tab, when it changed and is not Folders, is remembered in the
    /// settings).
    Redraw,
    /// The Folders screen.
    Folders,
    /// The book's compass.
    Compass(u64),
    /// Switch the setting between grid and list.
    ToggleGrid,
    /// Open the book.
    Open(u64),
    /// Ask for the book to be prepared now and show its page.
    Prepare(u64),
    /// The list's navigation takes the key.
    Nav,
}

/// The library screen's position.
pub struct LibraryScreen {
    /// The tab shown.
    pub tab: usize,
    /// The focused row.
    pub focus: usize,
    /// Focus is on the tab line.
    pub on_tabs: bool,
    /// For Authors, Series and Collections: the group opened, if any.
    pub group: Option<String>,
}

/// Whether the tab shows covers in a grid: Recent and All, and an opened group, when the
/// grid setting is on.
pub open spec fn grid_shown(tab: usize, group_open: bool, library_grid: bool) -> bool {
    library_grid && (tab == 0 || tab == 1 || group_open)
}

/// The grid focus after a direction key among `n` covers: Left and Right step round,
/// Up and Down move a row of three, stopping at the ends.
pub open spec fn grid_move(key: Key, focus: int, n: int) -> int {
    match key {
        Key::Left => (focus + n - 1) % n,
        Key::Right => (focus + 1) % n,
        Key::Up => if focus >= 3 { focus - 3 } else { 0 },
        _ => if focus + 3 < n - 1 { focus + 3 } else { n - 1 },
    }
}

impl LibraryScreen {
    /// New: the Recent tab, focus on the first row.
    pub fn new() -> (l: LibraryScreen)
        ensures
            l.tab == 0,
            l.focus == 0,
            !l.on_tabs,
            l.group is None,
    {
        LibraryScreen { tab: 0, focus: 0, on_tabs: false, group: None }
    }

    /// A key, given the rows of the current tab, the grid setting and the tab saved in
    /// the settings. Back closes an opened group, else pops. On the tab line Left and
    /// Right change tab, Down and Confirm go to the rows (Folders opens its own screen).
    /// A long Confirm opens a book's compass, elsewhere switches grid and list. Confirm
    /// opens a ready book, asks for one not yet prepared, or opens a group. Up from the
    /// first row (of the grid) goes to the tab line; in the grid the direction keys move
    /// the focus; in the list they go to its navigation.
    pub fn key(&mut self, ev: KeyEvent, items: &Vec<LibItem>, library_grid: bool, saved_tab: u8) -> (s: LibraryStep)
        requires
            old(self).tab < TABS,
            items.len() < usize::MAX,
            old(self).focus + 3 <= usize::MAX,
        ensures
            final(self).tab < TABS,
            ({
                let o = *old(self);
                let f = *final(self);
                let n = items.len() as int;
                let grid = grid_shown(o.tab, o.group is Some, library_grid);
                if ev.kind == KeyKind::Release {
                    s == LibraryStep::Ignore && f == o
                } else if ev.key == Key::Back && ev.kind == KeyKind::Press {
                    if o.group is Some {
                        s == LibraryStep::Redraw && f == LibraryScreen { group: None, focus: 0, ..o }
                    } else {
                        s == LibraryStep::Pop && f == o
                    }
                } else if o.on_tabs {
                    match ev.key {
                        Key::Left => s == LibraryStep::Redraw && f == LibraryScreen {
                            tab: ((o.tab + TABS - 1) % (TABS as int)) as usize,
                            group: None,
                            focus: 0,
                            ..o
                        },
                        Key::Right => s == LibraryStep::Redraw && f == LibraryScreen {
                            tab: ((o.tab + 1) % (TABS as int)) as usize,
                            group: None,
                            focus: 0,
                            ..o
                        },
                        Key::Down | Key::Confirm => if o.tab == 5 {
                            s == LibraryStep::Folders && f == LibraryScreen {
                                tab: (if saved_tab < 4 { saved_tab } else { 4 }) as usize,
                                ..o
                            }
                        } else {
                            s == LibraryStep::Redraw && f == LibraryScreen { on_tabs: false, group: None, focus: 0, ..o }
                        },
                        _ => s == LibraryStep::Ignore && f == o,
                    }
                } else if ev.key == Key::Confirm && ev.kind == KeyKind::Long {
                    f == o && s == (if o.focus < n && items@[o.focus as int] is Book {
                        LibraryStep::Compass(items@[o.focus as int]->Book_0)
                    } else {
                        LibraryStep::ToggleGrid
                    })
                } else if ev.key == Key::Confirm && ev.kind == KeyKind::Press {
                    if o.focus < n {
                        match items@[o.focus as int] {
                            LibItem::Book(id, ready) => f == o && s == (if ready {
                                LibraryStep::Open(id)
                            } else {
                                LibraryStep::Prepare(id)
                            }),
                            LibItem::Group(name) => s == LibraryStep::Redraw && f == LibraryScreen {
                                group: Some(name),
                                focus: 0,
                                ..o
                            },
                        }
                    } else {
                        s == LibraryStep::Ignore && f == o
                    }
                } else if ev.key == Key::Up && o.focus < (if grid { 3int } else { 1int }) {
                    s == LibraryStep::Redraw && f == LibraryScreen { on_tabs: true, ..o }
                } else if grid {
                    if n > 0 && (ev.key == Key::Left || ev.key == Key::Right || ev.key == Key::Up || ev.key == Key::Down) {
                        s == LibraryStep::Redraw && f == LibraryScreen { focus: grid_move(ev.key, o.focus as int, n) as usize, ..o }
                    } else {
                        s == LibraryStep::Ignore && f == o
                    }
                } else {
                    s == LibraryStep::Nav && f == o
                }
            }),
    {
        if ev.kind == KeyKind::Release {
            return LibraryStep::Ignore;
        }
        if ev.is(Key::Back) {
            if self.group.is_some() {
                self.group = None;
                self.focus = 0;
                return LibraryStep::Redraw;
            }
            return LibraryStep::Pop;
        }
        let grid = library_grid && (self.tab == 0 || self.tab == 1 || self.group.is_some());
        if self.on_tabs {
            match ev.key {
                Key::Left => {
                    self.tab = (self.tab + TABS - 1) % TABS;
                },
                Key::Right => {
                    self.tab = (self.tab + 1) % TABS;
                },
                Key::Down | Key::Confirm => {
                    if self.tab == 5 {
                        self.tab = if saved_tab < 4 { saved_tab as usize } else { 4 };
                        return LibraryStep::Folders;
                    }
                    self.on_tabs = false;
                },
                _ => {
                    return LibraryStep::Ignore;
                },
            }
            self.group = None;
            self.focus = 0;
            return LibraryStep::Redraw;
        }
        if ev.is_long(Key::Confirm) {
            if self.focus < items.len() {
                match &items[self.focus] {
                    LibItem::Book(id, _) => {
                        return LibraryStep::Compass(*id);
                    },
                    LibItem::Group(_) => {},
                }
            }
            return LibraryStep::ToggleGrid;
        }
        if ev.is(Key::Confirm) {
            if self.focus >= items.len() {
                return LibraryStep::Ignore;
            }
            return match &items[self.focus] {
                LibItem::Book(id, ready) => if *ready {
                    LibraryStep::Open(*id)
                } else {
                    LibraryStep::Prepare(*id)
                },
                LibItem::Group(name) => {
                    self.group = Some(name.clone());
                    self.focus = 0;
                    LibraryStep::Redraw
                },
            };
        }
        if ev.key == Key::Up && self.focus < (if grid { 3 } else { 1 }) {
            self.on_tabs = true;
            return LibraryStep::Redraw;
        }
        if grid {
            let n = items.len();
            if n > 0 {
                match ev.key {
                    Key::Left => {
                        let f0 = self.focus;
                        self.focus = if f0 == 0 { n - 1 } else { (f0 - 1) % n };
                        proof {
                            let fi = f0 as int;
                            let ni = n as int;
                            if fi > 0 {
                                vstd::arithmetic::div_mod::lemma_mod_add_multiples_vanish(fi - 1, ni);
                                assert(fi + ni - 1 == ni + (fi - 1));
                            } else {
                                vstd::arithmetic::div_mod::lemma_small_mod((ni - 1) as nat, ni as nat);
                            }
                        }
                    },
                    Key::Right => {
                        self.focus = (self.focus + 1) % n;
                    },
                    Key::Up => {
                        self.focus = if self.focus >= 3 { self.focus - 3 } else { 0 };
                    },
                    Key::Down => {
                        self.focus = if self.focus + 3 < n - 1 { self.focus + 3 } else { n - 1 };
                    },
                    _ => {
                        return LibraryStep::Ignore;
                    },
                }
                return LibraryStep::Redraw;
            }
            return LibraryStep::Ignore;
        }
        LibraryStep::Nav
    }
}

} // verus!
