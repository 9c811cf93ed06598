//! The sleep-screen picker: six variants in two rows of three, and the options of the
//! focused one below them.

use vstd::prelude::*;
use crate::keys::{Key, KeyEvent, KeyKind};
use crate::settings::{ImageRotation, SleepVariant};

verus! {

/// The variant at position `i` of the grid (picker order).
pub open spec fn variant_at(i: int) -> SleepVariant {
    if i == 0 {
        SleepVariant::Cover
    } else if i == 1 {
        SleepVariant::Poster
    } else if i == 2 {
        SleepVariant::Quote
    } else if i == 3 {
        SleepVariant::Custom
    } else if i == 4 {
        SleepVariant::QuickResume
    } else {
        SleepVariant::Blank
    }
}

fn variant(i: usize) -> (v: SleepVariant)
    requires
        i < 6,
    ensures
        v == variant_at(i as int),
{
    match i {
        0 => SleepVariant::Cover,
        1 => SleepVariant::Poster,
        2 => SleepVariant::Quote,
        3 => SleepVariant::Custom,
        4 => SleepVariant::QuickResume,
        _ => SleepVariant::Blank,
    }
}

/// What a key asks of the picker.
#[derive(Clone, Copy, Debug, PartialEq, Eq, Structural)]
pub enum PickerStep {
    /// Nothing.
    Ignore,
    /// Close.
    Pop,
    /// Redraw.
    Redraw,
    /// Change the focused option of the focused variant, then redraw.
    Change,
    /// Show a three-second preview of the variant.
    Preview(SleepVariant),
    /// Make the variant the sleep screen, then redraw.
    Choose(SleepVariant),
}

/// The picker's focus.
pub struct Picker {
    focus: usize,
    opt_focus: usize,
    in_options: bool,
}

impl Picker {
    /// The focused variant's position.
    pub closed spec fn spec_focus(self) -> usize {
        self.focus
    }

    /// The focused option.
    pub closed spec fn spec_opt_focus(self) -> usize {
        self.opt_focus
    }

    /// The focus is in the options rather than the grid.
    pub closed spec fn spec_in_options(self) -> bool {
        self.in_options
    }

    /// The focus is on the grid.
    pub closed spec fn inv(self) -> bool {
        self.focus < 6
    }

    /// New: the first variant focused.
    pub fn new() -> (p: Picker)
        ensures
            p.inv(),
            p.spec_focus() == 0,
            p.spec_opt_focus() == 0,
            !p.spec_in_options(),
    {
        Picker { focus: 0, opt_focus: 0, in_options: false }
    }

    /// A press, given how many options the focused variant has. In the grid: Left moves
    /// back round the six, Up goes up a row (round the top row), Down down a row or into
    /// the options, Right previews and Confirm chooses the focused variant. In the options
    /// Left, Right and Confirm change the focused option, Up and Down move between the
    /// options (up from the first back to the grid). Back closes.
    pub fn key(&mut self, ev: KeyEvent, n_opts: usize) -> (s: PickerStep)
        requires
            old(self).inv(),
        ensures
            final(self).inv(),
            ({
                let f = old(self).spec_focus();
                let o = old(self).spec_opt_focus();
                let inside = old(self).spec_in_options();
                if ev.kind != KeyKind::Press {
                    s == PickerStep::Ignore && *final(self) == *old(self)
                } else {
                    match ev.key {
                        Key::Back => s == PickerStep::Pop && *final(self) == *old(self),
                        Key::Right => *final(self) == *old(self) && s == (if inside {
                            PickerStep::Change
                        } else {
                            PickerStep::Preview(variant_at(f as int))
                        }),
                        Key::Confirm => *final(self) == *old(self) && s == (if inside {
                            PickerStep::Change
                        } else {
                            PickerStep::Choose(variant_at(f as int))
                        }),
                        Key::Left => if inside {
                            s == PickerStep::Change && *final(self) == *old(self)
                        } else {
                            s == PickerStep::Redraw && final(self).spec_focus() == (f + 5) % 6 && !final(self).spec_in_options()
                                && final(self).spec_opt_focus() == o
                        },
                        Key::Up => s == PickerStep::Redraw && if inside {
                            if o == 0 {
                                !final(self).spec_in_options() && final(self).spec_focus() == f && final(self).spec_opt_focus()
                                    == o
                            } else {
                                final(self).spec_in_options() && final(self).spec_opt_focus() == o - 1 && final(self).spec_focus() == f
                            }
                        } else {
                            !final(self).spec_in_options() && final(self).spec_opt_focus() == o && final(self).spec_focus()
                                == (if f >= 3 { f - 3 } else { (f + 1) % 3 })
                        },
                        Key::Down => s == PickerStep::Redraw && if inside {
                            final(self).spec_in_options() && final(self).spec_focus() == f && final(self).spec_opt_focus() == (
                            if o + 1 < n_opts { o + 1 } else { o as int })
                        } else if f < 3 {
                            !final(self).spec_in_options() && final(self).spec_focus() == f + 3 && final(self).spec_opt_focus() == o
                        } else if n_opts > 0 {
                            final(self).spec_in_options() && final(self).spec_opt_focus() == 0 && final(self).spec_focus() == f
                        } else {
                            *final(self) == *old(self)
                        },
                        Key::Power => s == PickerStep::Ignore && *final(self) == *old(self),
                    }
                }
            }),
    {
        if ev.kind != KeyKind::Press {
            return PickerStep::Ignore;
        }
        match ev.key {
            Key::Back => PickerStep::Pop,
            Key::Right => {
                if self.in_options {
                    PickerStep::Change
                } else {
                    PickerStep::Preview(variant(self.focus))
                }
            },
            Key::Confirm => {
                if self.in_options {
                    PickerStep::Change
                } else {
                    PickerStep::Choose(variant(self.focus))
                }
            },
            Key::Left => {
                if self.in_options {
                    PickerStep::Change
                } else {
                    self.focus = (self.focus + 5) % 6;
                    PickerStep::Redraw
                }
            },
            Key::Up => {
                if self.in_options {
                    if self.opt_focus == 0 {
                        self.in_options = false;
                    } else {
                        self.opt_focus = self.opt_focus - 1;
                    }
                } else if self.focus >= 3 {
                    self.focus = self.focus - 3;
                } else {
                    self.focus = (self.focus + 1) % 3;
                }
                PickerStep::Redraw
            },
            Key::Down => {
                if self.in_options {
                    if self.opt_focus < n_opts && self.opt_focus + 1 < n_opts {
                        self.opt_focus = self.opt_focus + 1;
                    }
                } else if self.focus < 3 {
                    self.focus = self.focus + 3;
                } else if n_opts > 0 {
                    self.in_options = true;
                    self.opt_focus = 0;
                }
                PickerStep::Redraw
            },
            Key::Power => PickerStep::Ignore,
        }
    }
}

/// The next rotation: fixed, each sleep, daily, round again.
pub fn next_rotation(r: ImageRotation) -> (n: ImageRotation)
    ensures
        n == (match r {
            ImageRotation::Fixed => ImageRotation::EachSleep,
            ImageRotation::EachSleep => ImageRotation::Daily,
            ImageRotation::Daily => ImageRotation::Fixed,
        }),
{
    match r {
        ImageRotation::Fixed => ImageRotation::EachSleep,
        ImageRotation::EachSleep => ImageRotation::Daily,
        ImageRotation::Daily => ImageRotation::Fixed,
    }
}

/// The first position of `id` among `ids`.
pub open spec fn pack_index(ids: Seq<Seq<char>>, id: Seq<char>, i: int) -> Option<int>
    decreases ids.len() - i,
{
    if i < 0 || i >= ids.len() {
        None
    } else if ids[i] == id {
        Some(i)
    } else {
        pack_index(ids, id, i + 1)
    }
}

/// The image source after a change: loose images, then each installed pack in turn,
/// then all packs (named `all`), then loose images again; an unknown pack goes back to
/// loose images.
pub open spec fn next_source(cur: Option<Seq<char>>, ids: Seq<Seq<char>>, all: Seq<char>) -> Option<Seq<char>> {
    match cur {
        None => if ids.len() > 0 { Some(ids[0]) } else { None },
        Some(id) => if id == all {
            None
        } else {
            match pack_index(ids, id, 0) {
                Some(i) => if i + 1 < ids.len() { Some(ids[i + 1]) } else { Some(all) },
                None => None,
            }
        },
    }
}

/// The image source after a change of the Custom variant's first option.
pub fn next_pack(cur: &Option<String>, ids: &Vec<String>, all: &String) -> (r: Option<String>)
    ensures
        (match r {
            Some(s) => Some(s@),
            None => None::<Seq<char>>,
        }) == next_source(
            match cur {
                Some(c) => Some(c@),
                None => None::<Seq<char>>,
            },
            ids@.map_values(|s: String| s@),
            all@,
        ),
{
    let ghost iv = ids@.map_values(|s: String| s@);
    match cur {
        None => if ids.len() > 0 {
            Some(ids[0].clone())
        } else {
            None
        },
        Some(id) => {
            if *id == *all {
                return None;
            }
            let mut i: usize = 0;
            while i < ids.len()
                invariant
                    i <= ids.len(),
                    iv == ids@.map_values(|s: String| s@),
                    pack_index(iv, id@, 0) == pack_index(iv, id@, i as int),
                    id@ != all@,
                    cur matches Some(c) && c@ == id@,
                decreases ids.len() - i,
            {
                assert(iv[i as int] == ids@[i as int]@);
                if ids[i] == *id {
                    assert(pack_index(iv, id@, i as int) == Some(i as int));
                    assert(id@ != all@);
                    if i + 1 < ids.len() {
                        let r = ids[i + 1].clone();
                        assert(iv[i + 1] == r@);
                        assert(next_source(Some(id@), iv, all@) == Some(r@));
                        return Some(r);
                    } else {
                        let r = all.clone();
                        assert(next_source(Some(id@), iv, all@) == Some(r@));
                        return Some(r);
                    }
                }
                i += 1;
            }
            None
        },
    }
}

} // verus!
