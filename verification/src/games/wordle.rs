//! Wordle: five letters, six tries, a keyboard with state marks.

use vstd::prelude::*;
use vstd::utf8::encode_utf8;
use crate::games::{GameStep, PauseChoice};
use crate::keys::{Key, KeyEvent, KeyKind};
use crate::textutil::{chars_of, decimal, from_utf8_lossy, lossy_utf8, owned, push_char, push_decimal, push_str, str_uppercase, string_of, to_uppercase};
use crate::words::{five_lower, lemma_lower_bytes, lower_chars, WordTables};

verus! {

/// Letter state on the keyboard.
#[derive(Clone, Copy, Debug, PartialEq, Eq, Structural)]
pub enum Mark {
    /// Not guessed yet.
    Unknown,
    /// Not in the word.
    Absent,
    /// In the word, elsewhere.
    Present,
    /// In the word, here.
    Correct,
}

/// The index into the answers for a day: the day scrambled so that consecutive days are
/// not frequency neighbours.
pub open spec fn answer_index(day: u16, n: nat) -> int {
    (vstd::wrapping::u32_specs::wrapping_mul(day as u32, 2654435761) as int) % (n as int)
}

/// Every day's answer index lies in the answer list, whatever the day.
pub proof fn lemma_answer_index_in_list(day: u16, n: nat)
    requires
        n > 0,
    ensures
        0 <= answer_index(day, n) < n,
{
}

/// Five ASCII lowercase letters are valid UTF-8.
proof fn lemma_five_lower_valid(b: Seq<u8>)
    requires
        five_lower(b),
    ensures
        vstd::utf8::valid_utf8(b),
{
    assert(b.subrange(0, 0) =~= Seq::<u8>::empty());
    assert(vstd::utf8::partial_valid_utf8(b, 0));
    assert forall|i: int| 0 <= 0 <= i < 5 <= b.len() implies #[trigger] vstd::utf8::is_leading_byte_width_1(b[i]) by {}
    vstd::utf8::partial_valid_utf8_extend_ascii_block(b, 0, 5);
    assert(b.subrange(0, 5) =~= b);
}

/// The answer for a day: a common five-letter word that the Wordle list accepts (one
/// index into the table, no scan).
pub fn answer_for(day: u16, t: &WordTables) -> (w: String)
    requires
        t.wf(),
    ensures
        0 <= answer_index(day, t.answers().len()) < t.answers().len(),
        five_lower(t.answers()[answer_index(day, t.answers().len())]@),
        t.accepted().map_values(|x: [u8; 5]| x@).contains(t.answers()[answer_index(day, t.answers().len())]@),
        w@ == lossy_utf8(t.answers()[answer_index(day, t.answers().len())]@),
        spec_is_word(w@, *t),
{
    proof {
        t.lemma_answers_nonempty();
        t.lemma_answers_accepted();
    }
    let n = t.answer_count();
    let i = ((day as u32).wrapping_mul(2654435761) as usize) % n;
    let a = t.answer(i);
    let w = from_utf8_lossy(&a);
    proof {
        broadcast use vstd::utf8::decode_utf8_encode_utf8;

        lemma_five_lower_valid(a@);
    }
    w
}

/// A guess the list accepts: five ASCII lowercase letters, in the accepted list.
pub open spec fn spec_is_word(w: Seq<char>, t: WordTables) -> bool {
    five_lower(encode_utf8(w)) && t.accepted().map_values(|x: [u8; 5]| x@).contains(encode_utf8(w))
}

/// Whether a guess is in the accepted list (a binary search over the packed table).
pub fn is_word(w: &str, t: &WordTables) -> (b: bool)
    requires
        t.wf(),
    ensures
        b == spec_is_word(w@, *t),
{
    let b = w.as_bytes();
    if b.len() != 5 {
        return false;
    }
    let mut i: usize = 0;
    while i < 5
        invariant
            i <= 5,
            b.len() == 5,
            b@ == encode_utf8(w@),
            forall|j: int| 0 <= j < i ==> 97 <= #[trigger] b@[j] <= 122,
        decreases 5 - i,
    {
        if b[i] < 97 || b[i] > 122 {
            assert(encode_utf8(w@)[i as int] == b@[i as int]);
            assert(!five_lower(encode_utf8(w@)));
            return false;
        }
        i += 1;
    }
    let key: [u8; 5] = [b[0], b[1], b[2], b[3], b[4]];
    assert(key@ =~= b@);
    t.accepts(&key)
}

/// The first answer letter at or after `j` that is unused and equals `c` (5 if none).
pub open spec fn first_free(a: Seq<char>, c: char, used: Seq<bool>, j: int) -> int
    decreases 5 - j,
{
    if j < 0 || j >= 5 {
        5
    } else if !used[j] && a[j] == c {
        j
    } else {
        first_free(a, c, used, j + 1)
    }
}

/// The marks of a guess after the exact matches: Correct where the letters agree.
pub open spec fn exact_marks(a: Seq<char>, g: Seq<char>) -> Seq<Mark> {
    Seq::new(5, |i: int| if g[i] == a[i] { Mark::Correct } else { Mark::Absent })
}

/// The answer letters the exact matches use.
pub open spec fn exact_used(a: Seq<char>, g: Seq<char>) -> Seq<bool> {
    Seq::new(5, |i: int| g[i] == a[i])
}

/// The marks and used answer letters after the second pass over the first `i` letters:
/// a letter not yet Correct is Present when an unused answer letter equals it, which it
/// then uses.
pub open spec fn present_pass(a: Seq<char>, g: Seq<char>, i: int) -> (Seq<Mark>, Seq<bool>)
    decreases i,
{
    if i <= 0 {
        (exact_marks(a, g), exact_used(a, g))
    } else {
        let (m, u) = present_pass(a, g, i - 1);
        let k = i - 1;
        if m[k] == Mark::Correct {
            (m, u)
        } else {
            let j = first_free(a, g[k], u, 0);
            if j < 5 {
                (m.update(k, Mark::Present), u.update(j, true))
            } else {
                (m, u)
            }
        }
    }
}

/// The marks of a guess against an answer: Correct letters first, then Present ones,
/// each answer letter used once.
pub open spec fn spec_score(a: Seq<char>, g: Seq<char>) -> Seq<Mark> {
    present_pass(a, g, 5).0
}

/// What the keyboard shows for a letter after a new mark: Correct stays, then Present,
/// then Absent.
pub open spec fn merge_mark(cur: Mark, m: Mark) -> Mark {
    if cur == Mark::Correct || m == Mark::Correct {
        Mark::Correct
    } else if cur == Mark::Present || m == Mark::Present {
        Mark::Present
    } else if m == Mark::Absent {
        Mark::Absent
    } else {
        cur
    }
}

/// The keyboard marks after a guess: each letter of the guess, in order, merges its mark.
pub open spec fn marks_after(marks: Seq<Mark>, g: Seq<char>, s: Seq<Mark>, n: int) -> Seq<Mark>
    decreases n,
{
    if n <= 0 {
        marks
    } else {
        let prev = marks_after(marks, g, s, n - 1);
        let k = (g[n - 1] as int) - 97;
        prev.update(k, merge_mark(prev[k], s[n - 1]))
    }
}

/// The keyboard rows.
pub open spec fn kb_row(r: int) -> Seq<char> {
    if r == 0 {
        seq!['q', 'w', 'e', 'r', 't', 'y', 'u', 'i', 'o', 'p']
    } else if r == 1 {
        seq!['a', 's', 'd', 'f', 'g', 'h', 'j', 'k', 'l']
    } else {
        seq!['z', 'x', 'c', 'v', 'b', 'n', 'm']
    }
}

/// The cheer for a win in `n` guesses.
pub open spec fn cheer(n: int) -> Seq<char> {
    if n == 1 {
        seq!['G', 'e', 'n', 'i', 'u', 's']
    } else if n == 2 {
        seq!['M', 'a', 'g', 'n', 'i', 'f', 'i', 'c', 'e', 'n', 't']
    } else if n == 3 {
        seq!['I', 'm', 'p', 'r', 'e', 's', 's', 'i', 'v', 'e']
    } else if n == 4 {
        seq!['S', 'p', 'l', 'e', 'n', 'd', 'i', 'd']
    } else if n == 5 {
        seq!['G', 'r', 'e', 'a', 't']
    } else {
        seq!['P', 'h', 'e', 'w']
    }
}

/// The share line of one guess: a black square for Correct, a dotted one for Present,
/// an empty one otherwise.
pub open spec fn share_marks(s: Seq<Mark>) -> Seq<char> {
    s.map_values(
        |m: Mark| if m == Mark::Correct { '\u{25A0}' } else if m == Mark::Present { '\u{25A3}' } else { '\u{25A1}' },
    )
}

/// The shared result: "Quire Wordle <day> <n>/6", then each guess's squares, each line
/// ended by a space.
pub open spec fn share_text(day: u16, answer: Seq<char>, guesses: Seq<Seq<char>>, n: int) -> Seq<char>
    decreases n,
{
    if n <= 0 {
        seq!['Q', 'u', 'i', 'r', 'e', ' ', 'W', 'o', 'r', 'd', 'l', 'e', ' '] + decimal(day as nat) + seq![' '] + decimal(
            guesses.len(),
        ) + seq!['/', '6', ' ']
    } else {
        share_text(day, answer, guesses, n - 1) + share_marks(spec_score(answer, guesses[n - 1])) + seq![' ']
    }
}

/// "Five letters".
pub open spec fn five_letters_msg() -> Seq<char> {
    seq!['F', 'i', 'v', 'e', ' ', 'l', 'e', 't', 't', 'e', 'r', 's']
}

/// "Not in the word list".
pub open spec fn not_listed_msg() -> Seq<char> {
    seq!['N', 'o', 't', ' ', 'i', 'n', ' ', 't', 'h', 'e', ' ', 'w', 'o', 'r', 'd', ' ', 'l', 'i', 's', 't']
}

/// The Wordle game.
pub struct Wordle {
    /// The day's word.
    pub answer: String,
    guesses: Vec<String>,
    current: String,
    marks: [Mark; 26],
    focus: (usize, usize),
    message: String,
    day: u16,
    started: bool,
}

impl Wordle {
    /// The answer.
    pub closed spec fn spec_answer(self) -> Seq<char> {
        self.answer@
    }

    /// The guesses so far.
    pub closed spec fn spec_guesses(self) -> Seq<Seq<char>> {
        self.guesses@.map_values(|g: String| g@)
    }

    /// The guess being typed.
    pub closed spec fn spec_current(self) -> Seq<char> {
        self.current@
    }

    /// The keyboard marks, one per letter a to z.
    pub closed spec fn spec_marks(self) -> Seq<Mark> {
        self.marks@
    }

    /// The focused key: row and column.
    pub closed spec fn spec_focus(self) -> (usize, usize) {
        self.focus
    }

    /// The message line.
    pub closed spec fn spec_message(self) -> Seq<char> {
        self.message@
    }

    /// The day played.
    pub closed spec fn spec_day(self) -> u16 {
        self.day
    }

    /// Whether a game is on.
    pub closed spec fn spec_started(self) -> bool {
        self.started
    }

    /// The game's own invariant: the focus on a key, every guess five letters, the answer
    /// at least five letters.
    pub closed spec fn inv(self) -> bool {
        &&& self.focus.0 < 3
        &&& self.focus.1 < kb_row(self.focus.0 as int).len()
        &&& self.answer@.len() >= 5
        &&& forall|i: int| 0 <= i < self.guesses.len() ==> #[trigger] self.guesses@[i]@.len() == 5 && lower_chars(
            self.guesses@[i]@,
        )
    }

    /// The last guess was the answer.
    pub open spec fn spec_won(self) -> bool {
        self.spec_guesses().len() > 0 && self.spec_guesses().last() == self.spec_answer()
    }

    /// Won, or six guesses used.
    pub open spec fn spec_over(self) -> bool {
        self.spec_won() || self.spec_guesses().len() >= 6
    }

    /// New: nothing started, no answer, no guesses, a clean keyboard, no message.
    pub fn new() -> (w: Wordle)
        ensures
            !w.spec_started(),
            w.spec_guesses().len() == 0,
            w.spec_current().len() == 0,
            w.spec_focus() == (0usize, 0usize),
            w.spec_answer().len() == 0,
            w.spec_marks() == Seq::new(26, |i: int| Mark::Unknown),
            w.spec_message().len() == 0,
            w.spec_day() == 0,
    {
        let w = Wordle {
            answer: String::new(),
            guesses: Vec::new(),
            current: String::new(),
            marks: [Mark::Unknown; 26],
            focus: (0, 0),
            message: String::new(),
            day: 0,
            started: false,
        };
        assert(w.guesses@.map_values(|g: String| g@) =~= Seq::<Seq<char>>::empty());
        assert(w.marks@ =~= Seq::new(26, |i: int| Mark::Unknown));
        w
    }

    /// Start the game of a day: that day's answer, no guesses, a clean keyboard.
    pub fn start(&mut self, day: u16, t: &WordTables)
        requires
            t.wf(),
            forall|i: int| 0 <= i < t.answers().len() ==> five_lower(#[trigger] t.answers()[i]@),
        ensures
            final(self).spec_day() == day,
            final(self).spec_answer() == lossy_utf8(t.answers()[answer_index(day, t.answers().len())]@),
            final(self).spec_guesses().len() == 0,
            final(self).spec_current().len() == 0,
            final(self).spec_marks() == Seq::new(26, |i: int| Mark::Unknown),
            final(self).spec_message().len() == 0,
            final(self).spec_started(),
            final(self).spec_focus() == old(self).spec_focus(),
    {
        self.day = day;
        self.answer = answer_for(day, t);
        self.guesses = Vec::new();
        self.current = String::new();
        self.marks = [Mark::Unknown; 26];
        self.message = String::new();
        self.started = true;
        assert(self.guesses@.map_values(|g: String| g@) =~= Seq::<Seq<char>>::empty());
        assert(self.marks@ =~= Seq::new(26, |i: int| Mark::Unknown));
    }

    /// The marks of a guess against the answer.
    pub fn score(&self, guess: &str) -> (s: [Mark; 5])
        requires
            self.spec_answer().len() >= 5,
            guess@.len() >= 5,
        ensures
            s@ == spec_score(self.spec_answer(), guess@),
    {
        let a = chars_of(self.answer.as_str());
        let g = chars_of(guess);
        let mut out: [Mark; 5] = [Mark::Absent; 5];
        let mut used: [bool; 5] = [false; 5];
        let mut i: usize = 0;
        while i < 5
            invariant
                i <= 5,
                a@ == self.answer@,
                g@ == guess@,
                a.len() >= 5,
                g.len() >= 5,
                forall|k: int| 0 <= k < i ==> #[trigger] out@[k] == exact_marks(a@, g@)[k],
                forall|k: int| i <= k < 5 ==> #[trigger] out@[k] == Mark::Absent,
                forall|k: int| 0 <= k < i ==> #[trigger] used@[k] == exact_used(a@, g@)[k],
                forall|k: int| i <= k < 5 ==> !#[trigger] used@[k],
            decreases 5 - i,
        {
            if g[i] == a[i] {
                out[i] = Mark::Correct;
                used[i] = true;
            }
            i += 1;
        }
        assert(out@ =~= exact_marks(a@, g@));
        assert(used@ =~= exact_used(a@, g@));
        let mut i: usize = 0;
        while i < 5
            invariant
                i <= 5,
                a@ == self.answer@,
                g@ == guess@,
                a.len() >= 5,
                g.len() >= 5,
                (out@, used@) == present_pass(a@, g@, i as int),
            decreases 5 - i,
        {
            proof {
                lemma_present_pass_shape(a@, g@, i as int);
            }
            if out[i] != Mark::Correct {
                let mut j: usize = 0;
                while j < 5 && (used[j] || a[j] != g[i])
                    invariant
                        j <= 5,
                        i < 5,
                        a.len() >= 5,
                        g.len() >= 5,
                        first_free(a@, g@[i as int], used@, j as int) == first_free(a@, g@[i as int], used@, 0),
                    decreases 5 - j,
                {
                    j += 1;
                }
                if j < 5 {
                    used[j] = true;
                    out[i] = Mark::Present;
                }
            }
            i += 1;
        }
        out
    }

    /// The last guess was the answer.
    pub fn won(&self) -> (b: bool)
        ensures
            b == self.spec_won(),
    {
        if self.guesses.len() == 0 {
            return false;
        }
        self.guesses[self.guesses.len() - 1] == self.answer
    }

    /// Won, or six guesses used.
    pub fn over(&self) -> (b: bool)
        ensures
            b == self.spec_over(),
    {
        self.won() || self.guesses.len() >= 6
    }

    /// Enter the current guess: it needs five bytes and must be in the word list (else a
    /// message says so); an accepted guess joins the guesses, marks the keyboard, and the
    /// message cheers a win, gives the answer after the sixth miss, or clears.
    pub fn submit(&mut self, t: &WordTables)
        requires
            old(self).inv(),
            t.wf(),
        ensures
            final(self).inv(),
            final(self).spec_answer() == old(self).spec_answer(),
            final(self).spec_day() == old(self).spec_day(),
            final(self).spec_focus() == old(self).spec_focus(),
            final(self).spec_started() == old(self).spec_started(),
            encode_utf8(old(self).spec_current()).len() != 5 ==> {
                &&& final(self).spec_message() == five_letters_msg()
                &&& final(self).spec_guesses() == old(self).spec_guesses()
                &&& final(self).spec_current() == old(self).spec_current()
                &&& final(self).spec_marks() == old(self).spec_marks()
            },
            encode_utf8(old(self).spec_current()).len() == 5 && !spec_is_word(old(self).spec_current(), *t) ==> {
                &&& final(self).spec_message() == not_listed_msg()
                &&& final(self).spec_guesses() == old(self).spec_guesses()
                &&& final(self).spec_current() == old(self).spec_current()
                &&& final(self).spec_marks() == old(self).spec_marks()
            },
            spec_is_word(old(self).spec_current(), *t) ==> {
                let g = old(self).spec_current();
                &&& final(self).spec_guesses() == old(self).spec_guesses().push(g)
                &&& final(self).spec_current().len() == 0
                &&& final(self).spec_marks() == marks_after(old(self).spec_marks(), g, spec_score(old(self).spec_answer(), g), 5)
                &&& final(self).spec_message() == (if final(self).spec_won() {
                    cheer(final(self).spec_guesses().len() as int)
                } else if final(self).spec_guesses().len() >= 6 {
                    seq!['I', 't', ' ', 'w', 'a', 's', ' '] + str_uppercase(old(self).spec_answer())
                } else {
                    Seq::empty()
                })
            },
    {
        if self.current.as_str().as_bytes().len() != 5 {
            let m = "Five letters";
            proof {
                reveal_strlit("Five letters");
            }
            self.message = owned(m);
            assert(self.message@ =~= five_letters_msg());
            return;
        }
        if !is_word(self.current.as_str(), t) {
            let m = "Not in the word list";
            proof {
                reveal_strlit("Not in the word list");
            }
            self.message = owned(m);
            assert(self.message@ =~= not_listed_msg());
            return;
        }
        let mut g = String::new();
        core::mem::swap(&mut g, &mut self.current);
        proof {
            lemma_lower_bytes(g@);
        }
        let s = self.score(g.as_str());
        let gc = chars_of(g.as_str());
        let ghost m0 = self.marks@;
        let mut i: usize = 0;
        while i < 5
            invariant
                i <= 5,
                gc@ == g@,
                gc.len() == 5,
                lower_chars(g@),
                self.marks@ == marks_after(m0, g@, s@, i as int),
                self.answer == old(self).answer,
                self.guesses == old(self).guesses,
                self.current@.len() == 0,
                self.focus == old(self).focus,
                self.day == old(self).day,
                self.started == old(self).started,
                old(self).inv(),
            decreases 5 - i,
        {
            let k = (gc[i] as u8 - 97u8) as usize;
            let cur = self.marks[k];
            let m = s[i];
            let nm = if cur == Mark::Correct || m == Mark::Correct {
                Mark::Correct
            } else if cur == Mark::Present || m == Mark::Present {
                Mark::Present
            } else if m == Mark::Absent {
                Mark::Absent
            } else {
                cur
            };
            self.marks[k] = nm;
            i += 1;
        }
        let ghost gv = self.guesses@.map_values(|x: String| x@);
        self.guesses.push(g);
        assert(self.guesses@.map_values(|x: String| x@) =~= gv.push(g@));
        let n = self.guesses.len();
        if self.won() {
            let words: [&str; 6] = ["Genius", "Magnificent", "Impressive", "Splendid", "Great", "Phew"];
            proof {
                reveal_strlit("Genius");
                reveal_strlit("Magnificent");
                reveal_strlit("Impressive");
                reveal_strlit("Splendid");
                reveal_strlit("Great");
                reveal_strlit("Phew");
            }
            let w = if n <= 6 { words[n - 1] } else { words[5] };
            self.message = owned(w);
            assert(self.message@ =~= cheer(n as int));
        } else if n >= 6 {
            let mut m = String::new();
            let lead = "It was ";
            proof {
                reveal_strlit("It was ");
            }
            push_str(&mut m, lead);
            let up = to_uppercase(self.answer.as_str());
            push_str(&mut m, up.as_str());
            self.message = m;
            assert(self.message@ =~= seq!['I', 't', ' ', 'w', 'a', 's', ' '] + str_uppercase(self.answer@));
        } else {
            self.message = String::new();
        }
    }

    /// The result shared at the end: "Quire Wordle <day> <n>/6" and each guess's marks.
    pub fn share(&self) -> (s: String)
        requires
            self.inv(),
        ensures
            s@ == share_text(self.spec_day(), self.spec_answer(), self.spec_guesses(), self.spec_guesses().len() as int),
    {
        let ghost gv = self.spec_guesses();
        let mut s = String::new();
        let lead = "Quire Wordle ";
        let slash = "/6 ";
        proof {
            reveal_strlit("Quire Wordle ");
            reveal_strlit("/6 ");
        }
        push_str(&mut s, lead);
        push_decimal(&mut s, self.day as u64);
        push_char(&mut s, ' ');
        push_decimal(&mut s, self.guesses.len() as u64);
        push_str(&mut s, slash);
        assert(s@ =~= share_text(self.day, self.answer@, gv, 0));
        let mut k: usize = 0;
        while k < self.guesses.len()
            invariant
                k <= self.guesses.len(),
                self.inv(),
                gv == self.spec_guesses(),
                s@ == share_text(self.day, self.answer@, gv, k as int),
            decreases self.guesses.len() - k,
        {
            let m = self.score(self.guesses[k].as_str());
            let ghost before = s@;
            let mut j: usize = 0;
            while j < 5
                invariant
                    j <= 5,
                    s@ == before + share_marks(m@.take(j as int)),
                decreases 5 - j,
            {
                let c = if m[j] == Mark::Correct {
                    '\u{25A0}'
                } else if m[j] == Mark::Present {
                    '\u{25A3}'
                } else {
                    '\u{25A1}'
                };
                push_char(&mut s, c);
                j += 1;
                assert(share_marks(m@.take(j as int)) =~= share_marks(m@.take(j - 1)).push(c));
            }
            push_char(&mut s, ' ');
            assert(m@.take(5) =~= m@);
            k += 1;
            assert(s@ =~= share_text(self.day, self.answer@, gv, k as int));
        }
        s
    }

    /// A key. After the end: Back leaves, Right shares the result into the message.
    /// Otherwise: Back pauses; a long Left deletes the last letter; a long Right or a long
    /// Confirm enters the guess; the direction keys move around the keyboard (wrapping;
    /// moving between rows keeps the column where the row is long enough); Confirm
    /// types the focused letter, or enters a full guess.
    pub fn key(&mut self, ev: KeyEvent, t: &WordTables) -> (step: GameStep)
        requires
            old(self).inv(),
            t.wf(),
        ensures
            final(self).inv(),
            final(self).spec_answer() == old(self).spec_answer(),
            ev.kind == KeyKind::Release ==> step == GameStep::Ignore && *final(self) == *old(self),
            ev.kind != KeyKind::Release && old(self).spec_over() ==> match ev.key {
                Key::Back => step == GameStep::Quit && *final(self) == *old(self),
                Key::Right => step == GameStep::Redraw && final(self).spec_message() == share_text(
                    old(self).spec_day(),
                    old(self).spec_answer(),
                    old(self).spec_guesses(),
                    old(self).spec_guesses().len() as int,
                ) && final(self).spec_guesses() == old(self).spec_guesses(),
                _ => step == GameStep::Ignore && *final(self) == *old(self),
            },
            ev.kind != KeyKind::Release && !old(self).spec_over() ==> typing_step(*old(self), *final(self), ev, step),
    {
        if ev.kind == KeyKind::Release {
            return GameStep::Ignore;
        }
        if self.over() {
            return match ev.key {
                Key::Back => GameStep::Quit,
                Key::Right => {
                    self.message = self.share();
                    GameStep::Redraw
                },
                _ => GameStep::Ignore,
            };
        }
        let n = row_len(self.focus.0);
        match (ev.key, ev.kind) {
            (Key::Back, KeyKind::Press) => GameStep::Pause,
            (Key::Left, KeyKind::Long) => {
                let cs = chars_of(self.current.as_str());
                if cs.len() > 0 {
                    let p = crate::textutil::prefix_chars(&cs, cs.len() - 1);
                    self.current = string_of(&p);
                }
                GameStep::Redraw
            },
            (Key::Right, KeyKind::Long) => {
                self.submit(t);
                GameStep::Redraw
            },
            (Key::Left, _) => {
                self.focus.1 = (self.focus.1 + n - 1) % n;
                GameStep::Redraw
            },
            (Key::Right, _) => {
                self.focus.1 = (self.focus.1 + 1) % n;
                GameStep::Redraw
            },
            (Key::Up, _) => {
                self.focus.0 = (self.focus.0 + 2) % 3;
                let m = row_len(self.focus.0);
                self.focus.1 = if self.focus.1 < m - 1 { self.focus.1 } else { m - 1 };
                GameStep::Redraw
            },
            (Key::Down, _) => {
                self.focus.0 = (self.focus.0 + 1) % 3;
                let m = row_len(self.focus.0);
                self.focus.1 = if self.focus.1 < m - 1 { self.focus.1 } else { m - 1 };
                GameStep::Redraw
            },
            (Key::Confirm, KeyKind::Long) => {
                self.submit(t);
                GameStep::Redraw
            },
            (Key::Confirm, KeyKind::Press) => {
                if self.current.as_str().as_bytes().len() < 5 {
                    let ch = row_char(self.focus.0, self.focus.1);
                    push_char(&mut self.current, ch);
                    self.message = String::new();
                } else {
                    self.submit(t);
                }
                GameStep::Redraw
            },
            _ => GameStep::Ignore,
        }
    }

    /// Play the day's game: a new day (or the first draw) starts that day's word.
    pub fn sync_day(&mut self, today: u16, t: &WordTables)
        requires
            old(self).inv() || !old(self).spec_started(),
            t.wf(),
            forall|i: int| 0 <= i < t.answers().len() ==> five_lower(#[trigger] t.answers()[i]@),
        ensures
            !old(self).spec_started() || old(self).spec_day() != today ==> final(self).spec_day() == today
                && final(self).spec_started() && final(self).spec_guesses().len() == 0,
            old(self).spec_started() && old(self).spec_day() == today ==> *final(self) == *old(self),
    {
        if !self.started || self.day != today {
            self.start(today, t);
        }
    }

    /// The paused card's answer: a new game plays another day's word (the day plus a
    /// thousand and the guesses made, so the daily game stays), quit leaves, resume
    /// redraws.
    pub fn resume(&mut self, c: PauseChoice, today: u16, t: &WordTables) -> (step: GameStep)
        requires
            t.wf(),
            forall|i: int| 0 <= i < t.answers().len() ==> five_lower(#[trigger] t.answers()[i]@),
        ensures
            step == crate::games::after_pause(c),
            c == PauseChoice::NewGame ==> final(self).spec_day() == vstd::wrapping::u16_specs::wrapping_add(
                today,
                vstd::wrapping::u16_specs::wrapping_add(1000u16, old(self).spec_guesses().len() as u16),
            ) && final(self).spec_started() && final(self).spec_guesses().len() == 0,
            c != PauseChoice::NewGame ==> *final(self) == *old(self),
    {
        match c {
            PauseChoice::NewGame => {
                let d = today.wrapping_add(1000u16.wrapping_add(self.guesses.len() as u16));
                self.start(d, t);
                GameStep::Redraw
            },
            PauseChoice::Quit => GameStep::Quit,
            PauseChoice::Resume => GameStep::Redraw,
        }
    }
}

fn row_len(r: usize) -> (n: usize)
    ensures
        n == kb_row(r as int).len(),
        n >= 7,
{
    if r == 0 {
        10
    } else if r == 1 {
        9
    } else {
        7
    }
}

fn row_char(r: usize, c: usize) -> (ch: char)
    ensures
        c < kb_row(r as int).len() ==> ch == kb_row(r as int)[c as int],
        c >= kb_row(r as int).len() ==> ch == 'a',
        'a' <= ch <= 'z',
{
    let row: Vec<char> = if r == 0 {
        vec!['q', 'w', 'e', 'r', 't', 'y', 'u', 'i', 'o', 'p']
    } else if r == 1 {
        vec!['a', 's', 'd', 'f', 'g', 'h', 'j', 'k', 'l']
    } else {
        vec!['z', 'x', 'c', 'v', 'b', 'n', 'm']
    };
    assert(row@ =~= kb_row(r as int));
    if c < row.len() {
        row[c]
    } else {
        'a'
    }
}

/// The game after a key while it is on.
pub open spec fn typing_step(a: Wordle, b: Wordle, ev: KeyEvent, step: GameStep) -> bool {
    let (r, c) = a.spec_focus();
    let n = kb_row(r as int).len() as int;
    let same_play = b.spec_guesses() == a.spec_guesses() && b.spec_marks() == a.spec_marks() && b.spec_current()
        == a.spec_current();
    if ev.key == Key::Back && ev.kind == KeyKind::Press {
        step == GameStep::Pause && b == a
    } else if ev.key == Key::Left && ev.kind == KeyKind::Long {
        &&& step == GameStep::Redraw
        &&& b.spec_current() == (if a.spec_current().len() > 0 { a.spec_current().drop_last() } else { a.spec_current() })
        &&& b.spec_guesses() == a.spec_guesses()
        &&& b.spec_focus() == a.spec_focus()
    } else if (ev.key == Key::Right && ev.kind == KeyKind::Long) || (ev.key == Key::Confirm && ev.kind == KeyKind::Long) {
        &&& step == GameStep::Redraw
        &&& b.spec_focus() == a.spec_focus()
        &&& (b.spec_guesses() == a.spec_guesses() || b.spec_guesses() == a.spec_guesses().push(a.spec_current()))
    } else if ev.key == Key::Left || ev.key == Key::Right {
        &&& step == GameStep::Redraw
        &&& same_play
        &&& b.spec_focus().0 == r
        &&& b.spec_focus().1 == (if ev.key == Key::Left { (c + n - 1) % n } else { (c + 1) % n })
    } else if ev.key == Key::Up || ev.key == Key::Down {
        let r2 = if ev.key == Key::Up { (r + 2) % 3 } else { (r + 1) % 3 };
        let m = kb_row(r2 as int).len() as int;
        &&& step == GameStep::Redraw
        &&& same_play
        &&& b.spec_focus().0 == r2
        &&& b.spec_focus().1 == (if c < m - 1 { c as int } else { m - 1 })
    } else if ev.key == Key::Confirm && ev.kind == KeyKind::Press {
        &&& step == GameStep::Redraw
        &&& b.spec_focus() == a.spec_focus()
        &&& if encode_utf8(a.spec_current()).len() < 5 {
            &&& b.spec_current() == a.spec_current().push(kb_row(r as int)[c as int])
            &&& b.spec_guesses() == a.spec_guesses()
            &&& b.spec_message().len() == 0
        } else {
            b.spec_guesses() == a.spec_guesses() || b.spec_guesses() == a.spec_guesses().push(a.spec_current())
        }
    } else {
        step == GameStep::Ignore && b == a
    }
}

proof fn lemma_present_pass_shape(a: Seq<char>, g: Seq<char>, i: int)
    requires
        0 <= i <= 5,
    ensures
        present_pass(a, g, i).0.len() == 5,
        present_pass(a, g, i).1.len() == 5,
        0 <= first_free(a, g[i], present_pass(a, g, i).1, 0) <= 5,
    decreases i,
{
    if i > 0 {
        lemma_present_pass_shape(a, g, i - 1);
        lemma_first_free_bounds(a, g[i - 1], present_pass(a, g, i - 1).1, 0);
    }
    lemma_first_free_bounds(a, g[i], present_pass(a, g, i).1, 0);
}

proof fn lemma_first_free_bounds(a: Seq<char>, c: char, u: Seq<bool>, j: int)
    requires
        0 <= j <= 5,
    ensures
        j <= first_free(a, c, u, j) <= 5,
    decreases 5 - j,
{
    if j < 5 && !(!u[j] && a[j] == c) {
        lemma_first_free_bounds(a, c, u, j + 1);
    }
}

/// How many of the positions `0..n` satisfy `p`.
pub open spec fn count_where(p: spec_fn(int) -> bool, n: int) -> nat
    decreases n,
{
    if n <= 0 {
        0
    } else {
        count_where(p, n - 1) + if p(n - 1) { 1nat } else { 0nat }
    }
}

/// The guess positions holding `c` that the marks count as in the answer.
pub open spec fn credited(g: Seq<char>, s: Seq<Mark>, c: char) -> nat {
    count_where(|k: int| g[k] == c && (s[k] == Mark::Correct || s[k] == Mark::Present), 5)
}

/// The answer positions used that hold `c`.
pub open spec fn used_with(a: Seq<char>, u: Seq<bool>, c: char) -> spec_fn(int) -> bool {
    |j: int| u[j] && a[j] == c
}

/// How often `c` occurs in the answer's five letters.
pub open spec fn occurrences(a: Seq<char>, c: char) -> nat {
    count_where(holds(a, c), 5)
}

/// The positions of `a` holding `c`.
pub open spec fn holds(a: Seq<char>, c: char) -> spec_fn(int) -> bool {
    |j: int| a[j] == c
}

proof fn lemma_count_same(p: spec_fn(int) -> bool, q: spec_fn(int) -> bool, n: int)
    requires
        forall|k: int| 0 <= k < n ==> #[trigger] p(k) == q(k),
    ensures
        count_where(p, n) == count_where(q, n),
    decreases n,
{
    if n > 0 {
        lemma_count_same(p, q, n - 1);
    }
}

proof fn lemma_count_le(p: spec_fn(int) -> bool, q: spec_fn(int) -> bool, n: int)
    requires
        forall|k: int| 0 <= k < n && #[trigger] p(k) ==> q(k),
    ensures
        count_where(p, n) <= count_where(q, n),
    decreases n,
{
    if n > 0 {
        lemma_count_le(p, q, n - 1);
    }
}

proof fn lemma_count_one_more(p: spec_fn(int) -> bool, q: spec_fn(int) -> bool, t: int, n: int)
    requires
        0 <= t < n,
        !p(t),
        q(t),
        forall|k: int| 0 <= k < n && k != t ==> #[trigger] p(k) == q(k),
    ensures
        count_where(q, n) == count_where(p, n) + 1,
    decreases n,
{
    if n - 1 > t {
        lemma_count_one_more(p, q, t, n - 1);
    } else {
        lemma_count_same(p, q, n - 1);
    }
}

proof fn lemma_first_free_found(a: Seq<char>, c: char, u: Seq<bool>, j: int)
    requires
        0 <= j <= 5,
    ensures
        first_free(a, c, u, j) < 5 ==> !u[first_free(a, c, u, j)] && a[first_free(a, c, u, j)] == c,
        first_free(a, c, u, j) == 5 ==> forall|x: int| j <= x < 5 && a[x] == c ==> #[trigger] u[x],
    decreases 5 - j,
{
    if j < 5 && !(!u[j] && a[j] == c) {
        lemma_first_free_found(a, c, u, j + 1);
    }
}

/// The invariant of the scoring passes: unscored positions keep their exact marks,
/// Correct exactly where the letters agree, and for every letter the credited guess
/// positions match the answer positions used.
spec fn pass_inv(a: Seq<char>, g: Seq<char>, m: Seq<Mark>, u: Seq<bool>, i: int) -> bool {
    &&& m.len() == 5
    &&& u.len() == 5
    &&& forall|k: int| i <= k < 5 ==> #[trigger] m[k] == exact_marks(a, g)[k]
    &&& forall|k: int| 0 <= k < 5 ==> (#[trigger] m[k] == Mark::Correct <==> g[k] == a[k])
    &&& forall|k: int| 0 <= k < 5 ==> #[trigger] m[k] != Mark::Unknown
    &&& forall|c: char|
        #[trigger] credited(g, m, c) == count_where(used_with(a, u, c), 5)
    &&& forall|k: int, j: int|
        #![trigger m[k], u[j]]
        0 <= k < i && 0 <= j < 5 && m[k] == Mark::Absent && a[j] == g[k] ==> u[j]
    &&& forall|k: int, k2: int|
        #![trigger m[k], m[k2]]
        0 <= k < k2 < i && m[k] == Mark::Absent && g[k] == g[k2] ==> m[k2] != Mark::Present
}

proof fn lemma_pass_inv(a: Seq<char>, g: Seq<char>, i: int)
    requires
        0 <= i <= 5,
        a.len() >= 5,
        g.len() >= 5,
    ensures
        pass_inv(a, g, present_pass(a, g, i).0, present_pass(a, g, i).1, i),
    decreases i,
{
    if i == 0 {
        let m = exact_marks(a, g);
        let u = exact_used(a, g);
        assert forall|c: char| #[trigger] credited(g, m, c) == count_where(used_with(a, u, c), 5) by {
            lemma_count_same(
                |k: int| g[k] == c && (m[k] == Mark::Correct || m[k] == Mark::Present),
                used_with(a, u, c),
                5,
            );
        }
    } else {
        lemma_pass_inv(a, g, i - 1);
        lemma_present_pass_shape(a, g, i - 1);
        let (m, u) = present_pass(a, g, i - 1);
        let k = i - 1;
        if m[k] != Mark::Correct {
            let j = first_free(a, g[k], u, 0);
            lemma_first_free_found(a, g[k], u, 0);
            if j == 5 {
                assert forall|k2: int, x: int|
                    #![trigger m[k2], u[x]]
                    0 <= k2 < i && 0 <= x < 5 && m[k2] == Mark::Absent && a[x] == g[k2] implies u[x] by {
                    if k2 == k {
                        assert(a[x] == g[k]);
                    }
                }
            }
            if j < 5 {
                let m2 = m.update(k, Mark::Present);
                let u2 = u.update(j, true);
                assert(m[k] == Mark::Absent);
                assert forall|k0: int, k2: int|
                    #![trigger m2[k0], m2[k2]]
                    0 <= k0 < k2 < i && m2[k0] == Mark::Absent && g[k0] == g[k2] implies m2[k2] != Mark::Present by {
                    if k2 == k {
                        assert(m[k0] == Mark::Absent && a[j] == g[k0]);
                        assert(u[j]);
                    }
                }
                assert forall|c: char| #[trigger] credited(g, m2, c) == count_where(used_with(a, u2, c), 5) by {
                    let p1 = |x: int| g[x] == c && (m[x] == Mark::Correct || m[x] == Mark::Present);
                    let q1 = |x: int| g[x] == c && (m2[x] == Mark::Correct || m2[x] == Mark::Present);
                    let p2 = used_with(a, u, c);
                    let q2 = used_with(a, u2, c);
                    assert(credited(g, m, c) == count_where(p1, 5));
                    assert(credited(g, m2, c) == count_where(q1, 5));
                    if g[k] == c {
                        lemma_count_one_more(p1, q1, k, 5);
                        lemma_count_one_more(p2, q2, j, 5);
                    } else {
                        lemma_count_same(p1, q1, 5);
                        lemma_count_same(p2, q2, 5);
                    }
                }
            }
        }
    }
}

/// Scoring a guess: a position is Correct exactly where its letter is the answer's there,
/// every position is marked Correct, Present or Absent, and each answer letter accounts
/// for at most one mark: for every letter, the guess positions holding it that are
/// marked Correct or Present are no more than its occurrences in the answer. A letter is
/// marked Absent only when the answer has no further copy of it, and the copies go to the
/// earliest positions: no Present follows an Absent of the same letter.
pub proof fn lemma_score_uses_each_letter_once(a: Seq<char>, g: Seq<char>, c: char)
    requires
        a.len() >= 5,
        g.len() >= 5,
    ensures
        spec_score(a, g).len() == 5,
        forall|k: int| 0 <= k < 5 ==> (#[trigger] spec_score(a, g)[k] == Mark::Correct <==> g[k] == a[k]),
        forall|k: int| 0 <= k < 5 ==> #[trigger] spec_score(a, g)[k] != Mark::Unknown,
        credited(g, spec_score(a, g), c) <= occurrences(a, c),
        forall|k: int|
            0 <= k < 5 && #[trigger] spec_score(a, g)[k] == Mark::Absent ==> credited(g, spec_score(a, g), g[k])
                == occurrences(a, g[k]),
        forall|k: int, k2: int|
            #![trigger spec_score(a, g)[k], spec_score(a, g)[k2]]
            0 <= k < k2 < 5 && spec_score(a, g)[k] == Mark::Absent && g[k] == g[k2] ==> spec_score(a, g)[k2]
                != Mark::Present,
{
    lemma_pass_inv(a, g, 5);
    let m = present_pass(a, g, 5).0;
    let u = present_pass(a, g, 5).1;
    assert(credited(g, m, c) == count_where(used_with(a, u, c), 5));
    lemma_count_le(used_with(a, u, c), holds(a, c), 5);
    assert forall|k: int|
        0 <= k < 5 && #[trigger] spec_score(a, g)[k] == Mark::Absent implies credited(g, spec_score(a, g), g[k])
            == occurrences(a, g[k]) by {
        assert(credited(g, m, g[k]) == count_where(used_with(a, u, g[k]), 5));
        assert forall|x: int| 0 <= x < 5 implies #[trigger] used_with(a, u, g[k])(x) == holds(a, g[k])(x) by {
            if a[x] == g[k] {
                assert(m[k] == Mark::Absent);
                assert(u[x]);
            }
        }
        lemma_count_same(used_with(a, u, g[k]), holds(a, g[k]), 5);
    }
}


/// How good a mark is: Correct over Present over Absent over nothing yet.
pub open spec fn mark_rank(m: Mark) -> int {
    match m {
        Mark::Correct => 3,
        Mark::Present => 2,
        Mark::Absent => 1,
        Mark::Unknown => 0,
    }
}

/// The keyboard slot of letter `c` (0 for 'a').
pub open spec fn slot(c: char) -> int {
    (c as int) - 97
}

proof fn lemma_marks_after_best(marks: Seq<Mark>, g: Seq<char>, s: Seq<Mark>, n: int)
    requires
        marks.len() == 26,
        0 <= n <= 5,
        g.len() >= 5,
        s.len() >= 5,
        forall|p: int| 0 <= p < 5 ==> 0 <= #[trigger] slot(g[p]) < 26,
    ensures
        marks_after(marks, g, s, n).len() == 26,
        forall|k: int| 0 <= k < 26 ==> mark_rank(#[trigger] marks_after(marks, g, s, n)[k]) >= mark_rank(marks[k]),
        forall|p: int|
            0 <= p < n ==> mark_rank(#[trigger] marks_after(marks, g, s, n)[slot(g[p])]) >= mark_rank(s[p]),
        forall|k: int|
            0 <= k < 26 ==> #[trigger] marks_after(marks, g, s, n)[k] == marks[k] || exists|p: int|
                0 <= p < n && slot(g[p]) == k && marks_after(marks, g, s, n)[k] == #[trigger] s[p],
    decreases n,
{
    if n > 0 {
        lemma_marks_after_best(marks, g, s, n - 1);
        let prev = marks_after(marks, g, s, n - 1);
        let k0 = slot(g[n - 1]);
        assert((g[n - 1] as int) - 97 == k0);
        let cur = marks_after(marks, g, s, n);
        assert(cur == prev.update(k0, merge_mark(prev[k0], s[n - 1])));
        assert forall|p: int| 0 <= p < n implies mark_rank(#[trigger] cur[slot(g[p])]) >= mark_rank(s[p]) by {
            if p < n - 1 {
                assert(mark_rank(prev[slot(g[p])]) >= mark_rank(s[p]));
            }
        }
        assert forall|k: int|
            0 <= k < 26 implies #[trigger] cur[k] == marks[k] || exists|p: int|
                0 <= p < n && slot(g[p]) == k && cur[k] == #[trigger] s[p] by {
            if k == k0 && cur[k] != prev[k] && cur[k] != marks[k] {
                assert(cur[k] == s[n - 1]);
            } else if k != k0 || cur[k] == prev[k] {
                if prev[k] != marks[k] {
                    let p = choose|p: int| 0 <= p < n - 1 && slot(g[p]) == k && prev[k] == #[trigger] s[p];
                    assert(cur[k] == s[p]);
                }
            }
        }
    }
}

/// The keyboard keeps the best mark each letter has had: after a guess, a letter's key is
/// no worse than before and no worse than the mark of any position of the guess holding
/// it, and it shows either its earlier mark or one of those marks.
pub proof fn lemma_keyboard_best(marks: Seq<Mark>, g: Seq<char>, s: Seq<Mark>)
    requires
        marks.len() == 26,
        g.len() >= 5,
        s.len() >= 5,
        forall|p: int| 0 <= p < 5 ==> 0 <= #[trigger] slot(g[p]) < 26,
    ensures
        marks_after(marks, g, s, 5).len() == 26,
        forall|k: int| 0 <= k < 26 ==> mark_rank(#[trigger] marks_after(marks, g, s, 5)[k]) >= mark_rank(marks[k]),
        forall|p: int| 0 <= p < 5 ==> mark_rank(#[trigger] marks_after(marks, g, s, 5)[slot(g[p])]) >= mark_rank(s[p]),
        forall|k: int|
            0 <= k < 26 ==> #[trigger] marks_after(marks, g, s, 5)[k] == marks[k] || exists|p: int|
                0 <= p < 5 && slot(g[p]) == k && marks_after(marks, g, s, 5)[k] == #[trigger] s[p],
{
    lemma_marks_after_best(marks, g, s, 5);
}

} // verus!
