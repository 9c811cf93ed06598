//! Text helpers over `String`: what the screens build text with, stated over the
//! character view.

use vstd::prelude::*;

verus! {

/// Append one character.
#[verifier::external_body]
pub fn push_char(s: &mut String, c: char)
    ensures
        final(s)@ == old(s)@.push(c),
{
    s.push(c);
}

/// Append a string slice.
pub fn push_str(s: &mut String, t: &str)
    ensures
        final(s)@ == old(s)@ + t@,
{
    s.append(t);
}

/// An owned copy of a string slice.
pub fn owned(t: &str) -> (s: String)
    ensures
        s@ == t@,
{
    t.to_owned()
}

/// Build a `String` from characters.
pub fn string_of(cs: &Vec<char>) -> (s: String)
    ensures
        s@ == cs@,
{
    let mut s = String::new();
    let mut i: usize = 0;
    while i < cs.len()
        invariant
            0 <= i <= cs.len(),
            s@ == cs@.subrange(0, i as int),
        decreases cs.len() - i,
    {
        push_char(&mut s, cs[i]);
        i += 1;
        assert(cs@.subrange(0, i as int) =~= cs@.subrange(0, (i - 1) as int).push(cs@[i - 1]));
    }
    assert(cs@.subrange(0, cs.len() as int) =~= cs@);
    s
}

/// The characters of a string slice.
pub fn chars_of(t: &str) -> (cs: Vec<char>)
    ensures
        cs@ == t@,
{
    let mut cs: Vec<char> = Vec::new();
    for c in it: t.chars()
        invariant
            it.seq() == t@,
            cs@ == it.seq().subrange(0, it.index() as int),
    {
        cs.push(c);
    }
    cs
}

/// Characters decoded from bytes, with U+FFFD in place of each invalid sequence.
pub uninterp spec fn lossy_utf8(b: Seq<u8>) -> Seq<char>;

/// `String::from_utf8_lossy`: bytes to text, replacing invalid sequences.
#[verifier::external_body]
pub fn from_utf8_lossy(b: &[u8]) -> (s: String)
    ensures
        s@ == lossy_utf8(b@),
        vstd::utf8::valid_utf8(b@) ==> s@ == vstd::utf8::decode_utf8(b@),
{
    String::from_utf8_lossy(b).into_owned()
}

/// `char::is_whitespace`: the Unicode White_Space property.
pub uninterp spec fn is_ws(c: char) -> bool;

/// `char::is_alphanumeric`: Alphabetic or Numeric.
pub uninterp spec fn is_alnum(c: char) -> bool;

/// `char::is_uppercase`: the Uppercase property.
pub uninterp spec fn is_upper(c: char) -> bool;

/// `str::to_lowercase`: the Unicode lowercase mapping of a whole string.
pub uninterp spec fn str_lowercase(s: Seq<char>) -> Seq<char>;

/// `str::to_uppercase`: the Unicode uppercase mapping of a whole string.
pub uninterp spec fn str_uppercase(s: Seq<char>) -> Seq<char>;

/// `char::to_lowercase`: the characters one character lowercases to.
pub uninterp spec fn char_lowercase(c: char) -> Seq<char>;

/// ASCII letters.
pub open spec fn ascii_alpha(c: char) -> bool {
    ('a' <= c && c <= 'z') || ('A' <= c && c <= 'Z')
}

/// ASCII digits.
pub open spec fn ascii_digit(c: char) -> bool {
    '0' <= c && c <= '9'
}

/// The ASCII lowercase of a character (others unchanged).
pub open spec fn ascii_lower(c: char) -> char {
    if 'A' <= c && c <= 'Z' {
        ((c as u32) + 32) as char
    } else {
        c
    }
}

/// The ASCII uppercase of a character (others unchanged).
pub open spec fn ascii_upper(c: char) -> char {
    if 'a' <= c && c <= 'z' {
        ((c as u32) - 32) as char
    } else {
        c
    }
}

/// `char::is_whitespace`. For ASCII the documented set is space, tab, line feed,
/// vertical tab, form feed and carriage return; other characters go by the Unicode
/// White_Space property, which the contract names without restating.
#[verifier::external_body]
pub fn is_whitespace(c: char) -> (b: bool)
    ensures
        b == is_ws(c),
        (c as u32) < 128 ==> (b <==> (c == ' ' || ('\t' <= c && c <= '\r'))),
{
    c.is_whitespace()
}

/// `char::is_alphanumeric`. For ASCII: the letters and the digits; other characters go
/// by the Unicode Alphabetic and Numeric properties, which the contract names.
#[verifier::external_body]
pub fn is_alphanumeric(c: char) -> (b: bool)
    ensures
        b == is_alnum(c),
        (c as u32) < 128 ==> (b <==> (ascii_alpha(c) || ascii_digit(c))),
{
    c.is_alphanumeric()
}

/// `char::is_uppercase`. For ASCII: 'A' to 'Z'; others by the Unicode Uppercase property.
#[verifier::external_body]
pub fn is_uppercase(c: char) -> (b: bool)
    ensures
        b == is_upper(c),
        (c as u32) < 128 ==> (b <==> ('A' <= c && c <= 'Z')),
{
    c.is_uppercase()
}

/// `str::to_lowercase`. A string of ASCII characters lowercases character by character
/// ('A' to 'Z' to 'a' to 'z'); the rest of the Unicode mapping is named, not restated.
#[verifier::external_body]
pub fn to_lowercase(s: &str) -> (r: String)
    ensures
        r@ == str_lowercase(s@),
        (forall|i: int| 0 <= i < s@.len() ==> (s@[i] as u32) < 128) ==> r@ == s@.map_values(
            |c: char| ascii_lower(c),
        ),
{
    s.to_lowercase()
}

/// `str::to_uppercase`. A string of ASCII characters uppercases character by character
/// ('a' to 'z' to 'A' to 'Z'); the rest of the Unicode mapping is named, not restated.
#[verifier::external_body]
pub fn to_uppercase(s: &str) -> (r: String)
    ensures
        r@ == str_uppercase(s@),
        (forall|i: int| 0 <= i < s@.len() ==> (s@[i] as u32) < 128) ==> r@ == s@.map_values(
            |c: char| ascii_upper(c),
        ),
{
    s.to_uppercase()
}

/// `char::to_lowercase`, collected. An ASCII character lowercases to its ASCII lowercase.
#[verifier::external_body]
pub fn char_to_lowercase(c: char) -> (r: Vec<char>)
    ensures
        r@ == char_lowercase(c),
        (c as u32) < 128 ==> r@ == seq![ascii_lower(c)],
{
    c.to_lowercase().collect()
}

/// The first index at or after `i` whose character is not stripped (the length if none).
pub open spec fn first_kept(s: Seq<char>, strip: spec_fn(char) -> bool, i: int) -> int
    decreases s.len() - i,
{
    if i >= s.len() {
        s.len() as int
    } else if strip(s[i]) {
        first_kept(s, strip, i + 1)
    } else {
        i
    }
}

/// The end of the last character at or before `j` that is not stripped (0 if none).
pub open spec fn end_kept(s: Seq<char>, strip: spec_fn(char) -> bool, j: int) -> int
    decreases j,
{
    if j <= 0 {
        0
    } else if strip(s[j - 1]) {
        end_kept(s, strip, j - 1)
    } else {
        j
    }
}

/// The string without the leading and trailing characters that `strip` holds of.
pub open spec fn trim_by(s: Seq<char>, strip: spec_fn(char) -> bool) -> Seq<char> {
    let a = first_kept(s, strip, 0);
    let b = end_kept(s, strip, s.len() as int);
    if a < b {
        s.subrange(a, b)
    } else {
        Seq::empty()
    }
}

/// The string without its trailing characters that `strip` holds of.
pub open spec fn trim_end_by(s: Seq<char>, strip: spec_fn(char) -> bool) -> Seq<char> {
    s.subrange(0, end_kept(s, strip, s.len() as int))
}

proof fn lemma_first_kept_bounds(s: Seq<char>, strip: spec_fn(char) -> bool, i: int)
    requires
        0 <= i <= s.len(),
    ensures
        i <= first_kept(s, strip, i) <= s.len(),
    decreases s.len() - i,
{
    if i < s.len() && strip(s[i]) {
        lemma_first_kept_bounds(s, strip, i + 1);
    }
}

proof fn lemma_end_kept_bounds(s: Seq<char>, strip: spec_fn(char) -> bool, j: int)
    requires
        0 <= j <= s.len(),
    ensures
        0 <= end_kept(s, strip, j) <= j,
    decreases j,
{
    if j > 0 && strip(s[j - 1]) {
        lemma_end_kept_bounds(s, strip, j - 1);
    }
}

/// A trim is no longer than what it trims.
pub proof fn lemma_trim_len(s: Seq<char>, strip: spec_fn(char) -> bool)
    ensures
        trim_by(s, strip).len() <= s.len(),
{
    lemma_first_kept_bounds(s, strip, 0);
    lemma_end_kept_bounds(s, strip, s.len() as int);
}

/// An end trim is no longer than what it trims.
pub proof fn lemma_trim_end_len(s: Seq<char>, strip: spec_fn(char) -> bool)
    ensures
        trim_end_by(s, strip).len() <= s.len(),
{
    lemma_end_kept_bounds(s, strip, s.len() as int);
}

proof fn lemma_first_kept_found(s: Seq<char>, strip: spec_fn(char) -> bool, i: int)
    requires
        0 <= i <= s.len(),
    ensures
        first_kept(s, strip, i) < s.len() ==> !strip(s[first_kept(s, strip, i)]),
    decreases s.len() - i,
{
    if i < s.len() && strip(s[i]) {
        lemma_first_kept_found(s, strip, i + 1);
    }
}

proof fn lemma_end_kept_found(s: Seq<char>, strip: spec_fn(char) -> bool, j: int)
    requires
        0 <= j <= s.len(),
    ensures
        end_kept(s, strip, j) > 0 ==> !strip(s[end_kept(s, strip, j) - 1]),
    decreases j,
{
    if j > 0 && strip(s[j - 1]) {
        lemma_end_kept_found(s, strip, j - 1);
    }
}

/// Trimming twice is trimming once.
pub proof fn lemma_trim_twice(s: Seq<char>, strip: spec_fn(char) -> bool)
    ensures
        trim_by(trim_by(s, strip), strip) == trim_by(s, strip),
{
    lemma_first_kept_bounds(s, strip, 0);
    lemma_end_kept_bounds(s, strip, s.len() as int);
    lemma_first_kept_found(s, strip, 0);
    lemma_end_kept_found(s, strip, s.len() as int);
    let t = trim_by(s, strip);
    if t.len() > 0 {
        let a = first_kept(s, strip, 0);
        let b = end_kept(s, strip, s.len() as int);
        assert(!strip(t[0]));
        assert(t[t.len() - 1] == s[b - 1]);
        assert(first_kept(t, strip, 0) == 0);
        assert(end_kept(t, strip, t.len() as int) == t.len());
        assert(trim_by(t, strip) =~= t);
    } else {
        assert(trim_by(t, strip) =~= t);
    }
}

/// Which characters a trim strips.
pub enum Strip {
    /// White space.
    White,
    /// Everything that is not alphanumeric.
    NonAlnum,
}

/// The predicate of a trim.
pub open spec fn strips(k: Strip) -> spec_fn(char) -> bool {
    match k {
        Strip::White => |c: char| is_ws(c),
        Strip::NonAlnum => |c: char| !is_alnum(c),
    }
}

fn stripped(k: &Strip, c: char) -> (b: bool)
    ensures
        b == strips(*k)(c),
{
    match k {
        Strip::White => is_whitespace(c),
        Strip::NonAlnum => !is_alphanumeric(c),
    }
}

/// Trim characters at both ends (`str::trim` for white space, `trim_matches` otherwise).
pub fn trim_chars(cs: &Vec<char>, k: Strip) -> (r: Vec<char>)
    ensures
        r@ == trim_by(cs@, strips(k)),
{
    let ghost f = strips(k);
    let mut a: usize = 0;
    while a < cs.len() && stripped(&k, cs[a])
        invariant
            0 <= a <= cs.len(),
            f == strips(k),
            first_kept(cs@, f, a as int) == first_kept(cs@, f, 0),
        decreases cs.len() - a,
    {
        a += 1;
    }
    let mut b: usize = cs.len();
    while b > 0 && stripped(&k, cs[b - 1])
        invariant
            0 <= b <= cs.len(),
            f == strips(k),
            end_kept(cs@, f, b as int) == end_kept(cs@, f, cs.len() as int),
        decreases b,
    {
        b -= 1;
    }
    let mut r: Vec<char> = Vec::new();
    if a < b {
        let mut i = a;
        while i < b
            invariant
                a <= i <= b <= cs.len(),
                r@ == cs@.subrange(a as int, i as int),
            decreases b - i,
        {
            r.push(cs[i]);
            i += 1;
            assert(cs@.subrange(a as int, i as int) =~= cs@.subrange(a as int, i - 1).push(cs@[i - 1]));
        }
    }
    r
}

/// Trim characters at the end only (`trim_end_matches`).
pub fn trim_end_chars(cs: &Vec<char>, k: Strip) -> (r: Vec<char>)
    ensures
        r@ == trim_end_by(cs@, strips(k)),
{
    let ghost f = strips(k);
    let mut b: usize = cs.len();
    while b > 0 && stripped(&k, cs[b - 1])
        invariant
            0 <= b <= cs.len(),
            f == strips(k),
            end_kept(cs@, f, b as int) == end_kept(cs@, f, cs.len() as int),
        decreases b,
    {
        b -= 1;
    }
    let mut r: Vec<char> = Vec::new();
    let mut i: usize = 0;
    while i < b
        invariant
            i <= b <= cs.len(),
            r@ == cs@.subrange(0, i as int),
        decreases b - i,
    {
        r.push(cs[i]);
        i += 1;
        assert(cs@.subrange(0, i as int) =~= cs@.subrange(0, i - 1).push(cs@[i - 1]));
    }
    r
}

/// `s` ends with `suffix`.
pub open spec fn ends_with(s: Seq<char>, suffix: Seq<char>) -> bool {
    suffix.len() <= s.len() && s.subrange(s.len() - suffix.len(), s.len() as int) == suffix
}

/// Whether `s` ends with `suffix`.
pub fn chars_end_with(s: &Vec<char>, suffix: &Vec<char>) -> (b: bool)
    ensures
        b == ends_with(s@, suffix@),
{
    if suffix.len() > s.len() {
        return false;
    }
    let off = s.len() - suffix.len();
    let mut i: usize = 0;
    while i < suffix.len()
        invariant
            0 <= i <= suffix.len(),
            off + suffix.len() == s.len(),
            forall|j: int| 0 <= j < i ==> s@[off + j] == suffix@[j],
        decreases suffix.len() - i,
    {
        if s[off + i] != suffix[i] {
            assert(s@.subrange(off as int, s.len() as int)[i as int] != suffix@[i as int]);
            return false;
        }
        i += 1;
    }
    assert(s@.subrange(off as int, s.len() as int) =~= suffix@);
    true
}

/// The first `n` characters.
pub fn prefix_chars(s: &Vec<char>, n: usize) -> (r: Vec<char>)
    requires
        n <= s.len(),
    ensures
        r@ == s@.subrange(0, n as int),
{
    let mut r: Vec<char> = Vec::new();
    let mut i: usize = 0;
    while i < n
        invariant
            i <= n <= s.len(),
            r@ == s@.subrange(0, i as int),
        decreases n - i,
    {
        r.push(s[i]);
        i += 1;
        assert(s@.subrange(0, i as int) =~= s@.subrange(0, i - 1).push(s@[i - 1]));
    }
    r
}

/// Append characters to a vector of characters.
pub fn extend_chars(v: &mut Vec<char>, t: &Vec<char>)
    ensures
        final(v)@ == old(v)@ + t@,
{
    let mut i: usize = 0;
    while i < t.len()
        invariant
            0 <= i <= t.len(),
            v@ == old(v)@ + t@.subrange(0, i as int),
        decreases t.len() - i,
    {
        v.push(t[i]);
        i += 1;
        assert(old(v)@ + t@.subrange(0, i as int) =~= old(v)@ + t@.subrange(0, i - 1) + seq![t@[i - 1]]);
    }
    assert(t@.subrange(0, t.len() as int) =~= t@);
}


/// Splitting at a separator, as a left fold: the pieces finished so far and the piece
/// being read.
pub open spec fn split_state(s: Seq<char>, sep: char) -> (Seq<Seq<char>>, Seq<char>)
    decreases s.len(),
{
    if s.len() == 0 {
        (Seq::empty(), Seq::empty())
    } else {
        let (done, cur) = split_state(s.drop_last(), sep);
        if s.last() == sep {
            (done.push(cur), Seq::empty())
        } else {
            (done, cur.push(s.last()))
        }
    }
}

/// `str::split` at one character: the pieces between separators, empty ones included.
pub open spec fn split_on(s: Seq<char>, sep: char) -> Seq<Seq<char>> {
    split_state(s, sep).0.push(split_state(s, sep).1)
}

/// Words as a left fold: the words finished so far and the word being read.
pub open spec fn words_state(s: Seq<char>) -> (Seq<Seq<char>>, Seq<char>)
    decreases s.len(),
{
    if s.len() == 0 {
        (Seq::empty(), Seq::empty())
    } else {
        let (done, cur) = words_state(s.drop_last());
        if is_ws(s.last()) {
            (if cur.len() > 0 { done.push(cur) } else { done }, Seq::empty())
        } else {
            (done, cur.push(s.last()))
        }
    }
}

/// `str::split_whitespace`: the maximal runs of non-white-space characters.
pub open spec fn ws_words(s: Seq<char>) -> Seq<Seq<char>> {
    let (done, cur) = words_state(s);
    if cur.len() > 0 {
        done.push(cur)
    } else {
        done
    }
}

/// The pieces of `s` between `sep`s (`str::split`), as strings.
pub fn split_chars(s: &str, sep: char) -> (r: Vec<String>)
    ensures
        r@.map_values(|x: String| x@) == split_on(s@, sep),
{
    let cs = chars_of(s);
    let mut done: Vec<String> = Vec::new();
    let mut cur: Vec<char> = Vec::new();
    let mut i: usize = 0;
    while i < cs.len()
        invariant
            i <= cs.len(),
            cs@ == s@,
            (done@.map_values(|x: String| x@), cur@) == split_state(cs@.subrange(0, i as int), sep),
        decreases cs.len() - i,
    {
        let ghost pre = cs@.subrange(0, i as int);
        assert(cs@.subrange(0, i + 1).drop_last() =~= pre);
        let ghost dv = done@.map_values(|x: String| x@);
        if cs[i] == sep {
            done.push(string_of(&cur));
            assert(done@.map_values(|x: String| x@) =~= dv.push(cur@));
            cur = Vec::new();
            assert(cur@ =~= Seq::<char>::empty());
        } else {
            cur.push(cs[i]);
        }
        i += 1;
    }
    assert(cs@.subrange(0, i as int) =~= s@);
    let ghost dv = done@.map_values(|x: String| x@);
    done.push(string_of(&cur));
    assert(done@.map_values(|x: String| x@) =~= dv.push(cur@));
    done
}

/// The words of `s` (`str::split_whitespace`), as character vectors.
pub fn words_of(s: &str) -> (r: Vec<Vec<char>>)
    ensures
        r@.map_values(|x: Vec<char>| x@) == ws_words(s@),
{
    let cs = chars_of(s);
    let mut done: Vec<Vec<char>> = Vec::new();
    let mut cur: Vec<char> = Vec::new();
    let mut i: usize = 0;
    while i < cs.len()
        invariant
            i <= cs.len(),
            cs@ == s@,
            (done@.map_values(|x: Vec<char>| x@), cur@) == words_state(cs@.subrange(0, i as int)),
        decreases cs.len() - i,
    {
        let ghost pre = cs@.subrange(0, i as int);
        assert(cs@.subrange(0, i + 1).drop_last() =~= pre);
        let ghost dv = done@.map_values(|x: Vec<char>| x@);
        if is_whitespace(cs[i]) {
            if cur.len() > 0 {
                let w = cur;
                done.push(w);
                assert(done@.map_values(|x: Vec<char>| x@) =~= dv.push(w@));
            }
            cur = Vec::new();
            assert(cur@ =~= Seq::<char>::empty());
        } else {
            cur.push(cs[i]);
        }
        i += 1;
    }
    assert(cs@.subrange(0, i as int) =~= s@);
    let ghost dv = done@.map_values(|x: Vec<char>| x@);
    if cur.len() > 0 {
        let w = cur;
        done.push(w);
        assert(done@.map_values(|x: Vec<char>| x@) =~= dv.push(w@));
    }
    done
}


/// The decimal digit character of `d` (below ten).
pub open spec fn digit(d: int) -> char {
    (48 + d) as char
}

/// The decimal numeral of `n`, no leading zeros.
pub open spec fn decimal(n: nat) -> Seq<char>
    decreases n,
{
    if n < 10 {
        seq![digit(n as int)]
    } else {
        decimal(n / 10) + seq![digit((n % 10) as int)]
    }
}

fn digit_char(d: u64) -> (c: char)
    requires
        d < 10,
    ensures
        c == digit(d as int),
{
    ((d as u8) + 48) as char
}

/// Append the decimal numeral of `n`.
pub fn push_decimal(s: &mut String, n: u64)
    ensures
        final(s)@ == old(s)@ + decimal(n as nat),
    decreases n,
{
    if n >= 10 {
        push_decimal(s, n / 10);
    }
    push_char(s, digit_char(n % 10));
    assert(final(s)@ =~= old(s)@ + decimal(n as nat));
}

/// The decimal numeral of `n` as a string.
pub fn decimal_string(n: u64) -> (s: String)
    ensures
        s@ == decimal(n as nat),
{
    let mut s = String::new();
    push_decimal(&mut s, n);
    assert(s@ =~= decimal(n as nat));
    s
}

} // verus!
