//! Character-level helpers on strings: the strings of this crate are read as
//! sequences of Unicode scalar values, never as bytes.
use vstd::prelude::*;

verus! {

/// `String::push` appends one character to the end of the string and leaves
/// what was there before as it was.
pub assume_specification[ String::push ](s: &mut String, ch: char)
    ensures
        final(s)@ == old(s)@.push(ch),
;

/// The characters of `s`, in order.
pub fn chars_of(s: &str) -> (r: Vec<char>)
    ensures
        r@ == s@,
{
    let mut out: Vec<char> = Vec::new();
    for c in it: s.chars()
        invariant
            it.seq() == s@,
            out@ == s@.take(it.index()),
    {
        out.push(c);
    }
    out
}

/// The string that holds the single character `c`.
pub fn char_string(c: char) -> (r: String)
    ensures
        r@ == seq![c],
{
    let mut s = String::new();
    s.push(c);
    s
}

/// Whether `c` is one of the ten ASCII digits. Digits of other scripts and
/// numerals such as the Chinese ones do not count.
pub open spec fn is_ascii_digit_char(c: char) -> bool {
    '0' <= c && c <= '9'
}

/// Whether every character of `s` is an ASCII digit. The empty sequence
/// qualifies.
pub open spec fn all_ascii_digits(s: Seq<char>) -> bool {
    forall|i: int| 0 <= i < s.len() ==> is_ascii_digit_char(#[trigger] s[i])
}

/// Tells whether `word` is made of ASCII digits only.
pub fn is_digit_word(word: &str) -> (r: bool)
    ensures
        r == all_ascii_digits(word@),
{
    let mut all: bool = true;
    for c in it: word.chars()
        invariant
            it.seq() == word@,
            all == all_ascii_digits(word@.take(it.index())),
    {
        proof {
            let k = it.index();
            let before = word@.take(k);
            let after = word@.take(k + 1);
            assert(after[k] == c);
            assert(forall|i: int| 0 <= i < k ==> before[i] == after[i]);
            if all && is_ascii_digit_char(c) {
                assert forall|i: int| 0 <= i < after.len() implies is_ascii_digit_char(
                    #[trigger] after[i],
                ) by {
                    if i < k {
                        assert(is_ascii_digit_char(before[i]));
                    }
                }
            } else if all {
                assert(!is_ascii_digit_char(after[k]));
            } else {
                let bad = choose|i: int| 0 <= i < before.len() && !is_ascii_digit_char(before[i]);
                assert(!is_ascii_digit_char(after[bad]));
            }
        }
        all = all && '0' <= c && c <= '9';
    }
    proof {
        assert(word@.take(word@.len() as int) == word@);
    }
    all
}

/// The upper-case form of an ASCII letter; every other character stays as
/// it is.
pub open spec fn ascii_upper(c: char) -> char {
    if 'a' <= c && c <= 'z' {
        ((c as u8) - 32) as char
    } else {
        c
    }
}

/// Maps an ASCII lower-case letter to its upper-case form.
pub fn to_ascii_upper(c: char) -> (r: char)
    ensures
        r == ascii_upper(c),
{
    if 'a' <= c && c <= 'z' {
        ((c as u8) - 32u8) as char
    } else {
        c
    }
}

/// Whether `pat` stands in `s` at position `at`, letters compared without
/// regard to ASCII case.
pub open spec fn matches_at(s: Seq<char>, pat: Seq<char>, at: int) -> bool {
    &&& 0 <= at
    &&& at + pat.len() <= s.len()
    &&& forall|j: int| 0 <= j < pat.len() ==> ascii_upper(#[trigger] s[at + j]) == ascii_upper(pat[j])
}

/// Whether `pat` occurs somewhere in `s` as a contiguous run of characters,
/// letters compared without regard to ASCII case.
pub open spec fn contains_ignore_case(s: Seq<char>, pat: Seq<char>) -> bool {
    exists|at: int| matches_at(s, pat, at)
}

/// Compares `pat` with the characters of `s` from `at` on.
fn matches_here(s: &Vec<char>, pat: &Vec<char>, at: usize) -> (r: bool)
    requires
        at + pat.len() <= s.len(),
    ensures
        r == matches_at(s@, pat@, at as int),
{
    let mut j: usize = 0;
    while j < pat.len()
        invariant
            j <= pat.len(),
            at + pat.len() <= s.len(),
            forall|k: int| 0 <= k < j ==> ascii_upper(#[trigger] s@[at + k]) == ascii_upper(pat@[k]),
        decreases pat.len() - j,
    {
        if to_ascii_upper(s[at + j]) != to_ascii_upper(pat[j]) {
            return false;
        }
        j += 1;
    }
    true
}

/// Searches `s` for `pat`, letters compared without regard to ASCII case.
pub fn contains_ignoring_case(s: &str, pat: &str) -> (r: bool)
    ensures
        r == contains_ignore_case(s@, pat@),
{
    let text = chars_of(s);
    let wanted = chars_of(pat);
    if wanted.len() > text.len() {
        return false;
    }
    let last: usize = text.len() - wanted.len();
    let mut at: usize = 0;
    while at <= last
        invariant
            text@ == s@,
            wanted@ == pat@,
            last == text.len() - wanted.len(),
            at <= last + 1,
            forall|k: int| 0 <= k < at ==> !matches_at(s@, pat@, k),
        decreases last + 1 - at,
    {
        if matches_here(&text, &wanted, at) {
            return true;
        }
        at += 1;
    }
    false
}

/// Whether `s` begins with the character `c`.
pub open spec fn begins_with(s: Seq<char>, c: char) -> bool {
    s.len() > 0 && s[0] == c
}

/// Tells whether the first character of `s` is `c`.
pub fn starts_with_char(s: &str, c: char) -> (r: bool)
    ensures
        r == begins_with(s@, c),
{
    let mut it = s.chars();
    match it.next() {
        Some(first) => first == c,
        None => false,
    }
}

/// Tells whether `s` is exactly the one character `c`.
pub fn is_single_char(s: &str, c: char) -> (r: bool)
    ensures
        r == (s@ == seq![c]),
{
    let mut it = s.chars();
    let first = it.next();
    let second = it.next();
    proof {
        if first is Some && second is None {
            assert(s@ =~= seq![first->0]);
        }
    }
    match (first, second) {
        (Some(x), None) => x == c,
        _ => false,
    }
}

} // verus!
