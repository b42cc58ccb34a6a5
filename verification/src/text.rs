//! Character-level string helpers shared by the name-matching rules.
//!
//! Names are handled as `Seq<char>` views; every helper here states its
//! result over that view.
use vstd::prelude::*;

verus! {

/// `pattern` occurs in `s` starting at position `at`.
pub open spec fn occurs_at(s: Seq<char>, pattern: Seq<char>, at: int) -> bool {
    &&& 0 <= at
    &&& at + pattern.len() <= s.len()
    &&& s.subrange(at, at + pattern.len()) =~= pattern
}

/// `pattern` occurs somewhere in `s` (the empty pattern occurs everywhere).
pub open spec fn seq_contains(s: Seq<char>, pattern: Seq<char>) -> bool {
    exists|at: int| occurs_at(s, pattern, at)
}

/// `s` begins with `prefix`.
pub open spec fn seq_starts_with(s: Seq<char>, prefix: Seq<char>) -> bool {
    occurs_at(s, prefix, 0)
}

/// ASCII lower-casing of one character; other characters are unchanged.
pub open spec fn ascii_lower(c: char) -> char {
    if 'A' <= c && c <= 'Z' {
        ((c as u32) + 32) as char
    } else {
        c
    }
}

/// ASCII lower-casing of a whole sequence.
pub open spec fn ascii_lower_seq(s: Seq<char>) -> Seq<char> {
    Seq::new(s.len(), |i: int| ascii_lower(s[i]))
}

/// The decimal digit character for `d < 10`.
pub open spec fn digit_char(d: nat) -> char {
    ((48 + d) as u32) as char
}

/// Decimal rendering of a natural number, without leading zeros.
pub open spec fn decimal(n: nat) -> Seq<char>
    decreases n,
{
    if n < 10 {
        seq![digit_char(n)]
    } else {
        decimal(n / 10).push(digit_char(n % 10))
    }
}

/// Collects the characters of a string slice into a vector.
pub fn str_chars(s: &str) -> (out: Vec<char>)
    ensures
        out@ == s@,
{
    let mut out: Vec<char> = Vec::new();
    for c in it: s.chars()
        invariant
            out@ == it.seq().take(it.index() as int),
    {
        out.push(c);
    }
    out
}

/// Collects characters into a string (`FromIterator<char>` for `String`):
/// the string holds exactly those characters, in order.
#[verifier::external_body]
pub(crate) fn chars_to_string(chars: &Vec<char>) -> (r: String)
    ensures
        r@ == chars@,
{
    chars.iter().collect()
}

/// Whether `pattern` occurs in `s` at position `at`.
pub fn chars_occur_at(s: &Vec<char>, pattern: &Vec<char>, at: usize) -> (r: bool)
    ensures
        r == occurs_at(s@, pattern@, at as int),
{
    if at > s.len() || pattern.len() > s.len() - at {
        return false;
    }
    let mut k: usize = 0;
    while k < pattern.len()
        invariant
            at + pattern.len() <= s.len(),
            k <= pattern.len(),
            forall|j: int| 0 <= j < k ==> s@[at + j] == pattern@[j],
        decreases pattern.len() - k,
    {
        if s[at + k] != pattern[k] {
            assert(s@.subrange(at as int, at + pattern.len())[k as int] != pattern@[k as int]);
            return false;
        }
        k = k + 1;
    }
    assert(s@.subrange(at as int, at + pattern.len()) =~= pattern@);
    true
}

/// Whether `pattern` occurs anywhere in `s`.
pub fn chars_contain(s: &Vec<char>, pattern: &Vec<char>) -> (r: bool)
    ensures
        r == seq_contains(s@, pattern@),
{
    if pattern.len() > s.len() {
        assert forall|at: int| !occurs_at(s@, pattern@, at) by {}
        return false;
    }
    let last = s.len() - pattern.len();
    let mut at: usize = 0;
    while at <= last
        invariant
            last == s.len() - pattern.len(),
            pattern.len() <= s.len(),
            at <= last + 1,
            forall|j: int| 0 <= j < at ==> !occurs_at(s@, pattern@, j),
        decreases last + 1 - at,
    {
        if chars_occur_at(s, pattern, at) {
            return true;
        }
        at = at + 1;
    }
    assert forall|j: int| !occurs_at(s@, pattern@, j) by {
        if 0 <= j && j < at {
        }
    }
    false
}

/// Whether `s` begins with `prefix`.
pub fn chars_start_with(s: &Vec<char>, prefix: &Vec<char>) -> (r: bool)
    ensures
        r == seq_starts_with(s@, prefix@),
{
    chars_occur_at(s, prefix, 0)
}

/// Whether the string slice `s` contains the characters of `pattern`.
pub fn str_contains(s: &str, pattern: &str) -> (r: bool)
    ensures
        r == seq_contains(s@, pattern@),
{
    let sc = str_chars(s);
    let pc = str_chars(pattern);
    chars_contain(&sc, &pc)
}

/// Whether the string slice `s` starts with the characters of `prefix`.
pub fn str_starts_with(s: &str, prefix: &str) -> (r: bool)
    ensures
        r == seq_starts_with(s@, prefix@),
{
    let sc = str_chars(s);
    let pc = str_chars(prefix);
    chars_start_with(&sc, &pc)
}

/// ASCII lower-casing of a character vector.
pub fn chars_to_ascii_lowercase(s: &Vec<char>) -> (out: Vec<char>)
    ensures
        out@ == ascii_lower_seq(s@),
{
    let mut out: Vec<char> = Vec::new();
    let mut i: usize = 0;
    while i < s.len()
        invariant
            i <= s.len(),
            out@ =~= ascii_lower_seq(s@).take(i as int),
        decreases s.len() - i,
    {
        let c = s[i];
        let lowered = if 'A' <= c && c <= 'Z' {
            let code = c as u8;
            let low = (code + 32) as char;
            assert(low == ascii_lower(c));
            low
        } else {
            c
        };
        out.push(lowered);
        assert(ascii_lower_seq(s@).take(i + 1) =~= ascii_lower_seq(s@).take(i as int).push(
            lowered,
        ));
        i = i + 1;
    }
    assert(ascii_lower_seq(s@).take(i as int) =~= ascii_lower_seq(s@));
    out
}

/// Appends the decimal rendering of `n` to `out`.
pub fn push_decimal(out: &mut Vec<char>, n: usize)
    ensures
        final(out)@ == old(out)@ + decimal(n as nat),
    decreases n,
{
    if n < 10 {
        let c = (48u8 + n as u8) as char;
        assert(c == digit_char(n as nat));
        out.push(c);
        assert(old(out)@ + decimal(n as nat) =~= old(out)@.push(c));
    } else {
        push_decimal(out, n / 10);
        let d = n % 10;
        let c = (48u8 + d as u8) as char;
        assert(c == digit_char((n % 10) as nat));
        out.push(c);
        assert(decimal(n as nat) == decimal((n / 10) as nat).push(digit_char((n % 10) as nat)));
        assert(old(out)@ + decimal(n as nat) =~= old(out)@ + decimal((n / 10) as nat) + seq![c]);
    }
}

} // verus!
