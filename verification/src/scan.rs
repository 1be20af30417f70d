//! Character classes and prefix scanning.
//!
//! The grammar needs three fixed micro-matchers — a run of decimal digits, an
//! identifier, and a run of characters other than `$` — plus "scan up to the
//! next `X`" runs for a handful of delimiters.  All of them are runs of a
//! single character class, computed here by one verified loop, and all work
//! on character boundaries.

use vstd::prelude::*;

verus! {

/// A class of characters the grammar scans over.  The `Not*` classes are the
/// complements used by "take text up to the next delimiter" scans.
#[derive(Clone, Copy, Debug)]
pub enum CharClass {
    Digit,
    IdentTail,
    NotDollar,
    NotBrace,
    NotSlash,
    NotColon,
    NotCommaBar,
}

pub open spec fn is_digit_char(c: char) -> bool {
    '0' as u32 <= c as u32 && c as u32 <= '9' as u32
}

pub open spec fn is_ident_start_char(c: char) -> bool {
    c == '_' || ('a' as u32 <= c as u32 && c as u32 <= 'z' as u32) || ('A' as u32 <= c as u32
        && c as u32 <= 'Z' as u32)
}

pub open spec fn is_ident_tail_char(c: char) -> bool {
    is_ident_start_char(c) || is_digit_char(c)
}

pub open spec fn char_in_class(c: char, cls: CharClass) -> bool {
    match cls {
        CharClass::Digit => is_digit_char(c),
        CharClass::IdentTail => is_ident_tail_char(c),
        CharClass::NotDollar => c != '$',
        CharClass::NotBrace => c != '}',
        CharClass::NotSlash => c != '/',
        CharClass::NotColon => c != ':',
        CharClass::NotCommaBar => c != ',' && c != '|',
    }
}

/// Length of the longest prefix of `s` whose characters all lie in `cls`.
pub open spec fn run_len(s: Seq<char>, cls: CharClass) -> nat
    decreases s.len(),
{
    if s.len() > 0 && char_in_class(s[0], cls) {
        (1 + run_len(s.skip(1), cls)) as nat
    } else {
        0
    }
}

/// What `run_len` returns: a bounded run of in-class characters that is
/// either the whole input or is stopped by an out-of-class character.
pub proof fn lemma_run_len(s: Seq<char>, cls: CharClass)
    ensures
        run_len(s, cls) <= s.len(),
        forall|i: int| 0 <= i < run_len(s, cls) ==> char_in_class(s[i], cls),
        run_len(s, cls) < s.len() ==> !char_in_class(s[run_len(s, cls) as int], cls),
    decreases s.len(),
{
    if s.len() > 0 && char_in_class(s[0], cls) {
        lemma_run_len(s.skip(1), cls);
        assert forall|i: int| 0 <= i < run_len(s, cls) implies char_in_class(s[i], cls) by {
            if i >= 1 {
                assert(s.skip(1)[i - 1] == s[i]);
            }
        }
        if run_len(s, cls) < s.len() {
            assert(s.skip(1)[run_len(s, cls) - 1] == s[run_len(s, cls) as int]);
        }
    }
}

/// Any bounded run of in-class characters stopped by an out-of-class
/// character (or by the end of the input) is the `run_len` run.
pub proof fn lemma_run_len_is(s: Seq<char>, cls: CharClass, n: int)
    requires
        0 <= n <= s.len(),
        forall|i: int| 0 <= i < n ==> char_in_class(s[i], cls),
        n < s.len() ==> !char_in_class(s[n], cls),
    ensures
        run_len(s, cls) == n,
    decreases s.len(),
{
    if s.len() > 0 && char_in_class(s[0], cls) {
        assert(n >= 1);
        assert forall|i: int| 0 <= i < n - 1 implies char_in_class(s.skip(1)[i], cls) by {
            assert(s.skip(1)[i] == s[i + 1]);
        }
        if n - 1 < s.skip(1).len() {
            assert(s.skip(1)[n - 1] == s[n]);
        }
        lemma_run_len_is(s.skip(1), cls, n - 1);
    } else {
        assert(n == 0);
    }
}

/// Skipping `a` characters and then `b` more skips `a + b`.
pub proof fn lemma_skip_skip(s: Seq<char>, a: int, b: int)
    requires
        0 <= a,
        0 <= b,
        a + b <= s.len(),
    ensures
        s.skip(a).skip(b) == s.skip(a + b),
{
    assert(s.skip(a).skip(b) =~= s.skip(a + b));
}

/// Taking `t` characters of the suffix at `a` is the span from `a` to `a + t`.
pub proof fn lemma_skip_take(s: Seq<char>, a: int, t: int)
    requires
        0 <= a,
        0 <= t,
        a + t <= s.len(),
    ensures
        s.skip(a).take(t) == s.subrange(a, a + t),
{
    assert(s.skip(a).take(t) =~= s.subrange(a, a + t));
}

/// Whether `c` lies in `cls`.
pub fn char_matches(c: char, cls: CharClass) -> (b: bool)
    ensures
        b == char_in_class(c, cls),
{
    match cls {
        CharClass::Digit => '0' as u32 <= c as u32 && c as u32 <= '9' as u32,
        CharClass::IdentTail => c == '_' || ('a' as u32 <= c as u32 && c as u32 <= 'z' as u32) || (
        'A' as u32 <= c as u32 && c as u32 <= 'Z' as u32) || ('0' as u32 <= c as u32 && c as u32
            <= '9' as u32),
        CharClass::NotDollar => c != '$',
        CharClass::NotBrace => c != '}',
        CharClass::NotSlash => c != '/',
        CharClass::NotColon => c != ':',
        CharClass::NotCommaBar => c != ',' && c != '|',
    }
}

/// Whether `c` can start an identifier.
pub fn ident_start_matches(c: char) -> (b: bool)
    ensures
        b == is_ident_start_char(c),
{
    c == '_' || ('a' as u32 <= c as u32 && c as u32 <= 'z' as u32) || ('A' as u32 <= c as u32
        && c as u32 <= 'Z' as u32)
}

/// The length of the longest prefix of `s` inside `cls`.
pub fn class_len(s: &str, cls: CharClass) -> (n: usize)
    ensures
        n == run_len(s@, cls),
        n <= s@.len(),
{
    let len: usize = s.unicode_len();
    let mut i: usize = 0;
    while i < len && char_matches(s.get_char(i), cls)
        invariant
            i <= len,
            len == s@.len(),
            forall|k: int| 0 <= k < i ==> char_in_class(s@[k], cls),
        decreases len - i,
    {
        i = i + 1;
    }
    proof {
        lemma_run_len_is(s@, cls, i as int);
    }
    i
}

/// The numeric value of a run of decimal digits, most significant first.
pub open spec fn digits_val(ds: Seq<char>) -> nat
    decreases ds.len(),
{
    if ds.len() == 0 {
        0
    } else {
        digits_val(ds.drop_last()) * 10 + digit_char_val(ds.last())
    }
}

pub open spec fn digit_char_val(c: char) -> nat {
    if is_digit_char(c) {
        (c as u32 - '0' as u32) as nat
    } else {
        0
    }
}

/// A digit run is worth at least as much as any of its prefixes.
pub proof fn lemma_digits_val_prefix(ds: Seq<char>, i: int)
    requires
        0 <= i <= ds.len(),
    ensures
        digits_val(ds.take(i)) <= digits_val(ds),
    decreases ds.len(),
{
    if i < ds.len() {
        assert(ds.drop_last().take(i) =~= ds.take(i));
        lemma_digits_val_prefix(ds.drop_last(), i);
    } else {
        assert(ds.take(i) =~= ds);
    }
}

/// The exec digit of a digit character.
pub fn digit_of_char(c: char) -> (d: u32)
    requires
        is_digit_char(c),
    ensures
        d == digit_char_val(c),
        d <= 9,
{
    c as u32 - '0' as u32
}

} // verus!
