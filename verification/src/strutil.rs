use vstd::prelude::*;

verus! {

/// Relies on `str::chars` and `Iterator::collect`: the characters of a
/// string slice, in order, as a vector.
#[verifier::external_body]
pub(crate) fn chars_of(s: &str) -> (r: Vec<char>)
    ensures
        r@ == s@,
{
    s.chars().collect()
}

/// Relies on `FromIterator<char> for String`: building a string back from
/// its characters, in order.
#[verifier::external_body]
pub(crate) fn string_from_chars(v: &Vec<char>) -> (r: String)
    ensures
        r@ == v@,
{
    v.iter().collect()
}

/// What `char::is_alphabetic` returns; a single Unicode character class
/// lookup, depending on the character alone.
pub uninterp spec fn unicode_alpha(c: char) -> bool;

/// What `char::is_alphanumeric` returns; a single Unicode character class
/// lookup, depending on the character alone.
pub uninterp spec fn unicode_alnum(c: char) -> bool;

/// Relies on `char::is_alphabetic`. On ASCII it holds exactly of letters.
#[verifier::external_body]
pub(crate) fn char_is_alphabetic(c: char) -> (r: bool)
    ensures
        r == unicode_alpha(c),
        ('a' as u32 <= c as u32 <= 'z' as u32) || ('A' as u32 <= c as u32 <= 'Z' as u32)
            ==> r,
        (c as u32) < 128 && !(('a' as u32 <= c as u32 <= 'z' as u32) || ('A' as u32 <= c
            as u32 <= 'Z' as u32)) ==> !r,
{
    c.is_alphabetic()
}

/// Relies on `char::is_alphanumeric`. On ASCII it holds exactly of letters
/// and digits.
#[verifier::external_body]
pub(crate) fn char_is_alphanumeric(c: char) -> (r: bool)
    ensures
        r == unicode_alnum(c),
        ('a' as u32 <= c as u32 <= 'z' as u32) || ('A' as u32 <= c as u32 <= 'Z' as u32)
            || ('0' as u32 <= c as u32 <= '9' as u32) ==> r,
        (c as u32) < 128 && !(('a' as u32 <= c as u32 <= 'z' as u32) || ('A' as u32 <= c
            as u32 <= 'Z' as u32) || ('0' as u32 <= c as u32 <= '9' as u32)) ==> !r,
{
    c.is_alphanumeric()
}

/// The decimal digit character for `d`, which must be below ten.
pub open spec fn digit_char(d: nat) -> char {
    if d == 0 {
        '0'
    } else if d == 1 {
        '1'
    } else if d == 2 {
        '2'
    } else if d == 3 {
        '3'
    } else if d == 4 {
        '4'
    } else if d == 5 {
        '5'
    } else if d == 6 {
        '6'
    } else if d == 7 {
        '7'
    } else if d == 8 {
        '8'
    } else {
        '9'
    }
}

/// The decimal rendering of a natural number, most significant digit first.
pub open spec fn dec_of(n: nat) -> Seq<char>
    decreases n,
{
    if n < 10 {
        seq![digit_char(n)]
    } else {
        dec_of(n / 10).push(digit_char(n % 10))
    }
}

fn push_dec_digit(n: usize, out: &mut Vec<char>)
    requires
        n < 10,
    ensures
        final(out)@ == old(out)@.push(digit_char(n as nat)),
{
    let c: char = if n == 0 {
        '0'
    } else if n == 1 {
        '1'
    } else if n == 2 {
        '2'
    } else if n == 3 {
        '3'
    } else if n == 4 {
        '4'
    } else if n == 5 {
        '5'
    } else if n == 6 {
        '6'
    } else if n == 7 {
        '7'
    } else if n == 8 {
        '8'
    } else {
        '9'
    };
    out.push(c);
}

/// Appends the decimal rendering of `n` to `out`.
pub(crate) fn push_dec(n: usize, out: &mut Vec<char>)
    ensures
        final(out)@ == old(out)@ + dec_of(n as nat),
    decreases n,
{
    if n < 10 {
        push_dec_digit(n, out);
        assert(out@ =~= old(out)@ + dec_of(n as nat));
    } else {
        push_dec(n / 10, out);
        push_dec_digit(n % 10, out);
        assert(out@ =~= old(out)@ + dec_of(n as nat));
    }
}

/// Whether two string slices spell the same text.
pub(crate) fn str_eq(a: &str, b: &str) -> (r: bool)
    ensures
        r == (a@ == b@),
{
    let n = a.unicode_len();
    if n != b.unicode_len() {
        assert(a@.len() != b@.len());
        assert(a@ != b@);
        return false;
    }
    let mut i: usize = 0;
    while i < n
        invariant
            i <= n,
            n == a@.len(),
            n == b@.len(),
            forall|j: int| 0 <= j < i ==> a@[j] == b@[j],
        decreases n - i,
    {
        if a.get_char(i) != b.get_char(i) {
            assert(a@[i as int] != b@[i as int]);
            assert(a@ != b@);
            return false;
        }
        i += 1;
    }
    assert(a@ =~= b@);
    true
}

/// Whether a string slice and a character vector spell the same text.
pub(crate) fn str_eq_chars(s: &str, v: &Vec<char>) -> (r: bool)
    ensures
        r == (s@ == v@),
{
    let n = s.unicode_len();
    if n != v.len() {
        assert(s@.len() != v@.len());
        assert(s@ != v@);
        return false;
    }
    let mut i: usize = 0;
    while i < n
        invariant
            i <= n,
            n == s@.len(),
            n == v@.len(),
            forall|j: int| 0 <= j < i ==> s@[j] == v@[j],
        decreases n - i,
    {
        if s.get_char(i) != v[i] {
            assert(s@[i as int] != v@[i as int]);
            assert(s@ != v@);
            return false;
        }
        i += 1;
    }
    assert(s@ =~= v@);
    true
}

} // verus!
