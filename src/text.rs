//! Character-level helpers: decimal digits and building text from pieces.
use vstd::prelude::*;

verus! {

/// An ASCII decimal digit.
pub open spec fn is_digit(c: char) -> bool {
    '0' <= c && c <= '9'
}

/// The value of an ASCII decimal digit.
pub open spec fn digit_value(c: char) -> nat
    recommends
        is_digit(c),
{
    (c as nat - '0' as nat) as nat
}

/// The ASCII digit whose value is `d`.
pub open spec fn digit_char(d: nat) -> char
    recommends
        d < 10,
{
    ((d + '0' as nat) as u8) as char
}

/// Every character of `s` is a decimal digit.
pub open spec fn all_digits(s: Seq<char>) -> bool {
    forall|i: int| 0 <= i < s.len() ==> is_digit(#[trigger] s[i])
}

/// The number that the digits of `s` spell, most significant first.
pub open spec fn digits_value(s: Seq<char>) -> nat
    decreases s.len(),
{
    if s.len() == 0 {
        0
    } else {
        digits_value(s.drop_last()) * 10 + digit_value(s.last())
    }
}

/// The decimal notation of `n`, without leading zeros.
pub open spec fn decimal_text(n: nat) -> Seq<char>
    decreases n,
{
    if n < 10 {
        seq![digit_char(n)]
    } else {
        decimal_text(n / 10).push(digit_char(n % 10))
    }
}

/// The decimal notation of `n`.
pub fn decimal(n: u8) -> (r: Vec<char>)
    ensures
        r@ == decimal_text(n as nat),
{
    let mut r: Vec<char> = Vec::new();
    if n >= 100 {
        r.push(((n / 100) + 48) as char);
    }
    if n >= 10 {
        r.push((((n / 10) % 10) + 48) as char);
    }
    r.push(((n % 10) + 48) as char);
    proof {
        let v = n as nat;
        if v >= 100 {
            assert(decimal_text(v / 100) == seq![digit_char(v / 100)]);
            assert(decimal_text(v / 10) == decimal_text(v / 100).push(digit_char((v / 10) % 10)));
        } else if v >= 10 {
            assert(decimal_text(v / 10) == seq![digit_char(v / 10)]);
        }
        assert(r@ =~= decimal_text(v));
    }
    r
}

/// Appends the characters of `s` to `out`.
pub fn push_text(out: &mut Vec<char>, s: &str)
    ensures
        final(out)@ == old(out)@ + s@,
{
    let n = s.unicode_len();
    let mut i: usize = 0;
    while i < n
        invariant
            n == s@.len(),
            i <= n,
            out@ == old(out)@ + s@.take(i as int),
        decreases n - i,
    {
        let c = s.get_char(i);
        out.push(c);
        i = i + 1;
        assert(s@.take(i as int) =~= s@.take(i - 1).push(c));
    }
    assert(s@.take(n as int) =~= s@);
}

/// Appends the characters `s` to `out`.
pub fn push_chars(out: &mut Vec<char>, s: &Vec<char>)
    ensures
        final(out)@ == old(out)@ + s@,
{
    let mut i: usize = 0;
    while i < s.len()
        invariant
            i <= s@.len(),
            out@ == old(out)@ + s@.take(i as int),
        decreases s.len() - i,
    {
        out.push(s[i]);
        i = i + 1;
        assert(s@.take(i as int) =~= s@.take(i - 1).push(s@[i - 1]));
    }
    assert(s@.take(i as int) =~= s@);
}

/// Relies on `String::from_iter` over characters: the string holds the
/// characters in the order given.
#[verifier::external_body]
pub(crate) fn string_from_chars(v: &Vec<char>) -> (r: String)
    ensures
        r@ == v@,
{
    String::from_iter(v.iter())
}

} // verus!
