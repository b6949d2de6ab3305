//! Decimal numerals and first-letter capitalisation, the two pieces of text
//! that are computed rather than copied.
//!
//! The upper-case form of a character is taken from the standard library.

use vstd::prelude::*;
use vstd::string::*;

verus! {

/// The character that stands for the digit `d`.
pub open spec fn digit(d: nat) -> char
    recommends
        d < 10,
{
    ('0' as u8 + d) as char
}

/// The decimal numeral of `n`: most significant digit first, no leading zero.
pub open spec fn decimal(n: nat) -> Seq<char>
    decreases n,
{
    if n < 10 {
        seq![digit(n)]
    } else {
        decimal(n / 10).push(digit(n % 10))
    }
}

/// The number that the numeral `s` stands for, read digit by digit.
pub open spec fn numeral_value(s: Seq<char>) -> nat
    decreases s.len(),
{
    if s.len() == 0 {
        0
    } else {
        (numeral_value(s.drop_last()) * 10 + (s.last() as int - '0' as int)) as nat
    }
}

/// The numeral of a number is made of digits only, and of one digit at
/// least.
pub proof fn lemma_decimal_is_digits(n: nat)
    ensures
        decimal(n).len() > 0,
        forall|i: int| 0 <= i < decimal(n).len() ==> '0' <= #[trigger] decimal(n)[i] <= '9',
    decreases n,
{
    if n >= 10 {
        lemma_decimal_is_digits(n / 10);
    }
}

/// The numeral of a number stands for that number.
pub proof fn lemma_decimal_value(n: nat)
    ensures
        numeral_value(decimal(n)) == n,
    decreases n,
{
    if n < 10 {
        assert(decimal(n).drop_last() =~= Seq::<char>::empty());
        assert(numeral_value(decimal(n).drop_last()) == 0);
    } else {
        lemma_decimal_value(n / 10);
        assert(decimal(n).drop_last() =~= decimal(n / 10));
    }
}

/// Different numbers have different numerals.
pub proof fn lemma_decimal_injective(a: nat, b: nat)
    requires
        decimal(a) == decimal(b),
    ensures
        a == b,
{
    lemma_decimal_value(a);
    lemma_decimal_value(b);
}

/// Appends the numeral of the single digit `d`.
fn push_digit(out: &mut String, d: u64)
    requires
        d < 10,
    ensures
        final(out)@ == old(out)@.push(digit(d as nat)),
{
    let digits = "0123456789";
    proof {
        reveal_strlit("0123456789");
    }
    let d: usize = d as usize;
    let one = digits.substring_char(d, d + 1);
    assert(one@ =~= seq![digit(d as nat)]);
    out.append(one);
    assert(out@ =~= old(out)@.push(digit(d as nat)));
}

/// Appends the decimal numeral of `n` to `out`.
pub fn push_decimal(out: &mut String, n: u64)
    ensures
        final(out)@ == old(out)@ + decimal(n as nat),
    decreases n,
{
    if n < 10 {
        push_digit(out, n);
    } else {
        push_decimal(out, n / 10);
        push_digit(out, n % 10);
    }
}

/// The upper-case form of the character `c`, as the standard library gives
/// it: one character for most characters, two or three for a few.
pub uninterp spec fn upper_case(c: char) -> Seq<char>;

/// `s` with `head` in the place of its first character.
pub open spec fn with_head(s: Seq<char>, head: Seq<char>) -> Seq<char> {
    if s.len() == 0 {
        s
    } else {
        head + s.subrange(1, s.len() as int)
    }
}

/// `s` with its first character replaced by its upper-case form.
pub open spec fn capitalize(s: Seq<char>) -> Seq<char> {
    if s.len() == 0 {
        s
    } else {
        with_head(s, upper_case(s[0]))
    }
}

/// The upper-case form of `c`, by `char::to_uppercase` of the standard
/// library.
///
/// Not proved: that the characters which `to_uppercase` hands out depend on
/// `c` alone, which is all that naming them `upper_case(c)` claims. The
/// mapping is the one of the Unicode character database, without regard to
/// locale or context.
#[verifier::external_body]
fn to_upper_case(c: char) -> (upper: String)
    ensures
        upper@ == upper_case(c),
{
    c.to_uppercase().collect()
}

/// Appends `s` to `out` with `head` in the place of its first character.
pub fn push_with_head(out: &mut String, s: &str, head: &str)
    ensures
        final(out)@ == old(out)@ + with_head(s@, head@),
{
    let n = s.unicode_len();
    if n == 0 {
        assert(out@ =~= old(out)@ + with_head(s@, head@));
    } else {
        out.append(head);
        out.append(s.substring_char(1, n));
        assert(out@ =~= old(out)@ + with_head(s@, head@));
    }
}

/// Appends `s` to `out` with its first character in upper case.
pub fn push_capitalized(out: &mut String, s: &str)
    ensures
        final(out)@ == old(out)@ + capitalize(s@),
{
    if s.unicode_len() == 0 {
        assert(out@ =~= old(out)@ + capitalize(s@));
    } else {
        let upper = to_upper_case(s.get_char(0));
        push_with_head(out, s, upper.as_str());
    }
}

/// Whether `a` and `b` hold the same characters.
pub fn str_equal(a: &str, b: &str) -> (same: bool)
    ensures
        same == (a@ == b@),
{
    let n = a.unicode_len();
    if n != b.unicode_len() {
        return false;
    }
    let mut i: usize = 0;
    while i < n
        invariant
            i <= n,
            n == a@.len(),
            n == b@.len(),
            forall|j: int| 0 <= j < i ==> a@[j] == b@[j],
        decreases n - i,
    {
        if a.get_char(i) != b.get_char(i) {
            return false;
        }
        i += 1;
    }
    assert(a@ =~= b@);
    true
}

} // verus!
