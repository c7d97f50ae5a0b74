use vstd::prelude::*;

verus! {

/// The decimal digit for `d`, which is below ten.
pub open spec fn digit_char(d: nat) -> char {
    ((d + '0' as nat) as u32) as char
}

/// The decimal digits of `n`, most significant first, without leading zeros.
pub open spec fn nat_decimal(n: nat) -> Seq<char>
    decreases n,
{
    if n < 10 {
        seq![digit_char(n)]
    } else {
        nat_decimal(n / 10).push(digit_char(n % 10))
    }
}

/// The decimal form of `n`, with a leading `-` when it is negative.
pub open spec fn int_decimal(n: int) -> Seq<char> {
    if n < 0 {
        seq!['-'] + nat_decimal((-n) as nat)
    } else {
        nat_decimal(n as nat)
    }
}

/// Relies on `String::push`: the character is appended at the end.
#[verifier::external_body]
pub(crate) fn push_char(s: &mut String, c: char)
    ensures
        final(s)@ == old(s)@.push(c),
{
    s.push(c);
}

/// Appends the decimal digits of `n` to `s`.
fn push_decimal(s: &mut String, n: u64)
    ensures
        final(s)@ == old(s)@ + nat_decimal(n as nat),
    decreases n,
{
    if n >= 10 {
        push_decimal(s, n / 10);
    }
    let d: u64 = n % 10;
    assert(d < 10);
    let c = ((d as u8) + 48u8) as char;
    assert(c == digit_char(d as nat));
    push_char(s, c);
    assert(final(s)@ =~= old(s)@ + nat_decimal(n as nat));
}

/// The decimal form of `n`.
pub fn int_to_string(n: i64) -> (r: String)
    ensures
        r@ == int_decimal(n as int),
{
    let mut s = String::new();
    if n < 0 {
        push_char(&mut s, '-');
        let m: u64 = if n == i64::MIN {
            9223372036854775808u64
        } else {
            (-n) as u64
        };
        push_decimal(&mut s, m);
    } else {
        push_decimal(&mut s, n as u64);
    }
    assert(s@ =~= int_decimal(n as int));
    s
}

} // verus!
