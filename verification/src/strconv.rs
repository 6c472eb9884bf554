use vstd::prelude::*;

use crate::text::push_char;

verus! {

/// The decimal digit character for `d` (expects `d < 10`).
pub open spec fn digit_char(d: u64) -> char
    recommends
        d < 10,
{
    if d == 0 {
        '0'
    } else if d == 1 {
        '1'
    } else if d == 2 {
        '2'
    } else if d == 3 {
        '3'
    } else if d == 4 {
        '4'
    } else if d == 5 {
        '5'
    } else if d == 6 {
        '6'
    } else if d == 7 {
        '7'
    } else if d == 8 {
        '8'
    } else {
        '9'
    }
}

/// The decimal digit string of `n`, most significant digit first,
/// without leading zeros (except for `n == 0` itself).
pub open spec fn u64_digits(n: u64) -> Seq<char>
    decreases n,
{
    if n < 10 {
        seq![digit_char(n)]
    } else {
        u64_digits(n / 10).push(digit_char(n % 10))
    }
}

fn digit_to_char(d: u64) -> (c: char)
    requires
        d < 10,
    ensures
        c == digit_char(d),
{
    if d == 0 {
        '0'
    } else if d == 1 {
        '1'
    } else if d == 2 {
        '2'
    } else if d == 3 {
        '3'
    } else if d == 4 {
        '4'
    } else if d == 5 {
        '5'
    } else if d == 6 {
        '6'
    } else if d == 7 {
        '7'
    } else if d == 8 {
        '8'
    } else {
        '9'
    }
}

fn append_digits(n: u64, out: &mut String)
    ensures
        final(out)@ == old(out)@ + u64_digits(n),
    decreases n,
{
    if n < 10 {
        push_char(out, digit_to_char(n));
        proof {
            assert(final(out)@ =~= old(out)@ + u64_digits(n));
        }
    } else {
        let ghost pre = out@;
        append_digits(n / 10, out);
        push_char(out, digit_to_char(n % 10));
        proof {
            assert((pre + u64_digits(n / 10)).push(digit_char(n % 10)) =~= pre + u64_digits(n));
        }
    }
}

/// Renders `n` in decimal.
pub fn u64_to_string(n: u64) -> (r: String)
    ensures
        r@ == u64_digits(n),
{
    let mut s = String::new();
    append_digits(n, &mut s);
    proof {
        assert(Seq::<char>::empty() + u64_digits(n) =~= u64_digits(n));
    }
    s
}

} // verus!
