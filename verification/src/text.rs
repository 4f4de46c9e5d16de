//! Verified construction of short human-readable strings: appending and
//! exact decimal rendering of integers.

use vstd::prelude::*;

verus! {

/// Relies on String::push: it appends exactly the one given character.
#[verifier::external_body]
pub fn push_char(s: &mut String, c: char)
    ensures
        final(s)@ == old(s)@ + seq![c],
{
    s.push(c);
}

/// Relies on String::push_str: it appends exactly the given slice's
/// characters.
#[verifier::external_body]
pub fn push_str(s: &mut String, t: &str)
    ensures
        final(s)@ == old(s)@ + t@,
{
    s.push_str(t);
}

/// The character of one decimal digit.
pub open spec fn dec_digit(d: int) -> char {
    ((48 + d) as u8) as char
}

/// The decimal rendering of a non-negative integer, most significant
/// digit first, with no sign and no leading zero except for zero itself.
pub open spec fn dec_str(n: nat) -> Seq<char>
    decreases n,
{
    if n < 10 {
        seq![dec_digit(n as int)]
    } else {
        dec_str(n / 10) + seq![dec_digit((n % 10) as int)]
    }
}

/// The decimal rendering of a signed integer: a leading minus sign for
/// negative values.
pub open spec fn int_str(n: int) -> Seq<char> {
    if n < 0 {
        seq!['-'] + dec_str((-n) as nat)
    } else {
        dec_str(n as nat)
    }
}

/// Renders an unsigned integer in decimal.
pub fn u64_dec(n: u64) -> (r: String)
    ensures
        r@ == dec_str(n as nat),
{
    let mut digits: Vec<char> = Vec::new();
    let mut m: u64 = n;
    loop
        invariant_except_break
            dec_str(n as nat) == dec_str(m as nat) + digits@.reverse(),
        ensures
            dec_str(n as nat) == digits@.reverse(),
        decreases m,
    {
        let d: u8 = (m % 10) as u8;
        let c: char = (48 + d) as char;
        proof {
            let ghost rev0 = digits@.reverse();
            assert(digits@.push(c).reverse() =~= seq![c] + rev0);
            if m >= 10 {
                assert(dec_str(m as nat) == dec_str((m as nat) / 10) + seq![c]);
                assert((dec_str((m / 10) as nat) + seq![c]) + rev0 =~= dec_str((m / 10) as nat) + (
                seq![c] + rev0));
            } else {
                assert(dec_str(m as nat) == seq![c]);
                assert(seq![c] + rev0 =~= dec_str(m as nat) + rev0);
            }
        }
        digits.push(c);
        if m < 10 {
            break ;
        }
        m = m / 10;
    }
    let mut out = String::new();
    let mut k: usize = digits.len();
    proof {
        assert(out@ =~= digits@.reverse().take(0));
    }
    while k > 0
        invariant
            k <= digits@.len(),
            dec_str(n as nat) == digits@.reverse(),
            out@ == digits@.reverse().take(digits@.len() - k),
        decreases k,
    {
        k = k - 1;
        push_char(&mut out, digits[k]);
        proof {
            assert(digits@.reverse().take(digits@.len() - k) =~= digits@.reverse().take(
                digits@.len() - k - 1,
            ) + seq![digits@[k as int]]);
        }
    }
    proof {
        assert(digits@.reverse().take(digits@.len() as int) =~= digits@.reverse());
    }
    out
}

/// Renders a signed integer in decimal, minus sign included.
pub fn i64_dec(n: i64) -> (r: String)
    ensures
        r@ == int_str(n as int),
{
    if n >= 0 {
        let r = u64_dec(n as u64);
        proof {
            assert(n as u64 as nat == n as nat);
        }
        r
    } else {
        let mut out = String::new();
        push_char(&mut out, '-');
        let mag: u64 = (-(n as i128)) as u64;
        proof {
            assert(mag as nat == (-(n as int)) as nat);
        }
        let tail = u64_dec(mag);
        push_str(&mut out, tail.as_str());
        proof {
            assert((Seq::<char>::empty() + seq!['-']) + dec_str(mag as nat) =~= seq!['-']
                + dec_str((-(n as int)) as nat));
        }
        out
    }
}

} // verus!
