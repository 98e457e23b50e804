//! Names of the generated bindings.
//!
//! The buffer-building expansions bind every piece to a fresh variable so
//! that each expression is evaluated exactly once.  The string macros name
//! those bindings `v0`, `v1`, ...; the fast variant names them `_0`, `_1`,
//! ....  The decimal rendering is verified against [`dec_rep`].

use vstd::prelude::*;

use crate::strbuild::push_char;

verus! {

/// The character for one decimal digit.
pub open spec fn digit_char(d: nat) -> char {
    if d == 0 {
        '0'
    } else if d == 1 {
        '1'
    } else if d == 2 {
        '2'
    } else if d == 3 {
        '3'
    } else if d == 4 {
        '4'
    } else if d == 5 {
        '5'
    } else if d == 6 {
        '6'
    } else if d == 7 {
        '7'
    } else if d == 8 {
        '8'
    } else {
        '9'
    }
}

/// The decimal representation of `n`, most significant digit first, with no
/// leading zeros (except for `n == 0` itself).
pub open spec fn dec_rep(n: nat) -> Seq<char>
    decreases n,
{
    if n < 10 {
        seq![digit_char(n)]
    } else {
        dec_rep(n / 10) + seq![digit_char(n % 10)]
    }
}

/// One decimal digit as a character.
fn digit_of(d: u64) -> (c: char)
    requires
        d < 10,
    ensures
        c == digit_char(d as nat),
{
    match d {
        0 => '0',
        1 => '1',
        2 => '2',
        3 => '3',
        4 => '4',
        5 => '5',
        6 => '6',
        7 => '7',
        8 => '8',
        _ => '9',
    }
}

/// Appends the decimal representation of `n` to `out`.
fn push_dec(n: u64, out: &mut String)
    ensures
        final(out)@ == old(out)@ + dec_rep(n as nat),
    decreases n,
{
    if n < 10 {
        push_char(out, digit_of(n));
        assert(final(out)@ =~= old(out)@ + dec_rep(n as nat));
    } else {
        push_dec(n / 10, out);
        push_char(out, digit_of(n % 10));
        assert(final(out)@ =~= old(out)@ + dec_rep(n as nat));
    }
}

/// The name of the `k`-th binding of the string and path expansions:
/// `v` followed by `k` in decimal.
pub fn get_var_ident(k: usize) -> (r: String)
    ensures
        r@ == seq!['v'] + dec_rep(k as nat),
{
    let mut r = String::new();
    push_char(&mut r, 'v');
    push_dec(k as u64, &mut r);
    assert(r@ =~= seq!['v'] + dec_rep(k as nat));
    r
}

/// The name of the `k`-th binding of the fast expansion: `_` followed by
/// `k` in decimal.
pub fn fast_var_ident(k: usize) -> (r: String)
    ensures
        r@ == seq!['_'] + dec_rep(k as nat),
{
    let mut r = String::new();
    push_char(&mut r, '_');
    push_dec(k as u64, &mut r);
    assert(r@ =~= seq!['_'] + dec_rep(k as nat));
    r
}

} // verus!
