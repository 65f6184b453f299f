//! Arithmetic on 32-bit addresses.
//!
//! Every address in the supported address space is a `u32`, and all address
//! arithmetic is defined with two's-complement wraparound. The spec function
//! [`wrap32`] reduces an unbounded mathematical integer into the address
//! space; the executable helpers compute it for sums and differences.

use vstd::prelude::*;
use vstd::arithmetic::div_mod::{
    lemma_add_mod_noop_right, lemma_mod_add_multiples_vanish, lemma_mod_bound,
    lemma_mod_sub_multiples_vanish, lemma_small_mod, lemma_sub_mod_noop,
    lemma_sub_mod_noop_right,
};

verus! {

/// Reduce an unbounded integer into the 32-bit address space, with
/// two's-complement wraparound.
pub open spec fn wrap32(x: int) -> u32 {
    (x % 0x1_0000_0000) as u32
}

/// The value of byte `b` read as a signed 8-bit displacement.
pub open spec fn sign8(b: u8) -> int {
    if b < 0x80 {
        b as int
    } else {
        b - 0x100
    }
}

/// `wrap32` always lands inside the address space.
pub proof fn lemma_wrap32_bound(x: int)
    ensures
        0 <= x % 0x1_0000_0000 < 0x1_0000_0000,
        wrap32(x) == x % 0x1_0000_0000,
{
    lemma_mod_bound(x, 0x1_0000_0000);
}

/// A value already inside the address space is unchanged by `wrap32`.
pub proof fn lemma_wrap32_id(x: u32)
    ensures
        wrap32(x as int) == x,
{
    lemma_small_mod(x as nat, 0x1_0000_0000);
}

/// Wrapping the right summand before a wraparound addition changes nothing.
pub proof fn lemma_wrap32_add(a: int, b: int)
    ensures
        wrap32(a + wrap32(b)) == wrap32(a + b),
{
    lemma_wrap32_bound(b);
    lemma_add_mod_noop_right(a, b, 0x1_0000_0000);
}

/// Wrapping the left summand before a wraparound addition changes nothing.
pub proof fn lemma_wrap32_add_left(a: int, b: int)
    ensures
        wrap32(wrap32(a) + b) == wrap32(a + b),
{
    lemma_wrap32_bound(a);
    lemma_add_mod_noop_right(b, a, 0x1_0000_0000);
}

/// Wrapping both operands before a wraparound subtraction changes nothing.
pub proof fn lemma_wrap32_sub(a: int, b: int)
    ensures
        wrap32(wrap32(a) - wrap32(b)) == wrap32(a - b),
{
    lemma_wrap32_bound(a);
    lemma_wrap32_bound(b);
    lemma_sub_mod_noop(a, b, 0x1_0000_0000);
}

/// Wrapping the minuend before a wraparound subtraction changes nothing.
pub proof fn lemma_wrap32_sub_left(a: int, b: int)
    ensures
        wrap32(wrap32(a) - b) == wrap32(a - b),
{
    lemma_wrap32_bound(a);
    lemma_wrap32_bound(b);
    lemma_sub_mod_noop(a, b, 0x1_0000_0000);
    lemma_sub_mod_noop_right(wrap32(a) as int, b, 0x1_0000_0000);
}

/// Wrapping the subtrahend before a wraparound subtraction changes nothing.
pub proof fn lemma_wrap32_sub_right(a: int, b: int)
    ensures
        wrap32(a - wrap32(b)) == wrap32(a - b),
{
    lemma_wrap32_bound(b);
    lemma_sub_mod_noop_right(a, b, 0x1_0000_0000);
}

/// Truncate a machine word into the 32-bit address space.
pub fn to_addr32(x: usize) -> (r: u32)
    ensures
        r == wrap32(x as int),
{
    proof {
        lemma_wrap32_bound(x as int);
    }
    ((x as u64) % 0x1_0000_0000) as u32
}

/// 32-bit wraparound addition.
pub fn wrap_add32(a: u32, b: u32) -> (r: u32)
    ensures
        r == wrap32(a + b),
{
    proof {
        if a + b <= u32::MAX {
            lemma_small_mod((a + b) as nat, 0x1_0000_0000);
        } else {
            lemma_mod_sub_multiples_vanish(a + b, 0x1_0000_0000);
            lemma_small_mod((a + b - 0x1_0000_0000) as nat, 0x1_0000_0000);
        }
    }
    a.wrapping_add(b)
}

/// 32-bit wraparound subtraction.
pub fn wrap_sub32(a: u32, b: u32) -> (r: u32)
    ensures
        r == wrap32(a - b),
{
    proof {
        if a >= b {
            lemma_small_mod((a - b) as nat, 0x1_0000_0000);
        } else {
            lemma_mod_add_multiples_vanish(a - b, 0x1_0000_0000);
            lemma_small_mod((a - b + 0x1_0000_0000) as nat, 0x1_0000_0000);
        }
    }
    a.wrapping_sub(b)
}

} // verus!
