//! Arithmetic on machine words.
//!
//! A position in memory is a word, and stepping through memory wraps around at the end of the
//! address space. The functions here state that wrap-around over mathematical integers.

use vstd::arithmetic::div_mod::{lemma_fundamental_div_mod, lemma_mod_multiples_vanish};
use vstd::prelude::*;

verus! {

/// The number of distinct machine words.
pub open spec fn word() -> int {
    usize::MAX as int + 1
}

/// The word that `x` wraps around to.
pub open spec fn wrap(x: int) -> int {
    x % word()
}

/// The signed word that `x` wraps around to.
pub open spec fn signed(x: int) -> int {
    if wrap(x) > isize::MAX as int {
        wrap(x) - word()
    } else {
        wrap(x)
    }
}

/// Integers that differ by a multiple of the word count wrap around to the same word.
pub proof fn lemma_wrap_multiple(x: int, k: int)
    ensures
        wrap(x + word() * k) == wrap(x),
{
    lemma_mod_multiples_vanish(k, x, word());
    assert(x + word() * k == word() * k + x);
}

/// Every integer is its wrapped word plus a multiple of the word count.
pub proof fn lemma_wrap_split(x: int) -> (k: int)
    ensures
        x == wrap(x) + word() * k,
        0 <= wrap(x) < word(),
{
    lemma_fundamental_div_mod(x, word());
    x / word()
}

/// Integers that wrap around to the same word differ by a multiple of the word count.
pub proof fn lemma_wrap_difference(x: int, y: int) -> (k: int)
    requires
        wrap(x) == wrap(y),
    ensures
        x == y + word() * k,
{
    let a = lemma_wrap_split(x);
    let b = lemma_wrap_split(y);
    assert(word() * a - word() * b == word() * (a - b)) by (nonlinear_arith);
    a - b
}

/// A word wraps around to itself, and so does what `signed` makes of an integer.
pub proof fn lemma_wrap_stable(x: int)
    ensures
        wrap(wrap(x)) == wrap(x),
        wrap(signed(x)) == wrap(x),
        0 <= x < word() ==> wrap(x) == x,
        isize::MIN <= x <= isize::MAX ==> signed(x) == x,
        isize::MIN <= signed(x) <= isize::MAX,
{
    let k = lemma_wrap_split(x);
    lemma_wrap_multiple(wrap(x), 0);
    lemma_wrap_multiple(wrap(x), -1);
    if 0 <= x < word() {
        vstd::arithmetic::div_mod::lemma_small_mod(x as nat, word() as nat);
    }
    if isize::MIN <= x < 0 {
        lemma_wrap_multiple(x, 1);
        vstd::arithmetic::div_mod::lemma_small_mod((x + word()) as nat, word() as nat);
    }
    vstd::arithmetic::div_mod::lemma_small_mod(wrap(x) as nat, word() as nat);
}

/// Where each part of an address wraps around to the same word, the addresses do.
pub proof fn lemma_wrap_affine(p: int, r: int, c: int, q: int, s: int, d: int, i: int, j: int)
    requires
        wrap(p) == wrap(q),
        wrap(r) == wrap(s),
        wrap(c) == wrap(d),
    ensures
        wrap(p + i * r + j * c) == wrap(q + i * s + j * d),
{
    let x = lemma_wrap_difference(p, q);
    let y = lemma_wrap_difference(r, s);
    let z = lemma_wrap_difference(c, d);
    let w = word();
    assert(p + i * r + j * c == q + i * s + j * d + w * (x + i * y + j * z)) by (nonlinear_arith)
        requires
            p == q + w * x,
            r == s + w * y,
            c == d + w * z,
    ;
    lemma_wrap_multiple(q + i * s + j * d, x + i * y + j * z);
}

/// The word that holds the two's complement of `s`.
pub fn unsigned_word(s: isize) -> (r: usize)
    ensures
        r == wrap(s as int),
{
    proof {
        lemma_wrap_stable(s as int);
        lemma_wrap_multiple(s as int, 1);
        lemma_wrap_stable(s as int + word());
    }
    if s >= 0 {
        s as usize
    } else {
        let t: isize = -(s + 1);
        usize::MAX - t as usize
    }
}

/// The signed number whose two's complement is `u`.
pub fn signed_word(u: usize) -> (r: isize)
    ensures
        r == signed(u as int),
{
    proof {
        lemma_wrap_stable(u as int);
    }
    if u <= isize::MAX as usize {
        u as isize
    } else {
        let t: isize = (usize::MAX - u) as isize;
        -t - 1
    }
}

/// The position `count` strides away from `pos`.
pub fn stride_from(pos: usize, count: usize, stride: isize) -> (r: usize)
    ensures
        r == wrap(pos + count * stride),
{
    let s = unsigned_word(stride);
    let m = count.wrapping_mul(s);
    let r = pos.wrapping_add(m);
    proof {
        lemma_wrap_stable(stride as int);
        lemma_wrap_affine(pos as int, s as int, 0, pos as int, stride as int, 0, count as int, 0);
        lemma_wrap_stable(count * s);
        assert(m == wrap(count * s));
        lemma_wrap_affine(pos as int, m as int, 0, pos as int, count * s, 0, 1, 0);
        lemma_wrap_multiple(pos + m, -1);
        lemma_wrap_stable(pos + m);
        lemma_wrap_stable(pos + m - word());
    }
    r
}

/// The sum of two strides.
pub fn add_words(a: isize, b: isize) -> (r: isize)
    ensures
        r == signed(a + b),
{
    proof {
        lemma_wrap_stable(a + b);
        lemma_wrap_multiple(a + b, 1);
        lemma_wrap_multiple(a + b, -1);
        lemma_wrap_stable(a + b - word());
        lemma_wrap_stable(a + b + word());
    }
    a.wrapping_add(b)
}

/// The stride in the opposite direction.
pub fn negate_word(a: isize) -> (r: isize)
    ensures
        r == signed(-a),
{
    proof {
        lemma_wrap_stable(-a);
        lemma_wrap_multiple(-a, -1);
        lemma_wrap_stable(-a - word());
    }
    if a == isize::MIN {
        a
    } else {
        -a
    }
}

/// The stride over cells that are half as large.
pub fn double_word(a: isize) -> (r: isize)
    ensures
        r == signed(2 * a),
{
    add_words(a, a)
}

}
