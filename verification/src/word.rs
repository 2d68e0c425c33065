//! 32-byte words, their big-endian integer readings, and the width
//! reductions the integer generators use.
//!
//! An integer draw starts from a full 32-byte word. For a declared width
//! `w < 256` the word is reduced modulo `2^w`, and a signed draw is then
//! recentred by subtracting `2^(w-1)` (two's complement in the full word).

use vstd::prelude::*;

use vstd::arithmetic::power2::{lemma_pow2_adds, lemma_pow2_pos, lemma2_to64, pow2};
use vstd::arithmetic::div_mod::{
    lemma_fundamental_div_mod,
    lemma_mod_multiples_vanish,
    lemma_small_mod,
};

verus! {

/// The unsigned big-endian reading of a byte string.
pub open spec fn be_interp(b: Seq<u8>) -> nat
    decreases b.len(),
{
    if b.len() == 0 {
        0
    } else {
        (be_interp(b.drop_last()) * 256 + b.last()) as nat
    }
}

/// The signed (two's complement) reading of a byte string: the unsigned
/// reading, shifted down by the full range when the top bit is set.
pub open spec fn signed_interp(b: Seq<u8>) -> int {
    if b.len() > 0 && b[0] >= 128 {
        be_interp(b) - pow2(8 * b.len())
    } else {
        be_interp(b) as int
    }
}

/// A byte string of `n` copies of `x`.
pub open spec fn repeat_byte(x: u8, n: nat) -> Seq<u8> {
    Seq::new(n, |i: int| x)
}

pub proof fn lemma_be_interp_bound(b: Seq<u8>)
    ensures
        be_interp(b) < pow2(8 * b.len()),
    decreases b.len(),
{
    if b.len() == 0 {
        assert(pow2(0) == 1) by {
            lemma2_to64();
        }
    } else {
        let p = b.drop_last();
        lemma_be_interp_bound(p);
        lemma_pow2_adds(8 * p.len(), 8);
        assert(pow2(8) == 256) by {
            lemma2_to64();
        }
    }
}

pub proof fn lemma_be_interp_split(a: Seq<u8>, b: Seq<u8>)
    ensures
        be_interp(a + b) == be_interp(a) * pow2(8 * b.len()) + be_interp(b),
    decreases b.len(),
{
    if b.len() == 0 {
        assert(a + b =~= a);
        assert(be_interp(b) == 0);
        assert(pow2(0) == 1) by {
            lemma2_to64();
        }
        assert(pow2(8 * b.len()) == 1);
        assert(be_interp(a) * pow2(8 * b.len()) == be_interp(a));
    } else {
        let b0 = b.drop_last();
        let ab = a + b;
        assert(ab.drop_last() =~= a + b0);
        assert(ab.last() == b.last());
        assert(be_interp(ab) == be_interp(a + b0) * 256 + b.last());
        lemma_be_interp_split(a, b0);
        assert(pow2(8 * b.len()) == pow2(8 * b0.len()) * 256) by {
            lemma_pow2_adds(8 * b0.len(), 8);
            lemma2_to64();
        }
        assert((be_interp(a) * pow2(8 * b0.len()) + be_interp(b0)) * 256 == be_interp(a) * (pow2(
            8 * b0.len(),
        ) * 256) + be_interp(b0) * 256) by (nonlinear_arith);
        assert(be_interp(a) * (pow2(8 * b0.len()) * 256) == be_interp(a) * pow2(8 * b.len()));
        assert(be_interp(b) == be_interp(b0) * 256 + b.last());
        assert(be_interp(ab) == be_interp(a) * (pow2(8 * b0.len()) * 256) + be_interp(b0) * 256
            + b.last());
        assert(be_interp(a + b) == be_interp(a) * pow2(8 * b.len()) + be_interp(b));
    }
}

pub proof fn lemma_repeat_zero(n: nat)
    ensures
        be_interp(repeat_byte(0, n)) == 0,
    decreases n,
{
    if n > 0 {
        assert(repeat_byte(0, n).drop_last() =~= repeat_byte(0, (n - 1) as nat));
        lemma_repeat_zero((n - 1) as nat);
    }
}

pub proof fn lemma_repeat_ff(n: nat)
    ensures
        be_interp(repeat_byte(255, n)) == pow2(8 * n) - 1,
    decreases n,
{
    if n == 0 {
        assert(pow2(0) == 1) by {
            lemma2_to64();
        }
    } else {
        assert(repeat_byte(255, n).drop_last() =~= repeat_byte(255, (n - 1) as nat));
        assert(repeat_byte(255, n).last() == 255);
        lemma_repeat_ff((n - 1) as nat);
        lemma_pow2_adds(8 * (n - 1) as nat, 8);
        assert(pow2(8) == 256) by {
            lemma2_to64();
        }
    }
}

/// Reading the whole string splits into the first byte, scaled, plus the
/// reading of the rest.
pub proof fn lemma_be_interp_first(b: Seq<u8>)
    requires
        b.len() > 0,
    ensures
        be_interp(b) == b[0] * pow2(8 * (b.len() - 1) as nat) + be_interp(
            b.subrange(1, b.len() as int),
        ),
        be_interp(b.subrange(1, b.len() as int)) < pow2(8 * (b.len() - 1) as nat),
{
    let hd = b.subrange(0, 1);
    let tl = b.subrange(1, b.len() as int);
    assert(b =~= hd + tl);
    lemma_be_interp_split(hd, tl);
    assert(hd.drop_last() =~= Seq::<u8>::empty());
    assert(be_interp(Seq::<u8>::empty()) == 0);
    assert(be_interp(hd) == be_interp(hd.drop_last()) * 256 + hd.last());
    assert(be_interp(hd) == b[0]);
    lemma_be_interp_bound(tl);
}

/// The reading of a suffix is the reading of the whole, modulo the room the
/// suffix occupies.
pub proof fn lemma_be_interp_suffix_mod(b: Seq<u8>, k: int)
    requires
        0 <= k <= b.len(),
    ensures
        be_interp(b) % pow2(8 * (b.len() - k) as nat) == be_interp(b.subrange(k, b.len() as int)),
{
    let hi = b.subrange(0, k);
    let lo = b.subrange(k, b.len() as int);
    let m = pow2(8 * (b.len() - k) as nat);
    assert(b =~= hi + lo);
    lemma_be_interp_split(hi, lo);
    lemma_be_interp_bound(lo);
    lemma_pow2_pos(8 * (b.len() - k) as nat);
    lemma_mod_multiples_vanish(be_interp(hi) as int, be_interp(lo) as int, m as int);
    assert(m * be_interp(hi) == be_interp(hi) * m) by (nonlinear_arith);
    lemma_small_mod(be_interp(lo), m);
}

/// The reduction of a word to a declared width: the leading bytes outside
/// the width are zeroed.
pub open spec fn reduced(w: Seq<u8>, width: nat) -> Seq<u8> {
    Seq::new(32, |i: int| if i < 32 - width / 8 { 0u8 } else { w[i] })
}

pub proof fn lemma_reduced_interp(w: Seq<u8>, width: nat)
    requires
        w.len() == 32,
        width % 8 == 0,
        8 <= width <= 256,
    ensures
        reduced(w, width).len() == 32,
        be_interp(reduced(w, width)) == be_interp(w) % pow2(width),
        be_interp(reduced(w, width)) < pow2(width),
        forall|i: int| 0 <= i < 32 - width / 8 ==> reduced(w, width)[i] == 0,
{
    let k: int = 32 - width / 8;
    let r = reduced(w, width);
    assert(8 * ((32 - k) as nat) == width) by {
        lemma_fundamental_div_mod(width as int, 8);
    }
    assert(r =~= repeat_byte(0, k as nat) + w.subrange(k, 32));
    lemma_be_interp_split(repeat_byte(0, k as nat), w.subrange(k, 32));
    lemma_repeat_zero(k as nat);
    lemma_be_interp_suffix_mod(w, k);
    lemma_be_interp_bound(w.subrange(k, 32));
}

/// Recentring a width-reduced word into the signed range: subtract
/// `2^(width-1)`, wrapping modulo `2^256` (flip the value's top bit and, on
/// borrow, fill the leading bytes).
pub open spec fn recentered(w: Seq<u8>, width: nat) -> Seq<u8> {
    let k: int = 32 - width / 8;
    if w[k] >= 128 {
        w.update(k, (w[k] - 128) as u8)
    } else {
        Seq::new(
            32,
            |i: int|
                if i < k {
                    255u8
                } else if i == k {
                    (w[i] + 128) as u8
                } else {
                    w[i]
                },
        )
    }
}

pub proof fn lemma_recentered_interp(w: Seq<u8>, width: nat)
    requires
        w.len() == 32,
        width % 8 == 0,
        8 <= width <= 248,
        forall|i: int| 0 <= i < 32 - width / 8 ==> w[i] == 0,
    ensures
        recentered(w, width).len() == 32,
        signed_interp(recentered(w, width)) == be_interp(w) - pow2((width - 1) as nat),
{
    let k: int = 32 - width / 8;
    let r = recentered(w, width);
    let lo = w.subrange(k, 32);
    let half = pow2((width - 1) as nat);
    assert(8 * ((32 - k) as nat) == width) by {
        lemma_fundamental_div_mod(width as int, 8);
    }
    assert(1 <= k <= 31);
    assert(w =~= repeat_byte(0, k as nat) + lo);
    lemma_be_interp_split(repeat_byte(0, k as nat), lo);
    lemma_repeat_zero(k as nat);
    assert(be_interp(w) == be_interp(lo));
    lemma_be_interp_first(lo);
    assert(128 * pow2((width - 8) as nat) == half) by {
        assert(pow2(7) == 128) by {
            lemma2_to64();
        }
        lemma_pow2_adds(7, (width - 8) as nat);
    }
    let p = pow2((width - 8) as nat);
    assert(8 * ((lo.len() - 1) as nat) == (width - 8) as nat);
    let tailv = be_interp(lo.subrange(1, lo.len() as int));
    assert(be_interp(lo) == w[k] * p + tailv);
    if w[k] >= 128 {
        let lo2 = r.subrange(k, 32);
        assert(r =~= repeat_byte(0, k as nat) + lo2);
        lemma_be_interp_split(repeat_byte(0, k as nat), lo2);
        assert(be_interp(r) == be_interp(lo2));
        lemma_be_interp_first(lo2);
        assert(lo2.subrange(1, lo2.len() as int) =~= lo.subrange(1, lo.len() as int));
        assert(lo2[0] == w[k] - 128);
        assert(be_interp(lo2) == (w[k] - 128) * p + tailv);
        assert((w[k] - 128) * p == w[k] * p - 128 * p) by (nonlinear_arith);
        assert(be_interp(lo2) == be_interp(lo) - half);
        assert(r[0] == 0);
        assert(signed_interp(r) == be_interp(r));
    } else {
        let lo2 = r.subrange(k, 32);
        assert(r =~= repeat_byte(255, k as nat) + lo2);
        lemma_be_interp_split(repeat_byte(255, k as nat), lo2);
        lemma_repeat_ff(k as nat);
        lemma_be_interp_first(lo2);
        assert(lo2.subrange(1, lo2.len() as int) =~= lo.subrange(1, lo.len() as int));
        assert(lo2[0] == w[k] + 128);
        assert(be_interp(lo2) == (w[k] + 128) * p + tailv);
        assert((w[k] + 128) * p == w[k] * p + 128 * p) by (nonlinear_arith);
        assert(be_interp(lo2) == be_interp(lo) + half);
        assert(be_interp(r) == (pow2(8 * k as nat) - 1) * pow2(width) + be_interp(lo) + half);
        assert(pow2(8 * k as nat) * pow2(width) == pow2(256)) by {
            lemma_pow2_adds(8 * k as nat, width);
            assert(8 * k as nat + width == 256);
        }
        assert((pow2(8 * k as nat) - 1) * pow2(width) == pow2(8 * k as nat) * pow2(width) - pow2(
            width,
        )) by (nonlinear_arith);
        assert(r[0] == 255);
        lemma_be_interp_bound(r);
        assert(signed_interp(r) == be_interp(r) - pow2(256));
        assert(pow2(width) == half + half) by {
            lemma_pow2_adds((width - 1) as nat, 1);
            assert(pow2(1) == 2) by {
                lemma2_to64();
            }
        }
    }
}

/// Copy a word byte for byte.
pub fn copy_bytes(b: &Vec<u8>) -> (r: Vec<u8>)
    ensures
        r@ == b@,
{
    let mut r: Vec<u8> = Vec::new();
    let mut i: usize = 0;
    while i < b.len()
        invariant
            i <= b@.len(),
            r@.len() == i as int,
            forall|j: int| 0 <= j < i ==> r@[j] == b@[j],
        decreases b@.len() - i,
    {
        r.push(b[i]);
        i = i + 1;
    }
    proof {
        assert(r@ =~= b@);
    }
    r
}

/// Copy the trailing `n` bytes of a word.
pub fn copy_tail(b: &Vec<u8>, n: usize) -> (r: Vec<u8>)
    requires
        n <= b@.len(),
    ensures
        r@ == b@.subrange(b@.len() - n, b@.len() as int),
{
    let start = b.len() - n;
    let mut r: Vec<u8> = Vec::new();
    let mut i: usize = start;
    while i < b.len()
        invariant
            start <= i <= b@.len(),
            start == b@.len() - n,
            r@.len() == i - start,
            forall|j: int| 0 <= j < i - start ==> r@[j] == b@[start + j],
        decreases b@.len() - i,
    {
        r.push(b[i]);
        i = i + 1;
    }
    proof {
        assert(r@ =~= b@.subrange(b@.len() - n, b@.len() as int));
    }
    r
}

/// Zero the bytes of a word that lie outside the declared width.
pub fn reduce_word(word: &Vec<u8>, width: usize) -> (r: Vec<u8>)
    requires
        word@.len() == 32,
        width % 8 == 0,
        8 <= width <= 256,
    ensures
        r@ == reduced(word@, width as nat),
        r@.len() == 32,
{
    let k = 32 - width / 8;
    let mut r: Vec<u8> = Vec::new();
    let mut i: usize = 0;
    while i < 32
        invariant
            i <= 32,
            k == 32 - width / 8,
            width % 8 == 0,
            8 <= width <= 256,
            word@.len() == 32,
            r@.len() == i as int,
            forall|j: int| 0 <= j < i ==> r@[j] == (if j < k { 0u8 } else { word@[j] }),
        decreases 32 - i,
    {
        if i < k {
            r.push(0);
        } else {
            r.push(word[i]);
        }
        i = i + 1;
    }
    proof {
        assert(r@ =~= reduced(word@, width as nat));
    }
    r
}

/// Recentre a width-reduced word into the signed range by subtracting
/// `2^(width-1)` modulo `2^256`.
pub fn recenter_word(word: &Vec<u8>, width: usize) -> (r: Vec<u8>)
    requires
        word@.len() == 32,
        width % 8 == 0,
        8 <= width <= 248,
        forall|i: int| 0 <= i < 32 - width / 8 ==> word@[i] == 0,
    ensures
        r@ == recentered(word@, width as nat),
        r@.len() == 32,
{
    let k = 32 - width / 8;
    let top = word[k];
    let mut r: Vec<u8> = Vec::new();
    let mut i: usize = 0;
    if top >= 128 {
        while i < 32
            invariant
                i <= 32,
                k == 32 - width / 8,
                k < 32,
                word@.len() == 32,
                top == word@[k as int],
                top >= 128,
                r@.len() == i as int,
                forall|j: int| 0 <= j < i ==> r@[j] == (if j == k {
                    (word@[j] - 128) as u8
                } else {
                    word@[j]
                }),
            decreases 32 - i,
        {
            if i == k {
                r.push(top - 128);
            } else {
                r.push(word[i]);
            }
            i = i + 1;
        }
        proof {
            assert(r@ =~= recentered(word@, width as nat));
        }
    } else {
        while i < 32
            invariant
                i <= 32,
                k == 32 - width / 8,
                k < 32,
                word@.len() == 32,
                top == word@[k as int],
                top < 128,
                r@.len() == i as int,
                forall|j: int| 0 <= j < i ==> r@[j] == (if j < k {
                    255u8
                } else if j == k {
                    (word@[j] + 128) as u8
                } else {
                    word@[j]
                }),
            decreases 32 - i,
        {
            if i < k {
                r.push(255);
            } else if i == k {
                r.push(top + 128);
            } else {
                r.push(word[i]);
            }
            i = i + 1;
        }
        proof {
            assert(r@ =~= recentered(word@, width as nat));
        }
    }
    r
}

} // verus!

verus! {

/// The canonical big-endian encoding of `n % 2^(8*len)` in `len` bytes.
pub open spec fn encode_be(n: nat, len: nat) -> Seq<u8>
    decreases len,
{
    if len == 0 {
        Seq::empty()
    } else {
        encode_be(n / 256, (len - 1) as nat).push((n % 256) as u8)
    }
}

pub proof fn lemma_encode_be_len(n: nat, len: nat)
    ensures
        encode_be(n, len).len() == len,
    decreases len,
{
    if len > 0 {
        lemma_encode_be_len(n / 256, (len - 1) as nat);
    }
}

/// Encoding then reading gives the number back, whenever it fits.
pub proof fn lemma_encode_be_interp(n: nat, len: nat)
    requires
        n < pow2(8 * len),
    ensures
        be_interp(encode_be(n, len)) == n,
    decreases len,
{
    if len == 0 {
        assert(pow2(0) == 1) by {
            lemma2_to64();
        }
    } else {
        let p = pow2(8 * (len - 1) as nat);
        let e = encode_be(n / 256, (len - 1) as nat);
        assert(encode_be(n, len).drop_last() =~= e);
        assert(encode_be(n, len).last() == (n % 256) as u8);
        assert(pow2(8 * len) == p * 256) by {
            lemma_pow2_adds(8 * (len - 1) as nat, 8);
            lemma2_to64();
        }
        lemma_fundamental_div_mod(n as int, 256);
        if n / 256 >= p {
            assert(256 * (n / 256) >= 256 * p) by (nonlinear_arith)
                requires
                    n / 256 >= p,
            ;
            assert(false);
        }
        lemma_encode_be_interp(n / 256, (len - 1) as nat);
        assert(be_interp(encode_be(n, len)) == (n / 256) * 256 + n % 256);
    }
}

/// A 32-byte word reads below `2^255` exactly when its first byte is
/// below 128, that is, when its signed reading is non-negative.
pub proof fn lemma_top_byte_sign(b: Seq<u8>)
    requires
        b.len() == 32,
    ensures
        b[0] < 128 <==> be_interp(b) < pow2(255),
{
    lemma_be_interp_first(b);
    let p = pow2(248);
    let tail = be_interp(b.subrange(1, 32));
    assert(128 * p == pow2(255)) by {
        assert(pow2(7) == 128) by {
            lemma2_to64();
        }
        lemma_pow2_adds(7, 248);
    }
    if b[0] < 128 {
        assert(b[0] * p <= 127 * p) by (nonlinear_arith)
            requires
                b[0] <= 127,
                p > 0,
        ;
        assert(be_interp(b) < 128 * p);
    } else {
        assert(b[0] * p >= 128 * p) by (nonlinear_arith)
            requires
                b[0] >= 128,
                p > 0,
        ;
    }
}

} // verus!
