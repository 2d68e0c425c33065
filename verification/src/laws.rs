//! The guarantees the generators give, stated on their own: the form of
//! every conforming draw per shape, and how corpus-biased draws relate to
//! random ones.

use vstd::prelude::*;

use crate::convert::{
    int_word,
    lemma_int_word_conforms,
    lemma_uint_word_conforms,
    lemma_word_model_conforms,
    uint_word,
    word_model,
};
use crate::shape::{fits_word, is_leaf, valid_shape, valid_width, ShapeModel};
use crate::strategy::{corpus_conforms, random_covers};
use crate::value::{conforms, ValueModel, MAX_ARRAY_LEN};
use crate::word::{
    be_interp,
    encode_be,
    lemma_encode_be_interp,
    lemma_encode_be_len,
    lemma_top_byte_sign,
    signed_interp,
};
use vstd::arithmetic::div_mod::lemma_small_mod;
use vstd::arithmetic::power2::{lemma_pow2_adds, lemma_pow2_strictly_increases, lemma2_to64, pow2};

verus! {

/// A draw for an array shape is a sequence of fewer than `MAX_ARRAY_LEN`
/// elements, each conforming to the element shape.
pub proof fn lemma_array_draw_len(m: ValueModel, elem: Box<ShapeModel>)
    requires
        conforms(m, ShapeModel::Array(elem)),
    ensures
        m matches ValueModel::Array(ms) && 0 <= ms.len() < MAX_ARRAY_LEN && (forall|i: int|
            0 <= i < ms.len() ==> conforms(#[trigger] ms[i], *elem)),
{
}

/// A signed draw of a width below 256 lies in `[-2^(w-1), 2^(w-1))`.
pub proof fn lemma_signed_draw_range(m: ValueModel, w: nat)
    requires
        conforms(m, ShapeModel::SignedInt(w)),
        w < 256,
    ensures
        m matches ValueModel::Int(b) && -(pow2((w - 1) as nat) as int) <= signed_interp(b) < pow2(
            (w - 1) as nat,
        ),
{
}

/// An unsigned draw of width `w` lies in `[0, 2^w)`.
pub proof fn lemma_unsigned_draw_range(m: ValueModel, w: nat)
    requires
        conforms(m, ShapeModel::UnsignedInt(w)),
    ensures
        m matches ValueModel::Uint(b) && be_interp(b) < pow2(w),
{
}

/// A fixed-bytes draw has exactly the declared size.
pub proof fn lemma_fixed_bytes_draw_len(m: ValueModel, n: nat)
    requires
        conforms(m, ShapeModel::FixedBytes(n)),
    ensures
        m matches ValueModel::FixedBytes(b) && b.len() == n,
{
}

/// A fixed-array draw has exactly the declared size, each element
/// conforming to the element shape.
pub proof fn lemma_fixed_array_draw_len(m: ValueModel, elem: Box<ShapeModel>, n: nat)
    requires
        conforms(m, ShapeModel::FixedArray(elem, n)),
    ensures
        m matches ValueModel::FixedArray(ms) && ms.len() == n && (forall|i: int|
            0 <= i < ms.len() ==> conforms(#[trigger] ms[i], *elem)),
{
}

/// A tuple draw has the declared arity, each component conforming to its
/// declared shape, positionally.
pub proof fn lemma_tuple_draw_arity(m: ValueModel, ss: Seq<ShapeModel>)
    requires
        conforms(m, ShapeModel::Tuple(ss)),
    ensures
        m matches ValueModel::Tuple(ms) && ms.len() == ss.len() && (forall|i: int|
            0 <= i < ss.len() ==> conforms(#[trigger] ms[i], ss[i])),
{
}

/// Over a corpus of exactly one word, a corpus-biased leaf draw is
/// deterministic: it is that word converted for the leaf's type.
pub proof fn lemma_single_word_corpus_deterministic(
    m: ValueModel,
    s: ShapeModel,
    words: Seq<Seq<u8>>,
)
    requires
        is_leaf(s),
        corpus_conforms(m, s, words),
        words.len() == 1,
    ensures
        m == word_model(s, words[0]),
{
    let i = choose|i: int| 0 <= i < words.len() && m == word_model(s, #[trigger] words[i]);
    assert(i == 0);
}

/// Every corpus-biased draw conforms to its shape, exactly as a random
/// draw does.
pub proof fn lemma_corpus_draw_conforms(m: ValueModel, s: ShapeModel, words: Seq<Seq<u8>>)
    requires
        corpus_conforms(m, s, words),
        valid_shape(s),
        fits_word(s),
        forall|i: int| 0 <= i < words.len() ==> (#[trigger] words[i]).len() == 32,
    ensures
        conforms(m, s),
    decreases s,
{
    match s {
        ShapeModel::Array(elem) => {
            let ms = m->Array_0;
            assert forall|i: int| 0 <= i < ms.len() implies conforms(#[trigger] ms[i], *elem) by {
                lemma_corpus_draw_conforms(ms[i], *elem, words);
            }
        }
        ShapeModel::FixedArray(elem, _n) => {
            let ms = m->FixedArray_0;
            assert forall|i: int| 0 <= i < ms.len() implies conforms(#[trigger] ms[i], *elem) by {
                lemma_corpus_draw_conforms(ms[i], *elem, words);
            }
        }
        ShapeModel::Tuple(ss) => {
            let ms = m->Tuple_0;
            assert forall|i: int| 0 <= i < ss.len() implies conforms(#[trigger] ms[i], ss[i]) by {
                lemma_corpus_draw_conforms(ms[i], ss[i], words);
            }
        }
        _ => {
            let i = choose|i: int| 0 <= i < words.len() && m == word_model(s, #[trigger] words[i]);
            lemma_word_model_conforms(s, words[i]);
        }
    }
}

/// Within a supported width, the signed generators narrow nothing: every
/// integer in `[-2^(w-1), 2^(w-1))` is the signed reading of the reduction
/// of some 32-byte word. For width 256 the full signed range is reachable.
pub proof fn lemma_signed_range_reachable(width: nat, i: int)
    requires
        valid_width(width),
        -(pow2((width - 1) as nat) as int) <= i < pow2((width - 1) as nat),
    ensures
        exists|w: Seq<u8>|
            w.len() == 32 && signed_interp(#[trigger] int_word(w, width)) == i,
{
    assert(pow2(256) == pow2((width - 1) as nat) * pow2((256 - (width - 1)) as nat)) by {
        lemma_pow2_adds((width - 1) as nat, (256 - (width - 1)) as nat);
    }
    assert(pow2((width - 1) as nat) < pow2(256)) by {
        lemma_pow2_strictly_increases((width - 1) as nat, 256);
    }
    if width < 256 {
        let u = (i + pow2((width - 1) as nat)) as nat;
        assert(u < pow2(width)) by {
            lemma_pow2_adds((width - 1) as nat, 1);
            lemma2_to64();
        }
        assert(pow2(width) < pow2(256)) by {
            lemma_pow2_strictly_increases(width, 256);
        }
        let w0 = encode_be(u, 32);
        lemma_encode_be_len(u, 32);
        lemma_encode_be_interp(u, 32);
        lemma_int_word_conforms(w0, width);
        lemma_small_mod(u, pow2(width));
        assert(signed_interp(int_word(w0, width)) == i);
    } else {
        if i >= 0 {
            let w0 = encode_be(i as nat, 32);
            lemma_encode_be_len(i as nat, 32);
            lemma_encode_be_interp(i as nat, 32);
            lemma_top_byte_sign(w0);
            assert(int_word(w0, width) == w0);
            assert(signed_interp(w0) == i);
        } else {
            let n = (i + pow2(256)) as nat;
            assert(pow2(256) == pow2(255) + pow2(255)) by {
                lemma_pow2_adds(255, 1);
                lemma2_to64();
            }
            let w0 = encode_be(n, 32);
            lemma_encode_be_len(n, 32);
            lemma_encode_be_interp(n, 32);
            lemma_top_byte_sign(w0);
            assert(int_word(w0, width) == w0);
            assert(signed_interp(w0) == i);
        }
    }
}

/// Every value in `[0, 2^w)` is the unsigned reading of the reduction of
/// some 32-byte word: the unsigned generators cover the declared range.
pub proof fn lemma_unsigned_range_reachable(width: nat, n: nat)
    requires
        valid_width(width),
        n < pow2(width),
    ensures
        exists|w: Seq<u8>|
            w.len() == 32 && be_interp(#[trigger] uint_word(w, width)) == n,
{
    if width < 256 {
        assert(pow2(width) < pow2(256)) by {
            lemma_pow2_strictly_increases(width, 256);
        }
    }
    let w0 = encode_be(n, 32);
    lemma_encode_be_len(n, 32);
    lemma_encode_be_interp(n, 32);
    lemma_uint_word_conforms(w0, width);
    lemma_small_mod(n, pow2(width));
    assert(be_interp(uint_word(w0, width)) == n);
}

/// Everything the coverage bound admits for a valid shape does conform
/// to it: the guaranteed draws sit inside the conformant ones.
pub proof fn lemma_random_covers_conforms(m: ValueModel, s: ShapeModel)
    requires
        random_covers(m, s),
        valid_shape(s),
    ensures
        conforms(m, s),
    decreases s,
{
    match s {
        ShapeModel::SignedInt(w) => {
            let x = choose|x: Seq<u8>| x.len() == 32 && m == ValueModel::Int(int_word(x, w));
            lemma_int_word_conforms(x, w);
        }
        ShapeModel::UnsignedInt(w) => {
            let x = choose|x: Seq<u8>| x.len() == 32 && m == ValueModel::Uint(uint_word(x, w));
            lemma_uint_word_conforms(x, w);
        }
        ShapeModel::Array(elem) => {
            let ms = m->Array_0;
            assert forall|i: int| 0 <= i < ms.len() implies conforms(#[trigger] ms[i], *elem) by {
                lemma_random_covers_conforms(ms[i], *elem);
            }
        }
        ShapeModel::FixedArray(elem, _n) => {
            let ms = m->FixedArray_0;
            assert forall|i: int| 0 <= i < ms.len() implies conforms(#[trigger] ms[i], *elem) by {
                lemma_random_covers_conforms(ms[i], *elem);
            }
        }
        ShapeModel::Tuple(ss) => {
            let ms = m->Tuple_0;
            assert forall|i: int| 0 <= i < ss.len() implies conforms(#[trigger] ms[i], ss[i]) by {
                lemma_random_covers_conforms(ms[i], ss[i]);
            }
        }
        _ => {}
    }
}

/// Every valid shape has a covered draw: a strategy honouring the
/// coverage bound produces something.
pub proof fn lemma_random_covers_nonempty(s: ShapeModel)
    requires
        valid_shape(s),
    ensures
        exists|m: ValueModel| random_covers(m, s),
    decreases s,
{
    match s {
        ShapeModel::Address => {
            assert(random_covers(ValueModel::Address(Seq::new(20, |i: int| 0u8)), s));
        }
        ShapeModel::DynamicBytes => {
            assert(random_covers(ValueModel::Bytes(Seq::<u8>::empty()), s));
        }
        ShapeModel::SignedInt(w) => {
            let x = Seq::new(32, |i: int| 0u8);
            assert(x.len() == 32);
            assert(random_covers(ValueModel::Int(int_word(x, w)), s));
        }
        ShapeModel::UnsignedInt(w) => {
            let x = Seq::new(32, |i: int| 0u8);
            assert(x.len() == 32);
            assert(random_covers(ValueModel::Uint(uint_word(x, w)), s));
        }
        ShapeModel::Bool => {
            assert(random_covers(ValueModel::Bool(true), s));
        }
        ShapeModel::Str => {
            assert(random_covers(ValueModel::Str(Seq::<u8>::empty()), s));
        }
        ShapeModel::FixedBytes(n) => {
            assert(random_covers(ValueModel::FixedBytes(Seq::new(n, |i: int| 0u8)), s));
        }
        ShapeModel::Array(_elem) => {
            assert(random_covers(ValueModel::Array(Seq::<ValueModel>::empty()), s));
        }
        ShapeModel::FixedArray(elem, n) => {
            lemma_random_covers_nonempty(*elem);
            let me = choose|mm: ValueModel| random_covers(mm, *elem);
            let ms = Seq::new(n, |i: int| me);
            assert forall|i: int| 0 <= i < ms.len() implies random_covers(
                #[trigger] ms[i],
                *elem,
            ) by {}
            assert(random_covers(ValueModel::FixedArray(ms), s));
        }
        ShapeModel::Tuple(ss) => {
            let ms = Seq::new(ss.len(), |j: int| choose|mm: ValueModel| random_covers(mm, ss[j]));
            assert forall|j: int| 0 <= j < ss.len() implies random_covers(
                #[trigger] ms[j],
                ss[j],
            ) by {
                lemma_random_covers_nonempty(ss[j]);
            }
            assert(random_covers(ValueModel::Tuple(ms), s));
        }
    }
}

/// A strategy whose draws honour the coverage bound for a signed shape
/// reaches every integer in the declared signed range; for width 256,
/// the full signed range.
pub proof fn lemma_strategy_signed_range_reachable(ys: Set<ValueModel>, width: nat, i: int)
    requires
        forall|m: ValueModel| random_covers(m, ShapeModel::SignedInt(width)) ==> ys.contains(m),
        valid_width(width),
        -(pow2((width - 1) as nat) as int) <= i < pow2((width - 1) as nat),
    ensures
        exists|b: Seq<u8>| ys.contains(ValueModel::Int(b)) && signed_interp(b) == i,
{
    lemma_signed_range_reachable(width, i);
    let w = choose|w: Seq<u8>| w.len() == 32 && signed_interp(int_word(w, width)) == i;
    assert(random_covers(ValueModel::Int(int_word(w, width)), ShapeModel::SignedInt(width)));
    assert(ys.contains(ValueModel::Int(int_word(w, width))));
}

/// A strategy whose draws honour the coverage bound for an unsigned
/// shape reaches every value below `2^w`.
pub proof fn lemma_strategy_unsigned_range_reachable(ys: Set<ValueModel>, width: nat, n: nat)
    requires
        forall|m: ValueModel| random_covers(m, ShapeModel::UnsignedInt(width)) ==> ys.contains(m),
        valid_width(width),
        n < pow2(width),
    ensures
        exists|b: Seq<u8>| ys.contains(ValueModel::Uint(b)) && be_interp(b) == n,
{
    lemma_unsigned_range_reachable(width, n);
    let w = choose|w: Seq<u8>| w.len() == 32 && be_interp(uint_word(w, width)) == n;
    assert(random_covers(ValueModel::Uint(uint_word(w, width)), ShapeModel::UnsignedInt(width)));
    assert(ys.contains(ValueModel::Uint(uint_word(w, width))));
}

} // verus!

