//! Converting a 32-byte word into a value of a given leaf shape: the
//! per-type conversions shared by random and corpus-biased generation.

use vstd::prelude::*;

use crate::shape::{is_leaf, valid_shape, valid_width, fits_word, ParamShape, ShapeModel};
use crate::value::{conforms, Value, ValueModel};
use crate::word::{
    be_interp,
    copy_bytes,
    copy_tail,
    lemma_be_interp_bound,
    lemma_recentered_interp,
    lemma_reduced_interp,
    recenter_word,
    recentered,
    reduce_word,
    reduced,
    signed_interp,
};
use vstd::arithmetic::power2::{lemma_pow2_adds, lemma2_to64, pow2};

verus! {

/// The word a signed draw of the given width turns into: the full word for
/// width 256, otherwise the word reduced modulo `2^width` and recentred by
/// `2^(width-1)`.
pub open spec fn int_word(w: Seq<u8>, width: nat) -> Seq<u8> {
    if width == 256 {
        w
    } else {
        recentered(reduced(w, width), width)
    }
}

/// The word an unsigned draw of the given width turns into: the word
/// reduced modulo `2^width` (the identity for width 256).
pub open spec fn uint_word(w: Seq<u8>, width: nat) -> Seq<u8> {
    reduced(w, width)
}

/// The value a leaf shape derives from one 32-byte word.
pub open spec fn word_model(s: ShapeModel, w: Seq<u8>) -> ValueModel {
    match s {
        ShapeModel::Address => ValueModel::Address(w.subrange(12, 32)),
        ShapeModel::DynamicBytes => ValueModel::Bytes(w),
        ShapeModel::SignedInt(width) => ValueModel::Int(int_word(w, width)),
        ShapeModel::UnsignedInt(width) => ValueModel::Uint(uint_word(w, width)),
        ShapeModel::Bool => ValueModel::Bool(w[31] == 1),
        ShapeModel::Str => ValueModel::Str(w),
        ShapeModel::FixedBytes(n) => ValueModel::FixedBytes(w.subrange(32 - n, 32)),
        _ => arbitrary(),
    }
}

pub proof fn lemma_int_word_conforms(w: Seq<u8>, width: nat)
    requires
        w.len() == 32,
        valid_width(width),
    ensures
        conforms(ValueModel::Int(int_word(w, width)), ShapeModel::SignedInt(width)),
        width < 256 ==> signed_interp(int_word(w, width)) == be_interp(w) % pow2(width) - pow2(
            (width - 1) as nat,
        ),
{
    if width < 256 {
        lemma_reduced_interp(w, width);
        lemma_recentered_interp(reduced(w, width), width);
        assert(pow2(width) == pow2((width - 1) as nat) + pow2((width - 1) as nat)) by {
            lemma_pow2_adds((width - 1) as nat, 1);
            lemma2_to64();
        }
    }
}

pub proof fn lemma_uint_word_conforms(w: Seq<u8>, width: nat)
    requires
        w.len() == 32,
        valid_width(width),
    ensures
        conforms(ValueModel::Uint(uint_word(w, width)), ShapeModel::UnsignedInt(width)),
        be_interp(uint_word(w, width)) == be_interp(w) % pow2(width),
{
    lemma_reduced_interp(w, width);
}

/// Every value a leaf shape derives from a 32-byte word conforms to that
/// shape.
pub proof fn lemma_word_model_conforms(s: ShapeModel, w: Seq<u8>)
    requires
        is_leaf(s),
        valid_shape(s),
        fits_word(s),
        w.len() == 32,
    ensures
        conforms(word_model(s, w), s),
{
    match s {
        ShapeModel::SignedInt(width) => lemma_int_word_conforms(w, width),
        ShapeModel::UnsignedInt(width) => lemma_uint_word_conforms(w, width),
        _ => {}
    }
}

/// The signed integer value drawn from one 32-byte word at the given
/// width.
pub fn signed_value_from_word(word: &Vec<u8>, width: usize) -> (v: Value)
    requires
        word@.len() == 32,
        valid_width(width as nat),
    ensures
        v@ == ValueModel::Int(int_word(word@, width as nat)),
        conforms(v@, ShapeModel::SignedInt(width as nat)),
{
    proof {
        lemma_int_word_conforms(word@, width as nat);
    }
    if width == 256 {
        Value::Int(copy_bytes(word))
    } else {
        let r = reduce_word(word, width);
        Value::Int(recenter_word(&r, width))
    }
}

/// The unsigned integer value drawn from one 32-byte word at the given
/// width.
pub fn unsigned_value_from_word(word: &Vec<u8>, width: usize) -> (v: Value)
    requires
        word@.len() == 32,
        valid_width(width as nat),
    ensures
        v@ == ValueModel::Uint(uint_word(word@, width as nat)),
        conforms(v@, ShapeModel::UnsignedInt(width as nat)),
{
    proof {
        lemma_uint_word_conforms(word@, width as nat);
    }
    Value::Uint(reduce_word(word, width))
}

/// The value a leaf shape derives from one 32-byte corpus word: the
/// trailing 20 bytes as an address, the trailing byte against 1 as a
/// boolean, the trailing `n` bytes as fixed bytes, the whole word as
/// bytes or text, and the width reductions for integers.
pub fn value_from_word(shape: &ParamShape, word: &Vec<u8>) -> (v: Value)
    requires
        word@.len() == 32,
        is_leaf(shape@),
        valid_shape(shape@),
        fits_word(shape@),
    ensures
        v@ == word_model(shape@, word@),
        conforms(v@, shape@),
{
    proof {
        lemma_word_model_conforms(shape@, word@);
    }
    match shape {
        ParamShape::Address => Value::Address(copy_tail(word, 20)),
        ParamShape::DynamicBytes => Value::Bytes(copy_bytes(word)),
        ParamShape::SignedInt(w) => signed_value_from_word(word, *w),
        ParamShape::UnsignedInt(w) => unsigned_value_from_word(word, *w),
        ParamShape::Bool => Value::Bool(word[31] == 1),
        ParamShape::Str => Value::Str(copy_bytes(word)),
        ParamShape::FixedBytes(n) => Value::FixedBytes(copy_tail(word, *n)),
        _ => {
            proof {
                assert(false);
            }
            Value::Bool(false)
        }
    }
}

} // verus!
