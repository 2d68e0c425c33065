//! Generated ABI values, their mathematical model, and what it means for a
//! value to conform to a shape.

use vstd::prelude::*;

use crate::shape::ShapeModel;
use crate::word::{be_interp, signed_interp};
use vstd::arithmetic::power2::pow2;

verus! {

/// The longest dynamic array a draw may produce (exclusive bound).
pub const MAX_ARRAY_LEN: usize = 256;

/// One generated ABI value, mirroring `ParamShape` variant for variant.
///
/// Integers are carried as full 32-byte big-endian words; a signed value
/// reads as two's complement. A `Str` carries the raw drawn bytes: the
/// text is deliberately not validated as UTF-8, so arbitrary content is
/// representable without reinterpretation.
#[derive(Debug, PartialEq, Eq)]
pub enum Value {
    Address(Vec<u8>),
    Bytes(Vec<u8>),
    Int(Vec<u8>),
    Uint(Vec<u8>),
    Bool(bool),
    Str(Vec<u8>),
    FixedBytes(Vec<u8>),
    Array(Vec<Value>),
    FixedArray(Vec<Value>),
    Tuple(Vec<Value>),
}

/// The mathematical model of a `Value`: the same tree over sequences.
pub enum ValueModel {
    Address(Seq<u8>),
    Bytes(Seq<u8>),
    Int(Seq<u8>),
    Uint(Seq<u8>),
    Bool(bool),
    Str(Seq<u8>),
    FixedBytes(Seq<u8>),
    Array(Seq<ValueModel>),
    FixedArray(Seq<ValueModel>),
    Tuple(Seq<ValueModel>),
}

/// The models of a vector of values, element for element.
pub open spec fn models_of(vs: Vec<Value>) -> Seq<ValueModel>
    decreases vs,
{
    Seq::new(
        vs@.len(),
        |i: int|
            if 0 <= i < vs@.len() {
                proof {
                    assert(decreases_to!(vs => vs@));
                    assert(decreases_to!(vs@ => vs@[i]));
                }
                value_model(vs@[i])
            } else {
                ValueModel::Bool(false)
            },
    )
}

pub open spec fn value_model(v: Value) -> ValueModel
    decreases v,
{
    match v {
        Value::Address(b) => ValueModel::Address(b@),
        Value::Bytes(b) => ValueModel::Bytes(b@),
        Value::Int(b) => ValueModel::Int(b@),
        Value::Uint(b) => ValueModel::Uint(b@),
        Value::Bool(x) => ValueModel::Bool(x),
        Value::Str(b) => ValueModel::Str(b@),
        Value::FixedBytes(b) => ValueModel::FixedBytes(b@),
        Value::Array(vs) => {
            proof {
                assert(decreases_to!(v => v->Array_0));
            }
            ValueModel::Array(models_of(vs))
        }
        Value::FixedArray(vs) => {
            proof {
                assert(decreases_to!(v => v->FixedArray_0));
            }
            ValueModel::FixedArray(models_of(vs))
        }
        Value::Tuple(vs) => {
            proof {
                assert(decreases_to!(v => v->Tuple_0));
            }
            ValueModel::Tuple(models_of(vs))
        }
    }
}

impl View for Value {
    type V = ValueModel;

    open spec fn view(&self) -> ValueModel {
        value_model(*self)
    }
}

/// Whether a drawn value structurally matches its declared shape: same
/// variant, matching lengths and arities, integers within the declared
/// width's range, recursively at every nesting level.
pub open spec fn conforms(m: ValueModel, s: ShapeModel) -> bool
    decreases s,
{
    match s {
        ShapeModel::Address => m matches ValueModel::Address(b) && b.len() == 20,
        ShapeModel::DynamicBytes => m is Bytes,
        ShapeModel::SignedInt(w) => m matches ValueModel::Int(b) && b.len() == 32 && (w < 256
            ==> -(pow2((w - 1) as nat) as int) <= signed_interp(b) < pow2((w - 1) as nat)),
        ShapeModel::UnsignedInt(w) => m matches ValueModel::Uint(b) && b.len() == 32 && be_interp(
            b,
        ) < pow2(w),
        ShapeModel::Bool => m is Bool,
        ShapeModel::Str => m is Str,
        ShapeModel::Array(elem) => m matches ValueModel::Array(ms) && ms.len() < MAX_ARRAY_LEN
            && (forall|i: int| 0 <= i < ms.len() ==> conforms(#[trigger] ms[i], *elem)),
        ShapeModel::FixedBytes(n) => m matches ValueModel::FixedBytes(b) && b.len() == n,
        ShapeModel::FixedArray(elem, n) => m matches ValueModel::FixedArray(ms) && ms.len() == n
            && (forall|i: int| 0 <= i < ms.len() ==> conforms(#[trigger] ms[i], *elem)),
        ShapeModel::Tuple(ss) => m matches ValueModel::Tuple(ms) && ms.len() == ss.len() && (forall|
            i: int,
        | 0 <= i < ss.len() ==> conforms(#[trigger] ms[i], ss[i])),
    }
}

} // verus!
