//! The declared shape of one ABI parameter, and which shapes the generators
//! accept.

use vstd::prelude::*;

verus! {

/// The declared type of one ABI parameter. Composite shapes nest freely:
/// arrays of arrays, tuples of arrays of tuples, and so on.
///
/// Integer widths are in bits; a `FixedBytes` size counts bytes and a
/// `FixedArray` size counts elements.
#[derive(Debug, PartialEq, Eq)]
pub enum ParamShape {
    Address,
    DynamicBytes,
    SignedInt(usize),
    UnsignedInt(usize),
    Bool,
    Str,
    Array(Box<ParamShape>),
    FixedBytes(usize),
    FixedArray(Box<ParamShape>, usize),
    Tuple(Vec<ParamShape>),
}

/// The mathematical model of a `ParamShape`: the same tree with sequences in
/// place of vectors, so that contracts can state deep structural equality.
pub enum ShapeModel {
    Address,
    DynamicBytes,
    SignedInt(nat),
    UnsignedInt(nat),
    Bool,
    Str,
    Array(Box<ShapeModel>),
    FixedBytes(nat),
    FixedArray(Box<ShapeModel>, nat),
    Tuple(Seq<ShapeModel>),
}

pub open spec fn shape_model(s: ParamShape) -> ShapeModel
    decreases s,
{
    match s {
        ParamShape::Address => ShapeModel::Address,
        ParamShape::DynamicBytes => ShapeModel::DynamicBytes,
        ParamShape::SignedInt(w) => ShapeModel::SignedInt(w as nat),
        ParamShape::UnsignedInt(w) => ShapeModel::UnsignedInt(w as nat),
        ParamShape::Bool => ShapeModel::Bool,
        ParamShape::Str => ShapeModel::Str,
        ParamShape::Array(elem) => ShapeModel::Array(Box::new(shape_model(*elem))),
        ParamShape::FixedBytes(n) => ShapeModel::FixedBytes(n as nat),
        ParamShape::FixedArray(elem, n) => ShapeModel::FixedArray(
            Box::new(shape_model(*elem)),
            n as nat,
        ),
        ParamShape::Tuple(shapes) => ShapeModel::Tuple(
            Seq::new(
                shapes@.len(),
                |i: int|
                    if 0 <= i < shapes@.len() {
                        proof {
                            assert(decreases_to!(s => s->Tuple_0));
                            assert(decreases_to!(shapes => shapes@));
                            assert(decreases_to!(shapes@ => shapes@[i]));
                        }
                        shape_model(shapes@[i])
                    } else {
                        ShapeModel::Address
                    },
            ),
        ),
    }
}

impl View for ParamShape {
    type V = ShapeModel;

    open spec fn view(&self) -> ShapeModel {
        shape_model(*self)
    }
}

/// An integer width is supported when it is a whole number of bytes between
/// 8 and 256 bits.
pub open spec fn valid_width(w: nat) -> bool {
    w % 8 == 0 && 8 <= w <= 256
}

/// A shape is valid when every integer width that occurs anywhere in it is
/// supported.
pub open spec fn valid_shape(s: ShapeModel) -> bool
    decreases s,
{
    match s {
        ShapeModel::SignedInt(w) => valid_width(w),
        ShapeModel::UnsignedInt(w) => valid_width(w),
        ShapeModel::Array(elem) => valid_shape(*elem),
        ShapeModel::FixedArray(elem, _) => valid_shape(*elem),
        ShapeModel::Tuple(shapes) => forall|i: int|
            0 <= i < shapes.len() ==> valid_shape(#[trigger] shapes[i]),
        _ => true,
    }
}

/// Whether a declared width is supported, decided at strategy
/// construction.
pub fn width_supported(w: usize) -> (b: bool)
    ensures
        b == valid_width(w as nat),
{
    w % 8 == 0 && 8 <= w && w <= 256
}

/// A leaf shape draws one value directly; composite shapes recurse instead.
pub open spec fn is_leaf(s: ShapeModel) -> bool {
    !(s is Array || s is FixedArray || s is Tuple)
}

/// Whether every `FixedBytes` size in the shape fits inside one 32-byte
/// corpus word, as corpus-biased generation requires.
pub open spec fn fits_word(s: ShapeModel) -> bool
    decreases s,
{
    match s {
        ShapeModel::FixedBytes(n) => n <= 32,
        ShapeModel::Array(elem) => fits_word(*elem),
        ShapeModel::FixedArray(elem, _) => fits_word(*elem),
        ShapeModel::Tuple(shapes) => forall|i: int|
            0 <= i < shapes.len() ==> fits_word(#[trigger] shapes[i]),
        _ => true,
    }
}

impl Clone for ParamShape {
    /// A deep copy: the copy's model is the original's.
    #[verifier::loop_isolation(false)]
    fn clone(&self) -> (r: Self)
        ensures
            r@ == self@,
        decreases *self,
    {
        match self {
            ParamShape::Address => ParamShape::Address,
            ParamShape::DynamicBytes => ParamShape::DynamicBytes,
            ParamShape::SignedInt(w) => ParamShape::SignedInt(*w),
            ParamShape::UnsignedInt(w) => ParamShape::UnsignedInt(*w),
            ParamShape::Bool => ParamShape::Bool,
            ParamShape::Str => ParamShape::Str,
            ParamShape::Array(elem) => ParamShape::Array(Box::new((**elem).clone())),
            ParamShape::FixedBytes(n) => ParamShape::FixedBytes(*n),
            ParamShape::FixedArray(elem, n) => {
                ParamShape::FixedArray(Box::new((**elem).clone()), *n)
            }
            ParamShape::Tuple(shapes) => {
                let mut copies: Vec<ParamShape> = Vec::new();
                let mut i: usize = 0;
                while i < shapes.len()
                    invariant
                        i <= shapes@.len(),
                        copies@.len() == i as int,
                        forall|j: int| 0 <= j < i ==> copies@[j]@ == shapes@[j]@,
                    decreases shapes@.len() - i,
                {
                    proof {
                        assert(decreases_to!(*self => (*self)->Tuple_0));
                        assert(decreases_to!(*shapes => shapes@));
                        assert(decreases_to!(shapes@ => shapes@[i as int]));
                    }
                    copies.push(shapes[i].clone());
                    i = i + 1;
                }
                let r = ParamShape::Tuple(copies);
                proof {
                    let ms1 = r@->Tuple_0;
                    let ms2 = self@->Tuple_0;
                    assert forall|k: int| 0 <= k < ms1.len() implies ms1[k] == ms2[k] by {
                        assert(ms1[k] == shape_model(r->Tuple_0@[k]));
                        assert(ms2[k] == shape_model((*shapes)@[k]));
                    }
                    assert(ms1 =~= ms2);
                }
                r
            }
        }
    }
}

} // verus!
