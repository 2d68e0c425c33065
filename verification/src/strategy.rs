//! Building proptest strategies for ABI parameter shapes, in random and
//! corpus-biased modes.
//!
//! The strategy plumbing itself (lazy sampling, mapping, type erasure)
//! belongs to proptest; each use of it sits behind a small trusted wrapper
//! whose contract describes, through `yields`, the set of value models the
//! built strategy can produce. Everything around the wrappers is verified:
//! the dispatch, the width checks, and the conversions the wrappers' draws
//! go through.

use vstd::prelude::*;

use proptest::prelude::any;
use proptest::sample::Index;
use proptest::strategy::{BoxedStrategy, Strategy};

use crate::convert::{
    int_word,
    lemma_int_word_conforms,
    lemma_uint_word_conforms,
    signed_value_from_word,
    uint_word,
    unsigned_value_from_word,
    value_from_word,
    word_model,
};
use crate::shape::{fits_word, is_leaf, valid_shape, valid_width, width_supported, ParamShape, ShapeModel};
use crate::value::{conforms, Value, ValueModel, MAX_ARRAY_LEN};

verus! {

#[verifier::external_type_specification]
#[verifier::external_body]
#[verifier::reject_recursive_types(T)]
pub struct ExBoxedStrategy<T>(BoxedStrategy<T>);

/// The set of value models a strategy's draws can produce.
pub uninterp spec fn yields(s: BoxedStrategy<Value>) -> Set<ValueModel>;

/// Why a strategy could not be built.
#[derive(Debug, Clone, Copy, PartialEq, Eq, Structural)]
pub enum FuzzError {
    /// A declared integer width is not a whole number of bytes between 8
    /// and 256 bits.
    UnsupportedWidth,
    /// Corpus-biased generation was requested against an empty corpus, so
    /// no index into it exists.
    EmptyCorpus,
}

/// A snapshot of the words observed so far by an external fuzz campaign:
/// an ordered, read-only collection of 32-byte words.
pub struct Corpus {
    pub words: Vec<Vec<u8>>,
}

impl View for Corpus {
    type V = Seq<Seq<u8>>;

    open spec fn view(&self) -> Seq<Seq<u8>> {
        Seq::new(self.words@.len(), |i: int| self.words@[i]@)
    }
}

/// Every corpus word is exactly 32 bytes.
pub open spec fn corpus_wf(c: Corpus) -> bool {
    forall|i: int| 0 <= i < c@.len() ==> (#[trigger] c@[i]).len() == 32
}

/// What corpus-biased generation can produce for a shape: every leaf is
/// some corpus word converted for that leaf, and composites recurse, each
/// element drawing its corpus index independently.
pub open spec fn corpus_conforms(m: ValueModel, s: ShapeModel, words: Seq<Seq<u8>>) -> bool
    decreases s,
{
    match s {
        ShapeModel::Array(elem) => m matches ValueModel::Array(ms) && ms.len() < MAX_ARRAY_LEN
            && (forall|i: int|
            0 <= i < ms.len() ==> corpus_conforms(#[trigger] ms[i], *elem, words)),
        ShapeModel::FixedArray(elem, n) => m matches ValueModel::FixedArray(ms) && ms.len() == n
            && (forall|i: int|
            0 <= i < ms.len() ==> corpus_conforms(#[trigger] ms[i], *elem, words)),
        ShapeModel::Tuple(ss) => m matches ValueModel::Tuple(ms) && ms.len() == ss.len() && (forall|
            i: int,
        | 0 <= i < ss.len() ==> corpus_conforms(#[trigger] ms[i], ss[i], words)),
        _ => exists|i: int| 0 <= i < words.len() && m == word_model(s, #[trigger] words[i]),
    }
}

/// What random generation can at least produce for a shape, a lower bound
/// on the built strategy's draws: for every scalar leaf the full set its
/// draw ranges over; for byte strings and text, whose lengths proptest's
/// own configuration bounds, at least the empty one; and composites
/// recursively, arrays down to the empty array.
pub open spec fn random_covers(m: ValueModel, s: ShapeModel) -> bool
    decreases s,
{
    match s {
        ShapeModel::Address => m matches ValueModel::Address(b) && b.len() == 20,
        ShapeModel::DynamicBytes => m == ValueModel::Bytes(Seq::<u8>::empty()),
        ShapeModel::SignedInt(w) => exists|x: Seq<u8>|
            x.len() == 32 && m == ValueModel::Int(int_word(x, w)),
        ShapeModel::UnsignedInt(w) => exists|x: Seq<u8>|
            x.len() == 32 && m == ValueModel::Uint(uint_word(x, w)),
        ShapeModel::Bool => m is Bool,
        ShapeModel::Str => m == ValueModel::Str(Seq::<u8>::empty()),
        ShapeModel::FixedBytes(n) => m matches ValueModel::FixedBytes(b) && b.len() == n,
        ShapeModel::Array(elem) => m matches ValueModel::Array(ms) && ms.len() < MAX_ARRAY_LEN
            && (forall|i: int|
            0 <= i < ms.len() ==> random_covers(#[trigger] ms[i], *elem)),
        ShapeModel::FixedArray(elem, n) => m matches ValueModel::FixedArray(ms) && ms.len() == n
            && (forall|i: int|
            0 <= i < ms.len() ==> random_covers(#[trigger] ms[i], *elem)),
        ShapeModel::Tuple(ss) => m matches ValueModel::Tuple(ms) && ms.len() == ss.len() && (forall|
            i: int,
        | 0 <= i < ss.len() ==> random_covers(#[trigger] ms[i], ss[i])),
    }
}

/// Relies on proptest's `any::<[u8; 20]>` (each byte drawn over its full
/// range), `Strategy::prop_map` and `Strategy::boxed`: the draws are
/// exactly the 20-byte addresses.
#[verifier::external_body]
fn random_address_strategy() -> (s: BoxedStrategy<Value>)
    ensures
        forall|m: ValueModel|
            yields(s).contains(m) <==> (m matches ValueModel::Address(b) && b.len() == 20),
{
    any::<[u8; 20]>().prop_map(|x| Value::Address(x.to_vec())).boxed()
}

/// Relies on proptest's `any::<Vec<u8>>`, `Strategy::prop_map` and
/// `Strategy::boxed`: every draw is a byte string, its length bounded by
/// proptest's own collection configuration, whose size range starts at
/// zero, so the empty byte string is always among the draws.
#[verifier::external_body]
fn random_bytes_strategy() -> (s: BoxedStrategy<Value>)
    ensures
        forall|m: ValueModel| yields(s).contains(m) ==> m is Bytes,
        yields(s).contains(ValueModel::Bytes(Seq::<u8>::empty())),
{
    any::<Vec<u8>>().prop_map(Value::Bytes).boxed()
}

/// Relies on proptest's `any::<Vec<u8>>`, `Strategy::prop_map` and
/// `Strategy::boxed`: every draw is a text value carrying the raw drawn
/// bytes; the size range starts at zero, so the empty text is always
/// among the draws.
#[verifier::external_body]
fn random_string_strategy() -> (s: BoxedStrategy<Value>)
    ensures
        forall|m: ValueModel| yields(s).contains(m) ==> m is Str,
        yields(s).contains(ValueModel::Str(Seq::<u8>::empty())),
{
    any::<Vec<u8>>().prop_map(Value::Str).boxed()
}

/// Relies on proptest's `any::<bool>`, `Strategy::prop_map` and
/// `Strategy::boxed`: the draws are exactly the two booleans.
#[verifier::external_body]
fn random_bool_strategy() -> (s: BoxedStrategy<Value>)
    ensures
        forall|m: ValueModel| yields(s).contains(m) <==> m is Bool,
{
    any::<bool>().prop_map(Value::Bool).boxed()
}

/// Relies on proptest's `collection::vec` with an exact size (each byte
/// drawn over its full range), `Strategy::prop_map` and `Strategy::boxed`:
/// the draws are exactly the byte strings of that size.
#[verifier::external_body]
fn random_fixed_bytes_strategy(size: usize) -> (s: BoxedStrategy<Value>)
    ensures
        forall|m: ValueModel|
            yields(s).contains(m) <==> (m matches ValueModel::FixedBytes(b) && b.len() == size),
{
    proptest::collection::vec(any::<u8>(), size).prop_map(Value::FixedBytes).boxed()
}

/// Relies on proptest's `any::<[u8; 32]>` (a full uniform word),
/// `Strategy::prop_map` and `Strategy::boxed`: the draws are exactly the
/// signed reductions of all 32-byte words to the declared width.
#[verifier::external_body]
fn random_int_strategy(width: usize) -> (s: BoxedStrategy<Value>)
    requires
        valid_width(width as nat),
    ensures
        forall|m: ValueModel|
            yields(s).contains(m) <==> (exists|w: Seq<u8>|
                w.len() == 32 && m == ValueModel::Int(int_word(w, width as nat))),
{
    any::<[u8; 32]>().prop_map(move |x| signed_value_from_word(&x.to_vec(), width)).boxed()
}

/// Relies on proptest's `any::<[u8; 32]>` (a full uniform word),
/// `Strategy::prop_map` and `Strategy::boxed`: the draws are exactly the
/// unsigned reductions of all 32-byte words to the declared width.
#[verifier::external_body]
fn random_uint_strategy(width: usize) -> (s: BoxedStrategy<Value>)
    requires
        valid_width(width as nat),
    ensures
        forall|m: ValueModel|
            yields(s).contains(m) <==> (exists|w: Seq<u8>|
                w.len() == 32 && m == ValueModel::Uint(uint_word(w, width as nat))),
{
    any::<[u8; 32]>().prop_map(move |x| unsigned_value_from_word(&x.to_vec(), width)).boxed()
}

/// Relies on proptest's `any::<sample::Index>` and `Index::index`, which
/// returns a position strictly below the captured length: a draw fetches
/// one corpus word, any of them, and converts it for the leaf shape.
#[verifier::external_body]
fn corpus_leaf_strategy(shape: &ParamShape, corpus: &Corpus) -> (s: BoxedStrategy<Value>)
    requires
        is_leaf(shape@),
        valid_shape(shape@),
        fits_word(shape@),
        corpus_wf(*corpus),
        corpus@.len() > 0,
    ensures
        forall|m: ValueModel|
            yields(s).contains(m) <==> (exists|i: int|
                0 <= i < corpus@.len() && m == word_model(shape@, #[trigger] corpus@[i])),
{
    let words = corpus.words.clone();
    let len = words.len();
    let sh = shape.clone();
    any::<Index>().prop_map(move |idx| idx.index(len)).prop_map(
        move |i| value_from_word(&sh, &words[i]),
    ).boxed()
}

/// Relies on proptest's `collection::vec` with size range
/// `0..MAX_ARRAY_LEN`, `Strategy::prop_map` and `Strategy::boxed`: a draw
/// picks a length below the bound, then draws each element independently
/// from the element strategy.
#[verifier::external_body]
fn array_strategy(element: BoxedStrategy<Value>) -> (s: BoxedStrategy<Value>)
    ensures
        forall|m: ValueModel|
            yields(s).contains(m) <==> (m matches ValueModel::Array(ms) && ms.len() < MAX_ARRAY_LEN
                && (forall|i: int|
                0 <= i < ms.len() ==> yields(element).contains(#[trigger] ms[i]))),
{
    proptest::collection::vec(element, 0..MAX_ARRAY_LEN).prop_map(Value::Array).boxed()
}

/// Relies on proptest's `collection::vec` with an exact size,
/// `Strategy::prop_map` and `Strategy::boxed`: a draw has exactly `size`
/// elements, each drawn independently from the element strategy.
#[verifier::external_body]
fn fixed_array_strategy(element: BoxedStrategy<Value>, size: usize) -> (s: BoxedStrategy<Value>)
    ensures
        forall|m: ValueModel|
            yields(s).contains(m) <==> (m matches ValueModel::FixedArray(ms) && ms.len() == size
                && (forall|i: int|
                0 <= i < ms.len() ==> yields(element).contains(#[trigger] ms[i]))),
{
    proptest::collection::vec(element, size).prop_map(Value::FixedArray).boxed()
}

/// Relies on proptest's `Strategy` instance for `Vec<S>` (one component
/// drawn from each strategy, in order), `Strategy::prop_map` and
/// `Strategy::boxed`.
#[verifier::external_body]
fn tuple_strategy(elements: Vec<BoxedStrategy<Value>>) -> (s: BoxedStrategy<Value>)
    ensures
        forall|m: ValueModel|
            yields(s).contains(m) <==> (m matches ValueModel::Tuple(ms) && ms.len()
                == elements@.len() && (forall|i: int|
                0 <= i < ms.len() ==> yields(elements@[i]).contains(#[trigger] ms[i]))),
{
    elements.prop_map(Value::Tuple).boxed()
}

/// Build a strategy for a parameter shape: scalar leaves draw fresh random
/// bytes, integer leaves draw a full 32-byte word and reduce it to the
/// declared width, and composites recurse over their element shapes.
///
/// Every draw of the built strategy conforms to the shape, and the
/// strategy's draws cover at least `random_covers`: the full ranges of
/// the scalar leaves, recursively through composites. Construction
/// fails, with `UnsupportedWidth`, exactly when some declared integer
/// width anywhere in the shape is not a whole number of bytes between 8
/// and 256 bits.
#[verifier::loop_isolation(false)]
pub fn fuzz_param(shape: &ParamShape) -> (r: Result<BoxedStrategy<Value>, FuzzError>)
    ensures
        r is Ok <==> valid_shape(shape@),
        r is Err ==> r->Err_0 == FuzzError::UnsupportedWidth,
        r is Ok ==> forall|m: ValueModel|
            yields(r->Ok_0).contains(m) ==> conforms(m, shape@),
        r is Ok ==> forall|m: ValueModel|
            random_covers(m, shape@) ==> yields(r->Ok_0).contains(m),
    decreases *shape,
{
    match shape {
        ParamShape::Address => Ok(random_address_strategy()),
        ParamShape::DynamicBytes => Ok(random_bytes_strategy()),
        ParamShape::SignedInt(w) => {
            if width_supported(*w) {
                let s = random_int_strategy(*w);
                proof {
                    assert forall|m: ValueModel| yields(s).contains(m) implies conforms(
                        m,
                        shape@,
                    ) by {
                        let ws = choose|ws: Seq<u8>|
                            ws.len() == 32 && m == ValueModel::Int(int_word(ws, *w as nat));
                        lemma_int_word_conforms(ws, *w as nat);
                    }
                }
                Ok(s)
            } else {
                Err(FuzzError::UnsupportedWidth)
            }
        }
        ParamShape::UnsignedInt(w) => {
            if width_supported(*w) {
                let s = random_uint_strategy(*w);
                proof {
                    assert forall|m: ValueModel| yields(s).contains(m) implies conforms(
                        m,
                        shape@,
                    ) by {
                        let ws = choose|ws: Seq<u8>|
                            ws.len() == 32 && m == ValueModel::Uint(uint_word(ws, *w as nat));
                        lemma_uint_word_conforms(ws, *w as nat);
                    }
                }
                Ok(s)
            } else {
                Err(FuzzError::UnsupportedWidth)
            }
        }
        ParamShape::Bool => Ok(random_bool_strategy()),
        ParamShape::Str => Ok(random_string_strategy()),
        ParamShape::FixedBytes(n) => Ok(random_fixed_bytes_strategy(*n)),
        ParamShape::Array(elem) => {
            match fuzz_param(elem) {
                Ok(e) => {
                    let s = array_strategy(e);
                    proof {
                        assert forall|m: ValueModel| yields(s).contains(m) implies conforms(
                            m,
                            shape@,
                        ) by {
                            let ms = m->Array_0;
                            assert forall|i: int| 0 <= i < ms.len() implies conforms(
                                #[trigger] ms[i],
                                (**elem)@,
                            ) by {
                                assert(yields(e).contains(ms[i]));
                            }
                            assert(shape@ == ShapeModel::Array(Box::new((**elem)@)));
                        }
                        assert(shape@ == ShapeModel::Array(Box::new((**elem)@)));
                        assert forall|m: ValueModel| random_covers(m, shape@) implies yields(
                            s,
                        ).contains(m) by {
                            let ms = m->Array_0;
                            assert forall|i: int| 0 <= i < ms.len() implies yields(e).contains(
                                #[trigger] ms[i],
                            ) by {
                                assert(random_covers(ms[i], (**elem)@));
                            }
                        }
                    }
                    Ok(s)
                }
                Err(err) => Err(err),
            }
        }
        ParamShape::FixedArray(elem, n) => {
            match fuzz_param(elem) {
                Ok(e) => {
                    let s = fixed_array_strategy(e, *n);
                    proof {
                        assert forall|m: ValueModel| yields(s).contains(m) implies conforms(
                            m,
                            shape@,
                        ) by {
                            let ms = m->FixedArray_0;
                            assert forall|i: int| 0 <= i < ms.len() implies conforms(
                                #[trigger] ms[i],
                                (**elem)@,
                            ) by {
                                assert(yields(e).contains(ms[i]));
                            }
                            assert(shape@ == ShapeModel::FixedArray(Box::new((**elem)@), *n as nat));
                        }
                        assert(shape@ == ShapeModel::FixedArray(Box::new((**elem)@), *n as nat));
                        assert forall|m: ValueModel| random_covers(m, shape@) implies yields(
                            s,
                        ).contains(m) by {
                            let ms = m->FixedArray_0;
                            assert forall|i: int| 0 <= i < ms.len() implies yields(e).contains(
                                #[trigger] ms[i],
                            ) by {
                                assert(random_covers(ms[i], (**elem)@));
                            }
                        }
                    }
                    Ok(s)
                }
                Err(err) => Err(err),
            }
        }
        ParamShape::Tuple(shapes) => {
            let mut elems: Vec<BoxedStrategy<Value>> = Vec::new();
            let mut i: usize = 0;
            while i < shapes.len()
                invariant
                    i <= shapes@.len(),
                    elems@.len() == i as int,
                    forall|j: int| 0 <= j < i ==> valid_shape(#[trigger] shapes@[j]@),
                    forall|j: int|
                        0 <= j < i ==> (forall|m: ValueModel|
                            yields(#[trigger] elems@[j]).contains(m) ==> conforms(
                                m,
                                shapes@[j]@,
                            )),
                    forall|j: int|
                        0 <= j < i ==> (forall|m: ValueModel|
                            random_covers(m, shapes@[j]@) ==> yields(
                                #[trigger] elems@[j],
                            ).contains(m)),
                decreases shapes@.len() - i,
            {
                proof {
                    assert(decreases_to!(*shape => (*shape)->Tuple_0));
                    assert(decreases_to!(*shapes => shapes@));
                    assert(decreases_to!(shapes@ => shapes@[i as int]));
                    assert(shape@->Tuple_0[i as int] == shapes@[i as int]@);
                }
                match fuzz_param(&shapes[i]) {
                    Ok(e) => elems.push(e),
                    Err(err) => {
                        return Err(err);
                    }
                }
                i = i + 1;
            }
            let s = tuple_strategy(elems);
            proof {
                let ss0 = shape@->Tuple_0;
                assert forall|j: int| 0 <= j < ss0.len() implies valid_shape(#[trigger] ss0[j]) by {
                    assert(ss0[j] == shapes@[j]@);
                }
                assert(valid_shape(shape@));
                assert forall|m: ValueModel| yields(s).contains(m) implies conforms(
                    m,
                    shape@,
                ) by {
                    let ms = m->Tuple_0;
                    let ss = shape@->Tuple_0;
                    assert forall|j: int| 0 <= j < ss.len() implies conforms(
                        #[trigger] ms[j],
                        ss[j],
                    ) by {
                        assert(yields(elems@[j]).contains(ms[j]));
                        assert(ss[j] == shapes@[j]@);
                    }
                }
                assert forall|m: ValueModel| random_covers(m, shape@) implies yields(s).contains(
                    m,
                ) by {
                    let ms = m->Tuple_0;
                    let ss = shape@->Tuple_0;
                    assert forall|j: int| 0 <= j < ss.len() implies yields(elems@[j]).contains(
                        #[trigger] ms[j],
                    ) by {
                        assert(ss[j] == shapes@[j]@);
                        assert(random_covers(ms[j], shapes@[j]@));
                    }
                }
            }
            Ok(s)
        }
    }
}

/// Build a corpus-biased strategy for a parameter shape: every leaf draw
/// picks an index below the corpus length captured here and converts the
/// word at that index for the leaf's type; composites recurse, each
/// element drawing its own index.
///
/// The draws are exactly the values derivable from corpus words, so they
/// conform to the shape and, over a single-word corpus, leaf draws are
/// deterministic. Construction fails with `EmptyCorpus` when the corpus
/// holds no word, and otherwise with `UnsupportedWidth` exactly when some
/// declared integer width in the shape is unsupported.
#[verifier::loop_isolation(false)]
pub fn fuzz_param_from_state(shape: &ParamShape, corpus: &Corpus) -> (r: Result<
    BoxedStrategy<Value>,
    FuzzError,
>)
    requires
        corpus_wf(*corpus),
        fits_word(shape@),
    ensures
        r is Ok <==> (corpus@.len() > 0 && valid_shape(shape@)),
        corpus@.len() == 0 ==> r is Err && r->Err_0 == FuzzError::EmptyCorpus,
        corpus@.len() > 0 && !valid_shape(shape@) ==> r is Err && r->Err_0
            == FuzzError::UnsupportedWidth,
        r is Ok ==> forall|m: ValueModel|
            yields(r->Ok_0).contains(m) <==> corpus_conforms(m, shape@, corpus@),
    decreases *shape,
{
    if corpus.words.len() == 0 {
        return Err(FuzzError::EmptyCorpus);
    }
    match shape {
        ParamShape::SignedInt(w) => {
            if width_supported(*w) {
                Ok(corpus_leaf_strategy(shape, corpus))
            } else {
                Err(FuzzError::UnsupportedWidth)
            }
        }
        ParamShape::UnsignedInt(w) => {
            if width_supported(*w) {
                Ok(corpus_leaf_strategy(shape, corpus))
            } else {
                Err(FuzzError::UnsupportedWidth)
            }
        }
        ParamShape::Address => Ok(corpus_leaf_strategy(shape, corpus)),
        ParamShape::DynamicBytes => Ok(corpus_leaf_strategy(shape, corpus)),
        ParamShape::Bool => Ok(corpus_leaf_strategy(shape, corpus)),
        ParamShape::Str => Ok(corpus_leaf_strategy(shape, corpus)),
        ParamShape::FixedBytes(_) => Ok(corpus_leaf_strategy(shape, corpus)),
        ParamShape::Array(elem) => {
            proof {
                assert(shape@ == ShapeModel::Array(Box::new((**elem)@)));
            }
            match fuzz_param_from_state(elem, corpus) {
                Ok(e) => {
                    let s = array_strategy(e);
                    proof {
                        assert forall|m: ValueModel|
                            yields(s).contains(m) <==> corpus_conforms(m, shape@, corpus@) by {
                            if yields(s).contains(m) || corpus_conforms(m, shape@, corpus@) {
                                let ms = m->Array_0;
                                assert(forall|i: int|
                                    0 <= i < ms.len() ==> (yields(e).contains(#[trigger] ms[i])
                                        <==> corpus_conforms(ms[i], (**elem)@, corpus@)));
                            }
                        }
                    }
                    Ok(s)
                }
                Err(err) => Err(err),
            }
        }
        ParamShape::FixedArray(elem, n) => {
            proof {
                assert(shape@ == ShapeModel::FixedArray(Box::new((**elem)@), *n as nat));
            }
            match fuzz_param_from_state(elem, corpus) {
                Ok(e) => {
                    let s = fixed_array_strategy(e, *n);
                    proof {
                        assert forall|m: ValueModel|
                            yields(s).contains(m) <==> corpus_conforms(m, shape@, corpus@) by {
                            if yields(s).contains(m) || corpus_conforms(m, shape@, corpus@) {
                                let ms = m->FixedArray_0;
                                assert(forall|i: int|
                                    0 <= i < ms.len() ==> (yields(e).contains(#[trigger] ms[i])
                                        <==> corpus_conforms(ms[i], (**elem)@, corpus@)));
                            }
                        }
                    }
                    Ok(s)
                }
                Err(err) => Err(err),
            }
        }
        ParamShape::Tuple(shapes) => {
            let mut elems: Vec<BoxedStrategy<Value>> = Vec::new();
            let mut i: usize = 0;
            while i < shapes.len()
                invariant
                    i <= shapes@.len(),
                    elems@.len() == i as int,
                    forall|j: int| 0 <= j < i ==> valid_shape(#[trigger] shapes@[j]@),
                    forall|j: int|
                        0 <= j < i ==> (forall|m: ValueModel|
                            yields(#[trigger] elems@[j]).contains(m) <==> corpus_conforms(
                                m,
                                shapes@[j]@,
                                corpus@,
                            )),
                decreases shapes@.len() - i,
            {
                proof {
                    assert(decreases_to!(*shape => (*shape)->Tuple_0));
                    assert(decreases_to!(*shapes => shapes@));
                    assert(decreases_to!(shapes@ => shapes@[i as int]));
                    assert(shape@->Tuple_0[i as int] == shapes@[i as int]@);
                }
                match fuzz_param_from_state(&shapes[i], corpus) {
                    Ok(e) => elems.push(e),
                    Err(err) => {
                        return Err(err);
                    }
                }
                i = i + 1;
            }
            let s = tuple_strategy(elems);
            proof {
                let ss0 = shape@->Tuple_0;
                assert forall|j: int| 0 <= j < ss0.len() implies valid_shape(#[trigger] ss0[j]) by {
                    assert(ss0[j] == shapes@[j]@);
                }
                assert(valid_shape(shape@));
                assert forall|m: ValueModel|
                    yields(s).contains(m) <==> corpus_conforms(m, shape@, corpus@) by {
                    let ss = shape@->Tuple_0;
                    assert(ss.len() == shapes@.len());
                    if yields(s).contains(m) || corpus_conforms(m, shape@, corpus@) {
                        let ms = m->Tuple_0;
                        assert forall|j: int|
                            0 <= j < ss.len() implies (yields(elems@[j]).contains(
                            #[trigger] ms[j],
                        ) <==> corpus_conforms(ms[j], ss[j], corpus@)) by {
                            assert(ss[j] == shapes@[j]@);
                        }
                    }
                }
            }
            Ok(s)
        }
    }
}

} // verus!
