//! Corpus-biased draws pick a corpus word and convert it per type; over a
//! single-word corpus every leaf draw is deterministic.

use abi_fuzz::{fuzz_param_from_state, Corpus, FuzzError, ParamShape, Value};
use proptest::strategy::{Strategy, ValueTree};
use proptest::test_runner::TestRunner;

fn word_with_tail(tail: &[u8]) -> Vec<u8> {
    let mut w = vec![0u8; 32 - tail.len()];
    w.extend_from_slice(tail);
    w
}

fn draw(shape: &ParamShape, corpus: &Corpus, runner: &mut TestRunner) -> Value {
    let s = fuzz_param_from_state(shape, corpus).unwrap();
    s.new_tree(runner).unwrap().current()
}

#[test]
fn corpus_bool_trailing_one_always_true() {
    let corpus = Corpus { words: vec![word_with_tail(&[0x01])] };
    let mut runner = TestRunner::deterministic();
    for _ in 0..20 {
        assert_eq!(draw(&ParamShape::Bool, &corpus, &mut runner), Value::Bool(true));
    }
}

#[test]
fn corpus_bool_trailing_zero_always_false() {
    let corpus = Corpus { words: vec![word_with_tail(&[0x00])] };
    let mut runner = TestRunner::deterministic();
    for _ in 0..20 {
        assert_eq!(draw(&ParamShape::Bool, &corpus, &mut runner), Value::Bool(false));
    }
}

#[test]
fn corpus_bool_trailing_two_is_false() {
    let corpus = Corpus { words: vec![word_with_tail(&[0x02])] };
    let mut runner = TestRunner::deterministic();
    assert_eq!(draw(&ParamShape::Bool, &corpus, &mut runner), Value::Bool(false));
}

#[test]
fn corpus_address_is_trailing_twenty_bytes() {
    let word: Vec<u8> = (0u8..32).collect();
    let corpus = Corpus { words: vec![word.clone()] };
    let mut runner = TestRunner::deterministic();
    for _ in 0..10 {
        assert_eq!(
            draw(&ParamShape::Address, &corpus, &mut runner),
            Value::Address(word[12..].to_vec())
        );
    }
}

#[test]
fn corpus_uint_draw_is_reduced_word() {
    let word: Vec<u8> = (0u8..32).collect();
    let corpus = Corpus { words: vec![word.clone()] };
    let mut runner = TestRunner::deterministic();
    let mut expected = vec![0u8; 30];
    expected.extend_from_slice(&word[30..]);
    for _ in 0..10 {
        assert_eq!(
            draw(&ParamShape::UnsignedInt(16), &corpus, &mut runner),
            Value::Uint(expected.clone())
        );
    }
}

#[test]
fn corpus_uint256_draw_is_full_word() {
    let word: Vec<u8> = (100u8..132).collect();
    let corpus = Corpus { words: vec![word.clone()] };
    let mut runner = TestRunner::deterministic();
    assert_eq!(
        draw(&ParamShape::UnsignedInt(256), &corpus, &mut runner),
        Value::Uint(word)
    );
}

#[test]
fn corpus_int8_draw_is_recentred_word() {
    // The trailing byte 0x05 reduces to 5 and recentres to 5 - 128 = -123,
    // whose two's-complement word is thirty-one 0xFF bytes then 0x85.
    let corpus = Corpus { words: vec![word_with_tail(&[0x05])] };
    let mut runner = TestRunner::deterministic();
    let mut expected = vec![0xFFu8; 31];
    expected.push(0x85);
    assert_eq!(
        draw(&ParamShape::SignedInt(8), &corpus, &mut runner),
        Value::Int(expected)
    );
}

#[test]
fn corpus_int8_draw_with_high_bit() {
    // The trailing byte 0x85 reduces to 133 and recentres to 133 - 128 = 5.
    let corpus = Corpus { words: vec![word_with_tail(&[0x85])] };
    let mut runner = TestRunner::deterministic();
    assert_eq!(
        draw(&ParamShape::SignedInt(8), &corpus, &mut runner),
        Value::Int(word_with_tail(&[0x05]))
    );
}

#[test]
fn corpus_fixed_bytes_are_trailing_bytes() {
    let word: Vec<u8> = (0u8..32).collect();
    let corpus = Corpus { words: vec![word.clone()] };
    let mut runner = TestRunner::deterministic();
    assert_eq!(
        draw(&ParamShape::FixedBytes(4), &corpus, &mut runner),
        Value::FixedBytes(word[28..].to_vec())
    );
}

#[test]
fn corpus_bytes_and_text_use_full_word() {
    let word: Vec<u8> = (0u8..32).collect();
    let corpus = Corpus { words: vec![word.clone()] };
    let mut runner = TestRunner::deterministic();
    assert_eq!(
        draw(&ParamShape::DynamicBytes, &corpus, &mut runner),
        Value::Bytes(word.clone())
    );
    assert_eq!(draw(&ParamShape::Str, &corpus, &mut runner), Value::Str(word));
}

#[test]
fn corpus_tuple_components_are_deterministic() {
    let corpus = Corpus { words: vec![word_with_tail(&[0x01])] };
    let mut runner = TestRunner::deterministic();
    let shape = ParamShape::Tuple(vec![ParamShape::Bool, ParamShape::UnsignedInt(8)]);
    assert_eq!(
        draw(&shape, &corpus, &mut runner),
        Value::Tuple(vec![Value::Bool(true), Value::Uint(word_with_tail(&[0x01]))])
    );
}

#[test]
fn corpus_two_words_bool_draws_stay_within_corpus() {
    let corpus = Corpus {
        words: vec![word_with_tail(&[0x01]), word_with_tail(&[0x00])],
    };
    let mut runner = TestRunner::deterministic();
    for _ in 0..50 {
        match draw(&ParamShape::Bool, &corpus, &mut runner) {
            Value::Bool(_) => {}
            other => panic!("expected a boolean, got {:?}", other),
        }
    }
}

#[test]
fn corpus_array_elements_come_from_corpus() {
    let corpus = Corpus { words: vec![word_with_tail(&[0x2A])] };
    let mut runner = TestRunner::deterministic();
    let shape = ParamShape::Array(Box::new(ParamShape::UnsignedInt(8)));
    for _ in 0..10 {
        match draw(&shape, &corpus, &mut runner) {
            Value::Array(vs) => {
                assert!(vs.len() < 256);
                for v in vs {
                    assert_eq!(v, Value::Uint(word_with_tail(&[0x2A])));
                }
            }
            other => panic!("expected an array, got {:?}", other),
        }
    }
}

#[test]
fn corpus_fixed_array_has_exact_size() {
    let corpus = Corpus { words: vec![word_with_tail(&[0x07])] };
    let mut runner = TestRunner::deterministic();
    let shape = ParamShape::FixedArray(Box::new(ParamShape::UnsignedInt(8)), 3);
    assert_eq!(
        draw(&shape, &corpus, &mut runner),
        Value::FixedArray(vec![
            Value::Uint(word_with_tail(&[0x07])),
            Value::Uint(word_with_tail(&[0x07])),
            Value::Uint(word_with_tail(&[0x07])),
        ])
    );
}

#[test]
fn empty_corpus_is_rejected_at_construction() {
    let corpus = Corpus { words: vec![] };
    assert!(matches!(
        fuzz_param_from_state(&ParamShape::Bool, &corpus),
        Err(FuzzError::EmptyCorpus)
    ));
}

#[test]
fn corpus_mode_rejects_unsupported_widths() {
    let corpus = Corpus { words: vec![word_with_tail(&[0x01])] };
    assert!(matches!(
        fuzz_param_from_state(&ParamShape::UnsignedInt(9), &corpus),
        Err(FuzzError::UnsupportedWidth)
    ));
    assert!(matches!(
        fuzz_param_from_state(&ParamShape::SignedInt(260), &corpus),
        Err(FuzzError::UnsupportedWidth)
    ));
}
