//! Produced values survive a round trip through the shape's own ABI codec:
//! encoding with ethers-core and decoding back yields an equal value.

use abi_fuzz::{fuzz_param, fuzz_param_from_state, Corpus, ParamShape, Value};
use ethers_core::abi::{decode, encode, ParamType, Token};
use ethers_core::types::{H160, U256};
use proptest::strategy::{Strategy, ValueTree};
use proptest::test_runner::TestRunner;

fn to_param_type(s: &ParamShape) -> ParamType {
    match s {
        ParamShape::Address => ParamType::Address,
        ParamShape::DynamicBytes => ParamType::Bytes,
        ParamShape::SignedInt(w) => ParamType::Int(*w),
        ParamShape::UnsignedInt(w) => ParamType::Uint(*w),
        ParamShape::Bool => ParamType::Bool,
        ParamShape::Str => ParamType::String,
        ParamShape::Array(elem) => ParamType::Array(Box::new(to_param_type(elem))),
        ParamShape::FixedBytes(n) => ParamType::FixedBytes(*n),
        ParamShape::FixedArray(elem, n) => {
            ParamType::FixedArray(Box::new(to_param_type(elem)), *n)
        }
        ParamShape::Tuple(ss) => ParamType::Tuple(ss.iter().map(to_param_type).collect()),
    }
}

fn to_token(v: &Value) -> Token {
    match v {
        Value::Address(b) => Token::Address(H160::from_slice(b)),
        Value::Bytes(b) => Token::Bytes(b.clone()),
        Value::Int(b) => Token::Int(U256::from_big_endian(b)),
        Value::Uint(b) => Token::Uint(U256::from_big_endian(b)),
        Value::Bool(x) => Token::Bool(*x),
        Value::Str(b) => Token::String(String::from_utf8(b.clone()).unwrap()),
        Value::FixedBytes(b) => Token::FixedBytes(b.clone()),
        Value::Array(vs) => Token::Array(vs.iter().map(to_token).collect()),
        Value::FixedArray(vs) => Token::FixedArray(vs.iter().map(to_token).collect()),
        Value::Tuple(vs) => Token::Tuple(vs.iter().map(to_token).collect()),
    }
}

fn word_of(u: &U256) -> Vec<u8> {
    let mut b = [0u8; 32];
    u.to_big_endian(&mut b);
    b.to_vec()
}

fn from_token(t: &Token) -> Value {
    match t {
        Token::Address(a) => Value::Address(a.as_bytes().to_vec()),
        Token::Bytes(b) => Value::Bytes(b.clone()),
        Token::Int(u) => Value::Int(word_of(u)),
        Token::Uint(u) => Value::Uint(word_of(u)),
        Token::Bool(x) => Value::Bool(*x),
        Token::String(s) => Value::Str(s.as_bytes().to_vec()),
        Token::FixedBytes(b) => Value::FixedBytes(b.clone()),
        Token::Array(ts) => Value::Array(ts.iter().map(from_token).collect()),
        Token::FixedArray(ts) => Value::FixedArray(ts.iter().map(from_token).collect()),
        Token::Tuple(ts) => Value::Tuple(ts.iter().map(from_token).collect()),
    }
}

fn round_trip(shape: &ParamShape, v: &Value) {
    let encoded = encode(&[to_token(v)]);
    let decoded = decode(&[to_param_type(shape)], &encoded).unwrap();
    assert_eq!(decoded.len(), 1);
    assert_eq!(&from_token(&decoded[0]), v);
}

fn check_random_draws(shape: &ParamShape, rounds: usize) {
    let mut runner = TestRunner::deterministic();
    let s = fuzz_param(shape).unwrap();
    for _ in 0..rounds {
        let v = s.new_tree(&mut runner).unwrap().current();
        round_trip(shape, &v);
    }
}

#[test]
fn random_scalars_round_trip() {
    check_random_draws(&ParamShape::Address, 10);
    check_random_draws(&ParamShape::Bool, 10);
    check_random_draws(&ParamShape::DynamicBytes, 10);
    check_random_draws(&ParamShape::FixedBytes(8), 10);
}

#[test]
fn random_integers_round_trip() {
    check_random_draws(&ParamShape::UnsignedInt(8), 10);
    check_random_draws(&ParamShape::UnsignedInt(64), 10);
    check_random_draws(&ParamShape::UnsignedInt(256), 10);
    check_random_draws(&ParamShape::SignedInt(8), 10);
    check_random_draws(&ParamShape::SignedInt(128), 10);
    check_random_draws(&ParamShape::SignedInt(256), 10);
}

#[test]
fn random_composites_round_trip() {
    check_random_draws(&ParamShape::Array(Box::new(ParamShape::UnsignedInt(32))), 3);
    check_random_draws(
        &ParamShape::FixedArray(Box::new(ParamShape::Address), 4),
        3,
    );
    check_random_draws(
        &ParamShape::Tuple(vec![
            ParamShape::Address,
            ParamShape::UnsignedInt(16),
            ParamShape::Bool,
            ParamShape::FixedBytes(4),
        ]),
        3,
    );
}

#[test]
fn corpus_text_round_trips_byte_for_byte() {
    let word: Vec<u8> = (b'A'..b'A' + 32).collect();
    let corpus = Corpus { words: vec![word.clone()] };
    let mut runner = TestRunner::deterministic();
    let s = fuzz_param_from_state(&ParamShape::Str, &corpus).unwrap();
    let v = s.new_tree(&mut runner).unwrap().current();
    assert_eq!(v, Value::Str(word));
    round_trip(&ParamShape::Str, &v);
}

#[test]
fn corpus_draws_round_trip() {
    let word: Vec<u8> = (0u8..32).collect();
    let corpus = Corpus { words: vec![word] };
    let mut runner = TestRunner::deterministic();
    let shapes = [
        ParamShape::Address,
        ParamShape::UnsignedInt(32),
        ParamShape::SignedInt(16),
        ParamShape::FixedBytes(12),
        ParamShape::DynamicBytes,
        ParamShape::Array(Box::new(ParamShape::Bool)),
    ];
    for shape in shapes.iter() {
        let s = fuzz_param_from_state(shape, &corpus).unwrap();
        for _ in 0..3 {
            let v = s.new_tree(&mut runner).unwrap().current();
            round_trip(shape, &v);
        }
    }
}
