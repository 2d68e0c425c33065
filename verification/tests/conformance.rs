//! Draws from randomly-seeded strategies match their declared shapes.

use abi_fuzz::{fuzz_param, FuzzError, ParamShape, Value};
use proptest::strategy::{Strategy, ValueTree};
use proptest::test_runner::TestRunner;

fn draw(shape: &ParamShape, runner: &mut TestRunner) -> Value {
    let s = fuzz_param(shape).unwrap();
    s.new_tree(runner).unwrap().current()
}

fn all_eq(b: &[u8], x: u8) -> bool {
    b.iter().all(|y| *y == x)
}

/// A 32-byte two's-complement word reads as a value in [-128, 128).
fn int8_in_range(b: &[u8]) -> bool {
    assert_eq!(b.len(), 32);
    (all_eq(&b[..31], 0x00) && b[31] < 128) || (all_eq(&b[..31], 0xFF) && b[31] >= 128)
}

#[test]
fn address_draws_are_20_bytes() {
    let mut runner = TestRunner::deterministic();
    for _ in 0..50 {
        match draw(&ParamShape::Address, &mut runner) {
            Value::Address(b) => assert_eq!(b.len(), 20),
            other => panic!("expected an address, got {:?}", other),
        }
    }
}

#[test]
fn array_length_below_max() {
    let mut runner = TestRunner::deterministic();
    let shape = ParamShape::Array(Box::new(ParamShape::UnsignedInt(8)));
    for _ in 0..20 {
        match draw(&shape, &mut runner) {
            Value::Array(vs) => assert!(vs.len() < 256),
            other => panic!("expected an array, got {:?}", other),
        }
    }
}

#[test]
fn uint8_draws_below_256() {
    let mut runner = TestRunner::deterministic();
    for _ in 0..50 {
        match draw(&ParamShape::UnsignedInt(8), &mut runner) {
            Value::Uint(b) => {
                assert_eq!(b.len(), 32);
                assert!(all_eq(&b[..31], 0));
            }
            other => panic!("expected an unsigned integer, got {:?}", other),
        }
    }
}

#[test]
fn uint16_draws_below_65536() {
    let mut runner = TestRunner::deterministic();
    for _ in 0..50 {
        match draw(&ParamShape::UnsignedInt(16), &mut runner) {
            Value::Uint(b) => {
                assert_eq!(b.len(), 32);
                assert!(all_eq(&b[..30], 0));
            }
            other => panic!("expected an unsigned integer, got {:?}", other),
        }
    }
}

#[test]
fn int8_draws_in_signed_range() {
    let mut runner = TestRunner::deterministic();
    for _ in 0..50 {
        match draw(&ParamShape::SignedInt(8), &mut runner) {
            Value::Int(b) => assert!(int8_in_range(&b)),
            other => panic!("expected a signed integer, got {:?}", other),
        }
    }
}

#[test]
fn int256_draws_are_full_words() {
    let mut runner = TestRunner::deterministic();
    for _ in 0..20 {
        match draw(&ParamShape::SignedInt(256), &mut runner) {
            Value::Int(b) => assert_eq!(b.len(), 32),
            other => panic!("expected a signed integer, got {:?}", other),
        }
    }
}

#[test]
fn fixed_bytes_draws_have_exact_size() {
    let mut runner = TestRunner::deterministic();
    for _ in 0..20 {
        match draw(&ParamShape::FixedBytes(7), &mut runner) {
            Value::FixedBytes(b) => assert_eq!(b.len(), 7),
            other => panic!("expected fixed bytes, got {:?}", other),
        }
    }
}

#[test]
fn fixed_array_draws_have_exact_size() {
    let mut runner = TestRunner::deterministic();
    let shape = ParamShape::FixedArray(Box::new(ParamShape::Bool), 5);
    for _ in 0..20 {
        match draw(&shape, &mut runner) {
            Value::FixedArray(vs) => {
                assert_eq!(vs.len(), 5);
                for v in vs {
                    assert!(matches!(v, Value::Bool(_)));
                }
            }
            other => panic!("expected a fixed array, got {:?}", other),
        }
    }
}

#[test]
fn tuple_draws_match_arity_and_component_shapes() {
    let mut runner = TestRunner::deterministic();
    let shape = ParamShape::Tuple(vec![
        ParamShape::Address,
        ParamShape::UnsignedInt(8),
        ParamShape::Bool,
    ]);
    for _ in 0..20 {
        match draw(&shape, &mut runner) {
            Value::Tuple(vs) => {
                assert_eq!(vs.len(), 3);
                assert!(matches!(&vs[0], Value::Address(b) if b.len() == 20));
                assert!(matches!(&vs[1], Value::Uint(b) if all_eq(&b[..31], 0)));
                assert!(matches!(&vs[2], Value::Bool(_)));
            }
            other => panic!("expected a tuple, got {:?}", other),
        }
    }
}

#[test]
fn nested_array_leaves_below_256() {
    let mut runner = TestRunner::deterministic();
    let shape = ParamShape::Array(Box::new(ParamShape::Array(Box::new(
        ParamShape::UnsignedInt(8),
    ))));
    for _ in 0..5 {
        match draw(&shape, &mut runner) {
            Value::Array(outer) => {
                assert!(outer.len() < 256);
                for inner in outer {
                    match inner {
                        Value::Array(vs) => {
                            assert!(vs.len() < 256);
                            for v in vs {
                                match v {
                                    Value::Uint(b) => assert!(all_eq(&b[..31], 0)),
                                    other => panic!("expected uint8 leaf, got {:?}", other),
                                }
                            }
                        }
                        other => panic!("expected an inner array, got {:?}", other),
                    }
                }
            }
            other => panic!("expected an outer array, got {:?}", other),
        }
    }
}

#[test]
fn string_draws_carry_arbitrary_bytes_without_fault() {
    let mut runner = TestRunner::deterministic();
    for _ in 0..50 {
        match draw(&ParamShape::Str, &mut runner) {
            Value::Str(_) => {}
            other => panic!("expected a text value, got {:?}", other),
        }
    }
}

#[test]
fn bytes_draws_are_byte_strings() {
    let mut runner = TestRunner::deterministic();
    for _ in 0..20 {
        match draw(&ParamShape::DynamicBytes, &mut runner) {
            Value::Bytes(_) => {}
            other => panic!("expected a byte string, got {:?}", other),
        }
    }
}

#[test]
fn bool_draws_reach_both_values() {
    let mut runner = TestRunner::deterministic();
    let mut seen_true = false;
    let mut seen_false = false;
    for _ in 0..200 {
        match draw(&ParamShape::Bool, &mut runner) {
            Value::Bool(true) => seen_true = true,
            Value::Bool(false) => seen_false = true,
            other => panic!("expected a boolean, got {:?}", other),
        }
    }
    assert!(seen_true && seen_false);
}

#[test]
fn unsupported_widths_are_rejected_at_construction() {
    assert!(matches!(fuzz_param(&ParamShape::SignedInt(7)), Err(FuzzError::UnsupportedWidth)));
    assert!(matches!(fuzz_param(&ParamShape::SignedInt(0)), Err(FuzzError::UnsupportedWidth)));
    assert!(matches!(fuzz_param(&ParamShape::UnsignedInt(12)), Err(FuzzError::UnsupportedWidth)));
    assert!(matches!(fuzz_param(&ParamShape::UnsignedInt(264)), Err(FuzzError::UnsupportedWidth)));
    let nested = ParamShape::Tuple(vec![
        ParamShape::Bool,
        ParamShape::Array(Box::new(ParamShape::SignedInt(9))),
    ]);
    assert!(matches!(fuzz_param(&nested), Err(FuzzError::UnsupportedWidth)));
    assert!(fuzz_param(&ParamShape::UnsignedInt(256)).is_ok());
}

#[test]
fn bytes_and_text_shrink_to_the_empty_draw() {
    let mut runner = TestRunner::deterministic();
    let s = fuzz_param(&ParamShape::DynamicBytes).unwrap();
    let mut tree = s.new_tree(&mut runner).unwrap();
    while tree.simplify() {}
    assert_eq!(tree.current(), Value::Bytes(vec![]));
    let s = fuzz_param(&ParamShape::Str).unwrap();
    let mut tree = s.new_tree(&mut runner).unwrap();
    while tree.simplify() {}
    assert_eq!(tree.current(), Value::Str(vec![]));
}

#[test]
fn uint8_draws_vary_over_the_range() {
    let mut runner = TestRunner::deterministic();
    let mut seen = [false; 256];
    for _ in 0..200 {
        match draw(&ParamShape::UnsignedInt(8), &mut runner) {
            Value::Uint(b) => seen[b[31] as usize] = true,
            other => panic!("expected an unsigned integer, got {:?}", other),
        }
    }
    let distinct = seen.iter().filter(|x| **x).count();
    assert!(distinct >= 20, "only {} distinct draws", distinct);
}
