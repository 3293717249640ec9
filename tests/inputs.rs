use circom_inputs::{BuildError, WitnessRequest, CircomBuilder, CircomCircuit, CircomConfig, InputError, JsonValue, R1CSInputs, R1CS};
use num_bigint::BigInt;

fn multiplier_config() -> CircomConfig {
    // wires: one, c (public output), a, b
    CircomConfig::new(R1CS { num_inputs: 2, num_variables: 4, wire_mapping: Some(vec![0, 1, 2, 3]) })
}

fn values(b: &CircomBuilder, name: &str) -> Vec<BigInt> {
    for (i, n) in b.names.iter().enumerate() {
        if n == name {
            return b.values[i].clone();
        }
    }
    Vec::new()
}

#[test]
fn document_shapes_give_counts_in_order() {
    let doc = vec![
        ("a".to_string(), JsonValue::Number(3)),
        ("b".to_string(), JsonValue::Str("-123456789012345678901234567890".to_string())),
        (
            "c".to_string(),
            JsonValue::Array(vec![JsonValue::Str("1".to_string()), JsonValue::Str("2".to_string()), JsonValue::Number(7)]),
        ),
    ];
    let r = R1CSInputs::new(doc).unwrap();
    assert_eq!(r.inputs.len(), 3);
    assert_eq!(r.inputs[0].0, "a");
    assert_eq!(r.inputs[0].1, vec![BigInt::from(3)]);
    assert_eq!(r.inputs[1].1, vec!["-123456789012345678901234567890".parse::<BigInt>().unwrap()]);
    assert_eq!(r.inputs[2].1, vec![BigInt::from(1), BigInt::from(2), BigInt::from(7)]);
}

#[test]
fn unsupported_shape_fails_whole_document() {
    let doc = vec![("a".to_string(), JsonValue::Number(3)), ("b".to_string(), JsonValue::Other)];
    assert_eq!(R1CSInputs::new(doc).err(), Some(InputError::DocumentParse));
}

#[test]
fn non_numeric_string_fails_conversion() {
    let doc = vec![("a".to_string(), JsonValue::Str("12x".to_string()))];
    assert_eq!(R1CSInputs::new(doc).err(), Some(InputError::InputConversion));
    let doc = vec![("a".to_string(), JsonValue::Array(vec![JsonValue::Str("1".to_string()), JsonValue::Other]))];
    assert_eq!(R1CSInputs::new(doc).err(), Some(InputError::InputConversion));
}

#[test]
fn shape_error_wins_over_conversion_error() {
    let doc = vec![("a".to_string(), JsonValue::Str("zz".to_string())), ("b".to_string(), JsonValue::Other)];
    assert_eq!(R1CSInputs::new(doc).err(), Some(InputError::DocumentParse));
}

#[test]
fn pushing_same_name_twice_accumulates() {
    let mut b = CircomBuilder::new(multiplier_config());
    b.push_input("a".to_string(), BigInt::from(3));
    b.push_input("a".to_string(), BigInt::from(5));
    assert_eq!(values(&b, "a"), vec![BigInt::from(3), BigInt::from(5)]);
    assert_eq!(b.names.len(), 1);
}

#[test]
fn push_inputs_folds_document_into_builder() {
    let mut b = CircomBuilder::new(multiplier_config());
    b.push_input("a".to_string(), BigInt::from(1));
    let doc = vec![
        ("a".to_string(), JsonValue::Array(vec![JsonValue::Str("2".to_string()), JsonValue::Str("3".to_string())])),
        ("b".to_string(), JsonValue::Number(11)),
    ];
    assert_eq!(b.push_inputs(doc), Ok(()));
    assert_eq!(values(&b, "a"), vec![BigInt::from(1), BigInt::from(2), BigInt::from(3)]);
    assert_eq!(values(&b, "b"), vec![BigInt::from(11)]);
}

#[test]
fn failed_push_inputs_leaves_builder_unchanged() {
    let mut b = CircomBuilder::new(multiplier_config());
    b.push_input("a".to_string(), BigInt::from(1));
    let doc = vec![("b".to_string(), JsonValue::Number(2)), ("c".to_string(), JsonValue::Str("nope".to_string()))];
    assert_eq!(b.push_inputs(doc), Err(InputError::InputConversion));
    assert_eq!(b.names, vec!["a".to_string()]);
}

#[test]
fn setup_has_no_mapping_and_no_witness() {
    let mut b = CircomBuilder::new(multiplier_config());
    let first = b.setup();
    b.push_input("a".to_string(), BigInt::from(3));
    let second = b.setup();
    for c in [first, second] {
        assert!(c.r1cs.wire_mapping.is_none());
        assert!(c.witness.is_none());
        assert_eq!(c.r1cs.num_inputs, 2);
        assert!(c.get_public_inputs().is_none());
    }
}

#[test]
fn build_multiplier_exposes_product() {
    let mut b = CircomBuilder::new(multiplier_config());
    b.push_input("a".to_string(), BigInt::from(3));
    b.push_input("b".to_string(), BigInt::from(11));
    let witness = vec![BigInt::from(1), BigInt::from(33), BigInt::from(3), BigInt::from(11)];
    let c = b.build(Ok(witness)).unwrap();
    assert_eq!(c.get_public_inputs(), Some(vec![BigInt::from(33)]));
}

#[test]
fn build_passes_engine_error_and_checks_length() {
    let b = CircomBuilder::new(multiplier_config());
    assert_eq!(b.build(Err(BuildError::WitnessComputation)).err(), Some(BuildError::WitnessComputation));
    let b = CircomBuilder::new(multiplier_config());
    assert_eq!(b.build(Ok(vec![BigInt::from(1)])).err(), Some(BuildError::WitnessLength));
}

#[test]
fn public_inputs_follow_wire_mapping() {
    let c = CircomCircuit {
        r1cs: R1CS { num_inputs: 3, num_variables: 4, wire_mapping: Some(vec![0, 3, 1, 2]) },
        witness: Some(vec![BigInt::from(1), BigInt::from(10), BigInt::from(20), BigInt::from(30)]),
    };
    assert_eq!(c.get_public_inputs(), Some(vec![BigInt::from(30), BigInt::from(10)]));
    let bad = CircomCircuit {
        r1cs: R1CS { num_inputs: 2, num_variables: 2, wire_mapping: Some(vec![0, 9]) },
        witness: Some(vec![BigInt::from(1), BigInt::from(2)]),
    };
    assert_eq!(bad.get_public_inputs(), None);
}

#[test]
fn negative_number_and_signed_literals_convert() {
    let doc = vec![
        ("n".to_string(), JsonValue::Number(-7)),
        ("s".to_string(), JsonValue::Str("-5".to_string())),
        ("p".to_string(), JsonValue::Str("+1_000".to_string())),
    ];
    let r = R1CSInputs::new(doc).unwrap();
    assert_eq!(r.inputs[0].1, vec![BigInt::from(-7)]);
    assert_eq!(r.inputs[1].1, vec![BigInt::from(-5)]);
    assert_eq!(r.inputs[2].1, vec![BigInt::from(1000)]);
}

#[test]
fn malformed_literals_are_rejected() {
    for bad in ["", "-", "+", "_1", "-+5", "++5", "1.5", "abc"] {
        let doc = vec![("a".to_string(), JsonValue::Str(bad.to_string()))];
        assert_eq!(R1CSInputs::new(doc).err(), Some(InputError::InputConversion), "{}", bad);
    }
}

#[test]
fn new_builder_holds_no_names() {
    let b = CircomBuilder::new(multiplier_config());
    assert!(b.names.is_empty());
    assert!(b.values.is_empty());
}

#[test]
fn second_document_accumulates() {
    let mut b = CircomBuilder::new(multiplier_config());
    assert_eq!(b.push_inputs(vec![("a".to_string(), JsonValue::Str("3".to_string()))]), Ok(()));
    assert_eq!(b.push_inputs(vec![("a".to_string(), JsonValue::Str("5".to_string()))]), Ok(()));
    assert_eq!(values(&b, "a"), vec![BigInt::from(3), BigInt::from(5)]);
}

#[test]
fn empty_array_adds_no_name() {
    let mut b = CircomBuilder::new(multiplier_config());
    assert_eq!(b.push_inputs(vec![("a".to_string(), JsonValue::Array(vec![]))]), Ok(()));
    assert!(b.names.is_empty());
}

#[test]
fn witness_request_carries_inputs_and_flag() {
    let mut cfg = multiplier_config();
    cfg.sanity_check = true;
    let mut b = CircomBuilder::new(cfg);
    b.push_input("a".to_string(), BigInt::from(3));
    b.push_input("b".to_string(), BigInt::from(11));
    b.push_input("a".to_string(), BigInt::from(4));
    let req: WitnessRequest = b.witness_request();
    assert_eq!(req.names, vec!["a".to_string(), "b".to_string()]);
    assert_eq!(req.values, vec![vec![BigInt::from(3), BigInt::from(4)], vec![BigInt::from(11)]]);
    assert!(req.sanity_check);
}

#[test]
fn witness_generation_circom2() {
    let mut b = CircomBuilder::new(multiplier_config());
    b.push_input("a".to_string(), BigInt::from(3));
    b.push_input("b".to_string(), BigInt::from(0x100000000u64 - 1));
    let product = BigInt::from(3) * BigInt::from(0x100000000u64 - 1);
    let witness = vec![BigInt::from(1), product, BigInt::from(3), BigInt::from(0x100000000u64 - 1)];
    assert!(b.build(Ok(witness)).is_ok());
}
