//! Tests for the typed value model: downcasts, copyability, scalars.

use zkvm::errors::VMError;
use zkvm::types::{Constraint, Contract, Data, Expression, Item, PortableItem, Predicate, Value, Variable, WideValue};

fn data_item(bytes: Vec<u8>) -> Item {
    Item::Data(Data { bytes })
}

fn contract_item() -> Item {
    Item::Contract(Contract { payload: Vec::new(), predicate: Predicate(vec![1u8; 32]) })
}

fn value_item() -> Item {
    Item::Value(Value { qty: Variable { index: 0 }, flv: Variable { index: 1 } })
}

fn wide_value_item() -> Item {
    Item::WideValue(WideValue { r1cs_qty: 0, r1cs_flv: 1, witness: None })
}

fn expression_item() -> Item {
    Item::Expression(Expression { terms: vec![(3, vec![7u8; 32])] })
}

fn constraint_item() -> Item {
    let e = Expression { terms: vec![(1, vec![2u8; 32])] };
    let f = Expression { terms: vec![(4, vec![5u8; 32])] };
    Item::Constraint(Constraint::And(
        Box::new(Constraint::Eq(e, f)),
        Box::new(Constraint::Or(
            Box::new(Constraint::Eq(
                Expression { terms: Vec::new() },
                Expression { terms: Vec::new() },
            )),
            Box::new(Constraint::Eq(
                Expression { terms: Vec::new() },
                Expression { terms: Vec::new() },
            )),
        )),
    ))
}

#[test]
fn downcast_to_data() {
    assert!(matches!(data_item(vec![1, 2]).to_data(), Ok(d) if d.bytes == vec![1, 2]));
    assert!(matches!(value_item().to_data(), Err(VMError::TypeNotData)));
}

#[test]
fn downcast_to_variable() {
    assert!(matches!(Item::Variable(Variable { index: 4 }).to_variable(), Ok(v) if v.index == 4));
    assert!(matches!(data_item(vec![]).to_variable(), Err(VMError::TypeNotVariable)));
}

#[test]
fn downcast_to_expression() {
    assert!(expression_item().to_expression().is_ok());
    // A variable is not implicitly cast to an expression.
    assert!(matches!(
        Item::Variable(Variable { index: 0 }).to_expression(),
        Err(VMError::TypeNotExpression)
    ));
}

#[test]
fn downcast_to_value() {
    assert!(value_item().to_value().is_ok());
    assert!(matches!(wide_value_item().to_value(), Err(VMError::TypeNotValue)));
}

#[test]
fn downcast_to_wide_value() {
    assert!(wide_value_item().to_wide_value().is_ok());
    // A value is not implicitly cast to a wide value.
    assert!(matches!(value_item().to_wide_value(), Err(VMError::TypeNotWideValue)));
}

#[test]
fn downcast_to_contract() {
    assert!(contract_item().to_contract().is_ok());
    assert!(matches!(data_item(vec![]).to_contract(), Err(VMError::TypeNotContract)));
}

#[test]
fn portable_items_are_data_and_value() {
    assert!(matches!(data_item(vec![1]).to_portable(), Ok(PortableItem::Data(_))));
    assert!(matches!(value_item().to_portable(), Ok(PortableItem::Value(_))));
    assert!(matches!(contract_item().to_portable(), Err(VMError::TypeNotPortable)));
    assert!(matches!(expression_item().to_portable(), Err(VMError::TypeNotPortable)));
}

#[test]
fn copyable_items_duplicate() {
    assert!(matches!(data_item(vec![1, 2]).duplicate(), Ok(Item::Data(d)) if d.bytes == vec![1, 2]));
    assert!(Item::Variable(Variable { index: 2 }).duplicate().is_ok());
    assert!(expression_item().duplicate().is_ok());
    assert!(constraint_item().duplicate().is_ok());
}

#[test]
fn linear_items_do_not_duplicate() {
    assert!(matches!(contract_item().duplicate(), Err(VMError::TypeNotCopyable)));
    assert!(matches!(value_item().duplicate(), Err(VMError::TypeNotCopyable)));
    assert!(matches!(wide_value_item().duplicate(), Err(VMError::TypeNotCopyable)));
}

#[test]
fn duplicated_constraint_matches() {
    let original = constraint_item();
    let copy = original.duplicate().unwrap();
    match (original, copy) {
        (Item::Constraint(Constraint::And(l1, _)), Item::Constraint(Constraint::And(l2, _))) => {
            match (*l1, *l2) {
                (Constraint::Eq(a1, _), Constraint::Eq(a2, _)) => assert_eq!(a1.terms, a2.terms),
                _ => panic!("constraint shape changed"),
            }
        },
        _ => panic!("constraint shape changed"),
    }
}

#[test]
fn ensure_length_checks_exactly() {
    let d = Data { bytes: vec![0u8; 4] };
    assert!(d.ensure_length(4).is_ok());
    let d = Data { bytes: vec![0u8; 4] };
    assert_eq!(d.ensure_length(5).map(|d| d.bytes), Err(VMError::FormatError));
}

#[test]
fn to_u8x32_requires_32_bytes() {
    let d = Data { bytes: vec![7u8; 32] };
    assert_eq!(d.to_u8x32().unwrap(), vec![7u8; 32]);
    let d = Data { bytes: vec![7u8; 33] };
    assert_eq!(d.to_u8x32(), Err(VMError::FormatError));
}

#[test]
fn to_scalar_accepts_only_canonical_bytes() {
    // The group order l, little-endian: not canonical.
    let order: Vec<u8> = vec![
        0xed, 0xd3, 0xf5, 0x5c, 0x1a, 0x63, 0x12, 0x58, 0xd6, 0x9c, 0xf7, 0xa2, 0xde, 0xf9, 0xde,
        0x14, 0, 0, 0, 0, 0, 0, 0, 0, 0, 0, 0, 0, 0, 0, 0, 0x10,
    ];
    assert!(Data { bytes: order.clone() }.to_scalar().is_err());
    // l - 1 is canonical.
    let mut order_minus_one = order;
    order_minus_one[0] = 0xec;
    let s = Data { bytes: order_minus_one.clone() }.to_scalar().unwrap();
    let arr: [u8; 32] = order_minus_one.as_slice().try_into().unwrap();
    let expected: Option<curve25519_dalek::scalar::Scalar> =
        curve25519_dalek::scalar::Scalar::from_canonical_bytes(arr).into();
    assert_eq!(s, expected.unwrap());
    // One is canonical.
    let mut one = vec![0u8; 32];
    one[0] = 1;
    assert!(Data { bytes: one }.to_scalar().is_ok());
    // Wrong length is a format error.
    assert_eq!(
        Data { bytes: vec![1u8; 31] }.to_scalar().map(|_| ()),
        Err(VMError::FormatError)
    );
}

#[test]
fn issue_flavor_matches_reference_transcript() {
    let predicate = Predicate(vec![3u8; 32]);
    let got = Value::issue_flavor(&predicate);
    let mut t = merlin::Transcript::new(b"ZkVM.issue");
    t.append_message(b"predicate", &[3u8; 32]);
    let mut buf = [0u8; 64];
    t.challenge_bytes(b"flavor", &mut buf);
    let expected = curve25519_dalek::scalar::Scalar::from_bytes_mod_order_wide(&buf);
    assert_eq!(got, expected.to_bytes().to_vec());
    assert_ne!(got, vec![3u8; 32]);
}

#[test]
fn upcasts_are_total() {
    let it: Item = Data { bytes: vec![1] }.into();
    assert!(matches!(it, Item::Data(_)));
    let it: Item = Variable { index: 3 }.into();
    assert!(matches!(it, Item::Variable(v) if v.index == 3));
    let it: Item = PortableItem::Data(Data { bytes: vec![2] }).into();
    assert!(matches!(it, Item::Data(d) if d.bytes == vec![2]));
    let it: Item = PortableItem::Value(Value {
        qty: Variable { index: 0 },
        flv: Variable { index: 1 },
    })
    .into();
    assert!(matches!(it, Item::Value(_)));
}
