use share_conversion::circuit::{BinaryRepr, Circuit, CircuitError, Gate, Value, ValueKind, ValueType};

fn build_adder() -> Circuit {
    let a: Vec<usize> = (2..10).collect();
    let b: Vec<usize> = (10..18).collect();
    let mut next = 18;
    let mut gates = Vec::new();
    let mut carry = 0;
    let mut sum = Vec::new();
    for i in 0..8 {
        let t = next;
        gates.push(Gate::Xor { x: a[i], y: b[i], z: t });
        let s = next + 1;
        gates.push(Gate::Xor { x: t, y: carry, z: s });
        let ab = next + 2;
        gates.push(Gate::And { x: a[i], y: b[i], z: ab });
        let ct = next + 3;
        gates.push(Gate::And { x: carry, y: t, z: ct });
        let c = next + 4;
        gates.push(Gate::Xor { x: ab, y: ct, z: c });
        next += 5;
        carry = c;
        sum.push(s);
    }
    Circuit::new(
        vec![
            BinaryRepr::Primitive(ValueType::U8, a),
            BinaryRepr::Primitive(ValueType::U8, b),
        ],
        vec![BinaryRepr::Primitive(ValueType::U8, sum)],
        gates,
        next,
    )
    .unwrap()
}

#[test]
fn test_evaluate() {
    let circ = build_adder();
    let out = circ.evaluate(&[Value::U8(1), Value::U8(2)]).unwrap();
    assert_eq!(out, vec![Value::U8(3)]);
}

#[test]
fn adder_wraps_around() {
    let circ = build_adder();
    let out = circ.evaluate(&[Value::U8(200), Value::U8(100)]).unwrap();
    assert_eq!(out, vec![Value::U8(44)]);
}

#[test]
fn adder_counts() {
    let circ = build_adder();
    assert_eq!(circ.gates_count(), 40);
    assert_eq!(circ.and_count(), 16);
    assert_eq!(circ.xor_count(), 24);
    assert_eq!(circ.feed_count(), 58);
    assert_eq!(circ.inputs().len(), 2);
    assert_eq!(circ.outputs().len(), 1);
}

#[test]
fn evaluate_rejects_wrong_input_count() {
    let circ = build_adder();
    let r = circ.evaluate(&[Value::U8(1)]);
    assert_eq!(r, Err(CircuitError::InvalidInputCount(2, 1)));
}

#[test]
fn evaluate_rejects_wrong_type() {
    let circ = build_adder();
    let r = circ.evaluate(&[Value::U8(1), Value::U16(2)]);
    assert_eq!(
        r,
        Err(CircuitError::UnexpectedType {
            expected: ValueKind::Primitive(ValueType::U8),
            actual: ValueKind::Primitive(ValueType::U16),
        })
    );
}

fn build_array_passthrough() -> Circuit {
    // Inverts each bit of a two-element array of bits, and passes a bit through twice.
    Circuit::new(
        vec![BinaryRepr::Array(ValueType::Bit, vec![vec![2], vec![3]])],
        vec![
            BinaryRepr::Array(ValueType::Bit, vec![vec![4], vec![5]]),
            BinaryRepr::Primitive(ValueType::Bit, vec![2]),
        ],
        vec![Gate::Inv { x: 2, z: 4 }, Gate::Inv { x: 3, z: 5 }],
        6,
    )
    .unwrap()
}

#[test]
fn evaluate_arrays() {
    let circ = build_array_passthrough();
    let out = circ.evaluate(&[Value::Array(ValueType::Bit, vec![1, 0])]).unwrap();
    assert_eq!(out, vec![Value::Array(ValueType::Bit, vec![0, 1]), Value::Bit(true)]);
}

#[test]
fn reverse_input_reverses_array_elements() {
    let circ = build_array_passthrough().reverse_input(0);
    assert_eq!(circ.inputs()[0], BinaryRepr::Array(ValueType::Bit, vec![vec![3], vec![2]]));
    let out = circ.evaluate(&[Value::Array(ValueType::Bit, vec![1, 0])]).unwrap();
    assert_eq!(out, vec![Value::Array(ValueType::Bit, vec![1, 0]), Value::Bit(false)]);
}

#[test]
fn reverse_output_keeps_primitives() {
    let circ = build_array_passthrough().reverse_output(1).reverse_output(0).reverse_output(9);
    assert_eq!(circ.outputs()[0], BinaryRepr::Array(ValueType::Bit, vec![vec![5], vec![4]]));
    assert_eq!(circ.outputs()[1], BinaryRepr::Primitive(ValueType::Bit, vec![2]));
}

#[test]
fn reverse_inputs_and_outputs() {
    let circ = build_adder().reverse_outputs();
    assert_eq!(circ.outputs().len(), 1);
    let circ = build_array_passthrough().reverse_outputs();
    assert_eq!(circ.outputs()[0], BinaryRepr::Primitive(ValueType::Bit, vec![2]));
    let a: Vec<usize> = (2..10).collect();
    let circ = build_adder().reverse_inputs();
    assert_eq!(circ.inputs()[1], BinaryRepr::Primitive(ValueType::U8, a));
}

#[test]
fn gate_iterator_peeks_and_advances() {
    let circ = build_array_passthrough();
    let mut it = circ.gates();
    assert_eq!(it.circuit().feed_count(), 6);
    assert_eq!(it.peek(), Some(&Gate::Inv { x: 2, z: 4 }));
    assert_eq!(it.next(), Some(Gate::Inv { x: 2, z: 4 }));
    assert_eq!(it.peek(), Some(&Gate::Inv { x: 3, z: 5 }));
    assert_eq!(it.next(), Some(Gate::Inv { x: 3, z: 5 }));
    assert_eq!(it.peek(), None);
    assert_eq!(it.next(), None);
}

#[test]
fn new_rejects_out_of_range_feeds() {
    assert!(Circuit::new(vec![], vec![], vec![Gate::Inv { x: 0, z: 2 }], 2).is_none());
    assert!(Circuit::new(vec![BinaryRepr::Primitive(ValueType::Bit, vec![5])], vec![], vec![], 3).is_none());
    assert!(Circuit::new(vec![BinaryRepr::Primitive(ValueType::U8, vec![2])], vec![], vec![], 3).is_none());
    assert!(Circuit::new(vec![], vec![], vec![], 1).is_none());
    assert!(Circuit::new(vec![], vec![], vec![], 2).is_some());
}

#[test]
fn constant_feeds() {
    let circ = Circuit::new(
        vec![],
        vec![BinaryRepr::Primitive(ValueType::Bit, vec![0]), BinaryRepr::Primitive(ValueType::Bit, vec![1])],
        vec![],
        2,
    )
    .unwrap();
    assert_eq!(circ.evaluate(&[]).unwrap(), vec![Value::Bit(false), Value::Bit(true)]);
}
