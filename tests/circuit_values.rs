use zkcalc::ast::{Ident, Literal};
use zkcalc::circuit::{prove, Gate, ProvingData, FIELD_ORDER};
use zkcalc::compiler::compile;
use zkcalc::parser::parse;

fn reduce(x: u128) -> u64 {
    (x % FIELD_ORDER as u128) as u64
}

fn pow_mod(base: u64, mut e: u64) -> u64 {
    let mut acc: u64 = 1;
    let mut b = base;
    while e > 0 {
        if e & 1 == 1 {
            acc = reduce(acc as u128 * b as u128);
        }
        b = reduce(b as u128 * b as u128);
        e >>= 1;
    }
    acc
}

/// The value of every target, inputs taken from the assignments.
fn evaluate(data: &ProvingData) -> Vec<u64> {
    let p = FIELD_ORDER as u128;
    let mut values: Vec<u64> = Vec::new();
    for (t, gate) in data.circuit.gates.iter().enumerate() {
        let v = |i: &usize| values[*i] as u128;
        let value = match gate {
            Gate::Constant(c) => *c,
            Gate::Input(_) => {
                data.assignments.iter().find(|(target, _)| *target == t).map(|(_, v)| *v).unwrap()
            }
            Gate::Add(a, b) => reduce(v(a) + v(b)),
            Gate::Sub(a, b) => reduce(v(a) + p - v(b)),
            Gate::Mul(a, b) | Gate::And(a, b) => reduce(v(a) * v(b)),
            Gate::MulConst(c, a) => reduce(*c as u128 * v(a)),
            Gate::Exp(a, b, _) => pow_mod(values[*a], values[*b]),
            Gate::Or(a, b) => reduce(v(a) + v(b) + p * p - v(a) * v(b)),
            Gate::IsEqual(a, b) => (values[*a] == values[*b]) as u64,
            Gate::Select(c, a, b) => reduce(v(c) * v(a) + reduce((1 + p - v(c)) * v(b)) as u128),
        };
        values.push(value);
    }
    values
}

fn public_outputs(source: &str, witness: Vec<(Ident, Literal)>) -> Vec<u64> {
    let compiled = compile(parse(source).unwrap()).unwrap();
    let data = prove(witness, compiled);
    let values = evaluate(&data);
    data.circuit.registered.iter().map(|t| values[*t]).collect()
}

#[test]
fn circuit_outputs_without_inputs() {
    assert_eq!(public_outputs("22 * 44 + 66", vec![]), vec![1034]);
    assert_eq!(public_outputs("22 * (44 + 66)", vec![]), vec![2420]);
    assert_eq!(public_outputs("2^4 + 1", vec![]), vec![17]);
}

#[test]
fn circuit_outputs_public_square() {
    let w = vec![(Ident::new("x"), Literal::Field(3))];
    assert_eq!(public_outputs("pub x: F; let y = x * x; y + 1", w), vec![3, 10]);
}

#[test]
fn circuit_outputs_public_condition() {
    let w = vec![(Ident::new("b"), Literal::Boolean(true))];
    assert_eq!(public_outputs("pub b: Bool; let n = if b then 1 else 2; n * 10", w), vec![1, 10]);
}

#[test]
fn circuit_outputs_negative_values() {
    let w = vec![(Ident::new("x"), Literal::Field(-5))];
    let out = public_outputs("pub x: F; -x * 2 - 20", w);
    assert_eq!(out, vec![FIELD_ORDER - 5, FIELD_ORDER - 10]);
}

#[test]
fn circuit_outputs_boolean_operators() {
    let w = vec![(Ident::new("a"), Literal::Field(7)), (Ident::new("b"), Literal::Boolean(false))];
    let out = public_outputs("pub a: F; pub b: Bool; if (a == 7) || b then a ^ 2 else 0", w);
    assert_eq!(out, vec![7, 0, 49]);
}
