//! Lowering of a compiled program to an arithmetic circuit over the
//! Goldilocks field, as a plan of gates that a proving backend replays: each
//! gate yields one target, numbered by its position.
use vstd::prelude::*;
use vstd::arithmetic::div_mod::{
    lemma_add_mod_noop, lemma_mod_multiples_vanish, lemma_mul_mod_noop, lemma_small_mod,
    lemma_sub_mod_noop,
};
use crate::compiler::is_public;
use vstd::arithmetic::power::{lemma_pow_mod_noop, pow};
use vstd::arithmetic::power2::{lemma2_to64, pow2};
use crate::ast::{Expr, Ident, Literal, Opcode, UOpcode};
use crate::compiler::CompiledProgram;
use crate::env::{find_last, lookup};
use crate::interpreter::{eval, field_op, pow_i32, pow_wrapping, Env, Value};

verus! {

/// The order of the Goldilocks field, `2^64 - 2^32 + 1`.
pub const FIELD_ORDER: u64 = 0xFFFF_FFFF_0000_0001;

/// The bit width allowed for an exponent.
pub const EXP_BITS: usize = 10;

pub open spec fn fp() -> int {
    FIELD_ORDER as int
}

/// Reduction into the field.
pub open spec fn fmod(x: int) -> int {
    x % fp()
}

/// An `i32` as a field element: negative values map to additive inverses.
pub open spec fn encode_i32(n: i32) -> int {
    if n >= 0 {
        n as int
    } else {
        fp() + n
    }
}

pub open spec fn encode_value(v: Value) -> int {
    match v {
        Value::Field(n) => encode_i32(n),
        Value::Boolean(b) => if b {
            1
        } else {
            0
        },
    }
}

pub open spec fn encode_literal(l: Literal) -> int {
    match l {
        Literal::Field(n) => encode_i32(n),
        Literal::Boolean(b) => if b {
            1
        } else {
            0
        },
    }
}

/// A gate of the circuit. Operands are earlier targets; booleans are field
/// elements `0` and `1`, not constrained to be so.
#[derive(Debug, PartialEq, Eq, Clone)]
pub enum Gate {
    /// A constant field element.
    Constant(u64),
    /// An unassigned target for the public variable of this name.
    Input(Ident),
    Add(usize, usize),
    Sub(usize, usize),
    Mul(usize, usize),
    /// A constant times a target.
    MulConst(u64, usize),
    /// Base, exponent, and the bit width that the exponent must fit.
    Exp(usize, usize, usize),
    And(usize, usize),
    Or(usize, usize),
    IsEqual(usize, usize),
    /// Condition, value if one, value if zero.
    Select(usize, usize, usize),
}

/// The value of an exponentiation whose exponent must fit in `bits` bits.
/// A wider exponent leaves the circuit without a satisfying witness; the
/// value then stands at zero.
pub open spec fn exp_value(base: int, exponent: int, bits: usize) -> int {
    if 0 <= exponent < pow2(bits as nat) {
        fmod(pow(base, exponent as nat))
    } else {
        0
    }
}

/// The field operation of a binary operator, as the gates compute it.
pub open spec fn field_binop(op: Opcode, a: int, b: int) -> int {
    match op {
        Opcode::Add => fmod(a + b),
        Opcode::Sub => fmod(a - b),
        Opcode::Mul => fmod(a * b),
        Opcode::Pow => exp_value(a, b, EXP_BITS),
        Opcode::And => fmod(a * b),
        Opcode::Or => fmod(a + b - a * b),
        Opcode::Eq => if a == b {
            1
        } else {
            0
        },
    }
}

/// The value of `e` in the field, where `fenv` gives each free name a value.
pub open spec fn feval(e: Expr, fenv: Map<Seq<char>, int>) -> int
    decreases e,
{
    match e {
        Expr::Literal { value, .. } => encode_literal(value),
        Expr::Variable { value, .. } => fmod(fenv[value@]),
        Expr::UnaryOp { expr, .. } => fmod((fp() - 1) * feval(*expr, fenv)),
        Expr::BinOp { lhs, op, rhs, .. } => field_binop(op, feval(*lhs, fenv), feval(*rhs, fenv)),
        Expr::IfThenElse { cond, _then, _else, .. } => {
            let b = feval(*cond, fenv);
            fmod(b * feval(*_then, fenv) + (1 - b) * feval(*_else, fenv))
        },
    }
}

/// Every operand of a gate is an earlier target.
pub open spec fn gate_wf(g: Gate, t: int) -> bool {
    match g {
        Gate::Constant(_) | Gate::Input(_) => true,
        Gate::Add(a, b) | Gate::Sub(a, b) | Gate::Mul(a, b) | Gate::And(a, b) | Gate::Or(a, b)
        | Gate::IsEqual(a, b) => a < t && b < t,
        Gate::MulConst(_, a) => a < t,
        Gate::Exp(a, b, _) => a < t && b < t,
        Gate::Select(c, a, b) => c < t && a < t && b < t,
    }
}

pub open spec fn gates_wf(gs: Seq<Gate>) -> bool {
    forall|t: int| 0 <= t < gs.len() ==> gate_wf(#[trigger] gs[t], t)
}

/// The value of target `t`, where `fenv` gives each input its value.
pub open spec fn gate_value(gs: Seq<Gate>, t: int, fenv: Map<Seq<char>, int>) -> int
    decreases t,
{
    if t < 0 || t >= gs.len() || !gate_wf(gs[t], t) {
        0
    } else {
        match gs[t] {
            Gate::Constant(c) => fmod(c as int),
            Gate::Input(x) => fmod(fenv[x@]),
            Gate::Add(a, b) => fmod(gate_value(gs, a as int, fenv) + gate_value(gs, b as int, fenv)),
            Gate::Sub(a, b) => fmod(gate_value(gs, a as int, fenv) - gate_value(gs, b as int, fenv)),
            Gate::Mul(a, b) => fmod(gate_value(gs, a as int, fenv) * gate_value(gs, b as int, fenv)),
            Gate::MulConst(c, a) => fmod(c * gate_value(gs, a as int, fenv)),
            Gate::Exp(a, b, bits) => exp_value(
                gate_value(gs, a as int, fenv),
                gate_value(gs, b as int, fenv),
                bits,
            ),
            Gate::And(a, b) => fmod(gate_value(gs, a as int, fenv) * gate_value(gs, b as int, fenv)),
            Gate::Or(a, b) => {
                let x = gate_value(gs, a as int, fenv);
                let y = gate_value(gs, b as int, fenv);
                fmod(x + y - x * y)
            },
            Gate::IsEqual(a, b) => if gate_value(gs, a as int, fenv) == gate_value(
                gs,
                b as int,
                fenv,
            ) {
                1
            } else {
                0
            },
            Gate::Select(c, a, b) => {
                let s = gate_value(gs, c as int, fenv);
                fmod(s * gate_value(gs, a as int, fenv) + (1 - s) * gate_value(gs, b as int, fenv))
            },
        }
    }
}

/// Appending gates does not change the value of an existing target.
pub proof fn lemma_gate_value_prefix(gs: Seq<Gate>, more: Seq<Gate>, t: int, fenv: Map<Seq<char>, int>)
    requires
        0 <= t < gs.len() <= more.len(),
        more.subrange(0, gs.len() as int) == gs,
    ensures
        gate_value(gs, t, fenv) == gate_value(more, t, fenv),
    decreases t,
{
    assert(more[t] == more.subrange(0, gs.len() as int)[t]);
    if gate_wf(gs[t], t) {
        match gs[t] {
            Gate::Add(a, b) | Gate::Sub(a, b) | Gate::Mul(a, b) | Gate::And(a, b) | Gate::Or(a, b)
            | Gate::IsEqual(a, b) | Gate::Exp(a, b, _) => {
                lemma_gate_value_prefix(gs, more, a as int, fenv);
                lemma_gate_value_prefix(gs, more, b as int, fenv);
            },
            Gate::MulConst(_, a) => {
                lemma_gate_value_prefix(gs, more, a as int, fenv);
            },
            Gate::Select(c, a, b) => {
                lemma_gate_value_prefix(gs, more, c as int, fenv);
                lemma_gate_value_prefix(gs, more, a as int, fenv);
                lemma_gate_value_prefix(gs, more, b as int, fenv);
            },
            _ => {},
        }
    }
}

/// Each entry names an input gate at its target.
pub open spec fn inputs_ok(inputs: Seq<(Ident, usize)>, gs: Seq<Gate>) -> bool {
    forall|k: int|
        0 <= k < inputs.len() ==> (#[trigger] inputs[k]).1 < gs.len() && gs[inputs[k].1 as int]
            == Gate::Input(inputs[k].0)
}

/// Every input gate is the one that `inputs` gives for its name.
pub open spec fn inputs_exact(inputs: Seq<(Ident, usize)>, gs: Seq<Gate>) -> bool {
    forall|t: int|
        0 <= t < gs.len() ==> (#[trigger] gs[t] matches Gate::Input(x) ==> lookup(inputs, x@)
            == Some(t as usize))
}

/// A field element for an `i32`.
pub fn from_i32(n: i32) -> (r: u64)
    ensures
        r as int == encode_i32(n),
{
    if n >= 0 {
        n as u64
    } else {
        let m: i64 = n as i64;
        let neg: u64 = (0i64 - m) as u64;
        FIELD_ORDER - neg
    }
}

/// A field element for a boolean: one or zero.
pub fn from_bool(b: bool) -> (r: u64)
    ensures
        r as int == (if b {
            1int
        } else {
            0int
        }),
{
    if b {
        1
    } else {
        0
    }
}

/// The field element of a literal.
pub fn from_literal(lit: Literal) -> (r: u64)
    ensures
        r as int == encode_literal(lit),
{
    match lit {
        Literal::Field(n) => from_i32(n),
        Literal::Boolean(b) => from_bool(b),
    }
}

proof fn lemma_encode_literal_range(l: Literal)
    ensures
        0 <= encode_literal(l) < fp(),
        fmod(encode_literal(l)) == encode_literal(l),
{
    lemma_small_mod(encode_literal(l) as nat, fp() as nat);
}

/// Appends `g` and returns its target.
fn push_gate(gates: &mut Vec<Gate>, g: Gate) -> (t: usize)
    requires
        gate_wf(g, old(gates)@.len() as int),
        gates_wf(old(gates)@),
    ensures
        final(gates)@ == old(gates)@.push(g),
        final(gates)@.subrange(0, old(gates)@.len() as int) == old(gates)@,
        t == old(gates)@.len(),
        gates_wf(final(gates)@),
{
    let t = gates.len();
    gates.push(g);
    assert(gates@.subrange(0, t as int) =~= old(gates)@);
    t
}

/// Translates `expr` into gates appended to `gates`; returns the target of its
/// value. The first occurrence of a name adds an input gate, recorded in
/// `inputs`; later ones reuse it.
fn interpret_as_target(inputs: &mut Vec<(Ident, usize)>, gates: &mut Vec<Gate>, expr: &Expr) -> (t: usize)
    requires
        gates_wf(old(gates)@),
        inputs_ok(old(inputs)@, old(gates)@),
        inputs_exact(old(inputs)@, old(gates)@),
    ensures
        gates_wf(final(gates)@),
        inputs_exact(final(inputs)@, final(gates)@),
        forall|x: Seq<char>| #[trigger]
            lookup(old(inputs)@, x) is Some ==> lookup(final(inputs)@, x) == lookup(old(inputs)@, x),
        forall|x: Seq<char>| #[trigger]
            lookup(final(inputs)@, x) is Some ==> lookup(old(inputs)@, x) is Some
                || expr.free_vars().contains(x),
        old(gates)@.len() <= final(gates)@.len(),
        final(gates)@.subrange(0, old(gates)@.len() as int) == old(gates)@,
        t < final(gates)@.len(),
        forall|fenv: Map<Seq<char>, int>| #[trigger]
            gate_value(final(gates)@, t as int, fenv) == feval(*expr, fenv),
        inputs_ok(final(inputs)@, final(gates)@),
        old(inputs)@.len() <= final(inputs)@.len(),
        final(inputs)@.subrange(0, old(inputs)@.len() as int) == old(inputs)@,
        forall|x: Seq<char>| #[trigger]
            expr.free_vars().contains(x) ==> lookup(final(inputs)@, x) is Some,
    decreases expr,
{
    let ghost g0 = gates@;
    let ghost i0 = inputs@;
    match expr {
        Expr::Literal { value, .. } => {
            let t = push_gate(gates, Gate::Constant(from_literal(*value)));
            proof {
                lemma_encode_literal_range(*value);
                assert(gates@.subrange(0, g0.len() as int) =~= g0);
                lemma_inputs_ok_grow(inputs@, g0, gates@);
                assert(expr.free_vars() =~= Set::<Seq<char>>::empty());
            }
            assert(inputs@.subrange(0, i0.len() as int) =~= i0);
            t
        },
        Expr::Variable { value, .. } => {
            match find_last(inputs, value) {
                Some(k) => {
                    let t = inputs[k].1;
                    assert(gates@.subrange(0, g0.len() as int) =~= g0);
                    assert(inputs@.subrange(0, i0.len() as int) =~= i0);
                    proof {
                        assert(inputs@[k as int] == inputs@[k as int]);
                        assert forall|x: Seq<char>| #[trigger]
                            expr.free_vars().contains(x) implies lookup(inputs@, x) is Some by {
                            assert(x == value@);
                        }
                    }
                    t
                },
                None => {
                    let t = push_gate(gates, Gate::Input(value.copy()));
                    inputs.push((value.copy(), t));
                    proof {
                        assert(gates@.subrange(0, g0.len() as int) =~= g0);
                        lemma_inputs_ok_grow(i0, g0, gates@);
                        assert(inputs@.subrange(0, i0.len() as int) =~= i0);
                        assert(inputs@.drop_last() =~= i0);
                        assert forall|x: Seq<char>| #[trigger]
                            expr.free_vars().contains(x) implies lookup(inputs@, x) is Some by {
                            assert(x == value@);
                        }
                    }
                    t
                },
            }
        },
        Expr::UnaryOp { op, expr: inner, .. } => {
            let a = interpret_as_target(inputs, gates, inner);
            let ghost g1 = gates@;
            let t = match op {
                UOpcode::Neg => push_gate(gates, Gate::MulConst(FIELD_ORDER - 1, a)),
            };
            proof {
                lemma_extend(g0, g1, gates@, i0, inputs@);
                assert forall|fenv: Map<Seq<char>, int>| #[trigger]
                    gate_value(gates@, t as int, fenv) == feval(*expr, fenv) by {
                    lemma_gate_value_prefix(g1, gates@, a as int, fenv);
                }
                assert forall|x: Seq<char>| #[trigger]
                    expr.free_vars().contains(x) implies lookup(inputs@, x) is Some by {
                    assert(inner.free_vars().contains(x));
                }
            }
            t
        },
        Expr::BinOp { lhs, op, rhs, .. } => {
            let a = interpret_as_target(inputs, gates, lhs);
            let ghost g1 = gates@;
            let ghost i1 = inputs@;
            let b = interpret_as_target(inputs, gates, rhs);
            let ghost g2 = gates@;
            let ghost i2 = inputs@;
            let g = match op {
                Opcode::Add => Gate::Add(a, b),
                Opcode::Sub => Gate::Sub(a, b),
                Opcode::Mul => Gate::Mul(a, b),
                Opcode::Pow => Gate::Exp(a, b, EXP_BITS),
                Opcode::And => Gate::And(a, b),
                Opcode::Or => Gate::Or(a, b),
                Opcode::Eq => Gate::IsEqual(a, b),
            };
            let t = push_gate(gates, g);
            proof {
                lemma_extend(g0, g1, g2, i0, i1);
                lemma_extend(g0, g2, gates@, i0, i2);
                lemma_extend(g1, g2, gates@, i1, i2);
                lemma_lookup_grow(i0, i1, i2, lhs.free_vars(), rhs.free_vars());
                assert forall|fenv: Map<Seq<char>, int>| #[trigger]
                    gate_value(gates@, t as int, fenv) == feval(*expr, fenv) by {
                    lemma_gate_value_prefix(g1, gates@, a as int, fenv);
                    lemma_gate_value_prefix(g2, gates@, b as int, fenv);
                }
                assert forall|x: Seq<char>| #[trigger]
                    expr.free_vars().contains(x) implies lookup(inputs@, x) is Some by {
                    assert(lhs.free_vars().contains(x) || rhs.free_vars().contains(x));
                }
            }
            t
        },
        Expr::IfThenElse { cond, _then, _else, .. } => {
            let c = interpret_as_target(inputs, gates, cond);
            let ghost g1 = gates@;
            let ghost i1 = inputs@;
            let a = interpret_as_target(inputs, gates, _then);
            let ghost g2 = gates@;
            let ghost i2 = inputs@;
            let b = interpret_as_target(inputs, gates, _else);
            let ghost g3 = gates@;
            let ghost i3 = inputs@;
            let t = push_gate(gates, Gate::Select(c, a, b));
            proof {
                lemma_extend(g0, g1, g2, i0, i1);
                lemma_extend(g0, g2, g3, i0, i2);
                lemma_extend(g0, g3, gates@, i0, i3);
                lemma_extend(g1, g2, g3, i1, i2);
                lemma_extend(g1, g3, gates@, i1, i3);
                lemma_extend(g2, g3, gates@, i2, i3);
                lemma_lookup_grow(i0, i1, i2, cond.free_vars(), _then.free_vars());
                lemma_lookup_grow(i0, i2, i3, cond.free_vars() + _then.free_vars(), _else.free_vars());
                assert forall|fenv: Map<Seq<char>, int>| #[trigger]
                    gate_value(gates@, t as int, fenv) == feval(*expr, fenv) by {
                    lemma_gate_value_prefix(g1, gates@, c as int, fenv);
                    lemma_gate_value_prefix(g2, gates@, a as int, fenv);
                    lemma_gate_value_prefix(g3, gates@, b as int, fenv);
                }
                assert forall|x: Seq<char>| #[trigger]
                    expr.free_vars().contains(x) implies lookup(inputs@, x) is Some by {
                    assert((cond.free_vars() + _then.free_vars()).contains(x)
                        || _else.free_vars().contains(x));
                }
            }
            t
        },
    }
}

proof fn lemma_inputs_ok_grow(inputs: Seq<(Ident, usize)>, gs: Seq<Gate>, more: Seq<Gate>)
    requires
        inputs_ok(inputs, gs),
        gs.len() <= more.len(),
        more.subrange(0, gs.len() as int) == gs,
    ensures
        inputs_ok(inputs, more),
{
    assert forall|k: int| 0 <= k < inputs.len() implies (#[trigger] inputs[k]).1 < more.len()
        && more[inputs[k].1 as int] == Gate::Input(inputs[k].0) by {
        assert(more[inputs[k].1 as int] == more.subrange(0, gs.len() as int)[inputs[k].1 as int]);
    }
}

/// A name bound in a prefix of an association list stays bound.
proof fn lemma_lookup_prefix(s: Seq<(Ident, usize)>, more: Seq<(Ident, usize)>, x: Seq<char>)
    requires
        s.len() <= more.len(),
        more.subrange(0, s.len() as int) == s,
        lookup(s, x) is Some,
    ensures
        lookup(more, x) is Some,
    decreases more.len(),
{
    if more.len() > s.len() {
        if more.last().0@ != x {
            assert(more.drop_last().subrange(0, s.len() as int) =~= s);
            lemma_lookup_prefix(s, more.drop_last(), x);
        }
    } else {
        assert(more =~= s);
    }
}

proof fn lemma_lookup_grow(
    i0: Seq<(Ident, usize)>,
    i1: Seq<(Ident, usize)>,
    i2: Seq<(Ident, usize)>,
    left: Set<Seq<char>>,
    right: Set<Seq<char>>,
)
    requires
        i1.len() <= i2.len(),
        i2.subrange(0, i1.len() as int) == i1,
        forall|x: Seq<char>| #[trigger] left.contains(x) ==> lookup(i1, x) is Some,
    ensures
        forall|x: Seq<char>| #[trigger] left.contains(x) ==> lookup(i2, x) is Some,
{
    assert forall|x: Seq<char>| #[trigger] left.contains(x) implies lookup(i2, x) is Some by {
        lemma_lookup_prefix(i1, i2, x);
    }
}

proof fn lemma_extend(
    ga: Seq<Gate>,
    gb: Seq<Gate>,
    gc: Seq<Gate>,
    ia: Seq<(Ident, usize)>,
    ib: Seq<(Ident, usize)>,
)
    requires
        ga.len() <= gb.len(),
        gb.subrange(0, ga.len() as int) == ga,
        gb.len() <= gc.len(),
        gc.subrange(0, gb.len() as int) == gb,
    ensures
        gc.subrange(0, ga.len() as int) == ga,
{
    assert(gc.subrange(0, ga.len() as int) =~= gb.subrange(0, ga.len() as int));
}

/// A circuit plan: its gates, the input target of each free name, the output
/// target, and the targets registered as public inputs, in order.
#[derive(Debug, PartialEq, Eq)]
pub struct ProvableCircuit {
    pub public_inputs: Vec<(Ident, usize)>,
    pub output: usize,
    pub gates: Vec<Gate>,
    pub registered: Vec<usize>,
}

/// Every public variable occurs in the expression.
pub open spec fn uses_all_public_vars(p: CompiledProgram) -> bool {
    forall|i: int|
        0 <= i < p.public_vars@.len() ==> #[trigger] p.expr.free_vars().contains(
            p.public_vars@[i]@,
        )
}

/// Whether `x` occurs free in `e`.
pub fn occurs_free(e: &Expr, x: &Ident) -> (r: bool)
    ensures
        r == e.free_vars().contains(x@),
{
    let vars = e.variables();
    proof {
        e.lemma_free_vars_occurrences();
    }
    let mut k: usize = 0;
    while k < vars.len()
        invariant
            k <= vars@.len(),
            vars@ == e.occurrences(),
            forall|j: int| 0 <= j < k ==> vars@[j].0@ != x@,
        decreases vars@.len() - k,
    {
        if vars[k].0.same(x) {
            assert(crate::ast::name_in(e.occurrences(), x@));
            proof {
                e.lemma_free_vars_occurrences();
            }
            return true;
        }
        k = k + 1;
    }
    assert(!crate::ast::name_in(e.occurrences(), x@));
    false
}

/// Whether every public variable of `p` occurs in its expression, as
/// [`build_circuit`] requires.
pub fn all_public_vars_used(p: &CompiledProgram) -> (r: bool)
    ensures
        r == uses_all_public_vars(*p),
{
    let mut i: usize = 0;
    while i < p.public_vars.len()
        invariant
            i <= p.public_vars@.len(),
            forall|j: int| 0 <= j < i ==> #[trigger] p.expr.free_vars().contains(p.public_vars@[j]@),
        decreases p.public_vars@.len() - i,
    {
        if !occurs_free(&p.expr, &p.public_vars[i]) {
            return false;
        }
        i = i + 1;
    }
    true
}

/// Lowers a compiled program to a circuit. Every public variable must occur
/// in the expression: the public inputs are the public variables' targets, in
/// order, and then the output.
pub fn build_circuit(program: CompiledProgram) -> (c: ProvableCircuit)
    requires
        uses_all_public_vars(program),
    ensures
        gates_wf(c.gates@),
        c.output < c.gates@.len(),
        forall|fenv: Map<Seq<char>, int>| #[trigger]
            gate_value(c.gates@, c.output as int, fenv) == feval(program.expr, fenv),
        inputs_ok(c.public_inputs@, c.gates@),
        inputs_exact(c.public_inputs@, c.gates@),
        forall|x: Seq<char>| #[trigger]
            lookup(c.public_inputs@, x) is Some <==> program.expr.free_vars().contains(x),
        c.registered@.len() == program.public_vars@.len() + 1,
        forall|i: int|
            0 <= i < program.public_vars@.len() ==> Some(#[trigger] c.registered@[i]) == lookup(
                c.public_inputs@,
                program.public_vars@[i]@,
            ) && c.registered@[i] < c.gates@.len() && (c.gates@[c.registered@[i] as int] matches Gate::Input(
                x,
            ) && x@ == program.public_vars@[i]@),
        c.registered@[program.public_vars@.len() as int] == c.output,
{
    let mut public_inputs: Vec<(Ident, usize)> = Vec::new();
    let mut gates: Vec<Gate> = Vec::new();
    let output = interpret_as_target(&mut public_inputs, &mut gates, &program.expr);
    assert(forall|x: Seq<char>| #[trigger] lookup(Seq::<(Ident, usize)>::empty(), x) is None);
    let mut registered: Vec<usize> = Vec::new();
    let mut i: usize = 0;
    while i < program.public_vars.len()
        invariant
            i <= program.public_vars@.len(),
            uses_all_public_vars(program),
            inputs_ok(public_inputs@, gates@),
            forall|x: Seq<char>| #[trigger]
                program.expr.free_vars().contains(x) ==> lookup(public_inputs@, x) is Some,
            registered@.len() == i,
            forall|j: int|
                0 <= j < i ==> Some(#[trigger] registered@[j]) == lookup(
                    public_inputs@,
                    program.public_vars@[j]@,
                ) && registered@[j] < gates@.len() && (gates@[registered@[j] as int] matches Gate::Input(
                    x,
                ) && x@ == program.public_vars@[j]@),
        decreases program.public_vars@.len() - i,
    {
        proof {
            assert(program.expr.free_vars().contains(program.public_vars@[i as int]@));
        }
        match find_last(&public_inputs, &program.public_vars[i]) {
            Some(k) => {
                registered.push(public_inputs[k].1);
            },
            None => {
                proof {
                    assert(false);
                }
            },
        }
        i = i + 1;
    }
    registered.push(output);
    ProvableCircuit { public_inputs, output, gates, registered }
}

/// The values to assign: for each witness entry, the input target of its
/// name and the field element of its literal, and the names in that order.
/// Every name of the witness must have an input target.
pub fn set_public_inputs(circuit: &ProvableCircuit, witness: &Vec<(Ident, Literal)>) -> (r: (
    Vec<(usize, u64)>,
    Vec<Ident>,
))
    requires
        forall|k: int|
            0 <= k < witness@.len() ==> lookup(circuit.public_inputs@, (#[trigger] witness@[k]).0@) is Some,
    ensures
        r.0@.len() == witness@.len(),
        r.1@.len() == witness@.len(),
        forall|k: int|
            0 <= k < witness@.len() ==> Some((#[trigger] r.0@[k]).0) == lookup(
                circuit.public_inputs@,
                witness@[k].0@,
            ) && r.0@[k].1 as int == encode_literal(witness@[k].1) && r.1@[k] == witness@[k].0,
{
    let mut assignments: Vec<(usize, u64)> = Vec::new();
    let mut inputs: Vec<Ident> = Vec::new();
    let mut k: usize = 0;
    while k < witness.len()
        invariant
            k <= witness@.len(),
            assignments@.len() == k,
            inputs@.len() == k,
            forall|j: int|
                0 <= j < witness@.len() ==> lookup(circuit.public_inputs@, (#[trigger] witness@[j]).0@) is Some,
            forall|j: int|
                0 <= j < k ==> Some((#[trigger] assignments@[j]).0) == lookup(
                    circuit.public_inputs@,
                    witness@[j].0@,
                ) && assignments@[j].1 as int == encode_literal(witness@[j].1) && inputs@[j]
                    == witness@[j].0,
        decreases witness@.len() - k,
    {
        proof {
            assert(lookup(circuit.public_inputs@, witness@[k as int].0@) is Some);
        }
        match find_last(&circuit.public_inputs, &witness[k].0) {
            Some(i) => {
                assignments.push((circuit.public_inputs[i].1, from_literal(witness[k].1)));
                inputs.push(witness[k].0.copy());
            },
            None => {
                proof {
                    assert(false);
                }
            },
        }
        k = k + 1;
    }
    (assignments, inputs)
}

/// What a proving backend needs: the circuit, the values of its inputs, and
/// the names in the order their values were given.
pub struct ProvingData {
    pub circuit: ProvableCircuit,
    pub assignments: Vec<(usize, u64)>,
    pub inputs: Vec<Ident>,
}

/// Builds the circuit of `program` and binds the witness to its inputs. Every
/// public variable must occur in the expression, and every name of the
/// witness must occur in it too.
pub fn prove(witness: Vec<(Ident, Literal)>, program: CompiledProgram) -> (r: ProvingData)
    requires
        uses_all_public_vars(program),
        forall|k: int|
            0 <= k < witness@.len() ==> program.expr.free_vars().contains((#[trigger] witness@[k]).0@),
    ensures
        gates_wf(r.circuit.gates@),
        forall|fenv: Map<Seq<char>, int>| #[trigger]
            gate_value(r.circuit.gates@, r.circuit.output as int, fenv) == feval(program.expr, fenv),
        r.assignments@.len() == witness@.len(),
        forall|k: int|
            0 <= k < witness@.len() ==> Some((#[trigger] r.assignments@[k]).0) == lookup(
                r.circuit.public_inputs@,
                witness@[k].0@,
            ) && r.assignments@[k].1 as int == encode_literal(witness@[k].1) && r.inputs@[k]
                == witness@[k].0,
{
    let ghost e = program.expr;
    let circuit = build_circuit(program);
    proof {
        assert forall|k: int| 0 <= k < witness@.len() implies lookup(
            circuit.public_inputs@,
            (#[trigger] witness@[k]).0@,
        ) is Some by {
            assert(e.free_vars().contains(witness@[k].0@));
        }
    }
    let (assignments, inputs) = set_public_inputs(&circuit, &witness);
    ProvingData { circuit, assignments, inputs }
}

/// The environment in which a witness gives each of its names a value.
pub open spec fn witness_env(w: Map<Seq<char>, Value>) -> Env {
    Map::new(|x: Seq<char>| w.contains_key(x), |x: Seq<char>| Ok(w[x]))
}

/// The witness as field elements.
pub open spec fn encode_env(w: Map<Seq<char>, Value>) -> Map<Seq<char>, int> {
    Map::new(|x: Seq<char>| w.contains_key(x), |x: Seq<char>| encode_value(w[x]))
}

pub open spec fn in_i32(x: int) -> bool {
    i32::MIN <= x <= i32::MAX
}

/// The exact result of an arithmetic operator on two integers fits in `i32`,
/// and an exponent is below `2^EXP_BITS` with every partial power fitting.
pub open spec fn op_fits(op: Opcode, a: i32, b: i32) -> bool {
    match op {
        Opcode::Add => in_i32(a + b),
        Opcode::Sub => in_i32(a - b),
        Opcode::Mul => in_i32(a * b),
        Opcode::Pow => 0 <= b < 1024 && forall|k: nat| k <= b ==> #[trigger] in_i32(pow(a as int, k)),
        _ => true,
    }
}

/// No integer operation that evaluation of `e` performs leaves the range of
/// `i32`, and no exponent is negative or too wide for the circuit.
pub open spec fn small(e: Expr, env: Env) -> bool
    decreases e,
{
    match e {
        Expr::Literal { .. } | Expr::Variable { .. } => true,
        Expr::UnaryOp { expr, .. } => small(*expr, env) && match eval(*expr, env) {
            Ok(Value::Field(n)) => n != i32::MIN,
            _ => true,
        },
        Expr::BinOp { lhs, op, rhs, .. } => small(*lhs, env) && small(*rhs, env) && match (
            eval(*lhs, env),
            eval(*rhs, env),
        ) {
            (Ok(Value::Field(a)), Ok(Value::Field(b))) => op_fits(op, a, b),
            _ => true,
        },
        Expr::IfThenElse { cond, _then, _else, .. } => small(*cond, env) && match eval(*cond, env) {
            Ok(Value::Boolean(true)) => small(*_then, env),
            Ok(Value::Boolean(false)) => small(*_else, env),
            _ => true,
        },
    }
}

proof fn lemma_encode_i32(n: int)
    requires
        in_i32(n),
    ensures
        encode_i32(n as i32) == fmod(n),
        0 <= encode_i32(n as i32) < fp(),
{
    if n >= 0 {
        lemma_small_mod(n as nat, fp() as nat);
    } else {
        lemma_mod_multiples_vanish(1, n, fp());
        lemma_small_mod((fp() + n) as nat, fp() as nat);
    }
}

proof fn lemma_pow_fits(a: i32, k: nat, b: i32)
    requires
        0 <= k <= b,
        forall|j: nat| j <= b ==> #[trigger] in_i32(pow(a as int, j)),
    ensures
        pow_wrapping(a, k) == pow(a as int, k),
    decreases k,
{
    reveal(pow);
    if k > 0 {
        lemma_pow_fits(a, (k - 1) as nat, b);
        assert(in_i32(pow(a as int, k)));
        assert(pow(a as int, k) == a * pow(a as int, (k - 1) as nat));
    }
}

/// On small inputs the circuit's arithmetic agrees with the interpreter's:
/// the field value of an expression is the encoding of the value that the
/// interpreter computes.
pub proof fn lemma_field_matches_interpreter(e: Expr, w: Map<Seq<char>, Value>)
    requires
        eval(e, witness_env(w)) is Ok,
        small(e, witness_env(w)),
    ensures
        feval(e, encode_env(w)) == encode_value(eval(e, witness_env(w))->Ok_0),
        0 <= feval(e, encode_env(w)) < fp(),
    decreases e,
{
    let env = witness_env(w);
    let fenv = encode_env(w);
    match e {
        Expr::Literal { value, .. } => {
            lemma_encode_literal_range(value);
            assert(feval(e, fenv) == encode_value(eval(e, env)->Ok_0));
        },
        Expr::Variable { value, .. } => {
            let v = w[value@];
            match v {
                Value::Field(n) => {
                    lemma_encode_i32(n as int);
                    assert(feval(e, fenv) == encode_value(eval(e, env)->Ok_0));
                },
                Value::Boolean(_) => {
                    lemma_small_mod(encode_value(v) as nat, fp() as nat);
                },
            }
        },
        Expr::UnaryOp { expr, .. } => {
            lemma_field_matches_interpreter(*expr, w);
            let n = eval(*expr, env)->Ok_0->Field_0;
            lemma_encode_i32(n as int);
            lemma_encode_i32(-n);
            lemma_mul_mod_noop(fp() - 1, n as int, fp());
            lemma_small_mod((fp() - 1) as nat, fp() as nat);
            lemma_mod_multiples_vanish(n as int, -n, fp());
            assert((fp() - 1) * n == fp() * n + (-n)) by (nonlinear_arith);
            assert(feval(e, fenv) == encode_value(eval(e, env)->Ok_0));
        },
        Expr::BinOp { lhs, op, rhs, .. } => {
            lemma_field_matches_interpreter(*lhs, w);
            lemma_field_matches_interpreter(*rhs, w);
            let l = eval(*lhs, env)->Ok_0;
            let r = eval(*rhs, env)->Ok_0;
            let x = feval(*lhs, fenv);
            let y = feval(*rhs, fenv);
            match (l, r) {
                (Value::Field(a), Value::Field(b)) => {
                    lemma_encode_i32(a as int);
                    lemma_encode_i32(b as int);
                    match op {
                        Opcode::Add => {
                            lemma_add_mod_noop(a as int, b as int, fp());
                            lemma_encode_i32(a + b);
                            assert(feval(e, fenv) == encode_value(eval(e, env)->Ok_0));
                        },
                        Opcode::Sub => {
                            lemma_sub_mod_noop(a as int, b as int, fp());
                            lemma_encode_i32(a - b);
                            assert(feval(e, fenv) == encode_value(eval(e, env)->Ok_0));
                        },
                        Opcode::Mul => {
                            lemma_mul_mod_noop(a as int, b as int, fp());
                            lemma_encode_i32(a * b);
                            assert(feval(e, fenv) == encode_value(eval(e, env)->Ok_0));
                        },
                        Opcode::Pow => {
                            lemma2_to64();
                            lemma_pow_fits(a, b as nat, b);
                            assert(in_i32(pow(a as int, b as nat)));
                            lemma_pow_mod_noop(a as int, b as nat, fp());
                            lemma_encode_i32(pow(a as int, b as nat));
                            assert(field_op(op, a, b) == Some(pow_i32(a, b)));
                            assert(feval(e, fenv) == encode_value(eval(e, env)->Ok_0));
                        },
                        Opcode::Eq => {},
                        _ => {},
                    }
                },
                (Value::Boolean(a), Value::Boolean(b)) => {
                    lemma_small_mod(0, fp() as nat);
                    lemma_small_mod(1, fp() as nat);
                    assert(x == 0 || x == 1);
                    assert(y == 0 || y == 1);
                    if x == 0 {
                        assert(x * y == 0);
                    } else {
                        assert(x * y == y);
                    }
                    assert(feval(e, fenv) == encode_value(eval(e, env)->Ok_0));
                },
                _ => {},
            }
        },
        Expr::IfThenElse { cond, _then, _else, .. } => {
            lemma_field_matches_interpreter(*cond, w);
            let c = feval(*cond, fenv);
            match eval(*cond, env)->Ok_0 {
                Value::Boolean(true) => {
                    lemma_field_matches_interpreter(*_then, w);
                    let x = feval(*_then, fenv);
                    let y = feval(*_else, fenv);
                    assert(c * x + (1 - c) * y == x);
                    lemma_small_mod(x as nat, fp() as nat);
                    assert(feval(e, fenv) == encode_value(eval(e, env)->Ok_0));
                },
                Value::Boolean(false) => {
                    lemma_field_matches_interpreter(*_else, w);
                    let x = feval(*_then, fenv);
                    let y = feval(*_else, fenv);
                    assert(c == 0);
                    assert(c * x + (1 - c) * y == y) by (nonlinear_arith)
                        requires
                            c == 0,
                    ;
                    lemma_small_mod(y as nat, fp() as nat);
                    assert(feval(e, fenv) == encode_value(eval(e, env)->Ok_0));
                },
                _ => {},
            }
        },
    }
}

/// On small inputs the circuit's output equals, in the field, the value that
/// the interpreter computes from the same witness.
pub proof fn lemma_prover_output_matches_interpreter(
    gates: Seq<Gate>,
    output: int,
    e: Expr,
    w: Map<Seq<char>, Value>,
)
    requires
        forall|fenv: Map<Seq<char>, int>| #[trigger] gate_value(gates, output, fenv) == feval(e, fenv),
        eval(e, witness_env(w)) is Ok,
        small(e, witness_env(w)),
    ensures
        gate_value(gates, output, encode_env(w)) == encode_value(eval(e, witness_env(w))->Ok_0),
{
    lemma_field_matches_interpreter(e, w);
    assert(gate_value(gates, output, encode_env(w)) == feval(e, encode_env(w)));
}

} // verus!
