use zkcalc::ast::{Expr, Ident, Literal, Opcode, SourePos, Span};
use zkcalc::circuit::{
    all_public_vars_used, build_circuit, from_i32, from_literal, prove, Gate, FIELD_ORDER,
};
use zkcalc::compiler::{compile, CompilerError};
use zkcalc::declaration::{Binder, Declaration};
use zkcalc::error::ASTError;
use zkcalc::interpreter::{interpret, Context, Value};
use zkcalc::optimizer::optimize;
use zkcalc::parser::{parse, parse_single_expression, tokenize, ParseError, Tok};
use zkcalc::program::{find_declaration, Program};
use zkcalc::typechecker::{Ty, TypeContext, TypeError};

fn lit(n: i32) -> Expr {
    Expr::field_default(n)
}

fn var(name: &str) -> Expr {
    Expr::variable_default(Ident::new(name))
}

fn run(source: &str, witness: Vec<(Ident, Literal)>) -> Value {
    let program = parse(source).unwrap();
    let compiled = compile(program).unwrap();
    let context = Context::from_literals(witness);
    interpret(&context, &compiled.expr).unwrap()
}

#[test]
fn scenario_products_without_parentheses() {
    assert_eq!(run("22 * 44 + 66", vec![]), Value::Field(1034));
}

#[test]
fn scenario_products_with_parentheses() {
    assert_eq!(run("22 * (44 + 66)", vec![]), Value::Field(2420));
}

#[test]
fn scenario_power() {
    assert_eq!(run("2^4 + 1", vec![]), Value::Field(17));
}

#[test]
fn scenario_public_square() {
    let w = vec![(Ident::new("x"), Literal::Field(3))];
    assert_eq!(run("pub x: F; let y = x * x; y + 1", w), Value::Field(10));
}

#[test]
fn scenario_public_condition() {
    let w = vec![(Ident::new("b"), Literal::Boolean(true))];
    assert_eq!(run("pub b: Bool; let n = if b then 1 else 2; n * 10", w), Value::Field(10));
}

#[test]
fn forward_reference_is_sorted() {
    let program = parse("let x = y; let y = 1; x").unwrap();
    let names: Vec<String> =
        program.decls.iter().map(|d| d.get_identifier().as_str().to_string()).collect();
    assert_eq!(names, vec!["y".to_string(), "x".to_string()]);
}

#[test]
fn scenario_cycle() {
    match parse("let x = y; let y = x; x") {
        Err(ParseError::Program(ASTError::CyclicDependency(_, id))) => {
            assert!(id == Ident::new("x") || id == Ident::new("y"))
        }
        other => panic!("expected a cycle, got {:?}", other),
    }
}

#[test]
fn scenario_duplicate_public() {
    match parse("pub x: F; pub x: F; x") {
        Err(ParseError::Program(ASTError::DuplicateIdentifier(span, id))) => {
            assert_eq!(id, Ident::new("x"));
            assert_eq!(span.start, SourePos { line: 1, column: 15 });
        }
        other => panic!("expected a duplicate, got {:?}", other),
    }
}

#[test]
fn scenario_type_mismatch() {
    let program = parse("pub b: Bool; b + 1").unwrap();
    match program.typecheck() {
        Err(TypeError::TypeMismatch(_, Ty::Field, _, Ty::Boolean)) => (),
        other => panic!("expected a mismatch, got {:?}", other),
    }
}

#[test]
fn typecheck_accepts_condition() {
    let program = parse("pub b: Bool; let n = if b then 1 else 2; n * 10").unwrap();
    assert_eq!(program.typecheck(), Ok(()));
}

#[test]
fn typecheck_undefined_variable() {
    let context = TypeContext::new();
    match var("q").typecheck(&context) {
        Err(TypeError::UndefinedVariable(_, id)) => assert_eq!(id, Ident::new("q")),
        other => panic!("expected an undefined variable, got {:?}", other),
    }
}

#[test]
fn typecheck_equality_gives_boolean() {
    let mut context = TypeContext::new();
    context.insert(Ident::new("x"), Ty::Field);
    let e = Expr::binary_op_default(var("x"), Opcode::Eq, lit(2));
    assert_eq!(e.typecheck(&context), Ok(Ty::Boolean));
}

#[test]
fn unbound_reference_is_rejected() {
    let decls = vec![Declaration::VarAssignment {
        binder: Binder::default(Ident::new("x"), None),
        expr: var("zz"),
    }];
    match Program::new(decls, var("x")) {
        Err(ASTError::UnboundIdentifier(_, id)) => assert_eq!(id, Ident::new("zz")),
        other => panic!("expected an unbound name, got {:?}", other),
    }
}

#[test]
fn unbound_final_expression_is_rejected() {
    match Program::new(vec![], var("w")) {
        Err(ASTError::UnboundIdentifier(_, id)) => assert_eq!(id, Ident::new("w")),
        other => panic!("expected an unbound name, got {:?}", other),
    }
}

#[test]
fn self_reference_is_a_cycle() {
    let decls = vec![Declaration::VarAssignment {
        binder: Binder::default(Ident::new("x"), None),
        expr: var("x"),
    }];
    match Program::new(decls, var("x")) {
        Err(ASTError::CyclicDependency(_, id)) => assert_eq!(id, Ident::new("x")),
        other => panic!("expected a cycle, got {:?}", other),
    }
}

#[test]
fn ordered_input_is_accepted_in_order() {
    let program = parse("pub x: F; let a = x + 1; let b = a * 2; b").unwrap();
    let names: Vec<String> =
        program.decls.iter().map(|d| d.get_identifier().as_str().to_string()).collect();
    assert_eq!(names, vec!["x".to_string(), "a".to_string(), "b".to_string()]);
}

#[test]
fn optimize_is_idempotent() {
    let e = parse_single_expression("(1 + 2) * x - -(3 ^ 2) + if true then 4 * 5 else y").unwrap();
    let once = optimize(e);
    let twice = optimize(once.clone());
    assert_eq!(once, twice);
}

#[test]
fn folding_wraps_on_overflow() {
    let e = Expr::binary_op_default(lit(i32::MAX), Opcode::Add, lit(1));
    assert_eq!(optimize(e), lit(i32::MIN));
}

#[test]
fn folding_power_and_negative_exponent() {
    let e = Expr::binary_op_default(lit(3), Opcode::Pow, lit(4));
    assert_eq!(optimize(e).clear_annotations(), lit(81));
    let e = Expr::binary_op_default(lit(3), Opcode::Pow, lit(-1));
    assert_eq!(optimize(e).clear_annotations(), lit(0));
}

#[test]
fn compile_keeps_public_variables() {
    let program = parse("pub x: F; pub y: Bool; let a = 22 * (x - b); let b = 1 - y; a * b - 2").unwrap();
    let compiled = compile(program).unwrap();
    assert_eq!(compiled.public_vars, vec![Ident::new("x"), Ident::new("y")]);
    for (name, _) in compiled.expr.variables() {
        assert!(compiled.public_vars.contains(&name));
    }
}

#[test]
fn compile_folds_constants() {
    let compiled = compile(parse("let a = 2 * 3; a + 4").unwrap()).unwrap();
    assert_eq!(compiled.expr.clear_annotations(), lit(10));
}

#[test]
fn compile_rejects_unconstrained_variable() {
    let decls = vec![Declaration::VarAssignment {
        binder: Binder::default(Ident::new("x"), None),
        expr: var("x"),
    }];
    let program = Program { decls, expr: var("x") };
    match compile(program) {
        Err(CompilerError::UnconstrainedVariable(vars)) => {
            assert_eq!(vars.len(), 1);
            assert_eq!(vars[0].0, Ident::new("x"));
        }
        other => panic!("expected an unconstrained variable, got {:?}", other),
    }
}

#[test]
fn compiled_and_direct_values_agree() {
    let source = "pub x: F; let y = x * x - 3; let z = y * y; z + y";
    let w = vec![(Ident::new("x"), Literal::Field(4))];
    let compiled = compile(parse(source).unwrap()).unwrap();
    let context = Context::from_literals(w);
    assert_eq!(interpret(&context, &compiled.expr).unwrap(), Value::Field(182));
}

#[test]
fn interpreter_unbound_identifier() {
    let context = Context::new();
    match interpret(&context, &var("nope")) {
        Err(ASTError::UnboundIdentifier(_, id)) => assert_eq!(id, Ident::new("nope")),
        other => panic!("expected an unbound name, got {:?}", other),
    }
}

#[test]
fn interpreter_boolean_operators() {
    let e = parse_single_expression("true && false || 1 == 1").unwrap();
    assert_eq!(interpret(&Context::new(), &e).unwrap(), Value::Boolean(true));
}

#[test]
fn interpreter_operand_type_error() {
    let e = parse_single_expression("true + 1").unwrap();
    match interpret(&Context::new(), &e) {
        Err(ASTError::TypeMismatch(_, Ty::Field, _, Ty::Boolean)) => (),
        other => panic!("expected a mismatch, got {:?}", other),
    }
}

#[test]
fn context_latest_entry_wins() {
    let mut context = Context::new();
    context.insert(Ident::new("a"), Value::Field(1));
    context.insert(Ident::new("a"), Value::Field(2));
    assert_eq!(context.get(&Ident::new("a")), Some(Value::Field(2)));
    assert_eq!(context.get(&Ident::new("b")), None);
}

#[test]
fn value_pow() {
    assert_eq!(Value::Field(2).pow(Value::Field(10)), Some(Value::Field(1024)));
    assert_eq!(Value::Field(2).pow(Value::Field(31)), Some(Value::Field(i32::MIN)));
    assert_eq!(Value::Boolean(true).pow(Value::Field(1)), None);
}

#[test]
fn precedence_of_equality_and_power() {
    let e = parse_single_expression("1 + 2 == 3").unwrap().clear_annotations();
    let want = Expr::binary_op_default(
        lit(1),
        Opcode::Add,
        Expr::binary_op_default(lit(2), Opcode::Eq, lit(3)),
    );
    assert_eq!(e, want);
    let e = parse_single_expression("2 ^ 3 ^ 2").unwrap().clear_annotations();
    let want =
        Expr::binary_op_default(lit(2), Opcode::Pow, Expr::binary_op_default(lit(3), Opcode::Pow, lit(2)));
    assert_eq!(e, want);
}

#[test]
fn parse_errors() {
    assert_eq!(parse_single_expression("1 +"), Err(ParseError::UnexpectedEnd));
    assert!(matches!(parse_single_expression("1 $ 2"), Err(ParseError::UnexpectedChar(_, '$'))));
    assert!(matches!(parse_single_expression("99999999999"), Err(ParseError::IntegerOutOfRange(_))));
    assert!(matches!(parse_single_expression("1 2"), Err(ParseError::UnexpectedToken(_))));
}

#[test]
fn comments_are_ignored() {
    let e = parse_single_expression("// leading\n 1 + // trailing\n 2").unwrap().clear_annotations();
    assert_eq!(e, Expr::binary_op_default(lit(1), Opcode::Add, lit(2)));
}

#[test]
fn spans_of_parsed_nodes() {
    let e = parse_single_expression("ab + 7").unwrap();
    match e {
        Expr::BinOp { ann, lhs, .. } => {
            assert_eq!(ann, Span { start: SourePos { line: 1, column: 4 }, end: SourePos { line: 1, column: 5 } });
            assert_eq!(lhs.ann().end, SourePos { line: 1, column: 3 });
        }
        other => panic!("expected a sum, got {:?}", other),
    }
}

#[test]
fn format_expression() {
    let e = parse_single_expression("-x * 3 + if b then -12 else 0").unwrap();
    assert_eq!(e.format(), "((-(x) * 3) + (if b then -(12) else 0))");
    assert_eq!(lit(-12).format(), "-12");
}

#[test]
fn span_descriptions() {
    let one = Span { start: SourePos { line: 3, column: 5 }, end: SourePos { line: 3, column: 9 } };
    assert_eq!(one.describe(), "line 3, columns 5-9");
    let two = Span { start: SourePos { line: 1, column: 2 }, end: SourePos { line: 4, column: 1 } };
    assert_eq!(two.describe(), "(line 1, column 2)-(line 4, column 1)");
    assert_eq!(Span::default(), Span { start: SourePos { line: 0, column: 0 }, end: SourePos { line: 0, column: 0 } });
}

#[test]
fn find_declaration_returns_first() {
    let decls = vec![
        Declaration::PublicVar { binder: Binder::default(Ident::new("p"), Some(Ty::Field)) },
        Declaration::VarAssignment { binder: Binder::default(Ident::new("q"), None), expr: lit(1) },
    ];
    let found = find_declaration(Ident::new("q"), decls.clone()).unwrap();
    assert_eq!(found, decls[1]);
    assert_eq!(find_declaration(Ident::new("r"), decls), None);
}

#[test]
fn public_variable_declarations() {
    let program = parse("pub x: F; let a = x; pub y: Bool; a").unwrap();
    let pubs = program.public_variable_decls();
    assert_eq!(pubs.len(), 2);
    assert_eq!(pubs[0].binder().var(), &Ident::new("x"));
    assert_eq!(pubs[1].binder().var(), &Ident::new("y"));
}

#[test]
fn dependencies_keep_separate_occurrences() {
    let d = Declaration::VarAssignment {
        binder: Binder::default(Ident::new("z"), None),
        expr: parse_single_expression("x + y + x").unwrap(),
    };
    let names: Vec<Ident> = d.get_dependencies().into_iter().map(|(n, _)| n).collect();
    assert_eq!(names, vec![Ident::new("x"), Ident::new("y"), Ident::new("x")]);
}

#[test]
fn dependencies_collapse_equal_neighbours() {
    let d = Declaration::VarAssignment {
        binder: Binder::default(Ident::new("z"), None),
        expr: Expr::binary_op_default(var("x"), Opcode::Mul, var("x")),
    };
    assert_eq!(d.get_dependencies().len(), 1);
}

#[test]
fn cycle_is_reported_before_unbound_name() {
    match parse("let x = y; let y = x; w") {
        Err(ParseError::Program(ASTError::CyclicDependency(_, _))) => (),
        other => panic!("expected a cycle, got {:?}", other),
    }
}

#[test]
fn roots_keep_their_given_order() {
    let program = parse("let c = a + b; let b = 2; pub a: F; let d = 1; c * d").unwrap();
    let names: Vec<String> =
        program.decls.iter().map(|d| d.get_identifier().as_str().to_string()).collect();
    assert_eq!(names, vec!["b".to_string(), "a".to_string(), "d".to_string(), "c".to_string()]);
}

#[test]
fn field_encoding() {
    assert_eq!(from_i32(5), 5);
    assert_eq!(from_i32(-1), FIELD_ORDER - 1);
    assert_eq!(from_literal(Literal::Boolean(true)), 1);
    assert_eq!(from_literal(Literal::Boolean(false)), 0);
}

#[test]
fn circuit_layout_for_public_square() {
    let compiled = compile(parse("pub x: F; let y = x * x; y + 1").unwrap()).unwrap();
    assert!(all_public_vars_used(&compiled));
    let circuit = build_circuit(compiled);
    assert_eq!(circuit.registered.len(), 2);
    assert_eq!(circuit.gates[circuit.registered[0]], Gate::Input(Ident::new("x")));
    assert_eq!(circuit.registered[1], circuit.output);
    let inputs = circuit.gates.iter().filter(|g| matches!(g, Gate::Input(_))).count();
    assert_eq!(inputs, 1);
}

#[test]
fn witness_binding() {
    let compiled = compile(parse("pub x: F; pub b: Bool; if b then x else -x").unwrap()).unwrap();
    let w = vec![(Ident::new("x"), Literal::Field(-3)), (Ident::new("b"), Literal::Boolean(true))];
    let data = prove(w, compiled);
    assert_eq!(data.inputs, vec![Ident::new("x"), Ident::new("b")]);
    assert_eq!(data.assignments[0].1, FIELD_ORDER - 3);
    assert_eq!(data.assignments[1].1, 1);
    assert_eq!(data.circuit.gates[data.assignments[0].0], Gate::Input(Ident::new("x")));
}

#[test]
fn unused_public_variable_is_detected() {
    let compiled = compile(parse("pub x: F; 3").unwrap()).unwrap();
    assert!(!all_public_vars_used(&compiled));
}

#[test]
fn keywords_are_not_names() {
    let toks = tokenize("if iff F Fx let_ true").unwrap();
    assert_eq!(toks[0].tok, Tok::If);
    assert_eq!(toks[1].tok, Tok::Ident("iff".to_string()));
    assert_eq!(toks[2].tok, Tok::TyField);
    assert_eq!(toks[3].tok, Tok::Ident("Fx".to_string()));
    assert_eq!(toks[4].tok, Tok::Ident("let_".to_string()));
    assert_eq!(toks[5].tok, Tok::True);
    assert!(matches!(parse_single_expression("let"), Err(ParseError::UnexpectedToken(_))));
}

#[test]
fn token_spans_cross_lines() {
    let toks = tokenize("a\n  == 12").unwrap();
    assert_eq!(toks[1].span, Span { start: SourePos { line: 2, column: 3 }, end: SourePos { line: 2, column: 5 } });
    assert_eq!(toks[2].span, Span { start: SourePos { line: 2, column: 6 }, end: SourePos { line: 2, column: 8 } });
}
