use zkcalc::ast::{Expr, Ident, Opcode, UOpcode};


use zkcalc::declaration::{Binder, Declaration};
use zkcalc::error::ASTError;
use zkcalc::interpreter::{interpret, Context, Value};
use zkcalc::optimizer::optimize;
use zkcalc::parser::{parse, parse_single_expression};
use zkcalc::program::Program;
use zkcalc::typechecker::Ty;

fn let_decl(name: &str, expr: Expr) -> Declaration {
    Declaration::VarAssignment { binder: Binder::default(Ident::new(name), None), expr }
}

fn pub_decl(name: &str, ty: Ty) -> Declaration {
    Declaration::PublicVar { binder: Binder::default(Ident::new(name), Some(ty)) }
}

fn var(name: &str) -> Expr {
    Expr::variable_default(Ident::new(name))
}

#[test]
fn inliner_basic_test() {
    let expr1 = Expr::binary_op_default(Expr::field_default(1), Opcode::Add, Expr::field_default(2));
    let decls = vec![let_decl("x", expr1.clone())];
    let expr2 = Expr::binary_op_default(var("x"), Opcode::Add, Expr::field_default(3));
    let inlined = Expr::binary_op_default(
        Expr::binary_op_default(Expr::field_default(1), Opcode::Add, Expr::field_default(2)),
        Opcode::Add,
        Expr::field_default(3),
    );
    let program = Program::new(decls, expr2).unwrap();
    assert_eq!(zkcalc::inliner::inline(program), inlined);
}

#[test]
fn const_folding_basic_test() {
    let expr1 = Expr::binary_op_default(Expr::field_default(1), Opcode::Add, Expr::field_default(2));
    let expr2 = Expr::binary_op_default(Expr::field_default(3), Opcode::Sub, Expr::field_default(4));
    let expr = Expr::binary_op_default(expr1, Opcode::Mul, expr2);
    assert_eq!(optimize(expr), Expr::field_default(-3));
}

#[test]
fn program_duplicate_identifier_test() {
    let decls = vec![let_decl("x", Expr::field_default(1)), let_decl("x", Expr::field_default(2))];
    match Program::new(decls, Expr::field_default(1)) {
        Err(ASTError::DuplicateIdentifier(_, _)) => (),
        _ => panic!("Expected DuplicateIdentifier error"),
    };
}

fn chain_decls() -> Vec<Declaration> {
    vec![
        pub_decl("p", Ty::Field),
        pub_decl("q", Ty::Field),
        let_decl("x", var("y")),
        let_decl("y", var("z")),
        let_decl("z", var("a")),
        let_decl("a", var("b")),
        let_decl("b", Expr::field_default(1)),
    ]
}

fn chain_sorted() -> Vec<Declaration> {
    vec![
        pub_decl("p", Ty::Field),
        pub_decl("q", Ty::Field),
        let_decl("b", Expr::field_default(1)),
        let_decl("a", var("b")),
        let_decl("z", var("a")),
        let_decl("y", var("z")),
        let_decl("x", var("y")),
    ]
}

#[test]
fn sort_decl_test() {
    let sorted = Program::new(chain_decls(), Expr::field_default(1)).unwrap().decls;
    assert_eq!(sorted, chain_sorted());
}

#[test]
fn decl_test() {
    let sorted = Program::new(chain_decls(), var("x")).unwrap().decls;
    assert_eq!(sorted, chain_sorted());
}

#[test]
fn interpreter_no_parens_test() {
    let expr = parse_single_expression("22 * 44 + 66").unwrap();
    let mut context = Context::new();
    assert_eq!(interpret(&mut context, &expr).unwrap(), Value::Field(1034));
}

#[test]
fn interpreter_parens_test() {
    let expr = parse_single_expression("22 * (44 + 66)").unwrap();
    let mut context = Context::new();
    assert_eq!(interpret(&mut context, &expr).unwrap(), Value::Field(2420));
}

#[test]
fn pow_test() {
    let expr = parse_single_expression("2^4 + 1").unwrap();
    let mut context = Context::new();
    assert_eq!(interpret(&mut context, &expr).unwrap(), Value::Field(17));
}

#[test]
fn parser_no_parens_test() {
    let expr = parse_single_expression("22 * 44 + 66").unwrap().clear_annotations();
    assert_eq!(
        expr,
        Expr::binary_op_default(
            Expr::binary_op_default(Expr::field_default(22), Opcode::Mul, Expr::field_default(44)),
            Opcode::Add,
            Expr::field_default(66)
        )
    );
}

#[test]
fn parser_parens_test() {
    let expr = parse_single_expression("22 * (44 + 66)").unwrap().clear_annotations();
    assert_eq!(
        expr,
        Expr::binary_op_default(
            Expr::field_default(22),
            Opcode::Mul,
            Expr::binary_op_default(Expr::field_default(44), Opcode::Add, Expr::field_default(66))
        )
    );
}

#[test]
fn unary_minus_test() {
    let expr = parse_single_expression("-22 * 44").unwrap().clear_annotations();
    assert_eq!(
        expr,
        Expr::binary_op_default(
            Expr::unary_op_default(UOpcode::Neg, Expr::field_default(22)),
            Opcode::Mul,
            Expr::field_default(44)
        )
    );
}

#[test]
fn program_test() {
    let input = r#"
            pub x: F;
            pub y: Bool;
            let a = 22 * (x - b);
            let b = 1 - y;
            a * b - 2
          "#;
    let parsed_program = parse(input).expect("Expected end of program").clear_annotations();
    let program: Program = Program::new(
        vec![
            pub_decl("x", Ty::Field),
            pub_decl("y", Ty::Boolean),
            let_decl(
                "a",
                Expr::binary_op_default(
                    Expr::field_default(22),
                    Opcode::Mul,
                    Expr::binary_op_default(var("x"), Opcode::Sub, var("b")),
                ),
            ),
            let_decl("b", Expr::binary_op_default(Expr::field_default(1), Opcode::Sub, var("y"))),
        ],
        Expr::binary_op_default(
            Expr::binary_op_default(var("a"), Opcode::Mul, var("b")),
            Opcode::Sub,
            Expr::field_default(2),
        ),
    )
    .unwrap();
    assert_eq!(parsed_program, program);
}

#[test]
fn test_evaluate() {
    let expr = Expr::binary_op_default(Expr::field_default(1), Opcode::Add, Expr::field_default(2));
    let result = interpret(&Context::new(), &expr).unwrap();
    assert_eq!(result, Value::Field(3));
}
