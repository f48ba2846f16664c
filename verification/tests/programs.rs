//! Whole programs: compiled to the basic-block representation and
//! run on the verified interpreter.

use cody::compiler::compile;
use cody::compiler::ir::Block;
use cody::compiler::ir::Program;
use cody::errors::CompileError;
use cody::parser::node_types::ExpressionAST;
use cody::parser::parse;
use cody::parser::token_types::AtomBinary;
use cody::semantics::interp::{interpret, RunOutcome};

const FUEL: usize = 100000;

fn run(text: &str) -> RunOutcome {
    let ast = parse(text).expect("program parses");
    let prog = compile(ast).expect("program compiles");
    interpret(&prog, FUEL)
}

fn compile_err(text: &str) -> CompileError {
    let ast = parse(text).expect("program parses");
    compile(ast).expect_err("compilation fails")
}

#[test]
fn literal_program_yields_its_value() {
    assert_eq!(run("41"), RunOutcome::Finished(41));
    assert_eq!(run("0"), RunOutcome::Finished(0));
    assert_eq!(run("-13"), RunOutcome::Finished(-13));
    assert_eq!(run("2147483647"), RunOutcome::Finished(2147483647));
    assert_eq!(run("-2147483648"), RunOutcome::Finished(-2147483648));
}

#[test]
fn empty_sequence_yields_zero() {
    assert_eq!(run("(seq)"), RunOutcome::Finished(0));
    assert_eq!(run(""), RunOutcome::Finished(0));
}

#[test]
fn unit_form_yields_zero() {
    assert_eq!(run("()"), RunOutcome::Finished(0));
}

#[test]
fn sequence_yields_last_value() {
    assert_eq!(run("1 2 3"), RunOutcome::Finished(3));
}

#[test]
fn define_is_expression_valued_and_binds() {
    assert_eq!(run("(define x 7)"), RunOutcome::Finished(7));
    assert_eq!(run("(seq (define x 7) x)"), RunOutcome::Finished(7));
}

#[test]
fn shadowing_inner_definition_never_leaks() {
    assert_eq!(
        run("(seq (define x 1) (seq (define x 2) x) x)"),
        RunOutcome::Finished(1)
    );
    assert_eq!(
        run("(seq (define x 1) (seq (define x 2) x))"),
        RunOutcome::Finished(2)
    );
}

#[test]
fn redefinition_in_one_scope_shadows() {
    assert_eq!(
        run("(seq (define x 1) (define x 2) x)"),
        RunOutcome::Finished(2)
    );
}

#[test]
fn conditional_takes_one_branch() {
    assert_eq!(run("(if 1 10 20)"), RunOutcome::Finished(10));
    assert_eq!(run("(if 0 10 20)"), RunOutcome::Finished(20));
    // any nonzero predicate is true
    assert_eq!(run("(if -3 10 20)"), RunOutcome::Finished(10));
}

#[test]
fn conditional_branch_effects_are_exclusive() {
    // only the taken branch's definition is evaluated; both yield
    // their branch value at the join
    assert_eq!(run("(if 1 (define a 5) 9)"), RunOutcome::Finished(5));
    assert_eq!(run("(if 0 (define a 5) 9)"), RunOutcome::Finished(9));
    // nested conditionals meet at the right joins
    assert_eq!(
        run("(if (if 1 0 1) (if 1 30 40) (if 0 50 60))"),
        RunOutcome::Finished(60)
    );
}

#[test]
fn arithmetic_operators() {
    assert_eq!(run("($+ 3 4)"), RunOutcome::Finished(7));
    assert_eq!(run("($- 3 4)"), RunOutcome::Finished(-1));
    assert_eq!(run("($* 6 7)"), RunOutcome::Finished(42));
    assert_eq!(run("($/ 7 2)"), RunOutcome::Finished(3));
    assert_eq!(run("($/ -7 2)"), RunOutcome::Finished(-3));
    assert_eq!(run("($& 6 3)"), RunOutcome::Finished(2));
    assert_eq!(run("($= 5 5)"), RunOutcome::Finished(1));
    assert_eq!(run("($= 5 6)"), RunOutcome::Finished(0));
    assert_eq!(run("($< 5 6)"), RunOutcome::Finished(1));
    assert_eq!(run("($< 6 5)"), RunOutcome::Finished(0));
    assert_eq!(run("($< -1 0)"), RunOutcome::Finished(1));
    assert_eq!(run("($! 0)"), RunOutcome::Finished(1));
    assert_eq!(run("($! 5)"), RunOutcome::Finished(0));
}

#[test]
fn arithmetic_wraps_on_overflow() {
    assert_eq!(run("($+ 2147483647 1)"), RunOutcome::Finished(-2147483648));
    assert_eq!(run("($- -2147483648 1)"), RunOutcome::Finished(2147483647));
    assert_eq!(run("($/ -2147483648 -1)"), RunOutcome::Finished(-2147483648));
}

#[test]
fn division_by_zero_is_a_runtime_fault_not_a_compile_error() {
    let ast = parse("($/ 1 0)").expect("program parses");
    let prog = compile(ast).expect("division by zero still compiles");
    assert_eq!(interpret(&prog, FUEL), RunOutcome::Faulted);
}

#[test]
fn unbound_variable_is_a_compile_error() {
    match compile_err("(seq y)") {
        CompileError::UnboundVariable(name) => assert_eq!(name, "y"),
        other => panic!("wrong error: {:?}", other),
    }
    match compile_err("y") {
        CompileError::UnboundVariable(name) => assert_eq!(name, "y"),
        other => panic!("wrong error: {:?}", other),
    }
}

#[test]
fn compile_error_comes_in_program_order() {
    // the fault in the left operand is met first
    match compile_err("($+ z ($/ 1 0))") {
        CompileError::UnboundVariable(name) => assert_eq!(name, "z"),
        other => panic!("wrong error: {:?}", other),
    }
}

#[test]
fn unimplemented_forms_are_unsupported_constructs() {
    assert!(matches!(compile_err("(f 1)"), CompileError::UnsupportedConstruct));
    assert!(matches!(
        compile_err("(fn (a) a)"),
        CompileError::UnsupportedConstruct
    ));
    assert!(matches!(
        compile_err("(match 1 | 1 -> 2)"),
        CompileError::UnsupportedConstruct
    ));
    assert!(matches!(compile_err("[1 . 2"), CompileError::UnsupportedConstruct));
}

#[test]
fn malformed_definition_is_rejected() {
    let bad = ExpressionAST::DefineExpr(
        Box::new(ExpressionAST::IntegerExpr(1)),
        Box::new(ExpressionAST::IntegerExpr(2)),
    );
    assert!(matches!(compile(bad), Err(CompileError::MalformedForm)));
}

#[test]
fn negation_as_binary_operator_is_malformed() {
    let bad = ExpressionAST::AtomBinExpr(
        AtomBinary::Not,
        Box::new(ExpressionAST::IntegerExpr(1)),
        Box::new(ExpressionAST::IntegerExpr(2)),
    );
    assert!(matches!(compile(bad), Err(CompileError::MalformedForm)));
}

#[test]
fn bitwise_or_compiles_from_a_built_tree() {
    // the surface lexer turns `$|` into a word and a pipe, but the
    // operator itself exists in the language
    let or = ExpressionAST::AtomBinExpr(
        AtomBinary::Or,
        Box::new(ExpressionAST::IntegerExpr(5)),
        Box::new(ExpressionAST::IntegerExpr(3)),
    );
    let prog = compile(or).expect("operator compiles");
    assert_eq!(interpret(&prog, FUEL), RunOutcome::Finished(7));
}

#[test]
fn identical_text_compiles_to_identical_artifacts() {
    let text = "(seq (define x 3) (if x ($* x x) 0))";
    let p1: Program = compile(parse(text).unwrap()).unwrap();
    let p2: Program = compile(parse(text).unwrap()).unwrap();
    assert_eq!(format!("{:?}", p1), format!("{:?}", p2));
    assert_eq!(interpret(&p1, FUEL), RunOutcome::Finished(9));
    assert_eq!(interpret(&p2, FUEL), RunOutcome::Finished(9));
}

#[test]
fn defines_inside_operands_take_effect_in_order() {
    assert_eq!(run("($+ (define x 2) x)"), RunOutcome::Finished(4));
}

#[test]
fn deeply_nested_scopes_resolve_outward() {
    assert_eq!(
        run("(seq (define x 1) (seq (seq (seq x))))"),
        RunOutcome::Finished(1)
    );
}

#[test]
fn interpreter_respects_its_step_budget() {
    let ast = parse("(if 1 10 20)").expect("program parses");
    let prog = compile(ast).expect("program compiles");
    assert_eq!(interpret(&prog, 0), RunOutcome::OutOfSteps);
    assert_eq!(interpret(&prog, FUEL), RunOutcome::Finished(10));
}

#[test]
fn interpreter_reports_ill_formed_programs() {
    // a lone block left open is not a runnable program
    let prog = Program {
        blocks: vec![Block { phis: vec![], instrs: vec![], term: None }],
        n_values: 0,
        slot_names: vec![],
    };
    assert_eq!(interpret(&prog, FUEL), RunOutcome::Stuck);
}
