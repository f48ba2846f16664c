//! The lexer and the parser, exercised through the public front end.

use cody::parser::ast_generator::ast_generate;
use cody::parser::lexer::lex;
use cody::parser::node_types::ExpressionAST;
use cody::parser::parse;
use cody::parser::token_types::{AtomBinary, Token};

#[test]
fn lex_wraps_program_in_sequence() {
    let toks = lex("");
    assert_eq!(toks, vec![Token::LeftPar, Token::SeqKw, Token::RightPar, Token::EOF]);
}

#[test]
fn lex_delimiters_and_words() {
    let toks = lex("(a 12)");
    assert_eq!(
        toks,
        vec![
            Token::LeftPar,
            Token::SeqKw,
            Token::LeftPar,
            Token::Identifier("a".to_string()),
            Token::Integer(12),
            Token::RightPar,
            Token::RightPar,
            Token::EOF,
        ]
    );
}

#[test]
fn lex_splits_delimiters_inside_words() {
    // delimiters split words wherever they stand
    let toks = lex("ab(cd");
    assert_eq!(
        toks,
        vec![
            Token::LeftPar,
            Token::SeqKw,
            Token::Identifier("ab".to_string()),
            Token::LeftPar,
            Token::Identifier("cd".to_string()),
            Token::RightPar,
            Token::EOF,
        ]
    );
}

#[test]
fn lex_keywords_operators_and_arrow() {
    let toks = lex("if fn seq define match cont -> $+ $<");
    assert_eq!(
        toks,
        vec![
            Token::LeftPar,
            Token::SeqKw,
            Token::If,
            Token::Function,
            Token::SeqKw,
            Token::Define,
            Token::Match,
            Token::Cont,
            Token::Arrow,
            Token::AtomicOp(AtomBinary::Add),
            Token::AtomicOp(AtomBinary::Lt),
            Token::RightPar,
            Token::EOF,
        ]
    );
}

#[test]
fn lex_dollar_pipe_is_a_word_then_a_pipe() {
    // `|` is a delimiter first, so `$|` never forms an operator
    let toks = lex("$|");
    assert_eq!(
        toks,
        vec![
            Token::LeftPar,
            Token::SeqKw,
            Token::Identifier("$".to_string()),
            Token::Pipe,
            Token::RightPar,
            Token::EOF,
        ]
    );
}

#[test]
fn lex_arrow_wins_over_subtraction_operator() {
    let toks = lex("$->");
    assert_eq!(
        toks,
        vec![
            Token::LeftPar,
            Token::SeqKw,
            Token::Identifier("$".to_string()),
            Token::Arrow,
            Token::RightPar,
            Token::EOF,
        ]
    );
}

#[test]
fn lex_comment_runs_to_end_of_line() {
    let toks = lex("1 ; two 3\n4");
    assert_eq!(
        toks,
        vec![
            Token::LeftPar,
            Token::SeqKw,
            Token::Integer(1),
            Token::Integer(4),
            Token::RightPar,
            Token::EOF,
        ]
    );
}

#[test]
fn lex_integers_signs_and_overflow() {
    let toks = lex("-5 +7 2147483647 -2147483648 2147483648 1x -");
    assert_eq!(
        toks,
        vec![
            Token::LeftPar,
            Token::SeqKw,
            Token::Integer(-5),
            Token::Integer(7),
            Token::Integer(2147483647),
            Token::Integer(-2147483648),
            Token::Identifier("2147483648".to_string()),
            Token::Identifier("1x".to_string()),
            Token::Identifier("-".to_string()),
            Token::RightPar,
            Token::EOF,
        ]
    );
}

#[test]
fn lex_dot_splits_numbers() {
    let toks = lex("3.14");
    assert_eq!(
        toks,
        vec![
            Token::LeftPar,
            Token::SeqKw,
            Token::Integer(3),
            Token::Dot,
            Token::Integer(14),
            Token::RightPar,
            Token::EOF,
        ]
    );
}

#[test]
fn parse_empty_program_is_empty_sequence() {
    let ast = parse("").expect("empty program parses");
    match ast {
        ExpressionAST::SeqExpr(es) => assert_eq!(es.len(), 0),
        other => panic!("not a sequence: {:?}", other),
    }
}

#[test]
fn parse_literal_program() {
    let ast = parse("41").expect("literal parses");
    match ast {
        ExpressionAST::SeqExpr(es) => {
            assert_eq!(es.len(), 1);
            assert!(matches!(es[0], ExpressionAST::IntegerExpr(41)));
        },
        other => panic!("not a sequence: {:?}", other),
    }
}

#[test]
fn parse_define_form() {
    let ast = parse("(define x 1)").expect("definition parses");
    match ast {
        ExpressionAST::SeqExpr(es) => {
            assert_eq!(es.len(), 1);
            match &es[0] {
                ExpressionAST::DefineExpr(name, value) => {
                    assert!(matches!(&**name, ExpressionAST::VariableExpr(s) if s == "x"));
                    assert!(matches!(&**value, ExpressionAST::IntegerExpr(1)));
                },
                other => panic!("not a definition: {:?}", other),
            }
        },
        other => panic!("not a sequence: {:?}", other),
    }
}

#[test]
fn parse_call_reinterprets_leading_identifier() {
    let ast = parse("(f 1 2)").expect("call parses");
    match ast {
        ExpressionAST::SeqExpr(es) => match &es[0] {
            ExpressionAST::CallExpr(callee, args) => {
                assert!(matches!(&**callee, ExpressionAST::VariableExpr(s) if s == "f"));
                assert_eq!(args.len(), 2);
            },
            other => panic!("not a call: {:?}", other),
        },
        other => panic!("not a sequence: {:?}", other),
    }
}

#[test]
fn parse_function_form() {
    let ast = parse("(fn (a b) a)").expect("function parses");
    match ast {
        ExpressionAST::SeqExpr(es) => match &es[0] {
            ExpressionAST::FunctionExpr(params, body) => {
                assert_eq!(params.len(), 2);
                assert!(matches!(&**body, ExpressionAST::VariableExpr(s) if s == "a"));
            },
            other => panic!("not a function: {:?}", other),
        },
        other => panic!("not a sequence: {:?}", other),
    }
}

#[test]
fn parse_match_form() {
    let ast = parse("(match x | 1 2 -> 3 | y -> 4)").expect("match parses");
    match ast {
        ExpressionAST::SeqExpr(es) => match &es[0] {
            ExpressionAST::MatchExpr(scrutinee, arms) => {
                assert!(matches!(&**scrutinee, ExpressionAST::VariableExpr(s) if s == "x"));
                assert_eq!(arms.len(), 2);
                match &arms[0] {
                    ExpressionAST::MatchArmExpr(pats, body) => {
                        assert_eq!(pats.len(), 2);
                        assert!(matches!(&**body, ExpressionAST::IntegerExpr(3)));
                    },
                    other => panic!("not an arm: {:?}", other),
                }
            },
            other => panic!("not a match: {:?}", other),
        },
        other => panic!("not a sequence: {:?}", other),
    }
}

#[test]
fn parse_pair_form() {
    let ast = parse("[1 . 2").expect("pair parses");
    match ast {
        ExpressionAST::SeqExpr(es) => match &es[0] {
            ExpressionAST::PairExpr(h, t) => {
                assert!(matches!(&**h, ExpressionAST::IntegerExpr(1)));
                assert!(matches!(&**t, ExpressionAST::IntegerExpr(2)));
            },
            other => panic!("not a pair: {:?}", other),
        },
        other => panic!("not a sequence: {:?}", other),
    }
}

#[test]
fn parse_if_needs_exactly_three_children() {
    // two children: the closing parenthesis stands where the
    // alternate should be, and nothing starts an expression there
    let err = parse("(if 1 2)").unwrap_err();
    assert_eq!(err.position, 6);
    assert_eq!(err.token, Some(Token::RightPar));
    // four children: the close is expected after the third
    let err = parse("(if 1 2 3 4)").unwrap_err();
    assert_eq!(err.position, 7);
    assert_eq!(err.token, Some(Token::Integer(4)));
}

#[test]
fn parse_atomic_operator_forms() {
    let ast = parse("($+ 1 2)").expect("operator form parses");
    match ast {
        ExpressionAST::SeqExpr(es) => match &es[0] {
            ExpressionAST::AtomBinExpr(op, l, r) => {
                assert_eq!(*op, AtomBinary::Add);
                assert!(matches!(&**l, ExpressionAST::IntegerExpr(1)));
                assert!(matches!(&**r, ExpressionAST::IntegerExpr(2)));
            },
            other => panic!("not an operator form: {:?}", other),
        },
        other => panic!("not a sequence: {:?}", other),
    }
    let ast = parse("($! 0)").expect("negation form parses");
    match ast {
        ExpressionAST::SeqExpr(es) => {
            assert!(matches!(&es[0], ExpressionAST::AtomUnExpr(_)));
        },
        other => panic!("not a sequence: {:?}", other),
    }
}

#[test]
fn parse_rejects_stray_closing_bracket() {
    let err = parse("]").unwrap_err();
    assert_eq!(err.position, 2);
    assert_eq!(err.token, Some(Token::RightBkt));
}

#[test]
fn parse_reports_truncated_stream() {
    let toks = vec![Token::LeftPar, Token::SeqKw];
    let err = ast_generate(&toks).unwrap_err();
    assert_eq!(err.position, 2);
    assert_eq!(err.token, None);
}

#[test]
fn ast_generate_reads_first_expression_only() {
    let toks = vec![Token::Integer(7), Token::Integer(8)];
    let ast = ast_generate(&toks).expect("leading literal parses");
    assert!(matches!(ast, ExpressionAST::IntegerExpr(7)));
}

#[test]
fn lex_foreign_function_keyword() {
    let kw: String = ['e', 'x', 't', 'e', 'r', 'n'].iter().collect();
    let toks = lex(&kw);
    assert_eq!(
        toks,
        vec![Token::LeftPar, Token::SeqKw, Token::Extern, Token::RightPar, Token::EOF]
    );
}

#[test]
fn quote_syntax_is_lexed_but_not_parsed() {
    let toks = lex("`x 'y @z");
    assert_eq!(toks[2], Token::Grave);
    assert_eq!(toks[4], Token::Quote);
    assert_eq!(toks[6], Token::At);
    let err = parse("'x").unwrap_err();
    assert_eq!(err.position, 2);
    assert_eq!(err.token, Some(Token::Quote));
}
