//! Tests of the lexer, the reader and the lowering to expressions.

use unlisp::lexer::Lexer;
use unlisp::lexer::Token;
use unlisp::reader::Reader;
use unlisp::repr::form_to_hir;
use unlisp::repr::Form;
use unlisp::repr::HIR;

fn all_tokens(src: &str) -> Vec<Token> {
    let mut lx = Lexer::create(src);
    let mut out = Vec::new();
    loop {
        match lx.next_token().expect("lexing failed") {
            Some(t) => out.push(t),
            None => return out,
        }
    }
}

#[test]
fn lexes_parens_symbols_and_numbers() {
    let toks = all_tokens(" (+ 12 -3 x-y)\n");
    assert_eq!(toks.len(), 6);
    assert!(matches!(toks[0], Token::LeftPar));
    assert!(matches!(&toks[1], Token::Symbol(s) if s == "+"));
    assert!(matches!(toks[2], Token::IntegerLiteral(12)));
    assert!(matches!(toks[3], Token::IntegerLiteral(-3)));
    assert!(matches!(&toks[4], Token::Symbol(s) if s == "x-y"));
    assert!(matches!(toks[5], Token::RightPar));
}

#[test]
fn lexes_string_literals() {
    let toks = all_tokens("\"hello world\"");
    assert_eq!(toks.len(), 1);
    assert!(matches!(&toks[0], Token::StringLiteral(s) if s == "hello world"));
}

#[test]
fn lexer_rejects_unterminated_string() {
    let mut lx = Lexer::create("\"abc");
    let e = lx.next_token().unwrap_err();
    assert_eq!(e.message(), "unterminated string literal");
}

#[test]
fn lexer_rejects_out_of_range_integers() {
    let mut lx = Lexer::create("9223372036854775808");
    let e = lx.next_token().unwrap_err();
    assert_eq!(e.message(), "integer literal out of range");
    // the most negative value still fits
    let mut lx = Lexer::create("-9223372036854775808");
    match lx.next_token().unwrap() {
        Some(Token::IntegerLiteral(i)) => assert_eq!(i, i64::MIN),
        other => panic!("unexpected token {:?}", other),
    }
}

#[test]
fn lone_minus_is_a_symbol() {
    let toks = all_tokens("- -a");
    assert!(matches!(&toks[0], Token::Symbol(s) if s == "-"));
    assert!(matches!(&toks[1], Token::Symbol(s) if s == "-a"));
}

#[test]
fn reads_nested_lists() {
    let mut r = Reader::create("(a (b 1) 2)");
    let form = r.read_form().unwrap().unwrap();
    match form {
        Form::List(items) => {
            assert_eq!(items.len(), 3);
            assert!(matches!(&items[0], Form::Symbol(s) if s == "a"));
            match &items[1] {
                Form::List(inner) => {
                    assert!(matches!(&inner[0], Form::Symbol(s) if s == "b"));
                    assert!(matches!(inner[1], Form::Integer(1)));
                },
                other => panic!("unexpected form {:?}", other),
            }
            assert!(matches!(items[2], Form::Integer(2)));
        },
        other => panic!("unexpected form {:?}", other),
    }
    // end of input afterwards
    assert!(r.read_form().unwrap().is_none());
}

#[test]
fn nil_reads_as_the_empty_list_and_t_as_truth() {
    let mut r = Reader::create("nil t");
    match r.read_form().unwrap().unwrap() {
        Form::List(items) => assert!(items.is_empty()),
        other => panic!("unexpected form {:?}", other),
    }
    assert!(matches!(r.read_form().unwrap().unwrap(), Form::T));
}

#[test]
fn unbalanced_close_paren_is_an_error() {
    let mut r = Reader::create(")");
    let e = r.read_form().unwrap_err();
    assert_eq!(e.message(), "unbalanced parens");
}

#[test]
fn unclosed_list_reports_eof() {
    let mut r = Reader::create("(1 2");
    let e = r.read_form().unwrap_err();
    assert_eq!(e.message(), "unexpected end of file");
}

#[test]
fn tok_to_trivial_form_maps_every_non_paren() {
    let r = Reader::create("");
    assert!(r.tok_to_trivial_form(&Token::LeftPar).is_none());
    assert!(r.tok_to_trivial_form(&Token::RightPar).is_none());
    assert!(matches!(
        r.tok_to_trivial_form(&Token::IntegerLiteral(4)),
        Some(Form::Integer(4))
    ));
    assert!(matches!(
        r.tok_to_trivial_form(&Token::Symbol("nil".to_string())),
        Some(Form::List(_))
    ));
    assert!(matches!(
        r.tok_to_trivial_form(&Token::Symbol("t".to_string())),
        Some(Form::T)
    ));
}

#[test]
fn lowers_calls_through_the_head_symbol() {
    let mut r = Reader::create("(+ 1 2)");
    let form = r.read_form().unwrap().unwrap();
    match form_to_hir(&form).unwrap() {
        HIR::CallGlobal(name, args) => {
            assert_eq!(name, "+");
            assert_eq!(args.len(), 2);
        },
        other => panic!("unexpected hir {:?}", other),
    }
}

#[test]
fn lowers_lambda_and_computes_free_variables() {
    let mut r = Reader::create("(lambda (x) (lambda (y) (+ x y)))");
    let form = r.read_form().unwrap().unwrap();
    match form_to_hir(&form).unwrap() {
        HIR::Lambda(outer) => {
            assert_eq!(outer.lambda.arglist, vec!["x".to_string()]);
            // the outer lambda captures nothing
            assert!(outer.free_vars.is_empty());
            match &outer.lambda.body[0] {
                HIR::Lambda(inner) => {
                    assert_eq!(inner.lambda.arglist, vec!["y".to_string()]);
                    // the inner lambda captures x from the enclosing scope
                    assert_eq!(inner.free_vars, vec!["x".to_string()]);
                },
                other => panic!("unexpected hir {:?}", other),
            }
        },
        other => panic!("unexpected hir {:?}", other),
    }
}

#[test]
fn lowers_expression_heads_to_call_expr() {
    let mut r = Reader::create("((lambda (x) x) 41)");
    let form = r.read_form().unwrap().unwrap();
    match form_to_hir(&form).unwrap() {
        HIR::CallExpr(items) => {
            assert_eq!(items.len(), 2);
            assert!(matches!(items[0], HIR::Lambda(_)));
            assert!(matches!(items[1], HIR::IntLiteral(41)));
        },
        other => panic!("unexpected hir {:?}", other),
    }
}

#[test]
fn lowering_rejects_a_bad_lambda_arglist() {
    let mut r = Reader::create("(lambda (1) 2)");
    let form = r.read_form().unwrap().unwrap();
    let e = form_to_hir(&form).unwrap_err();
    assert_eq!(e.message(), "invalid lambda argument list");
}

#[test]
fn lowering_rejects_an_integer_head() {
    let mut r = Reader::create("(1 2 3)");
    let form = r.read_form().unwrap().unwrap();
    let e = form_to_hir(&form).unwrap_err();
    assert_eq!(e.message(), "illegal function call");
}

#[test]
fn string_comparison_by_characters() {
    assert!(unlisp::text::str_eql("abc", "abc"));
    assert!(!unlisp::text::str_eql("abc", "abd"));
    assert!(!unlisp::text::str_eql("abc", "ab"));
    assert!(unlisp::text::str_eql("", ""));
}
