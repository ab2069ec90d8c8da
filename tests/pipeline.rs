use mathling::compiler::Compiler;
use mathling::lexer::tokenize;
use mathling::operator::BinOp;
use mathling::parser::parse_to_postfix;
use mathling::symbols::SymbolTable;
use mathling::token::{ErrorKind, Numeral, ParseError, TokenType};

fn literal(n: &Numeral) -> f32 {
    n.text().parse::<f32>().unwrap()
}

fn apply(op: BinOp, x: f32, y: f32) -> f32 {
    match op {
        BinOp::Plus => x + y,
        BinOp::Minus => x - y,
        BinOp::Times => x * y,
        BinOp::Divide => x / y,
    }
}

fn run(src: &str) -> Result<f32, ParseError> {
    Compiler::new(src).run(&literal, &apply)
}

fn error_of(src: &str) -> (ErrorKind, Option<usize>) {
    let e = run(src).unwrap_err();
    (e.kind, e.column)
}

#[test]
fn precedence_without_parentheses() {
    assert_eq!(run("2+3*4").unwrap(), 14.0);
    assert_eq!(run("10-4/2").unwrap(), 8.0);
    assert_eq!(run("2*3+4").unwrap(), 10.0);
    assert_eq!(run("1+2*3-4/2").unwrap(), 5.0);
}

#[test]
fn equal_precedence_associates_left() {
    assert_eq!(run("10-4-3").unwrap(), 3.0);
    assert_eq!(run("8/2/2").unwrap(), 2.0);
    assert_eq!(run("8/2*2").unwrap(), 8.0);
    assert_eq!(run("2-3+4").unwrap(), 3.0);
}

#[test]
fn parentheses_change_grouping() {
    assert_eq!(run("(2+3)*4").unwrap(), 20.0);
    assert_eq!(run("2+3*4").unwrap(), 14.0);
    assert_eq!(run("10-(4-3)").unwrap(), 9.0);
    assert_eq!(run("((7))").unwrap(), 7.0);
    assert_eq!(run("((1+2)*(3+4))/7").unwrap(), 3.0);
    assert_eq!(run("2*(3+4*(5-3))").unwrap(), 22.0);
}

#[test]
fn assignment_then_reference() {
    assert_eq!(run("x=5;x+1").unwrap(), 6.0);
    assert_eq!(run("x = 2; y = x * 3; y + x").unwrap(), 8.0);
}

#[test]
fn later_assignment_overwrites() {
    assert_eq!(run("x=1;x=7;x*2").unwrap(), 14.0);
    assert_eq!(run("x=1;x=x+1;x").unwrap(), 2.0);
}

#[test]
fn division_by_zero_is_infinite() {
    let v = run("1/0").unwrap();
    assert!(v.is_infinite() && v > 0.0);
    assert!(run("0/0").unwrap().is_nan());
}

#[test]
fn malformed_input_is_rejected() {
    assert_eq!(error_of("(2+3"), (ErrorKind::UnclosedParenthesis, Some(1)));
    assert_eq!(error_of("2+3)"), (ErrorKind::MismatchedParenthesis, Some(4)));
    assert_eq!(error_of("y+1"), (ErrorKind::UndefinedVariable, Some(1)));
}

#[test]
fn runs_are_repeatable() {
    for src in ["x=3;x*x-1", "1/0", "(2+3", "4.5*2"] {
        let a = run(src);
        let b = run(src);
        match (a, b) {
            (Ok(x), Ok(y)) => assert_eq!(x.to_bits(), y.to_bits()),
            (Err(x), Err(y)) => assert_eq!(x, y),
            _ => panic!("outcomes differ for {}", src),
        }
    }
}

#[test]
fn digits_group_into_one_numeral() {
    let tokens = tokenize("9081726354").unwrap();
    assert_eq!(tokens.len(), 1);
    assert_eq!(tokens[0].column, 1);
    match &tokens[0].token_type {
        TokenType::Number(n) => assert_eq!(n.text(), "9081726354"),
        _ => panic!("not a number"),
    }
    let zeros = tokenize("007").unwrap();
    match &zeros[0].token_type {
        TokenType::Number(n) => assert_eq!(n.text(), "007"),
        _ => panic!("not a number"),
    }
}

#[test]
fn fractional_literals() {
    assert_eq!(run("1.5*2").unwrap(), 3.0);
    assert_eq!(run("0.25+0.25").unwrap(), 0.5);
    let tokens = tokenize(" 12.75").unwrap();
    assert_eq!(tokens[0].column, 2);
    match &tokens[0].token_type {
        TokenType::Number(n) => {
            assert_eq!(n.whole, "12");
            assert_eq!(n.fraction.as_deref(), Some("75"));
            assert_eq!(n.text(), "12.75");
        }
        _ => panic!("not a number"),
    }
}

#[test]
fn lexical_errors_carry_columns() {
    assert_eq!(error_of("2 $ 3"), (ErrorKind::UnexpectedToken, Some(3)));
    assert_eq!(error_of("1."), (ErrorKind::IncompleteFloatingPoint, Some(2)));
    assert_eq!(error_of(".5"), (ErrorKind::IncompleteFloatingPoint, Some(1)));
    assert_eq!(error_of("1.2.3"), (ErrorKind::IncompleteFloatingPoint, Some(4)));
}

#[test]
fn ill_formed_expressions() {
    assert_eq!(error_of("2+").0, ErrorKind::IllFormedExpression);
    assert_eq!(error_of("2 3").0, ErrorKind::IllFormedExpression);
    assert_eq!(error_of("*").0, ErrorKind::IllFormedExpression);
    assert_eq!(error_of("x=1;()").0, ErrorKind::IllFormedExpression);
}

#[test]
fn malformed_programs() {
    assert_eq!(error_of("1;2"), (ErrorKind::MalformedProgram, None));
    assert_eq!(error_of("x=1"), (ErrorKind::MalformedProgram, None));
    assert_eq!(error_of("1;x=2"), (ErrorKind::MalformedProgram, None));
    assert_eq!(error_of("x=1;"), (ErrorKind::MalformedProgram, None));
    assert_eq!(error_of(""), (ErrorKind::MalformedProgram, None));
    assert_eq!(error_of("1;;2"), (ErrorKind::MalformedProgram, None));
    assert_eq!(error_of("x=1;2=3"), (ErrorKind::UnexpectedToken, Some(6)));
}

#[test]
fn undefined_variable_in_assignment() {
    assert_eq!(error_of("x=y;x"), (ErrorKind::UndefinedVariable, Some(3)));
    assert_eq!(error_of("x=1;y"), (ErrorKind::UndefinedVariable, Some(5)));
}

#[test]
fn postfix_order() {
    let tokens = tokenize("1+2*3").unwrap();
    let postfix = parse_to_postfix(&tokens).unwrap();
    let shape: Vec<usize> = postfix.iter().map(|t| t.column).collect();
    assert_eq!(shape, vec![1, 3, 5, 4, 2]);
    let tokens = tokenize("(1+2)*3").unwrap();
    let postfix = parse_to_postfix(&tokens).unwrap();
    let shape: Vec<usize> = postfix.iter().map(|t| t.column).collect();
    assert_eq!(shape, vec![2, 4, 3, 7, 6]);
}

#[test]
fn precedence_comparison() {
    assert!(BinOp::Times.has_greater_precedence_than(&BinOp::Plus));
    assert!(BinOp::Divide.has_greater_precedence_than(&BinOp::Minus));
    assert!(!BinOp::Divide.has_greater_precedence_than(&BinOp::Times));
    assert!(!BinOp::Times.has_greater_precedence_than(&BinOp::Divide));
    assert!(!BinOp::Plus.has_greater_precedence_than(&BinOp::Minus));
    assert!(!BinOp::Plus.has_greater_precedence_than(&BinOp::Times));
    assert_eq!(BinOp::Divide.symbol(), '/');
}

#[test]
fn symbol_table_bindings() {
    let mut table: SymbolTable<f32> = SymbolTable::new();
    assert_eq!(table.lookup("x"), None);
    table.add("x", 1.0);
    table.add("y", 2.0);
    table.add("x", 3.0);
    assert_eq!(table.lookup("x"), Some(&3.0));
    assert_eq!(table.lookup("y"), Some(&2.0));
    assert_eq!(table.lookup("X"), None);
}

#[test]
fn error_messages_are_present() {
    assert!(!ErrorKind::MalformedProgram.message().is_empty());
    assert!(!ErrorKind::UnexpectedToken.message().is_empty());
}

#[test]
fn lexer_keeps_its_source() {
    let lexer = mathling::lexer::Lexer::new("a = 1; a");
    assert_eq!(lexer.src(), "a = 1; a");
    let tokens = lexer.lex().unwrap();
    let columns: Vec<usize> = tokens.iter().map(|t| t.column).collect();
    assert_eq!(columns, vec![1, 3, 5, 6, 8]);
    assert!(matches!(tokens[1].token_type, TokenType::Assign));
    assert!(matches!(tokens[3].token_type, TokenType::Separator));
}
