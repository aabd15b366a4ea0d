use rhc::{BinaryOp, Error, Expression, FromTokens, LineColumn, Literal, Span, Statement, Tokens};

fn digits(value: &str, column: usize) -> Literal {
    let end = column + value.len() - 1;
    Literal::Int {
        value: value.to_string(),
        span: Span::new(LineColumn::new(0, column), LineColumn::new(0, end)),
    }
}

fn path(name: &str) -> Expression {
    Expression::Path(vec![name.to_string()])
}

fn js(e: &Expression) -> String {
    let mut s = String::new();
    e.to_js(&mut s);
    s
}

#[test]
fn word_without_spaces_is_one_path() {
    let mut tokens = Tokens::new("x+1");
    assert_eq!(Expression::parse(&mut tokens), Ok(path("x+1")));
}

#[test]
fn spaced_sum_parses_to_binary_op() {
    let mut tokens = Tokens::new("x + 1");
    let e = Expression::parse(&mut tokens).unwrap();
    assert_eq!(
        e,
        Expression::BinaryOp {
            left: Box::new(path("x")),
            op: BinaryOp::Add,
            right: Box::new(Expression::Literal(digits("1", 4))),
        }
    );
    assert_eq!(js(&e), "x+1");
}

#[test]
fn literal_then_minus() {
    let mut tokens = Tokens::new("9- y");
    let e = Expression::from_tokens(&mut tokens).unwrap();
    assert_eq!(
        e,
        Expression::BinaryOp {
            left: Box::new(Expression::Literal(digits("9", 0))),
            op: BinaryOp::Sub,
            right: Box::new(path("y")),
        }
    );
    assert_eq!(js(&e), "9-y");
}

#[test]
fn operators_group_to_the_right() {
    let mut tokens = Tokens::new("a + b - c");
    let e = Expression::parse(&mut tokens).unwrap();
    assert_eq!(
        e,
        Expression::BinaryOp {
            left: Box::new(path("a")),
            op: BinaryOp::Add,
            right: Box::new(Expression::BinaryOp {
                left: Box::new(path("b")),
                op: BinaryOp::Sub,
                right: Box::new(path("c")),
            }),
        }
    );
    assert_eq!(js(&e), "a+b-c");
}

#[test]
fn call_with_arguments() {
    let mut tokens = Tokens::new("g (a 2)");
    let e = Expression::parse(&mut tokens).unwrap();
    assert_eq!(
        e,
        Expression::Call {
            ident: "g".to_string(),
            args: vec![path("a"), Expression::Literal(digits("2", 5))],
        }
    );
    assert_eq!(js(&e), "g(a,2)");
}

#[test]
fn call_with_one_argument() {
    let mut tokens = Tokens::new("f (1)");
    let e = Expression::parse(&mut tokens).unwrap();
    assert_eq!(js(&e), "f(1)");
}

#[test]
fn unclosed_call_is_an_error() {
    let mut tokens = Tokens::new("f (x");
    assert_eq!(Expression::parse(&mut tokens), Err(Error::default()));
}

#[test]
fn sum_renders_operands_and_plus() {
    let e = Expression::BinaryOp {
        left: Box::new(Expression::Path(vec!["a".to_string(), "b".to_string()])),
        op: BinaryOp::Add,
        right: Box::new(Expression::BinaryOp {
            left: Box::new(Expression::Literal(digits("7", 0))),
            op: BinaryOp::Add,
            right: Box::new(path("c")),
        }),
    };
    assert_eq!(js(&e), "ab+7+c");
}

#[test]
fn operator_symbols() {
    let mut s = String::new();
    BinaryOp::Add.to_js(&mut s);
    BinaryOp::Sub.to_js(&mut s);
    assert_eq!(s, "+-");
}

#[test]
fn statement_returns_its_expression() {
    let stmt = Statement::Expression(path("n"));
    let mut s = String::from(";");
    stmt.to_js(&mut s);
    assert_eq!(s, ";return n;");
}

#[test]
fn call_arguments_consume_their_separator() {
    let mut tokens = Tokens::new("g (1 2) ");
    let e = Expression::from_tokens(&mut tokens).unwrap();
    assert_eq!(
        e,
        Expression::Call {
            ident: "g".to_string(),
            args: vec![Expression::Literal(digits("1", 3)), Expression::Literal(digits("2", 5))],
        }
    );
    assert_eq!(tokens.peek_char(), None);
    assert_eq!(js(&e), "g(1,2)");
}

#[test]
fn newline_ends_a_path() {
    let mut tokens = Tokens::new("ab\ncd");
    assert_eq!(Expression::parse(&mut tokens), Ok(path("ab")));
    assert_eq!(tokens.peek_char(), Some('\n'));
}

#[test]
fn nested_call_clone_is_equal() {
    let mut tokens = Tokens::new("f (g (1 ) x + 2)");
    // `1 )`: the space after an argument is read before `)` is looked for
    let e = Expression::parse(&mut tokens).unwrap();
    assert_eq!(js(&e), "f(g(1),x+2)");
    assert_eq!(e.clone(), e);
}

#[test]
fn space_before_closing_parenthesis() {
    let mut tokens = Tokens::new("h (7 )");
    let e = Expression::parse(&mut tokens).unwrap();
    assert_eq!(
        e,
        Expression::Call { ident: "h".to_string(), args: vec![Expression::Literal(digits("7", 3))] }
    );
}
