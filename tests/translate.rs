use rhc::{
    group_clauses, translate, Block, Error, Expression, FromTokens, Function, FunctionItem,
    LineColumn, Literal, Module, Pattern, Span, Statement, Tokens, TranslateError, Write,
};

fn lit(value: &str, column: usize) -> Literal {
    let end = column + value.len() - 1;
    Literal::Int {
        value: value.to_string(),
        span: Span::new(LineColumn::new(0, column), LineColumn::new(0, end)),
    }
}

#[test]
fn single_clause_function() {
    assert_eq!(translate("f x = x+1"), Ok("function f(x){return x+1;}".to_string()));
}

#[test]
fn literal_clause_then_name_clause() {
    assert_eq!(
        translate("f 0 = 1\nf x = x"),
        Ok("function f(x){if (x == 0){return 1;}return x;}".to_string())
    );
}

#[test]
fn missing_pattern_is_a_parse_error() {
    assert_eq!(
        translate("f = "),
        Err(TranslateError::Parse(Error::new(Span::from(LineColumn::new(0, 2)))))
    );
}

#[test]
fn empty_input_is_a_parse_error() {
    assert_eq!(translate(""), Err(TranslateError::Parse(Error::default())));
}

#[test]
fn clause_followed_by_other_than_newline() {
    assert_eq!(
        translate("f 0 = 1x"),
        Err(TranslateError::Parse(Error::new(Span::from(LineColumn::new(0, 7)))))
    );
}

#[test]
fn missing_space_after_equals() {
    assert_eq!(
        translate("f x =1"),
        Err(TranslateError::Parse(Error::new(Span::from(LineColumn::new(0, 5)))))
    );
}

#[test]
fn guard_without_parameter() {
    assert_eq!(translate("f 0 = 1"), Err(TranslateError::UnboundGuard("f".to_string())));
}

#[test]
fn two_parameters_are_separated() {
    assert_eq!(translate("h x y = 1"), Ok("function h(x,y){return 1;}".to_string()));
}

#[test]
fn clauses_group_by_name() {
    assert_eq!(
        translate("f 0 = 1\ng y = 2\nf x = 3"),
        Ok("function f(x){if (x == 0){return 1;}return 3;}\nfunction g(y){return 2;}".to_string())
    );
}

#[test]
fn repeated_name_is_one_parameter() {
    assert_eq!(
        translate("f x = 1\nf x = 2"),
        Ok("function f(x){return 1;return 2;}".to_string())
    );
}

#[test]
fn several_guards_are_joined() {
    assert_eq!(
        translate("k a b = 0\nk 1 2 = 3"),
        Ok("function k(a,b){return 0;if (a == 1 && b == 2){return 3;}}".to_string())
    );
}

#[test]
fn module_reads_clauses_in_order() {
    let mut tokens = Tokens::new("f 0 = 1\nf x = 2");
    let module = Module::from_tokens(&mut tokens).unwrap();
    assert_eq!(module.funcs.len(), 2);
    assert_eq!(module.funcs[0].ident, "f");
    assert_eq!(module.funcs[0].patterns, vec![Pattern::Literal(lit("0", 2))]);
    assert_eq!(module.funcs[1].patterns, vec![Pattern::Ident("x".to_string())]);
}

#[test]
fn function_clause_parses() {
    let mut tokens = Tokens::new("add a b = a + b");
    let f = Function::from_tokens(&mut tokens).unwrap();
    assert_eq!(f.ident, "add");
    assert_eq!(
        f.patterns,
        vec![Pattern::Ident("a".to_string()), Pattern::Ident("b".to_string())]
    );
    let mut s = String::new();
    f.stmt.to_js(&mut s);
    assert_eq!(s, "return a+b;");
}

#[test]
fn pattern_kinds() {
    let mut tokens = Tokens::new("12 n ");
    assert_eq!(Pattern::from_tokens(&mut tokens), Ok(Pattern::Literal(lit("12", 0))));
    assert_eq!(Pattern::from_tokens(&mut tokens), Ok(Pattern::Ident("n".to_string())));
    assert_eq!(Pattern::from_tokens(&mut tokens), Err(Error::default()));
}

#[test]
fn empty_pattern_at_a_space() {
    let mut tokens = Tokens::new(" x");
    assert_eq!(
        Pattern::from_tokens(&mut tokens),
        Err(Error::new(Span::from(LineColumn::new(0, 0))))
    );
}

#[test]
fn function_item_renders_blocks() {
    let item = FunctionItem {
        ident: "f".to_string(),
        blocks: vec![
            Block {
                patterns: vec![Pattern::Literal(lit("0", 0))],
                stmt: Statement::Expression(Expression::Literal(lit("1", 0))),
            },
            Block {
                patterns: vec![Pattern::Ident("x".to_string())],
                stmt: Statement::Expression(Expression::Path(vec!["x".to_string()])),
            },
        ],
    };
    assert!(item.guards_resolve());
    assert_eq!(item.params(), vec!["x".to_string()]);
    let mut s = String::new();
    item.to_js(&mut s);
    assert_eq!(s, "function f(x){if (x == 0){return 1;}return x;}");
}

#[test]
fn function_item_with_unbound_guard() {
    let item = FunctionItem {
        ident: "f".to_string(),
        blocks: vec![Block {
            patterns: vec![Pattern::Ident("x".to_string()), Pattern::Literal(lit("0", 0))],
            stmt: Statement::Expression(Expression::Literal(lit("1", 0))),
        }],
    };
    assert!(!item.guards_resolve());
}

#[test]
fn grouping_keeps_first_seen_order() {
    let mut tokens = Tokens::new("b 1 = 1\na 2 = 2\nb 3 = 3");
    let module = Module::from_tokens(&mut tokens).unwrap();
    let items = group_clauses(module.funcs);
    assert_eq!(items.len(), 2);
    assert_eq!(items[0].ident, "b");
    assert_eq!(items[0].blocks.len(), 2);
    assert_eq!(items[1].ident, "a");
    assert_eq!(items[1].blocks.len(), 1);
    let three = Literal::Int {
        value: "3".to_string(),
        span: Span::new(LineColumn::new(2, 2), LineColumn::new(2, 2)),
    };
    assert_eq!(items[0].blocks[1].patterns, vec![Pattern::Literal(three)]);
}

#[test]
fn write_helpers() {
    let mut s = String::new();
    s.write_return("x");
    assert_eq!(s, "return x;");
    let mut f = String::new();
    f.write_function("g", "a,b", "return a;");
    assert_eq!(f, "function g(a,b){return a;}");
}

#[test]
fn equals_sign_is_no_pattern() {
    assert_eq!(
        translate("f = x = 1"),
        Err(TranslateError::Parse(Error::new(Span::from(LineColumn::new(0, 2)))))
    );
}

#[test]
fn path_bodies_end_at_the_line() {
    assert_eq!(
        translate("f x = x\ng y = y"),
        Ok("function f(x){return x;}\nfunction g(y){return y;}".to_string())
    );
}

#[test]
fn name_clause_then_literal_clause() {
    assert_eq!(
        translate("f x = x\nf 0 = 1"),
        Ok("function f(x){return x;if (x == 0){return 1;}}".to_string())
    );
}

#[test]
fn call_body_before_another_line() {
    assert_eq!(
        translate("f x = g (x )\nh y = y"),
        Ok("function f(x){return g(x);}\nfunction h(y){return y;}".to_string())
    );
}

#[test]
fn call_left_open_at_end_of_line() {
    assert_eq!(
        translate("f x = g (x\nh y = y"),
        Err(TranslateError::Parse(Error::new(Span::from(LineColumn::new(0, 10)))))
    );
}

#[test]
fn module_with_path_bodies_reads_each_line() {
    let mut tokens = Tokens::new("f x = x\ng y = y");
    let module = Module::from_tokens(&mut tokens).unwrap();
    assert_eq!(module.funcs.len(), 2);
    assert_eq!(module.funcs[0].ident, "f");
    assert_eq!(
        module.funcs[0].stmt,
        Statement::Expression(Expression::Path(vec!["x".to_string()]))
    );
    assert_eq!(module.funcs[1].ident, "g");
    assert_eq!(module.funcs[1].patterns, vec![Pattern::Ident("y".to_string())]);
}

#[test]
fn clause_clone_is_equal() {
    let mut tokens = Tokens::new("f 0 x = x + 1");
    let f = Function::from_tokens(&mut tokens).unwrap();
    let g = f.clone();
    assert_eq!(f, g);
    assert_eq!(g.stmt.clone(), f.stmt);
    assert_eq!(g.patterns[0].clone(), f.patterns[0]);
}
