use rhc::{Error, FromTokens, LineColumn, List, Literal, Span, Tokens};

fn digits(value: &str, start: (usize, usize), end: (usize, usize)) -> Literal {
    Literal::Int {
        value: value.to_string(),
        span: Span::new(LineColumn::new(start.0, start.1), LineColumn::new(end.0, end.1)),
    }
}

#[test]
fn digits_parse_to_a_literal() {
    let mut tokens = Tokens::new("12345");
    assert_eq!(Literal::from_tokens(&mut tokens), Ok(digits("12345", (0, 0), (0, 4))));
    assert_eq!(tokens.peek_char(), None);
}

#[test]
fn single_digit_literal() {
    let mut tokens = Tokens::new("7");
    assert_eq!(Literal::from_tokens(&mut tokens), Ok(digits("7", (0, 0), (0, 0))));
}

#[test]
fn literal_stops_at_first_non_digit() {
    let mut tokens = Tokens::new("042x9");
    assert_eq!(Literal::from_tokens(&mut tokens), Ok(digits("042", (0, 0), (0, 2))));
    assert_eq!(tokens.peek_char(), Some('x'));
}

#[test]
fn literal_fails_without_consuming() {
    let mut tokens = Tokens::new("x1");
    assert_eq!(
        Literal::from_tokens(&mut tokens),
        Err(Error::new(Span::from(LineColumn::new(0, 0))))
    );
    assert_eq!(tokens.peek_char(), Some('x'));
}

#[test]
fn literal_on_empty_input_is_exhausted() {
    let mut tokens = Tokens::new("");
    assert_eq!(Literal::from_tokens(&mut tokens), Err(Error::default()));
}

#[test]
fn literal_writes_its_digits() {
    let mut s = String::from("=");
    digits("0099", (0, 0), (0, 3)).to_js(&mut s);
    assert_eq!(s, "=0099");
}

#[test]
fn bounded_range_parses() {
    let mut tokens = Tokens::new("[3..10]");
    let list = List::from_tokens(&mut tokens).unwrap();
    assert_eq!(list.start, digits("3", (0, 1), (0, 1)));
    assert_eq!(list.end, Some(digits("10", (0, 4), (0, 5))));
    assert_eq!(list.bracket, Span::new(LineColumn::new(0, 0), LineColumn::new(0, 6)));
    assert_eq!(tokens.peek_char(), None);
}

#[test]
fn equal_bounds_range_parses() {
    let mut tokens = Tokens::new("[5..5]");
    let list = List::from_tokens(&mut tokens).unwrap();
    assert_eq!(list.start, digits("5", (0, 1), (0, 1)));
    assert_eq!(list.end, Some(digits("5", (0, 4), (0, 4))));
    assert_eq!(list.bracket, Span::new(LineColumn::new(0, 0), LineColumn::new(0, 5)));
}

#[test]
fn endless_range_parses() {
    let mut tokens = Tokens::new("[12..]");
    let list = List::from_tokens(&mut tokens).unwrap();
    assert_eq!(list.start, digits("12", (0, 1), (0, 2)));
    assert_eq!(list.end, None);
    assert_eq!(list.bracket, Span::new(LineColumn::new(0, 0), LineColumn::new(0, 5)));
}

#[test]
fn range_errors_point_at_the_offending_character() {
    let mut tokens = Tokens::new("(1..2]");
    assert_eq!(
        List::from_tokens(&mut tokens),
        Err(Error::new(Span::from(LineColumn::new(0, 0))))
    );
    let mut tokens = Tokens::new("[1.2]");
    assert_eq!(
        List::from_tokens(&mut tokens),
        Err(Error::new(Span::from(LineColumn::new(0, 3))))
    );
    let mut tokens = Tokens::new("[1..2");
    assert_eq!(List::from_tokens(&mut tokens), Err(Error::default()));
    let mut tokens = Tokens::new("[..2]");
    assert_eq!(
        List::from_tokens(&mut tokens),
        Err(Error::new(Span::from(LineColumn::new(0, 1))))
    );
}

#[test]
fn bounded_range_script_text() {
    let mut tokens = Tokens::new("[1..4]");
    let list = List::from_tokens(&mut tokens).unwrap();
    let mut s = String::new();
    list.to_js(&mut s);
    let expected = "{
                pos: 1,
                end: 4,
                next() {
                    if (this.pos < this.end) {
                        return { done: false, value: this.pos++ };
                    } else {
                        return { done: true };
                    }
                }
            }";
    assert_eq!(s, expected);
}

#[test]
fn endless_range_script_text() {
    let mut tokens = Tokens::new("[0..]");
    let list = List::from_tokens(&mut tokens).unwrap();
    let mut s = String::new();
    list.to_js(&mut s);
    let expected = "{
                pos: 0,
                next() {
                    return { done: false, value: this.pos++ };
                }
            }";
    assert_eq!(s, expected);
}
