use rhc::{Error, LineColumn, Span, Tokens};

#[test]
fn newline_moves_to_next_line() {
    let mut tokens = Tokens::new("ab\ncd");
    assert_eq!(tokens.line_column(), LineColumn::new(0, 0));
    let a = tokens.next().unwrap();
    assert_eq!(a.c, 'a');
    assert_eq!(a.line_column, LineColumn::new(0, 0));
    assert_eq!(tokens.line_column(), LineColumn::new(0, 1));
    tokens.next();
    assert_eq!(tokens.line_column(), LineColumn::new(0, 2));
    let newline = tokens.next().unwrap();
    assert_eq!(newline.c, '\n');
    assert_eq!(newline.line_column, LineColumn::new(0, 2));
    assert_eq!(tokens.line_column(), LineColumn::new(1, 0));
    let c = tokens.next().unwrap();
    assert_eq!(c.c, 'c');
    assert_eq!(c.line_column, LineColumn::new(1, 0));
    assert_eq!(tokens.line_column(), LineColumn::new(1, 1));
}

#[test]
fn no_token_past_the_end() {
    let mut tokens = Tokens::new("x");
    assert!(tokens.next().is_some());
    assert!(tokens.next().is_none());
    assert!(tokens.peek().is_none());
    assert_eq!(tokens.peek_char(), None);
    assert_eq!(tokens.line_column(), LineColumn::new(0, 1));
}

#[test]
fn peek_does_not_consume() {
    let mut tokens = Tokens::new("q\n");
    let first = tokens.peek().unwrap();
    assert_eq!(first.c, 'q');
    assert_eq!(first.line_column, LineColumn::new(0, 0));
    assert_eq!(tokens.peek_char(), Some('q'));
    assert_eq!(tokens.next().unwrap().c, 'q');
    assert_eq!(tokens.peek_char(), Some('\n'));
}

#[test]
fn parse_char_matches_and_fails() {
    let mut tokens = Tokens::new("[x");
    assert_eq!(tokens.parse_char('['), Ok(LineColumn::new(0, 0)));
    assert_eq!(
        tokens.parse_char(']'),
        Err(Error::new(Span::new(LineColumn::new(0, 1), LineColumn::new(0, 1))))
    );
    assert_eq!(tokens.parse_char(']'), Err(Error::default()));
}

#[test]
fn take_word_reads_through_the_space() {
    let mut tokens = Tokens::new("abc def");
    assert_eq!(tokens.take_word(), "abc");
    assert_eq!(tokens.peek_char(), Some('d'));
    assert_eq!(tokens.take_word(), "def");
    assert_eq!(tokens.peek_char(), None);
    assert_eq!(tokens.take_word(), "");
}

#[test]
fn span_from_a_place() {
    let at = LineColumn::new(2, 5);
    let span = Span::from(at);
    assert_eq!(span.start, at);
    assert_eq!(span.end, at);
    assert_eq!(Span::default(), Span::new(LineColumn::default(), LineColumn::new(0, 0)));
    assert_eq!(Error::default().span, Span::default());
}

#[test]
fn take_word_stops_before_a_newline() {
    let mut tokens = Tokens::new("ab\ncd");
    assert_eq!(tokens.take_word(), "ab");
    assert_eq!(tokens.peek_char(), Some('\n'));
}

#[test]
fn skip_space_reads_only_a_space() {
    let mut tokens = Tokens::new(" \n");
    tokens.skip_space();
    assert_eq!(tokens.peek_char(), Some('\n'));
    tokens.skip_space();
    assert_eq!(tokens.peek_char(), Some('\n'));
}
