use vstd::prelude::*;
use crate::tokens::{lemma_position_on_first_line, line_column_at, Error, FromTokens, LineColumn, Span, Tokens};
use crate::write::{push_char, push_str};

verus! {

/// An integer literal: its decimal digits as written, and where they stand.
#[derive(Clone, PartialEq, Eq, Debug)]
pub enum Literal {
    Int { value: String, span: Span },
}

/// The mathematical value of a `Literal`.
pub enum LiteralModel {
    Int { value: Seq<char>, span: Span },
}

impl LiteralModel {
    pub open spec fn digits(self) -> Seq<char> {
        match self {
            LiteralModel::Int { value, .. } => value,
        }
    }
}

impl View for Literal {
    type V = LiteralModel;

    open spec fn view(&self) -> LiteralModel {
        match self {
            Literal::Int { value, span } => LiteralModel::Int { value: value@, span: *span },
        }
    }
}

pub open spec fn is_digit(c: char) -> bool {
    '0' <= c <= '9'
}

/// The index of the first character at or after `p` that is not an ASCII digit.
pub open spec fn digits_end(src: Seq<char>, p: nat) -> nat
    decreases src.len() - p,
{
    if p < src.len() && is_digit(src[p as int]) {
        digits_end(src, p + 1)
    } else {
        p
    }
}

pub proof fn lemma_digits_end(src: Seq<char>, p: nat)
    ensures
        p <= digits_end(src, p) <= if p <= src.len() { src.len() } else { p },
        forall|i: int| p <= i < digits_end(src, p) ==> is_digit(#[trigger] src[i]),
        digits_end(src, p) < src.len() ==> !is_digit(src[digits_end(src, p) as int]),
    decreases src.len() - p,
{
    if p < src.len() && is_digit(src[p as int]) {
        lemma_digits_end(src, p + 1);
    }
}

/// A literal is a maximal run of ASCII digits; its span runs from the first
/// digit to the last. Nothing is read when the first character is no digit.
pub open spec fn parse_literal(src: Seq<char>, p: nat) -> (Result<LiteralModel, Error>, nat) {
    if p >= src.len() {
        (Err(Error::exhausted()), p)
    } else if !is_digit(src[p as int]) {
        (Err(Error::at(line_column_at(src, p))), p)
    } else {
        let e = digits_end(src, p);
        (
            Ok(
                LiteralModel::Int {
                    value: src.subrange(p as int, e as int),
                    span: Span { start: line_column_at(src, p), end: line_column_at(src, (e - 1) as nat) },
                },
            ),
            e,
        )
    }
}

/// The decimal digit for `d`, which is below ten.
pub open spec fn digit_char(d: nat) -> char {
    seq!['0', '1', '2', '3', '4', '5', '6', '7', '8', '9'][d as int]
}

/// The decimal digits of `n`, most significant first.
pub open spec fn decimal(n: nat) -> Seq<char>
    decreases n,
{
    if n < 10 {
        seq![digit_char(n)]
    } else {
        decimal(n / 10).push(digit_char(n % 10))
    }
}

pub proof fn lemma_decimal_digits(n: nat)
    ensures
        decimal(n).len() >= 1,
        forall|i: int| 0 <= i < decimal(n).len() ==> is_digit(#[trigger] decimal(n)[i]),
    decreases n,
{
    let ds = seq!['0', '1', '2', '3', '4', '5', '6', '7', '8', '9'];
    assert forall|d: nat| d < 10 implies is_digit(#[trigger] digit_char(d)) by {
        assert(ds[0] == '0' && ds[1] == '1' && ds[2] == '2' && ds[3] == '3' && ds[4] == '4');
        assert(ds[5] == '5' && ds[6] == '6' && ds[7] == '7' && ds[8] == '8' && ds[9] == '9');
    }
    if n >= 10 {
        lemma_decimal_digits(n / 10);
        assert(is_digit(digit_char(n % 10)));
    } else {
        assert(is_digit(digit_char(n)));
    }
}

/// A run of digits from `p` up to `k`, where the digits end, parses to those
/// digits and leaves the stream at `k`.
pub proof fn lemma_literal_run(src: Seq<char>, p: nat, k: nat)
    requires
        p < k <= src.len(),
        forall|i: int| p <= i < k ==> is_digit(#[trigger] src[i]),
        k == src.len() || !is_digit(src[k as int]),
    ensures
        parse_literal(src, p).0 is Ok,
        parse_literal(src, p).0->Ok_0.digits() == src.subrange(p as int, k as int),
        parse_literal(src, p).1 == k,
{
    lemma_digits_end(src, p);
    let e = digits_end(src, p);
    if e < k {
        assert(is_digit(src[e as int]));
    }
    if e > k {
        assert(is_digit(src[k as int]));
    }
    assert(is_digit(src[p as int]));
}

/// Parsing a run of ASCII digits at the start of a text gives those digits,
/// with a span from the first to the last, and stops at the first character
/// after them that is no digit.
pub proof fn lemma_literal_of_digits(d: Seq<char>, rest: Seq<char>)
    requires
        d.len() >= 1,
        forall|i: int| 0 <= i < d.len() ==> is_digit(#[trigger] d[i]),
        rest.len() == 0 || !is_digit(rest[0]),
    ensures
        parse_literal(d + rest, 0) == (
            Ok::<LiteralModel, Error>(
                LiteralModel::Int {
                    value: d,
                    span: Span {
                        start: LineColumn { line: 0, column: 0 },
                        end: LineColumn { line: 0, column: (d.len() - 1) as usize },
                    },
                },
            ),
            d.len(),
        ),
{
    let src = d + rest;
    assert forall|i: int| 0 <= i < d.len() implies #[trigger] src[i] == d[i] && src[i] != '\n' by {
        assert(is_digit(d[i]));
    }
    if rest.len() > 0 {
        assert(src[d.len() as int] == rest[0]);
    }
    lemma_literal_run(src, 0, d.len());
    assert(src.subrange(0, d.len() as int) =~= d);
    lemma_position_on_first_line(src, (d.len() - 1) as nat);
}

impl Literal {
    /// Writes the digits.
    pub fn to_js(&self, s: &mut String)
        ensures
            final(s)@ == old(s)@ + self@.digits(),
    {
        match self {
            Literal::Int { value, span: _ } => push_str(s, value.as_str()),
        }
    }
}

impl FromTokens for Literal {
    open spec fn grammar(src: Seq<char>, p: nat) -> (Result<LiteralModel, Error>, nat) {
        parse_literal(src, p)
    }

    fn from_tokens(tokens: &mut Tokens) -> (r: Result<Self, Error>) {
        let ghost src = tokens.source();
        let ghost p = tokens.cursor();
        proof {
            tokens.lemma_wf();
            lemma_digits_end(src, p);
        }
        let first = match tokens.peek() {
            Some(token) => {
                if '0' <= token.c && token.c <= '9' {
                    token
                } else {
                    return Err(Error::new(token.span()));
                }
            },
            None => {
                return Err(Error::default());
            },
        };
        tokens.next();
        let mut value = String::new();
        push_char(&mut value, first.c);
        let mut end = first.line_column;
        loop
            invariant
                tokens.wf(),
                tokens.source() == src,
                p < tokens.cursor() <= digits_end(src, p),
                value@ == src.subrange(p as int, tokens.cursor() as int),
                end == line_column_at(src, (tokens.cursor() - 1) as nat),
                digits_end(src, p) <= src.len(),
                forall|i: int| p <= i < digits_end(src, p) ==> is_digit(#[trigger] src[i]),
                digits_end(src, p) < src.len() ==> !is_digit(src[digits_end(src, p) as int]),
            ensures
                tokens.cursor() == digits_end(src, p),
            decreases src.len() - tokens.cursor(),
        {
            proof {
                tokens.lemma_wf();
            }
            match tokens.peek() {
                Some(token) => {
                    if '0' <= token.c && token.c <= '9' {
                        push_char(&mut value, token.c);
                        end = token.line_column;
                        tokens.next();
                    } else {
                        assert(!is_digit(src[tokens.cursor() as int]));
                        break;
                    }
                },
                None => {
                    break;
                },
            }
        }
        let span = Span::new(first.line_column, end);
        Ok(Literal::Int { value, span })
    }
}

} // verus!
