use vstd::prelude::*;
use crate::literal::{decimal, is_digit, lemma_decimal_digits, lemma_literal_run, parse_literal, Literal, LiteralModel};
use crate::tokens::{
    expect_char, lemma_position_on_first_line, skip_one, view_result, Error, FromTokens, LineColumn, Span, Tokens,
};
use crate::write::push_str;

verus! {

/// A range of integers, `[start..end]` or, without an end, `[start..]`.
#[derive(Clone, PartialEq, Eq, Debug)]
pub struct List {
    pub start: Literal,
    pub end: Option<Literal>,
    pub bracket: Span,
}

/// The mathematical value of a `List`.
pub struct ListModel {
    pub start: LiteralModel,
    pub end: Option<LiteralModel>,
    pub bracket: Span,
}

impl View for List {
    type V = ListModel;

    open spec fn view(&self) -> ListModel {
        ListModel {
            start: self.start@,
            end: match self.end {
                Some(end) => Some(end@),
                None => None,
            },
            bracket: self.bracket,
        }
    }
}

/// Opens the object that a range is written as, up to its start value.
pub const RANGE_POS: &'static str = "{\n                pos: ";

/// Follows the start value of a bounded range, up to its end value.
pub const RANGE_END: &'static str = ",\n                end: ";

/// Closes a bounded range: steps count up from the start while below the end.
pub const BOUNDED_NEXT: &'static str = ",\n                next() {\n                    if (this.pos < this.end) {\n                        return { done: false, value: this.pos++ };\n                    } else {\n                        return { done: true };\n                    }\n                }\n            }";

/// Closes a range without an end: steps count up from the start for ever.
pub const ENDLESS_NEXT: &'static str = ",\n                next() {\n                    return { done: false, value: this.pos++ };\n                }\n            }";

/// The script text of a range: an object with a `next` method.
pub open spec fn list_js(l: ListModel) -> Seq<char> {
    match l.end {
        Some(end) => RANGE_POS@ + l.start.digits() + RANGE_END@ + end.digits() + BOUNDED_NEXT@,
        None => RANGE_POS@ + l.start.digits() + ENDLESS_NEXT@,
    }
}

/// A range: `[`, a literal, two `.`, an optional literal, and `]`; its
/// bracket span runs from `[` to `]`.
pub open spec fn parse_list(src: Seq<char>, p: nat) -> (Result<ListModel, Error>, nat) {
    match expect_char(src, p, '[') {
        Err(e) => (Err(e), skip_one(src, p)),
        Ok(open) => {
            let (start, q) = parse_literal(src, p + 1);
            match start {
                Err(e) => (Err(e), q),
                Ok(start) => match expect_char(src, q, '.') {
                    Err(e) => (Err(e), skip_one(src, q)),
                    Ok(_) => match expect_char(src, q + 1, '.') {
                        Err(e) => (Err(e), skip_one(src, q + 1)),
                        Ok(_) => {
                            let (end, r) = parse_literal(src, q + 2);
                            let end = match end {
                                Ok(end) => Some(end),
                                Err(_) => None,
                            };
                            match expect_char(src, r, ']') {
                                Err(e) => (Err(e), skip_one(src, r)),
                                Ok(close) => (
                                    Ok(ListModel { start, end, bracket: Span { start: open, end: close } }),
                                    r + 1,
                                ),
                            }
                        },
                    },
                },
            }
        },
    }
}

/// The text of a bounded range of two numbers.
pub open spec fn bounded_text(a: nat, b: nat) -> Seq<char> {
    seq!['['] + decimal(a) + seq!['.', '.'] + decimal(b) + seq![']']
}

/// The text of a range from a number without an end.
pub open spec fn endless_text(a: nat) -> Seq<char> {
    seq!['['] + decimal(a) + seq!['.', '.', ']']
}

/// `[a..b]`, for numbers `a <= b`, parses whole to a range from `a` to `b`
/// whose bracket span covers the text; `[a..]` to a range from `a` without an
/// end.
pub proof fn lemma_range_of_numbers(a: nat, b: nat)
    requires
        a <= b,
    ensures
        parse_list(bounded_text(a, b), 0).1 == bounded_text(a, b).len(),
        parse_list(bounded_text(a, b), 0).0 is Ok,
        parse_list(bounded_text(a, b), 0).0->Ok_0.start.digits() == decimal(a),
        parse_list(bounded_text(a, b), 0).0->Ok_0.end matches Some(end) && end.digits() == decimal(b),
        parse_list(bounded_text(a, b), 0).0->Ok_0.bracket == (Span {
            start: LineColumn { line: 0, column: 0 },
            end: LineColumn { line: 0, column: (bounded_text(a, b).len() - 1) as usize },
        }),
        parse_list(endless_text(a), 0).1 == endless_text(a).len(),
        parse_list(endless_text(a), 0).0 is Ok,
        parse_list(endless_text(a), 0).0->Ok_0.start.digits() == decimal(a),
        parse_list(endless_text(a), 0).0->Ok_0.end is None,
        parse_list(endless_text(a), 0).0->Ok_0.bracket == (Span {
            start: LineColumn { line: 0, column: 0 },
            end: LineColumn { line: 0, column: (endless_text(a).len() - 1) as usize },
        }),
{
    lemma_decimal_digits(a);
    lemma_decimal_digits(b);
    let da = decimal(a);
    let db = decimal(b);
    let k1 = 1 + da.len();
    let k2 = k1 + 2 + db.len();

    let src = bounded_text(a, b);
    assert(src.len() == k2 + 1);
    assert(src[0] == '[');
    assert forall|i: int| 1 <= i < k1 implies #[trigger] src[i] == da[i - 1] by {}
    assert(src[k1 as int] == '.' && src[k1 + 1int] == '.');
    assert forall|i: int| k1 + 2 <= i < k2 implies #[trigger] src[i] == db[i - k1 - 2] by {}
    assert(src[k2 as int] == ']');
    assert forall|i: int| 0 <= i < src.len() implies #[trigger] src[i] != '\n' by {
        if 1 <= i < k1 {
            assert(is_digit(da[i - 1]));
        } else if k1 + 2 <= i < k2 {
            assert(is_digit(db[i - k1 - 2]));
        }
    }
    lemma_literal_run(src, 1, k1);
    assert(src.subrange(1, k1 as int) =~= da);
    lemma_literal_run(src, k1 + 2, k2);
    assert(src.subrange(k1 + 2int, k2 as int) =~= db);
    lemma_position_on_first_line(src, 0);
    lemma_position_on_first_line(src, k2);

    let txt = endless_text(a);
    assert(txt.len() == k1 + 3);
    assert(txt[0] == '[');
    assert forall|i: int| 1 <= i < k1 implies #[trigger] txt[i] == da[i - 1] by {}
    assert(txt[k1 as int] == '.' && txt[k1 + 1int] == '.' && txt[k1 + 2int] == ']');
    assert forall|i: int| 0 <= i < txt.len() implies #[trigger] txt[i] != '\n' by {
        if 1 <= i < k1 {
            assert(is_digit(da[i - 1]));
        }
    }
    lemma_literal_run(txt, 1, k1);
    assert(txt.subrange(1, k1 as int) =~= da);
    assert(!is_digit(txt[k1 + 2int]));
    lemma_position_on_first_line(txt, 0);
    lemma_position_on_first_line(txt, k1 + 2);
}

impl List {
    pub fn to_js(&self, s: &mut String)
        ensures
            final(s)@ == old(s)@ + list_js(self@),
    {
        let ghost s0 = s@;
        push_str(s, RANGE_POS);
        self.start.to_js(s);
        match &self.end {
            Some(end) => {
                push_str(s, RANGE_END);
                end.to_js(s);
                push_str(s, BOUNDED_NEXT);
            },
            None => {
                push_str(s, ENDLESS_NEXT);
            },
        }
        assert(s@ =~= s0 + list_js(self@));
    }
}

impl FromTokens for List {
    open spec fn grammar(src: Seq<char>, p: nat) -> (Result<ListModel, Error>, nat) {
        parse_list(src, p)
    }

    fn from_tokens(tokens: &mut Tokens) -> (r: Result<Self, Error>) {
        let ghost src = tokens.source();
        let ghost p = tokens.cursor();
        let bracket_start = match tokens.parse_char('[') {
            Ok(at) => at,
            Err(e) => {
                return Err(e);
            },
        };
        let start = match Literal::from_tokens(tokens) {
            Ok(lit) => lit,
            Err(e) => {
                return Err(e);
            },
        };
        let ghost q = tokens.cursor();
        match tokens.parse_char('.') {
            Ok(_) => {},
            Err(e) => {
                return Err(e);
            },
        }
        match tokens.parse_char('.') {
            Ok(_) => {},
            Err(e) => {
                return Err(e);
            },
        }
        let end = match Literal::from_tokens(tokens) {
            Ok(lit) => Some(lit),
            Err(_) => None,
        };
        let bracket_end = match tokens.parse_char(']') {
            Ok(at) => at,
            Err(e) => {
                return Err(e);
            },
        };
        Ok(List { start, end, bracket: Span { start: bracket_start, end: bracket_end } })
    }
}

} // verus!
