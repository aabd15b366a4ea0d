use vstd::prelude::*;
use vstd::string::StringExecFns;
use crate::expression::{js_of, lemma_expr_progress, parse_expr, ExprModel, Expression};
use crate::literal::{lemma_digits_end, parse_literal, Literal, LiteralModel};
use crate::tokens::{
    lemma_word_end, line_column_at, missing_word, prepend, read_word, skip_one, view_result, Error,
    FromTokens, Span, Tokens,
};
use crate::write::Write;

verus! {

/// The pattern of one argument of a clause: a literal that the argument must
/// equal, or a name that binds it.
#[derive(PartialEq, Eq, Debug)]
pub enum Pattern {
    Literal(Literal),
    Ident(String),
}

/// The mathematical value of a `Pattern`.
pub enum PatternModel {
    Literal(LiteralModel),
    Ident(Seq<char>),
}

impl View for Pattern {
    type V = PatternModel;

    open spec fn view(&self) -> PatternModel {
        match self {
            Pattern::Literal(lit) => PatternModel::Literal(lit@),
            Pattern::Ident(name) => PatternModel::Ident(name@),
        }
    }
}

pub open spec fn pattern_views(patterns: Seq<Pattern>) -> Seq<PatternModel> {
    patterns.map_values(|p: Pattern| p@)
}

/// A pattern: a literal and the one separator character after it; otherwise
/// a word (see `read_word`), which must not be empty and must not be `=`:
/// a clause needs a pattern before its `=`.
pub open spec fn parse_pattern(src: Seq<char>, p: nat) -> (Result<PatternModel, Error>, nat) {
    match parse_literal(src, p).0 {
        Ok(lit) => (Ok(PatternModel::Literal(lit)), skip_one(src, parse_literal(src, p).1)),
        Err(_) => {
            let (word, q) = read_word(src, p);
            if word.len() == 0 {
                (Err(missing_word(src, p)), q)
            } else if word == "="@ {
                (Err(Error::at(line_column_at(src, p))), q)
            } else {
                (Ok(PatternModel::Ident(word)), q)
            }
        },
    }
}

pub proof fn lemma_pattern_progress(src: Seq<char>, p: nat)
    requires
        p <= src.len(),
    ensures
        p <= parse_pattern(src, p).1 <= src.len(),
        parse_pattern(src, p).0 is Ok ==> p < parse_pattern(src, p).1,
{
    lemma_digits_end(src, p);
    lemma_word_end(src, p);
}

impl Clone for Pattern {
    fn clone(&self) -> (r: Self)
        ensures
            r@ == self@,
    {
        match self {
            Pattern::Literal(Literal::Int { value, span }) => Pattern::Literal(
                Literal::Int { value: value.clone(), span: *span },
            ),
            Pattern::Ident(name) => Pattern::Ident(name.clone()),
        }
    }
}

impl FromTokens for Pattern {
    open spec fn grammar(src: Seq<char>, p: nat) -> (Result<PatternModel, Error>, nat) {
        parse_pattern(src, p)
    }

    fn from_tokens(tokens: &mut Tokens) -> (r: Result<Self, Error>) {
        let ghost src = tokens.source();
        let ghost p = tokens.cursor();
        proof {
            tokens.lemma_wf();
        }
        match Literal::from_tokens(tokens) {
            Ok(lit) => {
                tokens.next();
                Ok(Pattern::Literal(lit))
            },
            Err(_) => {
                proof {
                    tokens.lemma_wf();
                }
                let here = tokens.peek();
                let ident = tokens.take_word();
                if ident.as_str().is_empty() {
                    match here {
                        Some(token) => Err(Error::new(token.span())),
                        None => Err(Error::default()),
                    }
                } else if ident == String::from_str("=") {
                    match here {
                        Some(token) => Err(Error::new(token.span())),
                        None => Err(Error::default()),
                    }
                } else {
                    Ok(Pattern::Ident(ident))
                }
            },
        }
    }
}

/// A statement of a clause body: the value it returns.
#[derive(PartialEq, Eq, Debug)]
pub enum Statement {
    Expression(Expression),
}

impl View for Statement {
    type V = ExprModel;

    open spec fn view(&self) -> ExprModel {
        match self {
            Statement::Expression(e) => e@,
        }
    }
}

/// The script text of a statement that returns `e`.
pub open spec fn return_js(e: ExprModel) -> Seq<char> {
    "return "@ + js_of(e) + ";"@
}

impl Clone for Statement {
    fn clone(&self) -> (r: Self)
        ensures
            r@ == self@,
    {
        match self {
            Statement::Expression(e) => Statement::Expression(Expression::clone(e)),
        }
    }
}

impl Statement {
    pub fn to_js(&self, s: &mut String)
        ensures
            final(s)@ == old(s)@ + return_js(self@),
    {
        match self {
            Statement::Expression(expr) => {
                let mut text = String::new();
                expr.to_js(&mut text);
                s.write_return(text.as_str());
                assert(s@ =~= old(s)@ + return_js(self@));
            },
        }
    }
}

/// One clause of a function: its name, one pattern per argument, and its body.
#[derive(PartialEq, Eq, Debug)]
pub struct Function {
    pub ident: String,
    pub patterns: Vec<Pattern>,
    pub stmt: Statement,
}

/// The mathematical value of a `Function` clause.
pub struct FunctionModel {
    pub ident: Seq<char>,
    pub patterns: Seq<PatternModel>,
    pub body: ExprModel,
}

impl View for Function {
    type V = FunctionModel;

    open spec fn view(&self) -> FunctionModel {
        FunctionModel { ident: self.ident@, patterns: pattern_views(self.patterns@), body: self.stmt@ }
    }
}

/// Patterns one after the other, until one is followed by `=`, which is read.
pub open spec fn parse_patterns(src: Seq<char>, p: nat) -> (Result<Seq<PatternModel>, Error>, nat)
    decreases src.len() - p,
{
    let (pattern, q) = parse_pattern(src, p);
    match pattern {
        Err(e) => (Err(e), q),
        Ok(pattern) => {
            if q < src.len() && src[q as int] == '=' {
                (Ok(seq![pattern]), q + 1)
            } else if p < q <= src.len() {
                prepend(seq![pattern], parse_patterns(src, q))
            } else {
                // cannot happen: a pattern reads at least one character
                (Err(Error::exhausted()), q)
            }
        },
    }
}

/// A clause: a non-empty name (a word), its patterns up to `=`, exactly one
/// space, and the body expression.
pub open spec fn parse_function(src: Seq<char>, p: nat) -> (Result<FunctionModel, Error>, nat) {
    let (ident, q) = read_word(src, p);
    if ident.len() == 0 {
        (Err(missing_word(src, p)), q)
    } else {
        let (patterns, r) = parse_patterns(src, q);
        match patterns {
            Err(e) => (Err(e), r),
            Ok(patterns) => {
                if r >= src.len() {
                    (Err(Error::exhausted()), r)
                } else if src[r as int] != ' ' {
                    (Err(Error::at(line_column_at(src, r))), r + 1)
                } else {
                    let (body, t) = parse_expr(src, r + 1);
                    match body {
                        Ok(body) => (Ok(FunctionModel { ident, patterns, body }), t),
                        Err(e) => (Err(e), t),
                    }
                }
            },
        }
    }
}

pub proof fn lemma_patterns_progress(src: Seq<char>, p: nat)
    requires
        p <= src.len(),
    ensures
        p <= parse_patterns(src, p).1 <= src.len(),
    decreases src.len() - p,
{
    lemma_pattern_progress(src, p);
    let q = parse_pattern(src, p).1;
    if parse_pattern(src, p).0 is Ok && p < q <= src.len() {
        lemma_patterns_progress(src, q);
    }
}

pub proof fn lemma_function_progress(src: Seq<char>, p: nat)
    requires
        p <= src.len(),
    ensures
        p <= parse_function(src, p).1 <= src.len(),
        parse_function(src, p).0 is Ok ==> p < parse_function(src, p).1,
{
    lemma_word_end(src, p);
    let q = read_word(src, p).1;
    lemma_patterns_progress(src, q);
    let r = parse_patterns(src, q).1;
    if r < src.len() {
        lemma_expr_progress(src, r + 1);
    }
}

impl Clone for Function {
    fn clone(&self) -> (r: Self)
        ensures
            r@ == self@,
    {
        let mut patterns: Vec<Pattern> = Vec::new();
        let mut i: usize = 0;
        while i < self.patterns.len()
            invariant
                i <= self.patterns.len(),
                patterns.len() == i,
                forall|j: int| 0 <= j < i ==> (#[trigger] patterns@[j])@ == self.patterns@[j]@,
            decreases self.patterns.len() - i,
        {
            patterns.push(Pattern::clone(&self.patterns[i]));
            i = i + 1;
        }
        assert(pattern_views(patterns@) =~= pattern_views(self.patterns@));
        Function { ident: self.ident.clone(), patterns, stmt: Statement::clone(&self.stmt) }
    }
}

impl FromTokens for Function {
    open spec fn grammar(src: Seq<char>, p: nat) -> (Result<FunctionModel, Error>, nat) {
        parse_function(src, p)
    }

    fn from_tokens(tokens: &mut Tokens) -> (r: Result<Self, Error>) {
        let ghost src = tokens.source();
        let ghost p = tokens.cursor();
        proof {
            tokens.lemma_wf();
            lemma_word_end(src, p);
        }
        let here = tokens.peek();
        let ident = tokens.take_word();
        if ident.as_str().is_empty() {
            return match here {
                Some(token) => Err(Error::new(token.span())),
                None => Err(Error::default()),
            };
        }
        let ghost q = tokens.cursor();
        let mut patterns: Vec<Pattern> = Vec::new();
        loop
            invariant_except_break
                parse_patterns(src, q) == prepend(
                    pattern_views(patterns@),
                    parse_patterns(src, tokens.cursor()),
                ),
            invariant
                tokens.wf(),
                tokens.source() == src,
                src == old(tokens).source(),
                p == old(tokens).cursor(),
                read_word(src, p) == (ident@, q),
                ident@.len() != 0,
                q <= tokens.cursor() <= src.len(),
            ensures
                tokens.wf(),
                tokens.source() == src,
                parse_patterns(src, q) == (Ok::<Seq<PatternModel>, Error>(pattern_views(patterns@)), tokens.cursor()),
            decreases src.len() - tokens.cursor(),
        {
            let ghost c = tokens.cursor();
            proof {
                tokens.lemma_wf();
                lemma_pattern_progress(src, c);
            }
            let pattern = match Pattern::from_tokens(tokens) {
                Ok(pattern) => pattern,
                Err(e) => {
                    return Err(e);
                },
            };
            proof {
                tokens.lemma_wf();
            }
            let ghost before = patterns@;
            patterns.push(pattern);
            assert(pattern_views(patterns@) =~= pattern_views(before) + seq![pattern@]);
            let at_equals = match tokens.peek_char() {
                Some(c) => c == '=',
                None => false,
            };
            if at_equals {
                tokens.next();
                break;
            }
            assert(pattern_views(before) + (seq![pattern@] + parse_patterns(src, tokens.cursor()).0->Ok_0)
                =~= pattern_views(patterns@) + parse_patterns(src, tokens.cursor()).0->Ok_0);
        }
        proof {
            tokens.lemma_wf();
        }
        match tokens.next() {
            Some(token) => {
                if token.c != ' ' {
                    return Err(Error::new(token.span()));
                }
            },
            None => {
                return Err(Error::default());
            },
        }
        let expr = match Expression::parse(tokens) {
            Ok(expr) => expr,
            Err(e) => {
                return Err(e);
            },
        };
        let stmt = Statement::Expression(expr);
        Ok(Function { ident, patterns, stmt })
    }
}

/// The clauses of a source text, in the order they stand.
pub struct Module {
    pub funcs: Vec<Function>,
}

pub open spec fn function_views(funcs: Seq<Function>) -> Seq<FunctionModel> {
    funcs.map_values(|f: Function| f@)
}

impl View for Module {
    type V = Seq<FunctionModel>;

    open spec fn view(&self) -> Seq<FunctionModel> {
        function_views(self.funcs@)
    }
}

/// Clauses, each followed by a newline but the last, which ends the text.
pub open spec fn parse_module(src: Seq<char>, p: nat) -> (Result<Seq<FunctionModel>, Error>, nat)
    decreases src.len() - p,
{
    let (func, q) = parse_function(src, p);
    match func {
        Err(e) => (Err(e), q),
        Ok(func) => {
            if q >= src.len() {
                (Ok(seq![func]), q)
            } else if src[q as int] != '\n' {
                (Err(Error::at(line_column_at(src, q))), q + 1)
            } else if p <= q {
                prepend(seq![func], parse_module(src, q + 1))
            } else {
                // cannot happen: reading never moves back
                (Err(Error::exhausted()), q)
            }
        },
    }
}

impl FromTokens for Module {
    open spec fn grammar(src: Seq<char>, p: nat) -> (Result<Seq<FunctionModel>, Error>, nat) {
        parse_module(src, p)
    }

    fn from_tokens(tokens: &mut Tokens) -> (r: Result<Self, Error>) {
        let ghost src = tokens.source();
        let ghost p = tokens.cursor();
        proof {
            tokens.lemma_wf();
        }
        let mut funcs: Vec<Function> = Vec::new();
        loop
            invariant_except_break
                parse_module(src, p) == prepend(function_views(funcs@), parse_module(src, tokens.cursor())),
            invariant
                tokens.wf(),
                tokens.source() == src,
                src == old(tokens).source(),
                p == old(tokens).cursor(),
                p <= tokens.cursor() <= src.len(),
            ensures
                tokens.wf(),
                tokens.source() == src,
                parse_module(src, p) == (Ok::<Seq<FunctionModel>, Error>(function_views(funcs@)), tokens.cursor()),
            decreases src.len() - tokens.cursor(),
        {
            let ghost c = tokens.cursor();
            proof {
                tokens.lemma_wf();
                lemma_function_progress(src, c);
            }
            let func = match Function::from_tokens(tokens) {
                Ok(func) => func,
                Err(e) => {
                    return Err(e);
                },
            };
            proof {
                tokens.lemma_wf();
            }
            let ghost before = funcs@;
            funcs.push(func);
            assert(function_views(funcs@) =~= function_views(before) + seq![func@]);
            match tokens.next() {
                Some(token) => {
                    if token.c != '\n' {
                        return Err(Error::new(Span::from(token.line_column)));
                    }
                },
                None => {
                    break;
                },
            }
            assert(function_views(before) + (seq![func@] + parse_module(src, tokens.cursor()).0->Ok_0)
                =~= function_views(funcs@) + parse_module(src, tokens.cursor()).0->Ok_0);
        }
        Ok(Module { funcs })
    }
}

} // verus!
