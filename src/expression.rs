use vstd::prelude::*;
use crate::literal::{lemma_digits_end, parse_literal, Literal, LiteralModel};
use crate::tokens::{after_space, line_column_at, lemma_word_end, prepend, read_word, skip_one, view_result, Error, FromTokens, Tokens};
use crate::write::{join, lemma_join_append, push_char, push_str};

verus! {

/// The arithmetic operators.
#[derive(Clone, Copy, PartialEq, Eq, Debug, Structural)]
pub enum BinaryOp {
    Add,
    Sub,
}

impl BinaryOp {
    /// The character that writes the operator.
    pub open spec fn symbol(self) -> char {
        match self {
            BinaryOp::Add => '+',
            BinaryOp::Sub => '-',
        }
    }

    pub fn to_js(&self, s: &mut String)
        ensures
            final(s)@ == old(s)@.push(self.symbol()),
    {
        match self {
            BinaryOp::Add => push_char(s, '+'),
            BinaryOp::Sub => push_char(s, '-'),
        }
    }
}

/// An expression of the source language.
#[derive(PartialEq, Eq, Debug)]
pub enum Expression {
    BinaryOp { left: Box<Self>, op: BinaryOp, right: Box<Self> },
    Path(Vec<String>),
    Literal(Literal),
    Call { ident: String, args: Vec<Self> },
}

/// The mathematical value of an `Expression`.
pub enum ExprModel {
    BinaryOp { left: Box<ExprModel>, op: BinaryOp, right: Box<ExprModel> },
    Path(Seq<Seq<char>>),
    Literal(LiteralModel),
    Call { ident: Seq<char>, args: Seq<ExprModel> },
}

/// The model of an expression, part by part.
pub open spec fn model(e: Expression) -> ExprModel
    decreases e,
{
    match e {
        Expression::BinaryOp { left, op, right } => ExprModel::BinaryOp {
            left: Box::new(model(*left)),
            op,
            right: Box::new(model(*right)),
        },
        Expression::Path(parts) => ExprModel::Path(parts@.map_values(|part: String| part@)),
        Expression::Literal(lit) => ExprModel::Literal(lit@),
        Expression::Call { ident, args } => ExprModel::Call {
            ident: ident@,
            args: Seq::new(
                args.len() as nat,
                |i: int|
                    if 0 <= i < args.len() {
                        model(args[i])
                    } else {
                        ExprModel::Path(Seq::empty())
                    },
            ),
        },
    }
}

impl View for Expression {
    type V = ExprModel;

    open spec fn view(&self) -> ExprModel {
        model(*self)
    }
}

/// The views of a sequence of expressions.
pub open spec fn views(exprs: Seq<Expression>) -> Seq<ExprModel> {
    exprs.map_values(|e: Expression| e@)
}

/// Path segments written one after the other, with nothing between them.
pub open spec fn concat(parts: Seq<Seq<char>>) -> Seq<char>
    decreases parts.len(),
{
    if parts.len() == 0 {
        Seq::empty()
    } else {
        concat(parts.drop_last()) + parts.last()
    }
}

/// The script text of an expression.
pub open spec fn js_of(e: ExprModel) -> Seq<char>
    decreases e,
{
    match e {
        ExprModel::BinaryOp { left, op, right } => js_of(*left) + seq![op.symbol()] + js_of(*right),
        ExprModel::Path(parts) => concat(parts),
        ExprModel::Literal(lit) => lit.digits(),
        ExprModel::Call { ident, args } => ident + seq!['('] + js_of_args(args) + seq![')'],
    }
}

/// The script text of call arguments, separated by commas.
pub open spec fn js_of_args(args: Seq<ExprModel>) -> Seq<char>
    decreases args,
{
    if args.len() == 0 {
        Seq::empty()
    } else if args.len() == 1 {
        js_of(args[0])
    } else {
        js_of_args(args.drop_last()) + seq![','] + js_of(args.last())
    }
}

/// An operand: a literal when the text starts with a digit; otherwise a word
/// (see `read_word`), which names a call when `(` follows and
/// is a one-segment path when not.
pub open spec fn parse_operand(src: Seq<char>, p: nat) -> (Result<ExprModel, Error>, nat)
    decreases src.len() - p, 1int,
{
    match parse_literal(src, p).0 {
        Ok(lit) => (Ok(ExprModel::Literal(lit)), parse_literal(src, p).1),
        Err(_) => {
            let (part, q) = read_word(src, p);
            if q < src.len() && src[q as int] == '(' {
                proof {
                    lemma_word_end(src, p);
                }
                let (args, r) = parse_args(src, q + 1);
                match args {
                    Ok(args) => (Ok(ExprModel::Call { ident: part, args }), r),
                    Err(e) => (Err(e), r),
                }
            } else {
                (Ok(ExprModel::Path(seq![part])), q)
            }
        },
    }
}

/// An expression: an operand, then optionally `+` or `-`, one separator
/// character, and a whole expression as the right-hand side.
pub open spec fn parse_expr(src: Seq<char>, p: nat) -> (Result<ExprModel, Error>, nat)
    decreases src.len() - p, 2int,
{
    let (left, q) = parse_operand(src, p);
    match left {
        Err(e) => (Err(e), q),
        Ok(left) => {
            // reading never moves back; `p <= q` only makes that plain
            if p <= q && q < src.len() && (src[q as int] == '+' || src[q as int] == '-') {
                let op = if src[q as int] == '+' {
                    BinaryOp::Add
                } else {
                    BinaryOp::Sub
                };
                let (right, r) = parse_expr(src, skip_one(src, q + 1));
                match right {
                    Ok(right) => (
                        Ok(ExprModel::BinaryOp { left: Box::new(left), op, right: Box::new(right) }),
                        r,
                    ),
                    Err(e) => (Err(e), r),
                }
            } else {
                (Ok(left), q)
            }
        },
    }
}

/// Call arguments after `(`: expressions one after the other, each followed
/// by one space if one stands there, until `)` comes next; that `)` and one
/// space after it are read. The arguments end with the line: a newline
/// or the end of the text where an argument should start leaves the call
/// unclosed.
pub open spec fn parse_args(src: Seq<char>, p: nat) -> (Result<Seq<ExprModel>, Error>, nat)
    decreases src.len() - p, 3int,
{
    if p >= src.len() {
        (Err(Error::exhausted()), p)
    } else if src[p as int] == '\n' {
        (Err(Error::at(line_column_at(src, p))), p)
    } else {
        let (arg, q) = parse_expr(src, p);
        match arg {
            Err(e) => (Err(e), q),
            Ok(arg) => {
                let r = after_space(src, q);
                if r < src.len() && src[r as int] == ')' {
                    (Ok(seq![arg]), after_space(src, r + 1))
                } else {
                    if p < r <= src.len() {
                        prepend(seq![arg], parse_args(src, r))
                    } else {
                        // cannot happen: an argument reads at least one character
                        (Err(Error::exhausted()), r)
                    }
                }
            },
        }
    }
}

pub proof fn lemma_operand_progress(src: Seq<char>, p: nat)
    requires
        p <= src.len(),
    ensures
        p <= parse_operand(src, p).1 <= src.len(),
        p < src.len() && src[p as int] != '\n' ==> p < parse_operand(src, p).1,
    decreases src.len() - p, 1int,
{
    lemma_digits_end(src, p);
    lemma_word_end(src, p);
    let (part, q) = read_word(src, p);
    if parse_literal(src, p).0 is Err && q < src.len() && src[q as int] == '(' {
        lemma_args_progress(src, q + 1);
    }
}

pub proof fn lemma_expr_progress(src: Seq<char>, p: nat)
    requires
        p <= src.len(),
    ensures
        p <= parse_expr(src, p).1 <= src.len(),
        p < src.len() && src[p as int] != '\n' ==> p < parse_expr(src, p).1,
    decreases src.len() - p, 2int,
{
    lemma_operand_progress(src, p);
    let q = parse_operand(src, p).1;
    if parse_operand(src, p).0 is Ok && q < src.len() {
        lemma_expr_progress(src, skip_one(src, q + 1));
    }
}

pub proof fn lemma_args_progress(src: Seq<char>, p: nat)
    requires
        p <= src.len(),
    ensures
        p <= parse_args(src, p).1 <= src.len(),
    decreases src.len() - p, 3int,
{
    if p < src.len() && src[p as int] != '\n' {
        lemma_expr_progress(src, p);
        let r = after_space(src, parse_expr(src, p).1);
        if p < r <= src.len() {
            lemma_args_progress(src, r);
        }
    }
}

/// Whether `e` is built from paths, literals and additions alone.
pub open spec fn sums_only(e: ExprModel) -> bool
    decreases e,
{
    match e {
        ExprModel::BinaryOp { left, op, right } => op == BinaryOp::Add && sums_only(*left) && sums_only(*right),
        ExprModel::Path(_) => true,
        ExprModel::Literal(_) => true,
        ExprModel::Call { .. } => false,
    }
}

/// The texts of the operands of a sum, left to right: a path's segments run
/// together, a literal's digits.
pub open spec fn operand_texts(e: ExprModel) -> Seq<Seq<char>>
    decreases e,
{
    match e {
        ExprModel::BinaryOp { left, op: _, right } => operand_texts(*left) + operand_texts(*right),
        ExprModel::Path(parts) => seq![concat(parts)],
        ExprModel::Literal(lit) => seq![lit.digits()],
        ExprModel::Call { .. } => Seq::empty(),
    }
}

/// The script text of an expression built from paths, literals and additions
/// is its operands' texts in order, with a `+` between each two.
pub proof fn lemma_sum_text(e: ExprModel)
    requires
        sums_only(e),
    ensures
        js_of(e) == join(operand_texts(e), seq!['+']),
        operand_texts(e).len() >= 1,
    decreases e,
{
    match e {
        ExprModel::BinaryOp { left, op, right } => {
            lemma_sum_text(*left);
            lemma_sum_text(*right);
            lemma_join_append(operand_texts(*left), operand_texts(*right), seq!['+']);
        },
        _ => {},
    }
}

/// A call's model lists the models of its arguments.
proof fn lemma_call_model(ident: String, args: Vec<Expression>)
    ensures
        model(Expression::Call { ident, args }) == (ExprModel::Call { ident: ident@, args: views(args@) }),
{
    assert(model(Expression::Call { ident, args })->Call_args =~= views(args@));
}

impl Expression {
    /// Reads an expression: see `parse_expr` for the grammar.
    pub fn parse(tokens: &mut Tokens) -> (r: Result<Self, Error>)
        requires
            old(tokens).wf(),
        ensures
            final(tokens).at(
                old(tokens).source(),
                parse_expr(old(tokens).source(), old(tokens).cursor()).1,
            ),
            view_result(r) == parse_expr(old(tokens).source(), old(tokens).cursor()).0,
        decreases old(tokens).source().len() - old(tokens).cursor(),
    {
        let ghost src = tokens.source();
        let ghost p = tokens.cursor();
        proof {
            tokens.lemma_wf();
            lemma_operand_progress(src, p);
            lemma_word_end(src, p);
        }
        let left = match Literal::from_tokens(tokens) {
            Ok(lit) => Expression::Literal(lit),
            Err(_) => {
                let part = tokens.take_word();
                let ghost q = tokens.cursor();
                proof {
                    tokens.lemma_wf();
                }
                let opens_call = match tokens.peek_char() {
                    Some(c) => c == '(',
                    None => false,
                };
                if opens_call {
                    tokens.next();
                    let ghost q0 = tokens.cursor();
                    let mut args: Vec<Expression> = Vec::new();
                    loop
                        invariant_except_break
                            parse_args(src, q0) == prepend(views(args@), parse_args(src, tokens.cursor())),
                        invariant
                            tokens.wf(),
                            tokens.source() == src,
                            src == old(tokens).source(),
                            p == old(tokens).cursor(),
                            p < q0 <= tokens.cursor() <= src.len(),
                            parse_operand(src, p) == (match parse_args(src, q0).0 {
                                Ok(args) => Ok(ExprModel::Call { ident: part@, args }),
                                Err(e) => Err(e),
                            }, parse_args(src, q0).1),
                        ensures
                            tokens.wf(),
                            tokens.source() == src,
                            parse_operand(src, p) == (Ok::<ExprModel, Error>(ExprModel::Call { ident: part@, args: views(args@) }), tokens.cursor()),
                        decreases src.len() - tokens.cursor(),
                    {
                        let ghost c = tokens.cursor();
                        proof {
                            tokens.lemma_wf();
                            lemma_expr_progress(src, c);
                        }
                        match tokens.peek() {
                            Some(token) => {
                                if token.c == '\n' {
                                    return Err(Error::new(token.span()));
                                }
                            },
                            None => {
                                assert(parse_args(src, c) == (Err::<Seq<ExprModel>, Error>(Error::exhausted()), c));
                                return Err(Error::default());
                            },
                        }
                        let arg = match Self::parse(tokens) {
                            Ok(arg) => arg,
                            Err(e) => {
                                return Err(e);
                            },
                        };
                        proof {
                            tokens.lemma_wf();
                        }
                        let ghost before = args@;
                        args.push(arg);
                        assert(views(args@) =~= views(before) + seq![arg@]);
                        tokens.skip_space();
                        let closes = match tokens.peek_char() {
                            Some(c) => c == ')',
                            None => false,
                        };
                        if closes {
                            tokens.next();
                            tokens.skip_space();
                            break;
                        }
                        assert(views(before) + (seq![arg@] + parse_args(src, tokens.cursor()).0->Ok_0)
                            =~= views(args@) + parse_args(src, tokens.cursor()).0->Ok_0);
                    }
                    proof {
                        lemma_call_model(part, args);
                    }
                    Expression::Call { ident: part, args }
                } else {
                    let mut parts: Vec<String> = Vec::new();
                    parts.push(part);
                    assert(parts@.map_values(|part: String| part@) =~= seq![part@]);
                    Expression::Path(parts)
                }
            },
        };
        let ghost q = tokens.cursor();
        assert(parse_operand(src, p) == (Ok::<ExprModel, Error>(left@), q));
        proof {
            tokens.lemma_wf();
        }
        let op = match tokens.peek_char() {
            Some(c) => {
                if c == '+' {
                    Some(BinaryOp::Add)
                } else if c == '-' {
                    Some(BinaryOp::Sub)
                } else {
                    None
                }
            },
            None => None,
        };
        match op {
            Some(op) => {
                tokens.next();
                tokens.next();
                match Self::parse(tokens) {
                    Ok(right) => Ok(Expression::BinaryOp { left: Box::new(left), op, right: Box::new(right) }),
                    Err(e) => Err(e),
                }
            },
            None => Ok(left),
        }
    }

    /// Writes the expression as script text: operands around their operator,
    /// path segments one after the other, a call as its name and its
    /// arguments in parentheses, separated by commas.
    pub fn to_js(&self, s: &mut String)
        ensures
            final(s)@ == old(s)@ + js_of(self@),
        decreases self,
    {
        let ghost s0 = s@;
        match self {
            Expression::BinaryOp { left, op, right } => {
                left.to_js(s);
                op.to_js(s);
                right.to_js(s);
                assert(s@ =~= s0 + js_of(self@));
            },
            Expression::Literal(lit) => lit.to_js(s),
            Expression::Path(path) => {
                let ghost parts = path@.map_values(|part: String| part@);
                let mut i: usize = 0;
                while i < path.len()
                    invariant
                        i <= path.len(),
                        parts == path@.map_values(|part: String| part@),
                        s@ == s0 + concat(parts.take(i as int)),
                    decreases path.len() - i,
                {
                    push_str(s, path[i].as_str());
                    assert(parts.take(i + 1).drop_last() =~= parts.take(i as int));
                    i = i + 1;
                }
                assert(parts.take(i as int) =~= parts);
            },
            Expression::Call { ident, args } => {
                push_str(s, ident.as_str());
                push_char(s, '(');
                let ghost s1 = s@;
                let ghost models = self@->Call_args;
                let mut i: usize = 0;
                while i < args.len()
                    invariant
                        *self == (Expression::Call { ident: *ident, args: *args }),
                        i <= args.len(),
                        models.len() == args.len(),
                        forall|j: int| 0 <= j < args.len() ==> models[j] == (#[trigger] args@[j])@,
                        s@ == s1 + js_of_args(models.take(i as int)),
                    decreases args.len() - i,
                {
                    if i > 0 {
                        push_char(s, ',');
                    }
                    proof {
                        vstd::std_specs::vec::axiom_vec_index_decreases(*args, i as int);
                        assert(decreases_to!(*self => self->Call_args));
                        assert(decreases_to!(*args => args[i as int]));
                    }
                    args[i].to_js(s);
                    assert(models.take(i + 1).drop_last() =~= models.take(i as int));
                    i = i + 1;
                }
                push_char(s, ')');
                assert(models.take(i as int) =~= models);
                assert(s@ =~= s0 + js_of(self@));
            },
        }
    }
}

impl Clone for Expression {
    fn clone(&self) -> (r: Self)
        ensures
            r@ == self@,
        decreases self,
    {
        match self {
            Expression::BinaryOp { left, op, right } => {
                let left = Box::new(Expression::clone(&**left));
                let right = Box::new(Expression::clone(&**right));
                Expression::BinaryOp { left, op: *op, right }
            },
            Expression::Path(parts) => {
                let mut copy: Vec<String> = Vec::new();
                let mut i: usize = 0;
                while i < parts.len()
                    invariant
                        i <= parts.len(),
                        copy.len() == i,
                        forall|j: int| 0 <= j < i ==> (#[trigger] copy@[j])@ == parts@[j]@,
                    decreases parts.len() - i,
                {
                    copy.push(parts[i].clone());
                    i = i + 1;
                }
                assert(copy@.map_values(|part: String| part@) =~= parts@.map_values(|part: String| part@));
                Expression::Path(copy)
            },
            Expression::Literal(Literal::Int { value, span }) => {
                Expression::Literal(Literal::Int { value: value.clone(), span: *span })
            },
            Expression::Call { ident, args } => {
                let mut copy: Vec<Expression> = Vec::new();
                let mut i: usize = 0;
                while i < args.len()
                    invariant
                        *self == (Expression::Call { ident: *ident, args: *args }),
                        i <= args.len(),
                        copy.len() == i,
                        forall|j: int| 0 <= j < i ==> (#[trigger] copy@[j])@ == args@[j]@,
                    decreases args.len() - i,
                {
                    proof {
                        vstd::std_specs::vec::axiom_vec_index_decreases(*args, i as int);
                        assert(decreases_to!(*self => self->Call_args));
                    }
                    copy.push(Expression::clone(&args[i]));
                    i = i + 1;
                }
                assert(views(copy@) =~= views(args@));
                let name = ident.clone();
                proof {
                    lemma_call_model(name, copy);
                    lemma_call_model(*ident, *args);
                }
                Expression::Call { ident: name, args: copy }
            },
        }
    }
}

impl FromTokens for Expression {
    open spec fn grammar(src: Seq<char>, p: nat) -> (Result<ExprModel, Error>, nat) {
        parse_expr(src, p)
    }

    fn from_tokens(tokens: &mut Tokens) -> (r: Result<Self, Error>) {
        Self::parse(tokens)
    }
}

} // verus!
