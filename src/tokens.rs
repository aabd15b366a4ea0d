use vstd::prelude::*;
use crate::write::push_char;

verus! {

/// A place in the source text: a zero-based line and a zero-based column on that line.
#[derive(Clone, Copy, PartialEq, Eq, Debug, Structural)]
pub struct LineColumn {
    pub line: usize,
    pub column: usize,
}

impl LineColumn {
    pub fn new(line: usize, column: usize) -> (r: Self)
        ensures
            r.line == line,
            r.column == column,
    {
        Self { line, column }
    }
}

impl Default for LineColumn {
    fn default() -> (r: Self)
        ensures
            r.line == 0,
            r.column == 0,
    {
        Self::new(0, 0)
    }
}

/// A range of source text; `end` is the place of the last character in the range.
#[derive(Clone, Copy, PartialEq, Eq, Debug, Structural)]
pub struct Span {
    pub start: LineColumn,
    pub end: LineColumn,
}

impl Span {
    pub fn new(start: LineColumn, end: LineColumn) -> (r: Self)
        ensures
            r.start == start,
            r.end == end,
    {
        Self { start, end }
    }

    /// The span that covers a single place.
    pub open spec fn point(at: LineColumn) -> Span {
        Span { start: at, end: at }
    }
}

impl Default for Span {
    fn default() -> (r: Self)
        ensures
            r == Span::point(LineColumn { line: 0, column: 0 }),
    {
        Self::new(LineColumn::default(), LineColumn::default())
    }
}

impl From<LineColumn> for Span {
    fn from(line_column: LineColumn) -> (r: Self) {
        Self::new(line_column, line_column)
    }
}

impl vstd::std_specs::convert::FromSpecImpl<LineColumn> for Span {
    open spec fn obeys_from_spec() -> bool {
        true
    }

    open spec fn from_spec(v: LineColumn) -> Span {
        Span::point(v)
    }
}

/// A parse failure, with the span of the offending text. The empty span at the
/// start of the text marks input that ended where more was required.
#[derive(Clone, Copy, PartialEq, Eq, Debug, Structural)]
pub struct Error {
    pub span: Span,
}

impl Error {
    pub fn new(span: Span) -> (r: Self)
        ensures
            r.span == span,
    {
        Self { span }
    }

    /// The error for input that ended where a character was required.
    pub open spec fn exhausted() -> Error {
        Error { span: Span::point(LineColumn { line: 0, column: 0 }) }
    }

    /// The error for the character at `at`.
    pub open spec fn at(at: LineColumn) -> Error {
        Error { span: Span::point(at) }
    }
}

impl Default for Error {
    fn default() -> (r: Self)
        ensures
            r == Error::exhausted(),
    {
        Self::new(Span::default())
    }
}

/// Line and column after reading the first `n` characters of `src`: a newline
/// moves to the start of the next line, any other character one column on.
pub open spec fn position_after(src: Seq<char>, n: nat) -> (nat, nat)
    decreases n,
{
    if n == 0 || n > src.len() {
        (0, 0)
    } else {
        let (line, column) = position_after(src, (n - 1) as nat);
        if src[n - 1] == '\n' {
            (line + 1, 0)
        } else {
            (line, column + 1)
        }
    }
}

/// The place of the character at index `n` of `src`.
pub open spec fn line_column_at(src: Seq<char>, n: nat) -> LineColumn {
    LineColumn { line: position_after(src, n).0 as usize, column: position_after(src, n).1 as usize }
}

/// Lines and columns never outgrow the number of characters read.
pub proof fn lemma_position_bounded(src: Seq<char>, n: nat)
    ensures
        position_after(src, n).0 + position_after(src, n).1 <= n,
    decreases n,
{
    if n > 0 && n <= src.len() {
        lemma_position_bounded(src, (n - 1) as nat);
    }
}

/// On a first line without newlines, the column is the index.
pub proof fn lemma_position_on_first_line(src: Seq<char>, n: nat)
    requires
        n <= src.len(),
        forall|i: int| 0 <= i < n ==> src[i] != '\n',
    ensures
        position_after(src, n) == (0nat, n),
    decreases n,
{
    if n > 0 {
        lemma_position_on_first_line(src, (n - 1) as nat);
    }
}

/// One character of the source with its place.
pub struct Token {
    pub c: char,
    pub line_column: LineColumn,
}

impl Token {
    pub fn span(&self) -> (r: Span)
        ensures
            r == Span::point(self.line_column),
    {
        Span { start: self.line_column, end: self.line_column }
    }
}

/// A cursor over the characters of a source text that keeps track of line and column.
pub struct Tokens {
    chars: Vec<char>,
    pos: usize,
    line_column: LineColumn,
}

impl Tokens {
    /// The whole text the cursor runs over.
    pub closed spec fn source(&self) -> Seq<char> {
        self.chars@
    }

    /// How many characters have been read.
    pub closed spec fn cursor(&self) -> nat {
        self.pos as nat
    }

    /// The place of the next character.
    pub closed spec fn position(&self) -> LineColumn {
        self.line_column
    }

    pub closed spec fn wf(&self) -> bool {
        &&& self.pos <= self.chars.len()
        &&& self.line_column == line_column_at(self.chars@, self.pos as nat)
    }

    /// The stream stands on `src`, with the first `cursor` characters read.
    pub open spec fn at(&self, src: Seq<char>, cursor: nat) -> bool {
        &&& self.wf()
        &&& self.source() == src
        &&& self.cursor() == cursor
    }

    pub proof fn lemma_wf(&self)
        requires
            self.wf(),
        ensures
            self.cursor() <= self.source().len(),
            self.position() == line_column_at(self.source(), self.cursor()),
    {
    }

    pub fn new(s: &str) -> (r: Self)
        ensures
            r.at(s@, 0),
            r.position() == (LineColumn { line: 0, column: 0 }),
    {
        let mut chars: Vec<char> = Vec::new();
        for c in it: s.chars()
            invariant
                chars@ == it.seq().subrange(0, it.index() as int),
        {
            chars.push(c);
        }
        assert(chars@ == s@);
        Self { chars, pos: 0, line_column: LineColumn::default() }
    }
    /// The place of the next character.
    pub fn line_column(&self) -> (r: LineColumn)
        requires
            self.wf(),
        ensures
            r == self.position(),
            r == line_column_at(self.source(), self.cursor()),
    {
        self.line_column
    }

    /// The next character, if any, without reading it.
    pub fn peek_char(&mut self) -> (r: Option<char>)
        requires
            old(self).wf(),
        ensures
            *final(self) == *old(self),
            r == next_char(old(self).source(), old(self).cursor()),
    {
        if self.pos < self.chars.len() {
            Some(self.chars[self.pos])
        } else {
            None
        }
    }

    /// The next character and its place, if any, without reading it.
    pub fn peek(&mut self) -> (r: Option<Token>)
        requires
            old(self).wf(),
        ensures
            *final(self) == *old(self),
            r matches Some(t) ==> t.line_column == old(self).position(),
            token_char(r) == next_char(old(self).source(), old(self).cursor()),
    {
        if self.pos < self.chars.len() {
            Some(Token { c: self.chars[self.pos], line_column: self.line_column })
        } else {
            None
        }
    }

    /// Reads the next character, if any: after a newline the line grows by one
    /// and the column starts again at zero; after any other character the
    /// column grows by one. The token carries the place the character stood at.
    pub fn next(&mut self) -> (r: Option<Token>)
        requires
            old(self).wf(),
        ensures
            final(self).wf(),
            final(self).source() == old(self).source(),
            final(self).cursor() == skip_one(old(self).source(), old(self).cursor()),
            r matches Some(t) ==> t.line_column == old(self).position(),
            token_char(r) == next_char(old(self).source(), old(self).cursor()),
            r is None ==> *final(self) == *old(self),
            r matches Some(t) && t.c == '\n' ==> final(self).position() == (LineColumn {
                line: (old(self).position().line + 1) as usize,
                column: 0,
            }),
            r matches Some(t) && t.c != '\n' ==> final(self).position() == (LineColumn {
                line: old(self).position().line,
                column: (old(self).position().column + 1) as usize,
            }),
    {
        if self.pos < self.chars.len() {
            let c = self.chars[self.pos];
            let here = self.line_column;
            proof {
                lemma_position_bounded(self.chars@, self.pos as nat);
                lemma_position_bounded(self.chars@, (self.pos + 1) as nat);
            }
            if c == '\n' {
                self.line_column = LineColumn { line: here.line + 1, column: 0 };
            } else {
                self.line_column = LineColumn { line: here.line, column: here.column + 1 };
            }
            self.pos = self.pos + 1;
            Some(Token { c, line_column: here })
        } else {
            None
        }
    }

    /// Reads characters up to the next space or newline (or to the end of the
    /// text) and gives them; a space after them is read too, a newline is not.
    pub fn take_word(&mut self) -> (r: String)
        requires
            old(self).wf(),
        ensures
            final(self).at(old(self).source(), read_word(old(self).source(), old(self).cursor()).1),
            r@ == read_word(old(self).source(), old(self).cursor()).0,
    {
        let ghost src = self.source();
        let ghost p = self.cursor();
        proof {
            self.lemma_wf();
            lemma_word_end(src, p);
        }
        let mut word = String::new();
        loop
            invariant_except_break
                p <= self.cursor() <= word_end(src, p),
                word@ == src.subrange(p as int, self.cursor() as int),
            invariant
                self.wf(),
                self.source() == src,
                word_end(src, p) <= src.len(),
                forall|i: int| p <= i < word_end(src, p) ==> !ends_word(#[trigger] src[i]),
                word_end(src, p) < src.len() ==> ends_word(src[word_end(src, p) as int]),
            ensures
                self.wf(),
                self.source() == src,
                self.cursor() == read_word(src, p).1,
                word@ == read_word(src, p).0,
            decreases src.len() - self.cursor(),
        {
            proof {
                self.lemma_wf();
            }
            match self.peek_char() {
                Some(c) => {
                    if c == '\n' {
                        break;
                    }
                    self.next();
                    if c == ' ' {
                        break;
                    }
                    push_char(&mut word, c);
                },
                None => {
                    break;
                },
            }
        }
        word
    }

    /// Reads one space, if one is next.
    pub fn skip_space(&mut self)
        requires
            old(self).wf(),
        ensures
            final(self).at(old(self).source(), after_space(old(self).source(), old(self).cursor())),
    {
        proof {
            self.lemma_wf();
        }
        let space = match self.peek_char() {
            Some(c) => c == ' ',
            None => false,
        };
        if space {
            self.next();
        }
    }

    /// Reads the next character and requires it to be `c`; gives its place.
    pub fn parse_char(&mut self, c: char) -> (r: Result<LineColumn, Error>)
        requires
            old(self).wf(),
        ensures
            final(self).at(old(self).source(), skip_one(old(self).source(), old(self).cursor())),
            r == expect_char(old(self).source(), old(self).cursor(), c),
    {
        proof {
            self.lemma_wf();
        }
        if let Some(token) = self.next() {
            if token.c == c {
                Ok(token.line_column)
            } else {
                Err(Error::new(Span::from(token.line_column)))
            }
        } else {
            Err(Error::default())
        }
    }
}

/// The character a token read or peeked holds.
pub open spec fn token_char(t: Option<Token>) -> Option<char> {
    match t {
        Some(t) => Some(t.c),
        None => None,
    }
}

/// Whether `c` ends a word: a space, or a newline.
pub open spec fn ends_word(c: char) -> bool {
    c == ' ' || c == '\n'
}

/// The index of the first space or newline at or after `p`, or the end of the text.
pub open spec fn word_end(src: Seq<char>, p: nat) -> nat
    decreases src.len() - p,
{
    if p < src.len() && !ends_word(src[p as int]) {
        word_end(src, p + 1)
    } else {
        p
    }
}

pub proof fn lemma_word_end(src: Seq<char>, p: nat)
    ensures
        p <= word_end(src, p) <= if p <= src.len() { src.len() } else { p },
        forall|i: int| p <= i < word_end(src, p) ==> !ends_word(#[trigger] src[i]),
        word_end(src, p) < src.len() ==> ends_word(src[word_end(src, p) as int]),
    decreases src.len() - p,
{
    if p < src.len() && !ends_word(src[p as int]) {
        lemma_word_end(src, p + 1);
    }
}

/// Reading a word from `p`: the characters before the next space or newline,
/// and the index after that space, or at that newline (or the end of the
/// text). A newline is left for the reader of lines.
pub open spec fn read_word(src: Seq<char>, p: nat) -> (Seq<char>, nat) {
    let e = word_end(src, p);
    (src.subrange(p as int, e as int), after_space(src, e))
}

/// The index after one space at `p`, if one stands there; else `p`.
pub open spec fn after_space(src: Seq<char>, p: nat) -> nat {
    if p < src.len() && src[p as int] == ' ' {
        p + 1
    } else {
        p
    }
}

/// The character at index `p` of `src`, if there is one.
pub open spec fn next_char(src: Seq<char>, p: nat) -> Option<char> {
    if p < src.len() {
        Some(src[p as int])
    } else {
        None
    }
}

/// The index after reading one character from `p`, if one is left.
pub open spec fn skip_one(src: Seq<char>, p: nat) -> nat {
    if p < src.len() {
        p + 1
    } else {
        p
    }
}

/// What reading one character from `p` and requiring it to be `c` gives.
pub open spec fn expect_char(src: Seq<char>, p: nat, c: char) -> Result<LineColumn, Error> {
    if p >= src.len() {
        Err(Error::exhausted())
    } else if src[p as int] == c {
        Ok(line_column_at(src, p))
    } else {
        Err(Error::at(line_column_at(src, p)))
    }
}

/// Puts `first` in front of the items of a successful parse.
pub open spec fn prepend<A>(first: Seq<A>, r: (Result<Seq<A>, Error>, nat)) -> (Result<Seq<A>, Error>, nat) {
    match r.0 {
        Ok(rest) => (Ok(first + rest), r.1),
        Err(e) => (Err(e), r.1),
    }
}

/// The error for a word that is empty: input that ended, or a space where the
/// word should start.
pub open spec fn missing_word(src: Seq<char>, p: nat) -> Error {
    if p < src.len() {
        Error::at(line_column_at(src, p))
    } else {
        Error::exhausted()
    }
}

/// What a parse gives, seen through the views of its result.
pub open spec fn view_result<T: View>(r: Result<T, Error>) -> Result<T::V, Error> {
    match r {
        Ok(v) => Ok(v@),
        Err(e) => Err(e),
    }
}

/// A piece of syntax read from a token stream.
pub trait FromTokens: Sized + View {
    /// The grammar of the piece: reading from index `p` of `src` gives this
    /// result, and leaves the stream at this index.
    spec fn grammar(src: Seq<char>, p: nat) -> (Result<Self::V, Error>, nat);

    fn from_tokens(tokens: &mut Tokens) -> (r: Result<Self, Error>)
        requires
            old(tokens).wf(),
        ensures
            final(tokens).at(
                old(tokens).source(),
                Self::grammar(old(tokens).source(), old(tokens).cursor()).1,
            ),
            view_result(r) == Self::grammar(old(tokens).source(), old(tokens).cursor()).0,
    ;
}

} // verus!
