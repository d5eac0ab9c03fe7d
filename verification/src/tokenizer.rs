use crate::position::{column_at, lemma_position_bounds, line_at, line_start, newlines_before};
use crate::scan::{
    identifier_at, lemma_run_end_bounds, lemma_scan_advances, number_at, punctuation_mark,
    run_end, scan_all, scan_from, string_at, Run,
};
use vstd::prelude::*;

verus! {

/// The lexical category of a token.
#[derive(Debug, PartialEq, Eq, Clone, Copy)]
pub enum TokenKind {
    /// The mark `.`.
    Dot,
    /// An identifier: a letter or `_`, then letters, numbers and `_`.
    Id,
    /// The mark `%`.
    Modulo,
    /// The mark `:`.
    Colon,
    /// The mark `-`.
    Minus,
    /// The mark `,`.
    Comma,
    /// A string literal between two quotes.
    String,
    /// A number written in ASCII digits.
    Number,
}

/// A classified piece of source text with the position of its first
/// character.
#[derive(Debug, PartialEq, Eq)]
pub struct Token {
    pub kind: TokenKind,
    pub value: Option<String>,
    pub line: usize,
    pub column: usize,
}

/// What a `Token` stands for: its kind, its text as a sequence of
/// characters, and its 1-based line and column.
pub struct TokenView {
    pub kind: TokenKind,
    pub value: Option<Seq<char>>,
    pub line: nat,
    pub column: nat,
}

impl TokenView {
    /// Whether the token carries text exactly if it is of a kind that has
    /// any, an identifier, a string or a number, and stands at a line and a
    /// column that count from 1.
    pub open spec fn well_formed(self) -> bool {
        &&& self.value is Some <==> punctuation_mark(self.kind) is None
        &&& self.line >= 1
        &&& self.column >= 1
    }
}

impl View for Token {
    type V = TokenView;

    open spec fn view(&self) -> TokenView {
        TokenView {
            kind: self.kind,
            value: match self.value {
                Some(text) => Some(text@),
                None => None,
            },
            line: self.line as nat,
            column: self.column as nat,
        }
    }
}

impl Token {
    /// A token of the given kind and text at the given line and column.
    pub fn new(kind: TokenKind, value: Option<String>, line: usize, column: usize) -> (token: Self)
        ensures
            token.kind == kind,
            token.value == value,
            token.line == line,
            token.column == column,
    {
        Self { kind, value, line, column }
    }
}

/// Why scanning stopped short of a token.
#[derive(Debug, PartialEq, Eq, Clone, Copy)]
pub enum TokenError {
    /// A string literal that no quote closes; the position is that of the
    /// quote that opens it.
    UnterminatedString { line: usize, column: usize },
    /// A character that begins no token, with its own position.
    UnexpectedCharacter { character: char, line: usize, column: usize },
}

/// What a `TokenError` stands for, with unbounded positions.
pub enum TokenErrorView {
    UnterminatedString { line: nat, column: nat },
    UnexpectedCharacter { character: char, line: nat, column: nat },
}

impl View for TokenError {
    type V = TokenErrorView;

    open spec fn view(&self) -> TokenErrorView {
        match *self {
            TokenError::UnterminatedString { line, column } => TokenErrorView::UnterminatedString {
                line: line as nat,
                column: column as nat,
            },
            TokenError::UnexpectedCharacter {
                character,
                line,
                column,
            } => TokenErrorView::UnexpectedCharacter {
                character,
                line: line as nat,
                column: column as nat,
            },
        }
    }
}

/// What a result of `Tokenizer::next_token` stands for.
pub open spec fn step_view(result: Result<Option<Token>, TokenError>) -> Result<
    Option<TokenView>,
    TokenErrorView,
> {
    match result {
        Ok(Some(token)) => Ok(Some(token@)),
        Ok(None) => Ok(None),
        Err(error) => Err(error@),
    }
}

/// The views of a sequence of tokens, in the same order.
pub open spec fn token_views(tokens: Seq<Token>) -> Seq<TokenView> {
    tokens.map_values(|token: Token| token@)
}

/// What a result of `Tokenizer::tokens` stands for.
pub open spec fn pass_view(result: Result<Vec<Token>, TokenError>) -> Result<
    Seq<TokenView>,
    TokenErrorView,
> {
    match result {
        Ok(tokens) => Ok(token_views(tokens@)),
        Err(error) => Err(error@),
    }
}

/// Where the scanner stands: how many characters it has passed, how many
/// line breaks among them, and how many characters since the last of those.
#[derive(Clone, Copy)]
struct Cursor {
    position: usize,
    lines_passed: usize,
    columns_passed: usize,
}

/// A scanner over one source text.
pub struct Tokenizer {
    input: Vec<char>,
    start: usize,
    cursor: Cursor,
}

/// What a `Tokenizer` stands for: the text it scans and the offset of the
/// character it reads next.
pub struct TokenizerView {
    pub input: Seq<char>,
    pub position: int,
}

impl TokenizerView {
    /// The 1-based line of the character that is read next.
    pub open spec fn line(self) -> nat {
        line_at(self.input, self.position)
    }

    /// The 1-based column of the character that is read next.
    pub open spec fn column(self) -> nat {
        column_at(self.input, self.position)
    }
}

impl View for Tokenizer {
    type V = TokenizerView;

    closed spec fn view(&self) -> TokenizerView {
        TokenizerView { input: self.input@, position: self.cursor.position as int }
    }
}

impl Tokenizer {
    /// The cursor is inside the text, not before the token under way, and
    /// its two counters say where in the text it is.
    #[verifier::type_invariant]
    spec fn well_formed(&self) -> bool {
        &&& self.start <= self.cursor.position <= self.input.len()
        &&& self.cursor.lines_passed == newlines_before(self.input@, self.cursor.position as int)
        &&& self.cursor.columns_passed == self.cursor.position - line_start(
            self.input@,
            self.cursor.position as int,
        )
    }

    /// The offset at which the token under way began.
    spec fn token_start(&self) -> int {
        self.start as int
    }

    /// A scanner at the beginning of `source`: line 1, column 1.
    pub fn new(source: &str) -> (tokenizer: Self)
        ensures
            tokenizer@.input == source@,
            tokenizer@.position == 0,
            tokenizer@.line() == 1,
            tokenizer@.column() == 1,
    {
        let mut input: Vec<char> = Vec::new();
        for c in it: source.chars()
            invariant
                input@ == it.seq().take(it.index() as int),
        {
            input.push(c);
        }
        Tokenizer {
            input,
            start: 0,
            cursor: Cursor { position: 0, lines_passed: 0, columns_passed: 0 },
        }
    }

    /// Scans for the next token.
    ///
    /// Gives the token, or `None` at the end of the text, or the error at
    /// the first character that fits no token, and leaves the scanner just
    /// behind what it has read.
    pub fn next_token(&mut self) -> (result: Result<Option<Token>, TokenError>)
        ensures
            final(self)@.input == old(self)@.input,
            final(self)@.position == scan_from(old(self)@.input, old(self)@.position).next,
            step_view(result) == scan_from(old(self)@.input, old(self)@.position).outcome,
            0 <= old(self)@.position <= final(self)@.position <= final(self)@.input.len(),
    {
        loop
            invariant
                self@.input == old(self)@.input,
                old(self)@.position <= self@.position,
                scan_from(self@.input, self@.position) == scan_from(
                    old(self)@.input,
                    old(self)@.position,
                ),
            decreases self@.input.len() - self@.position,
        {
            proof {
                use_type_invariant(&*self);
                lemma_run_end_bounds(self@.input, self@.position, Run::Blank);
            }
            self.skip_whitespace();
            proof {
                use_type_invariant(&*self);
            }
            if self.is_eof() {
                return Ok(None);
            }
            proof {
                lemma_position_bounds(self@.input, self@.position);
                lemma_run_end_bounds(self@.input, self@.position + 1, Run::Quoted);
                lemma_run_end_bounds(self@.input, self@.position + 1, Run::Comment);
                lemma_run_end_bounds(self@.input, self@.position + 1, Run::Word);
                lemma_run_end_bounds(self@.input, self@.position + 1, Run::Digits);
            }
            self.start = self.cursor.position;
            let start_line: usize = self.cursor.lines_passed + 1;
            let start_column: usize = self.cursor.columns_passed + 1;

            let c = self.advance();
            match c {
                '.' => {
                    return Ok(self.new_token(TokenKind::Dot, None, start_line, start_column));
                },
                '%' => {
                    return Ok(self.new_token(TokenKind::Modulo, None, start_line, start_column));
                },
                ':' => {
                    return Ok(self.new_token(TokenKind::Colon, None, start_line, start_column));
                },
                '-' => {
                    return Ok(self.new_token(TokenKind::Minus, None, start_line, start_column));
                },
                ',' => {
                    return Ok(self.new_token(TokenKind::Comma, None, start_line, start_column));
                },
                '"' => {
                    return self.string(start_line, start_column);
                },
                '#' => {
                    self.skip_comments();
                },
                c if c.is_alphabetic() || c == '_' => {
                    return Ok(self.identifier(start_line, start_column));
                },
                c if c.is_ascii_digit() => {
                    return self.number(start_line, start_column);
                },
                _ => {
                    return Err(
                        TokenError::UnexpectedCharacter {
                            character: c,
                            line: start_line,
                            column: start_column,
                        },
                    );
                },
            }
        }
    }

    /// Passes over white space.
    fn skip_whitespace(&mut self)
        ensures
            final(self)@.input == old(self)@.input,
            final(self)@.position == run_end(old(self)@.input, old(self)@.position, Run::Blank),
    {
        while !self.is_eof() && self.peek().is_whitespace()
            invariant
                self@.input == old(self)@.input,
                run_end(self@.input, self@.position, Run::Blank) == run_end(
                    old(self)@.input,
                    old(self)@.position,
                    Run::Blank,
                ),
            decreases self@.input.len() - self@.position,
        {
            self.advance();
        }
    }

    /// Passes over the rest of a comment, up to the line break.
    fn skip_comments(&mut self)
        ensures
            final(self)@.input == old(self)@.input,
            final(self)@.position == run_end(old(self)@.input, old(self)@.position, Run::Comment),
    {
        while !self.is_eof() && self.peek() != '\n'
            invariant
                self@.input == old(self)@.input,
                run_end(self@.input, self@.position, Run::Comment) == run_end(
                    old(self)@.input,
                    old(self)@.position,
                    Run::Comment,
                ),
            decreases self@.input.len() - self@.position,
        {
            self.advance();
        }
    }

    /// Scans the rest of an identifier whose first character has been read.
    fn identifier(&mut self, start_line: usize, start_column: usize) -> (token: Option<Token>)
        requires
            old(self)@.position == old(self).token_start() + 1,
            start_line == line_at(old(self)@.input, old(self).token_start()),
            start_column == column_at(old(self)@.input, old(self).token_start()),
        ensures
            final(self)@.input == old(self)@.input,
            final(self)@.position == identifier_at(old(self)@.input, old(self).token_start()).next,
            step_view(Ok(token)) == identifier_at(
                old(self)@.input,
                old(self).token_start(),
            ).outcome,
    {
        while !self.is_eof() && (self.peek().is_alphanumeric() || self.peek() == '_')
            invariant
                self@.input == old(self)@.input,
                self.start == old(self).start,
                run_end(self@.input, self@.position, Run::Word) == run_end(
                    old(self)@.input,
                    old(self)@.position,
                    Run::Word,
                ),
            decreases self@.input.len() - self@.position,
        {
            self.advance();
        }
        proof {
            use_type_invariant(&*self);
        }
        let value = self.text(self.start, self.cursor.position);
        self.new_token(TokenKind::Id, Some(value), start_line, start_column)
    }

    /// Scans the rest of a string literal whose opening quote has been read.
    fn string(&mut self, start_line: usize, start_column: usize) -> (result: Result<
        Option<Token>,
        TokenError,
    >)
        requires
            old(self)@.position == old(self).token_start() + 1,
            start_line == line_at(old(self)@.input, old(self).token_start()),
            start_column == column_at(old(self)@.input, old(self).token_start()),
        ensures
            final(self)@.input == old(self)@.input,
            final(self)@.position == string_at(old(self)@.input, old(self).token_start()).next,
            step_view(result) == string_at(old(self)@.input, old(self).token_start()).outcome,
    {
        while !self.is_eof() && self.peek() != '"'
            invariant
                self@.input == old(self)@.input,
                self.start == old(self).start,
                old(self)@.position <= self@.position,
                run_end(self@.input, self@.position, Run::Quoted) == run_end(
                    old(self)@.input,
                    old(self)@.position,
                    Run::Quoted,
                ),
            decreases self@.input.len() - self@.position,
        {
            self.advance();
        }
        proof {
            use_type_invariant(&*self);
        }
        if self.is_eof() {
            return Err(TokenError::UnterminatedString { line: start_line, column: start_column });
        }
        let value = self.text(self.start + 1, self.cursor.position);
        self.advance();
        Ok(self.new_token(TokenKind::String, Some(value), start_line, start_column))
    }

    /// Scans the rest of a number whose first digit has been read.
    fn number(&mut self, start_line: usize, start_column: usize) -> (result: Result<
        Option<Token>,
        TokenError,
    >)
        requires
            old(self)@.position == old(self).token_start() + 1,
            start_line == line_at(old(self)@.input, old(self).token_start()),
            start_column == column_at(old(self)@.input, old(self).token_start()),
        ensures
            final(self)@.input == old(self)@.input,
            final(self)@.position == number_at(old(self)@.input, old(self).token_start()).next,
            step_view(result) == number_at(old(self)@.input, old(self).token_start()).outcome,
    {
        while !self.is_eof() && self.peek().is_ascii_digit()
            invariant
                self@.input == old(self)@.input,
                self.start == old(self).start,
                run_end(self@.input, self@.position, Run::Digits) == run_end(
                    old(self)@.input,
                    old(self)@.position,
                    Run::Digits,
                ),
            decreases self@.input.len() - self@.position,
        {
            self.advance();
        }
        proof {
            use_type_invariant(&*self);
        }
        let value = self.text(self.start, self.cursor.position);
        Ok(self.new_token(TokenKind::Number, Some(value), start_line, start_column))
    }

    /// The characters of the text from offset `from` up to offset `to`.
    fn text(&self, from: usize, to: usize) -> (text: String)
        requires
            from <= to <= self@.input.len(),
        ensures
            text@ == self@.input.subrange(from as int, to as int),
    {
        let mut text = String::new();
        let mut i: usize = from;
        while i < to
            invariant
                from <= i <= to <= self.input@.len(),
                text@ == self.input@.subrange(from as int, i as int),
            decreases to - i,
        {
            text.push(self.input[i]);
            i += 1;
            assert(self.input@.subrange(from as int, i as int) == self.input@.subrange(
                from as int,
                i - 1,
            ).push(self.input@[i - 1]));
        }
        text
    }

    /// The token just scanned, as a step gives it.
    fn new_token(&self, kind: TokenKind, value: Option<String>, line: usize, column: usize) -> (token:
        Option<Token>)
        ensures
            token == Some(Token { kind, value, line, column }),
    {
        Some(Token::new(kind, value, line, column))
    }

    /// Scans the rest of the text.
    ///
    /// Gives the tokens in the order of the text, or the first error alone.
    pub fn tokens(&mut self) -> (result: Result<Vec<Token>, TokenError>)
        ensures
            final(self)@.input == old(self)@.input,
            final(self)@.position == scan_all(old(self)@.input, old(self)@.position).next,
            pass_view(result) == scan_all(old(self)@.input, old(self)@.position).outcome,
            0 <= old(self)@.position <= final(self)@.position <= final(self)@.input.len(),
    {
        let mut tokens: Vec<Token> = Vec::new();
        proof {
            use_type_invariant(&*self);
            let rest = scan_all(self@.input, self@.position);
            assert(token_views(tokens@) =~= Seq::empty());
            assert(rest.outcome is Ok ==> Seq::<TokenView>::empty() + rest.outcome->Ok_0
                =~= rest.outcome->Ok_0);
        }
        while !self.is_eof()
            invariant
                self@.input == old(self)@.input,
                0 <= old(self)@.position <= self@.position <= self@.input.len(),
                scan_all(old(self)@.input, old(self)@.position) == scan_all(
                    self@.input,
                    self@.position,
                ).after(token_views(tokens@)),
            decreases self@.input.len() - self@.position,
        {
            proof {
                lemma_scan_advances(self@.input, self@.position);
            }
            let ghost before = token_views(tokens@);
            match self.next_token() {
                Err(error) => {
                    return Err(error);
                },
                Ok(Some(token)) => {
                    proof {
                        let rest = scan_all(self@.input, self@.position);
                        assert(token_views(tokens@.push(token)) =~= before.push(token@));
                        assert(rest.outcome is Ok ==> before + (seq![token@] + rest.outcome->Ok_0)
                            =~= before.push(token@) + rest.outcome->Ok_0);
                    }
                    tokens.push(token);
                },
                Ok(None) => {
                    assert(before + Seq::<TokenView>::empty() =~= before);
                    return Ok(tokens);
                },
            }
        }
        assert(token_views(tokens@) + Seq::<TokenView>::empty() =~= token_views(tokens@));
        Ok(tokens)
    }

    /// Whether every character has been read.
    fn is_eof(&self) -> (eof: bool)
        ensures
            eof == (self@.position >= self@.input.len()),
    {
        self.cursor.position >= self.input.len()
    }

    /// Reads one character and steps over it; at the end of the text gives
    /// the null character and stays.
    fn advance(&mut self) -> (c: char)
        ensures
            final(self)@.input == old(self)@.input,
            final(self).start == old(self).start,
            old(self)@.position < old(self)@.input.len() ==> c == old(self)@.input[old(
                self,
            )@.position] && final(self)@.position == old(self)@.position + 1,
            old(self)@.position >= old(self)@.input.len() ==> c == '\0' && final(self)@.position
                == old(self)@.position,
    {
        if self.is_eof() {
            return '\0';
        }
        proof {
            use_type_invariant(&*self);
            lemma_position_bounds(self.input@, self.cursor.position as int);
        }
        let c = self.input[self.cursor.position];
        if c == '\n' {
            self.cursor = Cursor {
                position: self.cursor.position + 1,
                lines_passed: self.cursor.lines_passed + 1,
                columns_passed: 0,
            };
        } else {
            self.cursor = Cursor {
                position: self.cursor.position + 1,
                lines_passed: self.cursor.lines_passed,
                columns_passed: self.cursor.columns_passed + 1,
            };
        }
        c
    }

    /// The character that is read next; at the end of the text the null
    /// character.
    fn peek(&self) -> (c: char)
        ensures
            c == if self@.position < self@.input.len() {
                self@.input[self@.position]
            } else {
                '\0'
            },
    {
        if self.is_eof() {
            return '\0';
        }
        self.input[self.cursor.position]
    }
}

} // verus!
