use crate::chars::{alphabetic, alphanumeric, ascii_digit, white_space};
use crate::position::{column_at, line_at};
use crate::tokenizer::{TokenErrorView, TokenKind, TokenView};
use vstd::prelude::*;

verus! {

/// The runs of characters that the scanner passes over in one sweep.
pub enum Run {
    /// White space between tokens.
    Blank,
    /// The rest of a comment line, up to the line break.
    Comment,
    /// The inside of a string literal, up to the closing quote.
    Quoted,
    /// The tail of an identifier.
    Word,
    /// The tail of a number.
    Digits,
}

/// Whether `c` prolongs a run of the given sort.
pub open spec fn prolongs(run: Run, c: char) -> bool {
    match run {
        Run::Blank => white_space(c),
        Run::Comment => c != '\n',
        Run::Quoted => c != '"',
        Run::Word => alphanumeric(c) || c == '_',
        Run::Digits => ascii_digit(c),
    }
}

/// The offset at which the longest run of the given sort that begins at
/// `from` ends: that of the first character that does not prolong it, or
/// the length of `s`.
pub open spec fn run_end(s: Seq<char>, from: int, run: Run) -> int
    decreases s.len() - from,
{
    if 0 <= from < s.len() && prolongs(run, s[from]) {
        run_end(s, from + 1, run)
    } else {
        from
    }
}

/// The kind of token that a punctuation mark is, and `None` for any other
/// character.
pub open spec fn punctuation(c: char) -> Option<TokenKind> {
    if c == '.' {
        Some(TokenKind::Dot)
    } else if c == '%' {
        Some(TokenKind::Modulo)
    } else if c == ':' {
        Some(TokenKind::Colon)
    } else if c == '-' {
        Some(TokenKind::Minus)
    } else if c == ',' {
        Some(TokenKind::Comma)
    } else {
        None
    }
}

/// The character that writes a token of a punctuation kind, and `None` for
/// a kind that carries text.
pub open spec fn punctuation_mark(kind: TokenKind) -> Option<char> {
    match kind {
        TokenKind::Dot => Some('.'),
        TokenKind::Modulo => Some('%'),
        TokenKind::Colon => Some(':'),
        TokenKind::Minus => Some('-'),
        TokenKind::Comma => Some(','),
        TokenKind::Id | TokenKind::String | TokenKind::Number => None,
    }
}

/// Whether `c` may begin an identifier.
pub open spec fn begins_word(c: char) -> bool {
    alphabetic(c) || c == '_'
}

/// One step of the scanner: what it found, and the offset it stopped at.
pub struct Step {
    pub outcome: Result<Option<TokenView>, TokenErrorView>,
    pub next: int,
}

/// The token of the given kind and text that begins at offset `at` of `s`.
pub open spec fn token_at(
    s: Seq<char>,
    at: int,
    kind: TokenKind,
    value: Option<Seq<char>>,
) -> TokenView {
    TokenView { kind, value, line: line_at(s, at), column: column_at(s, at) }
}

/// A step that found a token beginning at `at` and stopped at `next`.
pub open spec fn found(
    s: Seq<char>,
    at: int,
    kind: TokenKind,
    value: Option<Seq<char>>,
    next: int,
) -> Step {
    Step { outcome: Ok(Some(token_at(s, at, kind, value))), next }
}

/// The step that reports a character that fits no token.
pub open spec fn unexpected(s: Seq<char>, at: int) -> Step {
    Step {
        outcome: Err(
            TokenErrorView::UnexpectedCharacter {
                character: s[at],
                line: line_at(s, at),
                column: column_at(s, at),
            },
        ),
        next: at + 1,
    }
}

/// The step over a string literal whose opening quote stands at `at`: the
/// text up to the next quote, without the two quotes; or, where no quote
/// follows, an error at the opening quote, with the rest of the text used up.
pub open spec fn string_at(s: Seq<char>, at: int) -> Step {
    let close = run_end(s, at + 1, Run::Quoted);
    if close < s.len() {
        found(s, at, TokenKind::String, Some(s.subrange(at + 1, close)), close + 1)
    } else {
        Step {
            outcome: Err(
                TokenErrorView::UnterminatedString {
                    line: line_at(s, at),
                    column: column_at(s, at),
                },
            ),
            next: close,
        }
    }
}

/// The step over an identifier that begins at `at`, taken as far as it goes.
pub open spec fn identifier_at(s: Seq<char>, at: int) -> Step {
    let end = run_end(s, at + 1, Run::Word);
    found(s, at, TokenKind::Id, Some(s.subrange(at, end)), end)
}

/// The step over a number that begins at `at`, taken as far as it goes.
pub open spec fn number_at(s: Seq<char>, at: int) -> Step {
    let end = run_end(s, at + 1, Run::Digits);
    found(s, at, TokenKind::Number, Some(s.subrange(at, end)), end)
}

/// What scanning `s` from offset `p` for the next token gives.
///
/// White space is passed over. At the end of the text there is no token.
/// Otherwise the next character decides: a punctuation mark is a token by
/// itself; a quote opens a string; `#` opens a comment that runs to the end
/// of the line, after which scanning resumes; a letter or `_` opens an
/// identifier, a digit a number; anything else is an error at that
/// character, and the scanner stops behind it.
pub open spec fn scan_from(s: Seq<char>, p: int) -> Step
    decreases s.len() - p,
{
    let at = run_end(s, p, Run::Blank);
    if !(0 <= at < s.len()) {
        Step { outcome: Ok(None), next: at }
    } else {
        let c = s[at];
        if punctuation(c) is Some {
            found(s, at, punctuation(c)->Some_0, None, at + 1)
        } else if c == '"' {
            string_at(s, at)
        } else if c == '#' {
            proof {
                lemma_run_end_bounds(s, p, Run::Blank);
                lemma_run_end_bounds(s, at + 1, Run::Comment);
            }
            scan_from(s, run_end(s, at + 1, Run::Comment))
        } else if begins_word(c) {
            identifier_at(s, at)
        } else if ascii_digit(c) {
            number_at(s, at)
        } else {
            unexpected(s, at)
        }
    }
}

/// A run ends at or after its beginning and within the text, every
/// character inside it prolongs it, and the character at its end does not.
pub proof fn lemma_run_end_bounds(s: Seq<char>, from: int, run: Run)
    ensures
        from <= run_end(s, from, run),
        0 <= from <= s.len() ==> run_end(s, from, run) <= s.len(),
        forall|i: int| 0 <= from <= i < run_end(s, from, run) ==> prolongs(run, #[trigger] s[i]),
        0 <= run_end(s, from, run) < s.len() ==> !prolongs(run, s[run_end(s, from, run)]),
    decreases s.len() - from,
{
    if 0 <= from < s.len() && prolongs(run, s[from]) {
        lemma_run_end_bounds(s, from + 1, run);
    }
}

/// A run that begins at `from` ends at `end` if every character between the
/// two prolongs it and the one at `end`, if there is one, does not.
pub proof fn lemma_run_end_is(s: Seq<char>, from: int, run: Run, end: int)
    requires
        0 <= from <= end <= s.len(),
        forall|i: int| from <= i < end ==> prolongs(run, #[trigger] s[i]),
        end < s.len() ==> !prolongs(run, s[end]),
    ensures
        run_end(s, from, run) == end,
    decreases end - from,
{
    if from < end {
        lemma_run_end_is(s, from + 1, run, end);
    }
}

/// A step starts no earlier than it was asked to and stops within the
/// text; one that finds a token or an error has passed at least one
/// character, and one that finds neither has reached the end of the text.
pub proof fn lemma_scan_advances(s: Seq<char>, p: int)
    requires
        0 <= p <= s.len(),
    ensures
        p <= scan_from(s, p).next <= s.len(),
        scan_from(s, p).outcome != Ok::<Option<TokenView>, TokenErrorView>(None) ==> p < scan_from(
            s,
            p,
        ).next,
        scan_from(s, p).outcome == Ok::<Option<TokenView>, TokenErrorView>(None) ==> scan_from(
            s,
            p,
        ).next == s.len(),
    decreases s.len() - p,
{
    let at = run_end(s, p, Run::Blank);
    lemma_run_end_bounds(s, p, Run::Blank);
    if at < s.len() {
        lemma_run_end_bounds(s, at + 1, Run::Quoted);
        lemma_run_end_bounds(s, at + 1, Run::Comment);
        lemma_run_end_bounds(s, at + 1, Run::Word);
        lemma_run_end_bounds(s, at + 1, Run::Digits);
        if s[at] == '#' {
            lemma_scan_advances(s, run_end(s, at + 1, Run::Comment));
        }
    }
}

/// A whole pass of the scanner: the tokens it gathered or the error that
/// ended it, and the offset it stopped at.
pub struct Pass {
    pub outcome: Result<Seq<TokenView>, TokenErrorView>,
    pub next: int,
}

impl Pass {
    /// This pass with the tokens `before` put in front of those it
    /// gathered; an error stays as it is.
    pub open spec fn after(self, before: Seq<TokenView>) -> Pass {
        match self.outcome {
            Ok(tokens) => Pass { outcome: Ok(before + tokens), next: self.next },
            Err(error) => self,
        }
    }
}

/// What scanning `s` from offset `p` to the end gives: the tokens in the
/// order of the text, or, as soon as one step fails, that step's error and
/// nothing else.
pub open spec fn scan_all(s: Seq<char>, p: int) -> Pass
    decreases s.len() - p,
{
    if !(0 <= p < s.len()) {
        Pass { outcome: Ok(Seq::empty()), next: p }
    } else {
        let step = scan_from(s, p);
        match step.outcome {
            Err(error) => Pass { outcome: Err(error), next: step.next },
            Ok(None) => Pass { outcome: Ok(Seq::empty()), next: step.next },
            Ok(Some(token)) => {
                proof {
                    lemma_scan_advances(s, p);
                }
                scan_all(s, step.next).after(seq![token])
            },
        }
    }
}

} // verus!
