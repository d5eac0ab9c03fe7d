use crate::tokenizer::{TokenError, TokenErrorView};
use vstd::prelude::*;
use vstd::string::StringExecFns;

verus! {

/// The character that writes the digit `d`.
pub open spec fn digit(d: nat) -> char {
    if d == 0 {
        '0'
    } else if d == 1 {
        '1'
    } else if d == 2 {
        '2'
    } else if d == 3 {
        '3'
    } else if d == 4 {
        '4'
    } else if d == 5 {
        '5'
    } else if d == 6 {
        '6'
    } else if d == 7 {
        '7'
    } else if d == 8 {
        '8'
    } else {
        '9'
    }
}

/// The number `n` written in decimal, without leading zeros.
pub open spec fn decimal(n: nat) -> Seq<char>
    decreases n,
{
    if n < 10 {
        seq![digit(n)]
    } else {
        decimal(n / 10).push(digit(n % 10))
    }
}

impl TokenErrorView {
    /// The message that reports the error to a reader: what went wrong,
    /// then the line and the column.
    pub open spec fn message(self) -> Seq<char> {
        match self {
            TokenErrorView::UnterminatedString { line, column } => {
                "Unterminated string at line "@ + decimal(line) + ", column "@ + decimal(column)
            },
            TokenErrorView::UnexpectedCharacter { character, line, column } => {
                "Unexpected character '"@ + seq![character] + "' at line "@ + decimal(line)
                    + ", column "@ + decimal(column)
            },
        }
    }
}

fn digit_char(d: usize) -> (c: char)
    requires
        d < 10,
    ensures
        c == digit(d as nat),
{
    if d == 0 {
        '0'
    } else if d == 1 {
        '1'
    } else if d == 2 {
        '2'
    } else if d == 3 {
        '3'
    } else if d == 4 {
        '4'
    } else if d == 5 {
        '5'
    } else if d == 6 {
        '6'
    } else if d == 7 {
        '7'
    } else if d == 8 {
        '8'
    } else {
        '9'
    }
}

/// Appends `n`, written in decimal, to `out`.
fn push_decimal(out: &mut String, n: usize)
    ensures
        final(out)@ == old(out)@ + decimal(n as nat),
    decreases n,
{
    if n >= 10 {
        push_decimal(out, n / 10);
    }
    out.push(digit_char(n % 10));
    assert(out@ =~= old(out)@ + decimal(n as nat));
}

impl TokenError {
    /// The message that reports this error to a reader.
    pub fn message(&self) -> (text: String)
        ensures
            text@ == self@.message(),
    {
        let mut text = String::new();
        match *self {
            TokenError::UnterminatedString { line, column } => {
                text.append("Unterminated string at line ");
                push_decimal(&mut text, line);
                text.append(", column ");
                push_decimal(&mut text, column);
                assert(text@ =~= self@.message());
            },
            TokenError::UnexpectedCharacter { character, line, column } => {
                text.append("Unexpected character '");
                text.push(character);
                text.append("' at line ");
                push_decimal(&mut text, line);
                text.append(", column ");
                push_decimal(&mut text, column);
                assert(text@ =~= self@.message());
            },
        }
        text
    }
}

} // verus!
