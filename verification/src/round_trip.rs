use crate::chars::{ascii_digit, white_space};
use crate::laws::lemma_blank_is_skipped;
use crate::scan::{
    begins_word, found, lemma_run_end_is, lemma_scan_advances, prolongs, punctuation, scan_all,
    scan_from, token_at, Pass, Run,
};
use crate::tokenizer::{TokenKind, TokenView};
use vstd::prelude::*;

verus! {

/// A piece of source text together with the kind of token it is written
/// to be.
pub struct Lexeme {
    pub kind: TokenKind,
    pub text: Seq<char>,
}

impl Lexeme {
    /// Whether the text is a literal of the kind, written out in full: a
    /// punctuation mark by itself; a string between two quotes with no
    /// quote inside; an identifier that begins with a letter or `_` that is
    /// no white space and goes on with letters, numbers and `_`; a number
    /// of one or more digits.
    pub open spec fn well_formed(self) -> bool {
        let text = self.text;
        match self.kind {
            TokenKind::String => {
                &&& text.len() >= 2
                &&& text[0] == '"'
                &&& text[text.len() - 1] == '"'
                &&& forall|i: int| 1 <= i < text.len() - 1 ==> #[trigger] text[i] != '"'
            },
            TokenKind::Id => {
                &&& text.len() >= 1
                &&& begins_word(text[0])
                &&& !white_space(text[0])
                &&& forall|i: int| 1 <= i < text.len() ==> prolongs(Run::Word, #[trigger] text[i])
            },
            TokenKind::Number => {
                &&& text.len() >= 1
                &&& forall|i: int| 0 <= i < text.len() ==> ascii_digit(#[trigger] text[i])
            },
            _ => text.len() == 1 && punctuation(text[0]) == Some(self.kind),
        }
    }

    /// The text that a token scanned from this lexeme carries: what stands
    /// between the quotes of a string, all of an identifier or a number,
    /// and none for a punctuation mark.
    pub open spec fn value(self) -> Option<Seq<char>> {
        match self.kind {
            TokenKind::String => Some(self.text.subrange(1, self.text.len() - 1)),
            TokenKind::Id | TokenKind::Number => Some(self.text),
            _ => None,
        }
    }

    /// The token that this lexeme gives when it begins at offset `at` of `s`.
    pub open spec fn token(self, s: Seq<char>, at: int) -> TokenView {
        token_at(s, at, self.kind, self.value())
    }
}

/// The texts of the lexemes in order, with one space between neighbours.
pub open spec fn spaced(lexemes: Seq<Lexeme>) -> Seq<char>
    decreases lexemes.len(),
{
    if lexemes.len() == 0 {
        Seq::empty()
    } else if lexemes.len() == 1 {
        lexemes[0].text
    } else {
        lexemes[0].text + seq![' '] + spaced(lexemes.drop_first())
    }
}

/// The offset in `spaced(lexemes)` at which the text of lexeme `i` begins.
pub open spec fn offset_of(lexemes: Seq<Lexeme>, i: int) -> int
    decreases i,
{
    if i <= 0 {
        0
    } else {
        offset_of(lexemes, i - 1) + lexemes[i - 1].text.len() + 1
    }
}

/// The tokens that the lexemes give when scanned from `spaced(lexemes)`.
pub open spec fn tokens_of(lexemes: Seq<Lexeme>) -> Seq<TokenView> {
    Seq::new(
        lexemes.len(),
        |i: int| lexemes[i].token(spaced(lexemes), offset_of(lexemes, i)),
    )
}

/// A well-formed lexeme that stands at offset `at` of `s`, followed by a
/// space or by the end of the text, is scanned as one token, and the
/// scanner stops just behind it.
pub proof fn lemma_lexeme_is_one_token(s: Seq<char>, at: int, lexeme: Lexeme)
    requires
        lexeme.well_formed(),
        0 <= at,
        at + lexeme.text.len() <= s.len(),
        s.subrange(at, at + lexeme.text.len()) == lexeme.text,
        at + lexeme.text.len() < s.len() ==> s[at + lexeme.text.len()] == ' ',
    ensures
        scan_from(s, at) == found(
            s,
            at,
            lexeme.kind,
            lexeme.value(),
            at + lexeme.text.len(),
        ),
{
    let text = lexeme.text;
    let end = at + text.len();
    assert forall|i: int| 0 <= i < text.len() implies s[at + i] == #[trigger] text[i] by {
        assert(s.subrange(at, end)[i] == s[at + i]);
    }
    assert(s[at] == text[0]);
    lemma_run_end_is(s, at, Run::Blank, at);
    match lexeme.kind {
        TokenKind::String => {
            assert forall|i: int| at + 1 <= i < end - 1 implies prolongs(
                Run::Quoted,
                #[trigger] s[i],
            ) by {
                assert(s[i] == text[i - at]);
            }
            assert(s[end - 1] == text[text.len() - 1]);
            lemma_run_end_is(s, at + 1, Run::Quoted, end - 1);
            assert(s.subrange(at + 1, end - 1) =~= text.subrange(1, text.len() - 1));
        },
        TokenKind::Id => {
            assert forall|i: int| at + 1 <= i < end implies prolongs(Run::Word, #[trigger] s[i]) by {
                assert(s[i] == text[i - at]);
            }
            lemma_run_end_is(s, at + 1, Run::Word, end);
        },
        TokenKind::Number => {
            assert forall|i: int| at + 1 <= i < end implies prolongs(
                Run::Digits,
                #[trigger] s[i],
            ) by {
                assert(s[i] == text[i - at]);
            }
            lemma_run_end_is(s, at + 1, Run::Digits, end);
        },
        _ => {},
    }
}

/// Moving a lexeme in front shifts the offsets of the others by its length
/// and one space.
proof fn lemma_offset_shift(lexemes: Seq<Lexeme>, i: int)
    requires
        0 <= i < lexemes.len(),
    ensures
        offset_of(lexemes, i + 1) == lexemes[0].text.len() + 1 + offset_of(
            lexemes.drop_first(),
            i,
        ),
    decreases i,
{
    if i > 0 {
        lemma_offset_shift(lexemes, i - 1);
        assert(lexemes.drop_first()[i - 1] == lexemes[i]);
    } else {
        reveal_with_fuel(offset_of, 2);
    }
}

/// How `spaced(lexemes)` is laid out: the text of lexeme `i` stands at its
/// offset, a space follows it unless it is the last, and the last ends
/// with the whole.
pub proof fn lemma_layout(lexemes: Seq<Lexeme>, i: int)
    requires
        0 <= i < lexemes.len(),
    ensures
        0 <= offset_of(lexemes, i),
        offset_of(lexemes, i) + lexemes[i].text.len() <= spaced(lexemes).len(),
        spaced(lexemes).subrange(
            offset_of(lexemes, i),
            offset_of(lexemes, i) + lexemes[i].text.len(),
        ) == lexemes[i].text,
        i + 1 < lexemes.len() ==> offset_of(lexemes, i) + lexemes[i].text.len() < spaced(
            lexemes,
        ).len() && spaced(lexemes)[offset_of(lexemes, i) + lexemes[i].text.len()] == ' ',
        i + 1 == lexemes.len() ==> offset_of(lexemes, i) + lexemes[i].text.len() == spaced(
            lexemes,
        ).len(),
    decreases lexemes.len(),
{
    let s = spaced(lexemes);
    let first = lexemes[0].text;
    if lexemes.len() == 1 {
        assert(s.subrange(0, first.len() as int) =~= first);
    } else {
        let rest = lexemes.drop_first();
        let tail = spaced(rest);
        assert(s == first + seq![' '] + tail);
        if i == 0 {
            assert(s.subrange(0, first.len() as int) =~= first);
        } else {
            lemma_layout(rest, i - 1);
            lemma_offset_shift(lexemes, i - 1);
            let from = offset_of(rest, i - 1);
            let to = from + rest[i - 1].text.len();
            assert(rest[i - 1] == lexemes[i]);
            assert(s.subrange(first.len() + 1 + from, first.len() + 1 + to) =~= tail.subrange(
                from,
                to,
            ));
            if i + 1 < lexemes.len() {
                assert(s[first.len() + 1 + to] == tail[to]);
            }
        }
    }
}

/// A pass that starts at lexeme `i` gathers the tokens of that lexeme and
/// of all that follow it.
proof fn lemma_round_trip_from(lexemes: Seq<Lexeme>, i: int)
    requires
        forall|k: int| 0 <= k < lexemes.len() ==> (#[trigger] lexemes[k]).well_formed(),
        0 <= i < lexemes.len(),
    ensures
        scan_all(spaced(lexemes), offset_of(lexemes, i)) == (Pass {
            outcome: Ok(tokens_of(lexemes).subrange(i, lexemes.len() as int)),
            next: spaced(lexemes).len() as int,
        }),
    decreases lexemes.len() - i,
{
    let s = spaced(lexemes);
    let at = offset_of(lexemes, i);
    let lexeme = lexemes[i];
    let end = at + lexeme.text.len();
    let all = tokens_of(lexemes);
    let n = lexemes.len() as int;
    lemma_layout(lexemes, i);
    lemma_lexeme_is_one_token(s, at, lexeme);
    lemma_scan_advances(s, at);
    assert(all[i] == lexeme.token(s, at));
    if i + 1 == n {
        assert(seq![all[i]] + Seq::<TokenView>::empty() =~= all.subrange(i, n));
    } else {
        lemma_layout(lexemes, i + 1);
        lemma_round_trip_from(lexemes, i + 1);
        lemma_blank_is_skipped(s, end);
        assert(scan_all(s, end) == scan_all(s, end + 1));
        assert(seq![all[i]] + all.subrange(i + 1, n) =~= all.subrange(i, n));
    }
}

/// Round trip: well-formed lexemes, written out with one space between
/// neighbours, are scanned as one token each, in the same order, each of
/// the kind and with the text of its lexeme and at the place where its
/// lexeme begins; and the pass stops at the end of the text.
pub proof fn lemma_round_trip(lexemes: Seq<Lexeme>)
    requires
        forall|k: int| 0 <= k < lexemes.len() ==> (#[trigger] lexemes[k]).well_formed(),
    ensures
        scan_all(spaced(lexemes), 0) == (Pass {
            outcome: Ok(tokens_of(lexemes)),
            next: spaced(lexemes).len() as int,
        }),
        tokens_of(lexemes).len() == lexemes.len(),
        forall|i: int|
            0 <= i < lexemes.len() ==> {
                &&& (#[trigger] tokens_of(lexemes)[i]).kind == lexemes[i].kind
                &&& tokens_of(lexemes)[i].value == lexemes[i].value()
            },
{
    if lexemes.len() == 0 {
        assert(tokens_of(lexemes) =~= Seq::empty());
    } else {
        lemma_round_trip_from(lexemes, 0);
        assert(tokens_of(lexemes).subrange(0, lexemes.len() as int) =~= tokens_of(lexemes));
    }
}

} // verus!
