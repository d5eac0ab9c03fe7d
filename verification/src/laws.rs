use crate::chars::white_space;
use crate::position::lemma_position_bounds;
use crate::scan::{
    lemma_run_end_bounds, lemma_run_end_is, lemma_scan_advances, punctuation, run_end, scan_all,
    scan_from, token_at, Pass, Run, Step,
};
use crate::tokenizer::{TokenErrorView, TokenView};
use vstd::prelude::*;

verus! {

/// The step that finds the end of the text.
pub open spec fn at_end(s: Seq<char>) -> Step {
    Step { outcome: Ok(None), next: s.len() as int }
}

/// The pass that finds no token and stops at the end of the text.
pub open spec fn nothing(s: Seq<char>) -> Pass {
    Pass { outcome: Ok(Seq::empty()), next: s.len() as int }
}

/// Every token that a step finds is well formed.
pub proof fn lemma_found_token_is_well_formed(s: Seq<char>, p: int)
    requires
        0 <= p <= s.len(),
    ensures
        scan_from(s, p).outcome matches Ok(Some(token)) ==> token.well_formed(),
    decreases s.len() - p,
{
    let at = run_end(s, p, Run::Blank);
    lemma_run_end_bounds(s, p, Run::Blank);
    lemma_position_bounds(s, at);
    if at < s.len() && s[at] == '#' {
        lemma_run_end_bounds(s, at + 1, Run::Comment);
        lemma_found_token_is_well_formed(s, run_end(s, at + 1, Run::Comment));
    }
}

/// Every token that a pass gathers is well formed.
pub proof fn lemma_gathered_tokens_are_well_formed(s: Seq<char>, p: int)
    requires
        0 <= p <= s.len(),
    ensures
        scan_all(s, p).outcome matches Ok(tokens) ==> forall|i: int|
            0 <= i < tokens.len() ==> (#[trigger] tokens[i]).well_formed(),
    decreases s.len() - p,
{
    if p < s.len() {
        lemma_scan_advances(s, p);
        lemma_found_token_is_well_formed(s, p);
        if scan_from(s, p).outcome matches Ok(Some(token)) {
            lemma_gathered_tokens_are_well_formed(s, scan_from(s, p).next);
        }
    }
}

/// The end of the text is final: once a step has found it, every later
/// step finds it again and leaves the scanner where it is.
pub proof fn lemma_end_is_final(s: Seq<char>, p: int)
    requires
        0 <= p <= s.len(),
        scan_from(s, p).outcome == Ok::<Option<TokenView>, TokenErrorView>(None),
    ensures
        scan_from(s, p) == at_end(s),
        scan_from(s, scan_from(s, p).next) == at_end(s),
        scan_all(s, scan_from(s, p).next) == nothing(s),
{
    lemma_scan_advances(s, p);
}

/// A pass stops within the text, no earlier than it began, and one that
/// ends without an error has read the text to its end.
pub proof fn lemma_pass_reads_to_the_end(s: Seq<char>, p: int)
    requires
        0 <= p <= s.len(),
    ensures
        p <= scan_all(s, p).next <= s.len(),
        scan_all(s, p).outcome is Ok ==> scan_all(s, p).next == s.len(),
    decreases s.len() - p,
{
    if p < s.len() {
        lemma_scan_advances(s, p);
        if scan_from(s, p).outcome matches Ok(Some(token)) {
            lemma_pass_reads_to_the_end(s, scan_from(s, p).next);
        }
    }
}

/// A text that is empty or holds white space only has no token: the first
/// step finds the end of the text, and a whole pass gathers nothing.
pub proof fn lemma_blank_text_has_no_token(s: Seq<char>)
    requires
        forall|i: int| 0 <= i < s.len() ==> white_space(#[trigger] s[i]),
    ensures
        scan_from(s, 0) == at_end(s),
        scan_all(s, 0) == nothing(s),
{
    lemma_run_end_is(s, 0, Run::Blank, s.len() as int);
}

/// White space before a token is passed over: a step that starts on a
/// white space character finds what a step that starts behind it finds.
pub proof fn lemma_blank_is_skipped(s: Seq<char>, p: int)
    requires
        0 <= p < s.len(),
        white_space(s[p]),
    ensures
        scan_from(s, p) == scan_from(s, p + 1),
{
}

/// A comment is transparent: a step that starts at a `#` finds what a step
/// that starts at the end of that line finds, whatever the comment holds,
/// and so does a whole pass.
pub proof fn lemma_comment_is_transparent(s: Seq<char>, p: int)
    requires
        0 <= p < s.len(),
        s[p] == '#',
    ensures
        scan_from(s, p) == scan_from(s, run_end(s, p + 1, Run::Comment)),
        scan_all(s, p) == scan_all(s, run_end(s, p + 1, Run::Comment)),
{
    let end = run_end(s, p + 1, Run::Comment);
    lemma_run_end_bounds(s, p + 1, Run::Comment);
    if end == s.len() {
        lemma_scan_advances(s, end);
    }
}

/// A punctuation mark alone is one token of its kind, without text, at
/// line 1 and column 1.
pub proof fn lemma_punctuation_alone(c: char)
    requires
        punctuation(c) is Some,
    ensures
        scan_all(seq![c], 0) == (Pass {
            outcome: Ok(
                seq![
                    TokenView { kind: punctuation(c)->Some_0, value: None, line: 1, column: 1 },
                ],
            ),
            next: 1,
        }),
{
    let s = seq![c];
    assert(scan_from(s, 0).outcome == Ok::<Option<TokenView>, TokenErrorView>(
        Some(token_at(s, 0, punctuation(c)->Some_0, None)),
    ));
    assert(scan_all(s, 1) == Pass { outcome: Ok(Seq::empty()), next: 1 });
    assert(seq![token_at(s, 0, punctuation(c)->Some_0, None)] + Seq::<TokenView>::empty()
        =~= seq![token_at(s, 0, punctuation(c)->Some_0, None)]);
}

} // verus!
