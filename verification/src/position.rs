use vstd::prelude::*;

verus! {

/// Number of line breaks among the first `p` characters of `s`.
pub open spec fn newlines_before(s: Seq<char>, p: int) -> nat
    decreases p,
{
    if p <= 0 {
        0
    } else if s[p - 1] == '\n' {
        newlines_before(s, p - 1) + 1
    } else {
        newlines_before(s, p - 1)
    }
}

/// Offset at which the line holding offset `p` begins: just after the last
/// line break before `p`, or 0 where there is none.
pub open spec fn line_start(s: Seq<char>, p: int) -> int
    decreases p,
{
    if p <= 0 {
        0
    } else if s[p - 1] == '\n' {
        p
    } else {
        line_start(s, p - 1)
    }
}

/// The 1-based line of offset `p` in `s`.
pub open spec fn line_at(s: Seq<char>, p: int) -> nat {
    newlines_before(s, p) + 1
}

/// The 1-based column of offset `p` in `s`.
pub open spec fn column_at(s: Seq<char>, p: int) -> nat {
    (p - line_start(s, p) + 1) as nat
}

/// A line never starts after the offset it holds, and no more line breaks
/// lie before an offset than characters.
pub proof fn lemma_position_bounds(s: Seq<char>, p: int)
    requires
        0 <= p,
    ensures
        0 <= line_start(s, p) <= p,
        newlines_before(s, p) <= p,
        1 <= line_at(s, p) <= p + 1,
        1 <= column_at(s, p) <= p + 1,
    decreases p,
{
    if p > 0 {
        lemma_position_bounds(s, p - 1);
    }
}

/// Stepping over one character: a line break starts the next line at
/// column 1, any other character moves one column to the right.
pub proof fn lemma_position_step(s: Seq<char>, p: int)
    requires
        0 <= p,
    ensures
        s[p] == '\n' ==> line_at(s, p + 1) == line_at(s, p) + 1 && column_at(s, p + 1) == 1,
        s[p] != '\n' ==> line_at(s, p + 1) == line_at(s, p) && column_at(s, p + 1) == column_at(
            s,
            p,
        ) + 1,
{
    lemma_position_bounds(s, p);
}

} // verus!
