//! Strings as sequences of characters: building them, and joining tokens
//! into one line of text.

use vstd::prelude::*;

verus! {

/// `String::push` of the standard library appends the character to the end
/// of the string and leaves the characters before it as they were. This is
/// what its documentation says; it is assumed here, not proved.
pub assume_specification[ String::push ](text: &mut String, c: char)
    ensures
        final(text)@ == old(text)@.push(c),
;

/// The tokens written on one line, each separated from the next by a single
/// space.
pub open spec fn join_spaced(tokens: Seq<Seq<char>>) -> Seq<char>
    decreases tokens.len(),
{
    if tokens.len() == 0 {
        Seq::empty()
    } else if tokens.len() == 1 {
        tokens[0]
    } else {
        join_spaced(tokens.drop_last()) + seq![' '] + tokens.last()
    }
}

/// The pieces of a line between its spaces. A line without a space is one
/// piece; two spaces in a row enclose an empty piece.
pub open spec fn split_spaced(line: Seq<char>) -> Seq<Seq<char>>
    decreases line.len(),
{
    if line.len() == 0 {
        seq![Seq::empty()]
    } else {
        let pieces = split_spaced(line.drop_last());
        if line.last() == ' ' {
            pieces.push(Seq::empty())
        } else {
            pieces.drop_last().push(pieces.last().push(line.last()))
        }
    }
}

/// Makes the string that holds the single character `c`.
pub fn char_string(c: char) -> (text: String)
    ensures
        text@ == seq![c],
{
    let mut text = String::new();
    text.push(c);
    text
}

/// Writes the tokens on one line, separated by single spaces.
pub fn join_with_spaces(tokens: &Vec<String>) -> (line: String)
    ensures
        line@ == join_spaced(tokens.deep_view()),
{
    let mut line = String::new();
    let mut i: usize = 0;
    while i < tokens.len()
        invariant
            i <= tokens.len(),
            line@ == join_spaced(tokens.deep_view().take(i as int)),
        decreases tokens.len() - i,
    {
        let ghost before = tokens.deep_view().take(i as int);
        let ghost after = tokens.deep_view().take(i + 1);
        proof {
            assert(after.drop_last() == before);
        }
        if i > 0 {
            line.push(' ');
        }
        line.append(tokens[i].as_str());
        i = i + 1;
    }
    proof {
        assert(tokens.deep_view().take(i as int) == tokens.deep_view());
    }
    line
}

} // verus!
