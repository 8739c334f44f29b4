//! What the renderer must show for each alignment entry. The terminal host
//! only maps each style to a colour: a shared position with equal
//! characters is correct, a mismatch or a character typed beyond the
//! target is a mistake (showing the target character where one exists),
//! and a target character not yet reached is pending.

use vstd::prelude::*;

use crate::types::{AlignmentTag, WordMatch};

verus! {

/// How one rendered character is to be styled.
#[derive(Clone, Copy, PartialEq, Eq, Debug)]
pub enum CharStyle {
    Correct,
    Mistake,
    Pending,
}

/// One character of the rendered line: what to print and in which style.
#[derive(Clone, Copy, PartialEq, Eq, Debug)]
pub struct StyledChar {
    pub symbol: char,
    pub style: CharStyle,
}

/// The character and style one alignment entry is rendered as.
pub open spec fn styled_char_spec(tag: AlignmentTag) -> StyledChar {
    match tag {
        AlignmentTag::Both(typed, expected) => (StyledChar {
            symbol: expected,
            style: if typed == expected {
                CharStyle::Correct
            } else {
                CharStyle::Mistake
            },
        }),
        AlignmentTag::OnlyLeft(typed) => (StyledChar { symbol: typed, style: CharStyle::Mistake }),
        AlignmentTag::OnlyRight(expected) => (StyledChar {
            symbol: expected,
            style: CharStyle::Pending,
        }),
    }
}

/// Styles one alignment entry for rendering.
pub fn styled_char(tag: AlignmentTag) -> (r: StyledChar)
    ensures
        r == styled_char_spec(tag),
{
    match tag {
        AlignmentTag::Both(typed, expected) => StyledChar {
            symbol: expected,
            style: if typed == expected {
                CharStyle::Correct
            } else {
                CharStyle::Mistake
            },
        },
        AlignmentTag::OnlyLeft(typed) => StyledChar { symbol: typed, style: CharStyle::Mistake },
        AlignmentTag::OnlyRight(expected) => StyledChar {
            symbol: expected,
            style: CharStyle::Pending,
        },
    }
}

/// Styles a whole word alignment, one entry per character position.
pub fn styled_word(word: &WordMatch) -> (r: Vec<StyledChar>)
    ensures
        r@.len() == word@.len(),
        forall|i: int| 0 <= i < word@.len() ==> r@[i] == styled_char_spec(word@[i]),
{
    let mut styled: Vec<StyledChar> = Vec::new();
    let mut i: usize = 0;
    while i < word.len()
        invariant
            i <= word@.len(),
            styled@.len() == i,
            forall|k: int| 0 <= k < i ==> styled@[k] == styled_char_spec(word@[k]),
        decreases word@.len() - i,
    {
        styled.push(styled_char(word[i]));
        i = i + 1;
    }
    styled
}

} // verus!
