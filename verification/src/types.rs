//! Data carried between the terminal host and the engine: key events, the
//! per-character alignment of typed text against the target, and the
//! progress snapshot recomputed on every tick.

use vstd::prelude::*;

verus! {

/// The key symbols the engine distinguishes. Anything that is neither a
/// printable character, a backspace nor an escape is `Other` and has no
/// effect on the reconstructed sentence.
#[derive(Clone, Copy, PartialEq, Eq, Debug)]
pub enum KeySymbol {
    Character(char),
    Backspace,
    Escape,
    Other,
}

/// One key press as the terminal host reports it: the symbol pressed and a
/// monotonic capture timestamp. Events are appended to a log and never
/// mutated; a backspace is a new event, not the removal of an old one.
#[derive(Clone, Copy, PartialEq, Eq, Debug)]
pub struct KeyEventSource {
    pub key: KeySymbol,
    pub timestamp: u64,
}

/// One position of a word-against-word comparison: both words have a
/// character here, only the typed word does, or only the target does.
#[derive(Clone, Copy, PartialEq, Eq, Debug)]
pub enum AlignmentTag {
    Both(char, char),
    OnlyLeft(char),
    OnlyRight(char),
}

/// The character-by-character alignment of one typed word against one
/// target word, one entry per position of the longer word.
pub type WordMatch = Vec<AlignmentTag>;

/// A typed character paired with the target character expected at the same
/// position, either side absent when that word is the shorter one.
#[derive(PartialEq, Debug)]
pub struct InputTargetChar(pub Option<char>, pub Option<char>);

/// Progress snapshot: alignments of the target words already passed, the
/// alignment of the word currently being typed, and the not-yet-reached
/// suffix of the target phrase (space-joined), absent when nothing remains.
#[derive(PartialEq, Debug)]
pub struct WordGameStatus(pub Vec<WordMatch>, pub WordMatch, pub Option<String>);

/// End-of-round signal: the user has started more words than the target
/// phrase contains. The one failure the engine can report.
#[derive(Clone, Copy, PartialEq, Eq, Debug)]
pub struct GameFinished;

/// The sequence of per-word alignments a vector of word matches stands for.
pub open spec fn rows_view(rows: Seq<WordMatch>) -> Seq<Seq<AlignmentTag>> {
    rows.map_values(|w: WordMatch| w@)
}

} // verus!
