//! The interaction state machine. Each tick the terminal host hands over
//! one key press; the engine either ends the round (escape pressed, the
//! typed words overflowed the target, or the last word was matched in
//! full) or appends the event and keeps playing. The host performs the
//! reads and draws; every decision is made here.

use vstd::prelude::*;

use crate::splitter::{
    aligned_rows, game_overflow, get_current_game_status, remaining_target_spec,
};
use crate::types::{AlignmentTag, KeyEventSource, KeySymbol, WordGameStatus, WordMatch};

verus! {

/// Why a round ended: the user pressed escape, typed more words than the
/// target has, or matched the whole target.
#[derive(Clone, Copy, PartialEq, Eq, Debug)]
pub enum FinishReason {
    UserExit,
    Overflow,
    Completed,
}

/// Where a round stands after a tick.
#[derive(Clone, Copy, PartialEq, Eq, Debug)]
pub enum SessionState {
    Playing,
    Finished(FinishReason),
}

/// Whether every position of an alignment is shared by both words: the
/// typed word has exactly the target word's length.
pub open spec fn word_fully_matched_spec(w: Seq<AlignmentTag>) -> bool {
    forall|i: int| 0 <= i < w.len() ==> w[i] is Both
}

/// Whether every entry of the alignment is a `Both` entry.
pub fn word_fully_matched(word: &WordMatch) -> (r: bool)
    ensures
        r == word_fully_matched_spec(word@),
{
    let mut i: usize = 0;
    while i < word.len()
        invariant
            i <= word@.len(),
            forall|k: int| 0 <= k < i ==> word@[k] is Both,
        decreases word@.len() - i,
    {
        match word[i] {
            AlignmentTag::Both(_, _) => {},
            _ => {
                return false;
            },
        }
        i = i + 1;
    }
    true
}

/// The state a round is in once `events` is the whole log: overflow ends
/// it, an unreached target suffix keeps it going, a fully matched last
/// word completes it, and otherwise it goes on.
pub open spec fn session_outcome(events: Seq<KeyEventSource>, target: Seq<char>) -> SessionState {
    if game_overflow(events, target) {
        SessionState::Finished(FinishReason::Overflow)
    } else if remaining_target_spec(events, target).len() > 0 {
        SessionState::Playing
    } else if word_fully_matched_spec(aligned_rows(events, target).last()) {
        SessionState::Finished(FinishReason::Completed)
    } else {
        SessionState::Playing
    }
}

/// One tick of the round: an escape press ends it at once and appends
/// nothing; any other press is appended to the log, and the recomputed
/// status decides whether the round goes on.
pub fn session_step(
    events: &mut Vec<KeyEventSource>,
    target_sentence: &str,
    event: KeyEventSource,
) -> (s: SessionState)
    ensures
        event.key is Escape ==> final(events)@ == old(events)@ && s == SessionState::Finished(
            FinishReason::UserExit,
        ),
        !(event.key is Escape) ==> final(events)@ == old(events)@.push(event) && s
            == session_outcome(final(events)@, target_sentence@),
{
    match event.key {
        KeySymbol::Escape => SessionState::Finished(FinishReason::UserExit),
        _ => {
            events.push(event);
            match get_current_game_status(events, target_sentence) {
                Err(_) => SessionState::Finished(FinishReason::Overflow),
                Ok(status) => {
                    let WordGameStatus(_, current_word, future_words) = status;
                    let has_remaining: bool = match &future_words {
                        Some(rest) => rest.unicode_len() > 0,
                        None => false,
                    };
                    if has_remaining {
                        SessionState::Playing
                    } else if word_fully_matched(&current_word) {
                        SessionState::Finished(FinishReason::Completed)
                    } else {
                        SessionState::Playing
                    }
                },
            }
        },
    }
}

} // verus!
