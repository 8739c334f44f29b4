//! Rebuilding the user's sentence from the key-event log. The log is folded
//! left to right: characters append (runs of spaces collapse to one),
//! backspace removes the last character and is a no-op on an empty
//! sentence, everything else is ignored. The fold is total and depends on
//! nothing but the log, so replaying it is deterministic.

use vstd::prelude::*;

use crate::types::{KeyEventSource, KeySymbol};

verus! {

/// One fold step: the sentence after `key` arrives on top of `acc`.
pub open spec fn step_sentence(acc: Seq<char>, key: KeySymbol) -> Seq<char> {
    match key {
        KeySymbol::Character(c) => {
            if c == ' ' {
                if acc.len() > 0 && acc.last() == ' ' {
                    acc
                } else {
                    acc.push(' ')
                }
            } else {
                acc.push(c)
            }
        },
        KeySymbol::Backspace => {
            if acc.len() == 0 {
                acc
            } else {
                acc.drop_last()
            }
        },
        KeySymbol::Escape => acc,
        KeySymbol::Other => acc,
    }
}

/// The sentence after folding every event of `events`, in order, onto `acc`.
pub open spec fn replay_onto(acc: Seq<char>, events: Seq<KeyEventSource>) -> Seq<char>
    decreases events.len(),
{
    if events.len() == 0 {
        acc
    } else {
        replay_onto(step_sentence(acc, events[0].key), events.drop_first())
    }
}

/// The sentence the whole event log stands for.
pub open spec fn build_sentence_spec(events: Seq<KeyEventSource>) -> Seq<char> {
    replay_onto(Seq::<char>::empty(), events)
}

/// Folds one key event onto the sentence accumulated so far.
pub fn sentence_reducer(acc: String, new_event: &KeyEventSource) -> (r: String)
    ensures
        r@ == step_sentence(acc@, new_event.key),
{
    match new_event.key {
        KeySymbol::Character(c) => {
            if c == ' ' {
                let n: usize = acc.unicode_len();
                if n > 0 && acc.as_str().get_char(n - 1) == ' ' {
                    acc
                } else {
                    let mut extended = acc;
                    extended.push(' ');
                    extended
                }
            } else {
                let mut extended = acc;
                extended.push(c);
                extended
            }
        },
        KeySymbol::Backspace => {
            let mut shortened = acc;
            let _ = shortened.pop();
            shortened
        },
        _ => acc,
    }
}

/// Rebuilds the current sentence from the full event log.
pub fn build_sentence(key_events: &Vec<KeyEventSource>) -> (r: String)
    ensures
        r@ == build_sentence_spec(key_events@),
{
    let mut sentence: String = String::new();
    let mut i: usize = 0;
    proof {
        assert(key_events@.skip(0) =~= key_events@);
    }
    while i < key_events.len()
        invariant
            i <= key_events@.len(),
            replay_onto(sentence@, key_events@.skip(i as int)) == build_sentence_spec(
                key_events@,
            ),
        decreases key_events@.len() - i,
    {
        proof {
            assert(key_events@.skip(i as int)[0] == key_events@[i as int]);
            assert(key_events@.skip(i as int).drop_first() =~= key_events@.skip(i + 1));
        }
        sentence = sentence_reducer(sentence, &key_events[i]);
        i = i + 1;
    }
    proof {
        assert(key_events@.skip(key_events@.len() as int) =~= Seq::<KeyEventSource>::empty());
    }
    sentence
}

/// Whether the rebuilt sentence equals the target sentence, character for
/// character.
pub fn verify_sentence_input(input_sentence: &str, target_sentence: &str) -> (r: bool)
    ensures
        r == (input_sentence@ == target_sentence@),
{
    let n: usize = input_sentence.unicode_len();
    let m: usize = target_sentence.unicode_len();
    if n != m {
        return false;
    }
    let mut i: usize = 0;
    while i < n
        invariant
            i <= n,
            n == input_sentence@.len(),
            n == target_sentence@.len(),
            forall|k: int| 0 <= k < i ==> input_sentence@[k] == target_sentence@[k],
        decreases n - i,
    {
        if input_sentence.get_char(i) != target_sentence.get_char(i) {
            return false;
        }
        i = i + 1;
    }
    proof {
        assert(input_sentence@ =~= target_sentence@);
    }
    true
}

/// Replaying a fixed event log is deterministic: any two sentences rebuilt
/// from the same log are equal.
pub proof fn lemma_replay_deterministic(
    events: Seq<KeyEventSource>,
    first: Seq<char>,
    second: Seq<char>,
)
    requires
        first == build_sentence_spec(events),
        second == build_sentence_spec(events),
    ensures
        first == second,
{
}

proof fn lemma_backspaces_keep_empty(acc: Seq<char>, events: Seq<KeyEventSource>)
    requires
        acc.len() == 0,
        forall|k: int| 0 <= k < events.len() ==> events[k].key is Backspace,
    ensures
        replay_onto(acc, events).len() == 0,
    decreases events.len(),
{
    if events.len() > 0 {
        assert(events[0].key is Backspace);
        assert(step_sentence(acc, events[0].key) == acc);
        assert(forall|k: int|
            0 <= k < events.drop_first().len() ==> events.drop_first()[k].key is Backspace);
        lemma_backspaces_keep_empty(acc, events.drop_first());
    }
}

/// Backspace never underflows: a log of nothing but backspaces rebuilds to
/// the empty sentence, however long the log is.
pub proof fn lemma_backspace_never_underflows(events: Seq<KeyEventSource>)
    requires
        forall|k: int| 0 <= k < events.len() ==> events[k].key is Backspace,
    ensures
        build_sentence_spec(events).len() == 0,
{
    lemma_backspaces_keep_empty(Seq::<char>::empty(), events);
}

proof fn lemma_spaces_keep_trailing_space(acc: Seq<char>, events: Seq<KeyEventSource>)
    requires
        acc.len() > 0,
        acc.last() == ' ',
        forall|k: int| 0 <= k < events.len() ==> events[k].key == KeySymbol::Character(' '),
    ensures
        replay_onto(acc, events) == acc,
    decreases events.len(),
{
    if events.len() > 0 {
        assert(events[0].key == KeySymbol::Character(' '));
        assert(step_sentence(acc, events[0].key) == acc);
        assert(forall|k: int|
            0 <= k < events.drop_first().len() ==> events.drop_first()[k].key
                == KeySymbol::Character(' '));
        lemma_spaces_keep_trailing_space(acc, events.drop_first());
    }
}

/// Space collapsing: folding one or more consecutive space events onto any
/// sentence adds exactly one trailing space — none at all when the sentence
/// already ends with one.
pub proof fn lemma_space_collapsing(acc: Seq<char>, events: Seq<KeyEventSource>)
    requires
        events.len() >= 1,
        forall|k: int| 0 <= k < events.len() ==> events[k].key == KeySymbol::Character(' '),
    ensures
        replay_onto(acc, events) == (if acc.len() > 0 && acc.last() == ' ' {
            acc
        } else {
            acc.push(' ')
        }),
{
    assert(events[0].key == KeySymbol::Character(' '));
    let after = step_sentence(acc, events[0].key);
    assert(after.len() > 0 && after.last() == ' ');
    assert(forall|k: int|
        0 <= k < events.drop_first().len() ==> events.drop_first()[k].key
            == KeySymbol::Character(' '));
    lemma_spaces_keep_trailing_space(after, events.drop_first());
}

} // verus!
