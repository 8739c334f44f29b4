//! Aligning typed words against target words and assembling the progress
//! snapshot. A typed word and a target word are paired position by
//! position up to the longer length; the snapshot pairs every typed word
//! with its target word, keeps the last pair as the word in progress, and
//! carries the untouched suffix of the target phrase. The one failure is
//! overflow: more typed words than the target has.

use vstd::prelude::*;

use crate::sentences::{build_sentence, build_sentence_spec};
use crate::text::{
    count_spaces, join_spec, join_with_space, lemma_split_never_empty, lemma_word_count,
    split_on_space, split_spec,
};
use crate::types::{AlignmentTag, GameFinished, KeyEventSource, WordGameStatus, WordMatch, rows_view};

verus! {

/// The tag at position `i` of the alignment of typed word `a` against
/// target word `b`.
pub open spec fn align_at(a: Seq<char>, b: Seq<char>, i: int) -> AlignmentTag {
    if i < a.len() && i < b.len() {
        AlignmentTag::Both(a[i], b[i])
    } else if i < a.len() {
        AlignmentTag::OnlyLeft(a[i])
    } else {
        AlignmentTag::OnlyRight(b[i])
    }
}

/// The character-by-character alignment of typed word `a` against target
/// word `b`: `Both` where the words share a position, `OnlyLeft` where only
/// the typed word reaches, `OnlyRight` where only the target does.
pub open spec fn zip_words_spec(a: Seq<char>, b: Seq<char>) -> Seq<AlignmentTag> {
    Seq::new(
        if a.len() >= b.len() {
            a.len()
        } else {
            b.len()
        },
        |i: int| align_at(a, b, i),
    )
}

/// How many positions of an alignment both words share.
pub open spec fn count_both(w: Seq<AlignmentTag>) -> nat
    decreases w.len(),
{
    if w.len() == 0 {
        0
    } else {
        count_both(w.drop_last()) + (if w.last() is Both { 1nat } else { 0nat })
    }
}

proof fn lemma_count_both_prefix(w: Seq<AlignmentTag>, k: nat)
    requires
        k <= w.len(),
        forall|i: int| 0 <= i < w.len() ==> ((w[i] is Both) <==> i < k),
    ensures
        count_both(w) == k,
    decreases w.len(),
{
    if w.len() > 0 {
        let prev = w.drop_last();
        assert(forall|i: int| 0 <= i < prev.len() ==> prev[i] == w[i]);
        if k == w.len() {
            assert(w.last() is Both);
            lemma_count_both_prefix(prev, (k - 1) as nat);
        } else {
            assert(!(w.last() is Both));
            lemma_count_both_prefix(prev, k);
        }
    }
}

/// Alignment is total: the result covers exactly the longer word, and has a
/// `Both` entry for precisely the positions the two words share.
pub proof fn lemma_alignment_totality(a: Seq<char>, b: Seq<char>)
    ensures
        zip_words_spec(a, b).len() == (if a.len() >= b.len() {
            a.len()
        } else {
            b.len()
        }),
        count_both(zip_words_spec(a, b)) == (if a.len() <= b.len() {
            a.len()
        } else {
            b.len()
        }),
{
    let w = zip_words_spec(a, b);
    let k: nat = if a.len() <= b.len() {
        a.len()
    } else {
        b.len()
    };
    assert(forall|i: int| 0 <= i < w.len() ==> ((w[i] is Both) <==> i < k));
    lemma_count_both_prefix(w, k);
}

/// Aligns one typed word against one target word, position by position.
pub fn zip_input_target_word(input_word: &str, target_word: &str) -> (r: WordMatch)
    ensures
        r@ == zip_words_spec(input_word@, target_word@),
{
    let n: usize = input_word.unicode_len();
    let m: usize = target_word.unicode_len();
    let len: usize = if n >= m {
        n
    } else {
        m
    };
    let ghost full = zip_words_spec(input_word@, target_word@);
    let mut result: Vec<AlignmentTag> = Vec::new();
    let mut i: usize = 0;
    while i < len
        invariant
            i <= len,
            n == input_word@.len(),
            m == target_word@.len(),
            len == (if n >= m {
                n
            } else {
                m
            }),
            len == full.len(),
            full == zip_words_spec(input_word@, target_word@),
            result@ == full.take(i as int),
        decreases len - i,
    {
        let tag: AlignmentTag = if i < n && i < m {
            AlignmentTag::Both(input_word.get_char(i), target_word.get_char(i))
        } else if i < n {
            AlignmentTag::OnlyLeft(input_word.get_char(i))
        } else {
            proof {
                assert(i < m);
            }
            AlignmentTag::OnlyRight(target_word.get_char(i))
        };
        proof {
            assert(tag == full[i as int]);
        }
        result.push(tag);
        proof {
            assert(full.take(i + 1) =~= full.take(i as int).push(full[i as int]));
        }
        i = i + 1;
    }
    proof {
        assert(full.take(len as int) =~= full);
    }
    result
}

/// The words of the sentence the event log rebuilds to.
pub open spec fn input_words_spec(events: Seq<KeyEventSource>) -> Seq<Seq<char>> {
    split_spec(build_sentence_spec(events))
}

/// Overflow: the user has started more words than the target contains.
pub open spec fn game_overflow(events: Seq<KeyEventSource>, target: Seq<char>) -> bool {
    input_words_spec(events).len() > split_spec(target).len()
}

/// The alignment row at position `i`: typed word `i` against target word
/// `i`.
pub open spec fn row_at(iw: Seq<Seq<char>>, tw: Seq<Seq<char>>, i: int) -> Seq<AlignmentTag> {
    zip_words_spec(iw[i], tw[i])
}

/// One alignment row per word of `iw`, each against the word of `tw` at
/// the same position.
pub open spec fn aligned_rows_of(iw: Seq<Seq<char>>, tw: Seq<Seq<char>>) -> Seq<
    Seq<AlignmentTag>,
> {
    Seq::new(iw.len(), |i: int| row_at(iw, tw, i))
}

/// One alignment row per typed word, each against the target word at the
/// same position.
pub open spec fn aligned_rows(events: Seq<KeyEventSource>, target: Seq<char>) -> Seq<
    Seq<AlignmentTag>,
> {
    aligned_rows_of(input_words_spec(events), split_spec(target))
}

/// The not-yet-reached suffix of the target phrase, space-joined.
pub open spec fn remaining_target_spec(events: Seq<KeyEventSource>, target: Seq<char>) -> Seq<
    char,
> {
    join_spec(split_spec(target).skip(input_words_spec(events).len() as int))
}

/// Rebuilds the sentence from the event log and aligns it word by word
/// against the target phrase. Fails with `GameFinished` exactly when the
/// typed words outnumber the target words; otherwise the snapshot holds the
/// completed rows, the row of the word being typed, and the untouched
/// target suffix (absent when that suffix is empty).
pub fn get_current_game_status(events: &Vec<KeyEventSource>, target_sentence: &str) -> (r: Result<
    WordGameStatus,
    GameFinished,
>)
    ensures
        r is Err <==> game_overflow(events@, target_sentence@),
        r matches Ok(status) ==> ({
            &&& rows_view(status.0@) == aligned_rows(events@, target_sentence@).drop_last()
            &&& status.1@ == aligned_rows(events@, target_sentence@).last()
            &&& (status.2 is None <==> remaining_target_spec(events@, target_sentence@).len()
                == 0)
            &&& (status.2 matches Some(rest) ==> rest@ == remaining_target_spec(
                events@,
                target_sentence@,
            ))
        }),
{
    let input_sentence = build_sentence(events);
    let input_words = split_on_space(input_sentence.as_str());
    let target_words = split_on_space(target_sentence);
    let ghost iw = input_words_spec(events@);
    let ghost tw = split_spec(target_sentence@);
    proof {
        assert(input_words@.map_values(|w: String| w@) == iw);
        assert(target_words@.map_values(|w: String| w@) == tw);
        assert(input_words@.len() == iw.len());
        assert(target_words@.len() == tw.len());
    }
    if input_words.len() > target_words.len() {
        return Err(GameFinished);
    }
    proof {
        lemma_split_never_empty(build_sentence_spec(events@));
    }
    let ghost rows_spec = aligned_rows(events@, target_sentence@);
    let mut rows: Vec<WordMatch> = Vec::new();
    let mut i: usize = 0;
    while i < input_words.len()
        invariant
            i <= input_words@.len(),
            iw == input_words_spec(events@),
            tw == split_spec(target_sentence@),
            input_words@.len() == iw.len(),
            target_words@.len() == tw.len(),
            iw.len() <= tw.len(),
            input_words@.map_values(|w: String| w@) == iw,
            target_words@.map_values(|w: String| w@) == tw,
            rows_spec == aligned_rows(events@, target_sentence@),
            rows_spec.len() == iw.len(),
            rows_view(rows@) == rows_spec.take(i as int),
        decreases input_words@.len() - i,
    {
        let row = zip_input_target_word(input_words[i].as_str(), target_words[i].as_str());
        proof {
            assert(input_words@[i as int]@ == iw[i as int]);
            assert(target_words@[i as int]@ == tw[i as int]);
            assert(rows_spec[i as int] == row_at(iw, tw, i as int));
            assert(rows_spec[i as int] == zip_words_spec(iw[i as int], tw[i as int]));
            assert(row@ == rows_spec[i as int]);
        }
        let ghost prev_rows = rows@;
        rows.push(row);
        proof {
            assert(rows@ == prev_rows.push(row));
            assert(rows_view(prev_rows).len() == i);
            assert(prev_rows.len() == i);
            assert(rows@.len() == i + 1);
            assert forall|j: int| 0 <= j < rows@.len() implies rows_view(rows@)[j]
                == rows_spec.take(i + 1)[j] by {
                assert(rows_view(rows@)[j] == rows@[j]@);
                if j < i {
                    assert(rows@[j] == prev_rows[j]);
                    assert(rows_view(prev_rows)[j] == rows_spec.take(i as int)[j]);
                } else {
                    assert(rows@[j] == row);
                }
            }
            assert(rows_view(rows@) =~~= rows_spec.take(i + 1));
        }
        i = i + 1;
    }
    proof {
        assert(rows_spec.take(iw.len() as int) =~~= rows_spec);
        assert(rows@.len() == rows_view(rows@).len());
        assert(rows@.len() >= 1);
    }
    let ghost rows_before_pop = rows@;
    let current = rows.pop().unwrap();
    proof {
        assert(rows_view(rows@) =~~= rows_view(rows_before_pop).drop_last());
        assert(current@ == rows_view(rows_before_pop).last());
    }
    let remaining = join_with_space(&target_words, input_words.len());
    proof {
        assert(remaining@ == remaining_target_spec(events@, target_sentence@));
    }
    let remaining_opt: Option<String> = if remaining.unicode_len() == 0 {
        None
    } else {
        Some(remaining)
    };
    Ok(WordGameStatus(rows, current, remaining_opt))
}

/// Aggregator invariant: whenever the typed words do not outnumber the
/// target words, there is one alignment row per typed word — all but the
/// last stand for completed words, and the last, which always exists, for
/// the word being typed.
pub proof fn lemma_aggregator_invariant(events: Seq<KeyEventSource>, target: Seq<char>)
    requires
        !game_overflow(events, target),
    ensures
        input_words_spec(events).len() >= 1,
        aligned_rows(events, target).len() == input_words_spec(events).len(),
        aligned_rows(events, target).drop_last().len() == input_words_spec(events).len() - 1,
{
    lemma_split_never_empty(build_sentence_spec(events));
}

/// Overflow signal: a rebuilt sentence with more spaces than the target —
/// one more space-separated token than the target has words — always
/// overflows.
pub proof fn lemma_overflow_signal(events: Seq<KeyEventSource>, target: Seq<char>)
    requires
        count_spaces(build_sentence_spec(events)) > count_spaces(target),
    ensures
        game_overflow(events, target),
{
    lemma_word_count(build_sentence_spec(events));
    lemma_word_count(target);
}

} // verus!
