//! Splitting a sentence into words on single spaces, and joining words back
//! with single spaces. Splitting never yields an empty word list: there is
//! exactly one word more than there are spaces, so even the empty string
//! splits into one empty word.

use vstd::prelude::*;

verus! {

/// Relies on `String::push` of std: appends the given character to the end
/// of the string.
pub assume_specification[ String::push ](s: &mut String, ch: char)
    ensures
        final(s)@ == old(s)@.push(ch),
;

/// Relies on `String::pop` of std: removes the last character and returns
/// it, or returns `None` and changes nothing when the string is empty.
pub assume_specification[ String::pop ](s: &mut String) -> (r: Option<char>)
    ensures
        old(s)@.len() == 0 ==> r is None && final(s)@ == old(s)@,
        old(s)@.len() > 0 ==> r == Some(old(s)@.last()) && final(s)@ == old(s)@.drop_last(),
;

/// The words of `s`, split on every single space (no collapsing of runs of
/// spaces): each space closes the word before it and opens a new one.
pub open spec fn split_spec(s: Seq<char>) -> Seq<Seq<char>>
    decreases s.len(),
{
    if s.len() == 0 {
        seq![Seq::<char>::empty()]
    } else if s.last() == ' ' {
        split_spec(s.drop_last()).push(Seq::<char>::empty())
    } else {
        let rest = split_spec(s.drop_last());
        rest.update(rest.len() - 1, rest.last().push(s.last()))
    }
}

/// How many spaces `s` contains.
pub open spec fn count_spaces(s: Seq<char>) -> nat
    decreases s.len(),
{
    if s.len() == 0 {
        0
    } else {
        count_spaces(s.drop_last()) + (if s.last() == ' ' { 1nat } else { 0nat })
    }
}

/// `words` joined into one string with a single space between neighbours.
pub open spec fn join_spec(words: Seq<Seq<char>>) -> Seq<char>
    decreases words.len(),
{
    if words.len() == 0 {
        Seq::<char>::empty()
    } else if words.len() == 1 {
        words[0]
    } else {
        join_spec(words.drop_last()) + seq![' '] + words.last()
    }
}

/// Splitting yields exactly one word more than there are spaces.
pub proof fn lemma_word_count(s: Seq<char>)
    ensures
        split_spec(s).len() == count_spaces(s) + 1,
    decreases s.len(),
{
    if s.len() == 0 {
    } else {
        lemma_word_count(s.drop_last());
    }
}

/// Splitting any string yields at least one word.
pub proof fn lemma_split_never_empty(s: Seq<char>)
    ensures
        split_spec(s).len() >= 1,
{
    lemma_word_count(s);
}

/// Splits a sentence into its words on every single space.
pub fn split_on_space(s: &str) -> (r: Vec<String>)
    ensures
        r@.map_values(|w: String| w@) == split_spec(s@),
{
    let n: usize = s.unicode_len();
    let mut words: Vec<String> = Vec::new();
    let mut current: String = String::new();
    let mut i: usize = 0;
    while i < n
        invariant
            n == s@.len(),
            i <= n,
            split_spec(s@.take(i as int)) == words@.map_values(|w: String| w@).push(current@),
        decreases n - i,
    {
        let c = s.get_char(i);
        proof {
            assert(s@.take(i + 1).drop_last() =~= s@.take(i as int));
            assert(s@.take(i + 1).last() == s@[i as int]);
        }
        if c == ' ' {
            let ghost prev_mapped = words@.map_values(|w: String| w@);
            let ghost prev_current = current@;
            words.push(current);
            current = String::new();
            proof {
                assert(words@.map_values(|w: String| w@) =~= prev_mapped.push(prev_current));
                assert(split_spec(s@.take(i + 1)) =~~= words@.map_values(
                    |w: String| w@,
                ).push(current@));
            }
        } else {
            let ghost prev_mapped = words@.map_values(|w: String| w@);
            let ghost prev_current = current@;
            current.push(c);
            proof {
                let rest = split_spec(s@.take(i as int));
                assert(rest == prev_mapped.push(prev_current));
                assert(rest.len() - 1 == prev_mapped.len());
                assert(rest.last() == prev_current);
                assert(rest.update(rest.len() - 1, rest.last().push(c)) =~~= prev_mapped.push(
                    prev_current.push(c),
                ));
                assert(split_spec(s@.take(i + 1)) =~~= words@.map_values(
                    |w: String| w@,
                ).push(current@));
            }
        }
        i = i + 1;
    }
    proof {
        assert(s@.take(n as int) =~= s@);
    }
    let ghost prev_mapped = words@.map_values(|w: String| w@);
    words.push(current);
    proof {
        assert(words@.map_values(|w: String| w@) =~~= split_spec(s@));
    }
    words
}

/// Joins `words[from..]` with a single space between neighbours.
pub fn join_with_space(words: &Vec<String>, from: usize) -> (r: String)
    requires
        from <= words@.len(),
    ensures
        r@ == join_spec(words@.map_values(|w: String| w@).skip(from as int)),
{
    let ghost mapped = words@.map_values(|w: String| w@);
    let mut joined: String = String::new();
    let mut j: usize = from;
    while j < words.len()
        invariant
            from <= j <= words@.len(),
            mapped == words@.map_values(|w: String| w@),
            joined@ == join_spec(mapped.subrange(from as int, j as int)),
        decreases words@.len() - j,
    {
        proof {
            assert(mapped.subrange(from as int, j + 1).drop_last() =~= mapped.subrange(
                from as int,
                j as int,
            ));
            assert(mapped.subrange(from as int, j + 1).last() == mapped[j as int]);
        }
        if j > from {
            joined.push(' ');
            proof {
                assert(joined@ == join_spec(mapped.subrange(from as int, j as int)).push(' '));
                assert(join_spec(mapped.subrange(from as int, j as int)).push(' ') =~= join_spec(
                    mapped.subrange(from as int, j as int),
                ) + seq![' ']);
            }
        }
        joined.append(words[j].as_str());
        proof {
            if j == from {
                assert(mapped.subrange(from as int, j + 1) =~= seq![mapped[j as int]]);
                assert(joined@ =~= mapped[j as int]);
            }
        }
        j = j + 1;
    }
    proof {
        assert(mapped.subrange(from as int, words@.len() as int) =~= mapped.skip(from as int));
    }
    joined
}

} // verus!
