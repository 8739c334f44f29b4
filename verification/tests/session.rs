use typing_match::render::{styled_char, styled_word, CharStyle, StyledChar};
use typing_match::session::{session_step, word_fully_matched, FinishReason, SessionState};
use typing_match::splitter::get_current_game_status;
use typing_match::types::{AlignmentTag, KeyEventSource, KeySymbol, WordGameStatus};

fn character(c: char, timestamp: u64) -> KeyEventSource {
    KeyEventSource {
        key: KeySymbol::Character(c),
        timestamp,
    }
}

#[test]
fn escape_ends_the_round_without_recording() {
    let mut events = vec![character('h', 0)];

    let state = session_step(
        &mut events,
        "hello",
        KeyEventSource {
            key: KeySymbol::Escape,
            timestamp: 1,
        },
    );

    assert_eq!(state, SessionState::Finished(FinishReason::UserExit));
    assert_eq!(events.len(), 1);
}

#[test]
fn typing_the_whole_target_completes_the_round() {
    let target = "hello world";
    let mut events = Vec::new();
    let mut state = SessionState::Playing;
    for (i, c) in "hello world".chars().enumerate() {
        state = session_step(&mut events, target, character(c, i as u64));
    }

    assert_eq!(state, SessionState::Finished(FinishReason::Completed));

    let WordGameStatus(completed, current, remaining) =
        get_current_game_status(&events, target).unwrap();
    assert_eq!(
        completed,
        vec![vec![
            AlignmentTag::Both('h', 'h'),
            AlignmentTag::Both('e', 'e'),
            AlignmentTag::Both('l', 'l'),
            AlignmentTag::Both('l', 'l'),
            AlignmentTag::Both('o', 'o'),
        ]]
    );
    assert!(word_fully_matched(&current));
    assert_eq!(current.len(), "world".len());
    assert_eq!(remaining, None);
}

#[test]
fn typing_past_the_target_overflows() {
    let target = "hi";
    let mut events = Vec::new();
    let mut state = SessionState::Playing;
    for (i, c) in "hi ".chars().enumerate() {
        state = session_step(&mut events, target, character(c, i as u64));
        // the trailing space starts a second word against a one-word target
    }

    assert_eq!(state, SessionState::Finished(FinishReason::Overflow));
}

#[test]
fn an_unfinished_last_word_keeps_playing() {
    let mut events = Vec::new();

    let state = session_step(&mut events, "hi", character('h', 0));

    assert_eq!(state, SessionState::Playing);
    assert_eq!(events.len(), 1);
}

#[test]
fn an_untouched_target_suffix_keeps_playing() {
    let mut events = Vec::new();
    let mut state = SessionState::Playing;
    for (i, c) in "hello".chars().enumerate() {
        state = session_step(&mut events, "hello world", character(c, i as u64));
    }

    assert_eq!(state, SessionState::Playing);
}

#[test]
fn backspace_after_wrong_character_is_replayed() {
    let mut events = Vec::new();
    session_step(&mut events, "hello", character('h', 0));
    session_step(&mut events, "hello", character('w', 1));
    session_step(
        &mut events,
        "hello",
        KeyEventSource {
            key: KeySymbol::Backspace,
            timestamp: 2,
        },
    );

    let result = typing_match::sentences::build_sentence(&events);

    assert_eq!(result.as_str(), "h");
}

#[test]
fn fully_matched_words_are_recognised() {
    assert!(word_fully_matched(&vec![
        AlignmentTag::Both('a', 'a'),
        AlignmentTag::Both('b', 'x'),
    ]));
    assert!(!word_fully_matched(&vec![
        AlignmentTag::Both('a', 'a'),
        AlignmentTag::OnlyRight('b'),
    ]));
    assert!(!word_fully_matched(&vec![AlignmentTag::OnlyLeft('a')]));
    assert!(word_fully_matched(&vec![]));
}

#[test]
fn matching_characters_render_correct() {
    assert_eq!(
        styled_char(AlignmentTag::Both('a', 'a')),
        StyledChar {
            symbol: 'a',
            style: CharStyle::Correct,
        }
    );
}

#[test]
fn mismatched_characters_render_the_target_as_mistake() {
    assert_eq!(
        styled_char(AlignmentTag::Both('a', 'b')),
        StyledChar {
            symbol: 'b',
            style: CharStyle::Mistake,
        }
    );
}

#[test]
fn overtyped_characters_render_the_typed_as_mistake() {
    assert_eq!(
        styled_char(AlignmentTag::OnlyLeft('x')),
        StyledChar {
            symbol: 'x',
            style: CharStyle::Mistake,
        }
    );
}

#[test]
fn untyped_characters_render_the_target_as_pending() {
    assert_eq!(
        styled_char(AlignmentTag::OnlyRight('y')),
        StyledChar {
            symbol: 'y',
            style: CharStyle::Pending,
        }
    );
}

#[test]
fn a_whole_word_is_styled_position_by_position() {
    let word = vec![
        AlignmentTag::Both('h', 'h'),
        AlignmentTag::Both('a', 'e'),
        AlignmentTag::OnlyRight('y'),
    ];

    let styled = styled_word(&word);

    assert_eq!(
        styled,
        vec![
            StyledChar {
                symbol: 'h',
                style: CharStyle::Correct,
            },
            StyledChar {
                symbol: 'e',
                style: CharStyle::Mistake,
            },
            StyledChar {
                symbol: 'y',
                style: CharStyle::Pending,
            },
        ]
    );
}
