use typing_match::splitter::{get_current_game_status, zip_input_target_word};
use typing_match::types::{AlignmentTag, KeyEventSource, KeySymbol, WordGameStatus};

fn character(c: char, timestamp: u64) -> KeyEventSource {
    KeyEventSource {
        key: KeySymbol::Character(c),
        timestamp,
    }
}

fn typed(text: &str) -> Vec<KeyEventSource> {
    text.chars()
        .enumerate()
        .map(|(i, c)| character(c, i as u64))
        .collect()
}

#[test]
fn game_with_0_words_completed() {
    let expected = WordGameStatus(
        vec![],
        vec![
            AlignmentTag::OnlyRight('h'),
            AlignmentTag::OnlyRight('e'),
            AlignmentTag::OnlyRight('l'),
            AlignmentTag::OnlyRight('l'),
            AlignmentTag::OnlyRight('o'),
        ],
        Some("world".to_string()),
    );

    let result = get_current_game_status(&vec![], "hello world");

    assert_eq!(result.unwrap(), expected);
}

#[test]
fn game_in_last_word() {
    let word_1 = vec![
        AlignmentTag::Both('h', 'h'),
        AlignmentTag::Both('e', 'e'),
        AlignmentTag::Both('l', 'l'),
        AlignmentTag::Both('l', 'l'),
        AlignmentTag::Both('o', 'o'),
    ];
    let word_2 = vec![
        AlignmentTag::Both('w', 'w'),
        AlignmentTag::Both('o', 'o'),
        AlignmentTag::Both('r', 'r'),
        AlignmentTag::Both('l', 'l'),
        AlignmentTag::Both('d', 'd'),
    ];
    let timestamp = 0;
    let events = vec![
        KeyEventSource {
            key: KeySymbol::Character('h'),
            timestamp,
        },
        KeyEventSource {
            key: KeySymbol::Character('e'),
            timestamp,
        },
        KeyEventSource {
            key: KeySymbol::Character('l'),
            timestamp,
        },
        KeyEventSource {
            key: KeySymbol::Character('l'),
            timestamp,
        },
        KeyEventSource {
            key: KeySymbol::Character('o'),
            timestamp,
        },
        KeyEventSource {
            key: KeySymbol::Character(' '),
            timestamp,
        },
        KeyEventSource {
            key: KeySymbol::Character('w'),
            timestamp,
        },
        KeyEventSource {
            key: KeySymbol::Character('o'),
            timestamp,
        },
        KeyEventSource {
            key: KeySymbol::Character('r'),
            timestamp,
        },
        KeyEventSource {
            key: KeySymbol::Character('l'),
            timestamp,
        },
        KeyEventSource {
            key: KeySymbol::Character('d'),
            timestamp,
        },
    ];
    let expected = WordGameStatus(vec![word_1], word_2, None);

    let result = get_current_game_status(&events, "hello world");

    assert_eq!(result.unwrap(), expected);
}

#[test]
fn game_finished() {
    let result = get_current_game_status(
        &vec![KeyEventSource {
            key: KeySymbol::Character(' '),
            timestamp: 0,
        }],
        "",
    );

    assert!(result.is_err());
}

#[test]
fn right_match_words() {
    let word = "hw";

    let result = zip_input_target_word(word, word);

    assert_eq!(
        result,
        vec![
            AlignmentTag::Both('h', 'h'),
            AlignmentTag::Both('w', 'w'),
        ]
    )
}

#[test]
fn input_is_larger() {
    let input_word = "hw";
    let target_word = "h";

    let result = zip_input_target_word(input_word, target_word);

    assert_eq!(
        result,
        vec![AlignmentTag::Both('h', 'h'), AlignmentTag::OnlyLeft('w')]
    );
}

#[test]
fn target_is_larger() {
    let input_word = "h";
    let target_word = "hw";

    let result = zip_input_target_word(input_word, target_word);

    assert_eq!(
        result,
        vec![AlignmentTag::Both('h', 'h'), AlignmentTag::OnlyRight('w')]
    );
}

#[test]
fn alignment_length_is_the_longer_word() {
    let cases = [("", "", 0), ("abc", "a", 3), ("a", "abc", 3), ("ab", "ab", 2)];
    for (input, target, expected_len) in cases {
        let result = zip_input_target_word(input, target);
        assert_eq!(result.len(), expected_len);
    }
}

#[test]
fn alignment_both_entries_cover_the_shared_positions() {
    let cases = [("", "", 0), ("abc", "a", 1), ("a", "abc", 1), ("ab", "xy", 2)];
    for (input, target, expected_both) in cases {
        let result = zip_input_target_word(input, target);
        let both = result
            .iter()
            .filter(|tag| matches!(tag, AlignmentTag::Both(_, _)))
            .count();
        assert_eq!(both, expected_both);
    }
}

#[test]
fn completed_words_are_one_fewer_than_typed_words() {
    let events = typed("ab c");

    let WordGameStatus(completed, current, remaining) =
        get_current_game_status(&events, "ab cd ef").unwrap();

    assert_eq!(completed.len(), 1);
    assert_eq!(
        current,
        vec![AlignmentTag::Both('c', 'c'), AlignmentTag::OnlyRight('d')]
    );
    assert_eq!(remaining, Some("ef".to_string()));
}

#[test]
fn one_token_too_many_always_overflows() {
    let result = get_current_game_status(&typed("a b c"), "x y");

    assert!(result.is_err());
}

#[test]
fn empty_target_and_no_events_is_not_overflow() {
    let expected = WordGameStatus(vec![], vec![], None);

    let result = get_current_game_status(&vec![], "");

    assert_eq!(result.unwrap(), expected);
}
