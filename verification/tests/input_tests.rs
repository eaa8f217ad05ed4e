use guessing_game::input::{
    matches_word, read_guess_line, read_menu_choice, read_play_again, trim, GuessLine,
};
use guessing_game::tier::DifficultyTier;

#[test]
fn trim_cuts_white_space_at_both_ends_only() {
    assert_eq!(trim("  42 \n"), "42");
    assert_eq!(trim("42"), "42");
    assert_eq!(trim("\t4 2\r\n"), "4 2");
    assert_eq!(trim(""), "");
    assert_eq!(trim(" \t\r\n"), "");
    assert_eq!(trim(" a"), "a");
    assert_eq!(trim("a "), "a");
    assert_eq!(trim("\u{a0}quit\u{3000}"), "quit");
    assert_eq!(trim(" é "), "é");
}

#[test]
fn trim_agrees_with_the_standard_trim() {
    let blanks = ['\u{9}', '\u{a}', '\u{b}', '\u{c}', '\u{d}', ' ', '\u{85}', '\u{a0}',
        '\u{1680}', '\u{2000}', '\u{2001}', '\u{2005}', '\u{200a}', '\u{2028}', '\u{2029}',
        '\u{202f}', '\u{205f}', '\u{3000}'];
    let others = ['\u{8}', '\u{e}', '\u{1f}', '\u{180e}', '\u{200b}', '\u{200c}', '\u{2060}',
        '\u{feff}', 'x', '0', '\u{84}', '\u{86}', '\u{1fff}', '\u{200f}'];
    for c in blanks {
        assert!(c.is_whitespace());
        let text = format!("{}{}a{}b{}{}", c, c, c, c, c);
        assert_eq!(trim(&text), text.trim());
        assert_eq!(trim(&text).chars().count(), 3);
        assert_eq!(trim(&c.to_string()), "");
    }
    for c in others {
        assert!(!c.is_whitespace());
        let text = format!(" {}a{} ", c, c);
        assert_eq!(trim(&text), text.trim());
        assert_eq!(trim(&text).chars().count(), 3);
    }
    for code in 0..0x3100u32 {
        if let Some(c) = char::from_u32(code) {
            let text = format!("{}y{}", c, c);
            assert_eq!(trim(&text), text.trim(), "{:x}", code);
        }
    }
}

#[test]
fn words_match_in_capital_and_small_letters() {
    assert!(matches_word("quit", "quit"));
    assert!(matches_word("QUIT", "quit"));
    assert!(matches_word("QuIt", "quit"));
    assert!(matches_word("", ""));
    assert!(!matches_word("quit ", "quit"));
    assert!(!matches_word("qui", "quit"));
    assert!(!matches_word("quits", "quit"));
    assert!(!matches_word("quix", "quit"));
    assert!(!matches_word("", "q"));
    assert!(!matches_word("Q\u{16b}it", "quit"));
    assert!(!matches_word("[", "{"));
    assert!(!matches_word("@", "`"));
}

#[test]
fn quit_words_end_the_game() {
    for line in ["q", "Q", "quit", "QUIT", "Quit", " q\n", "\tquit\r\n", "  QuIt  "] {
        assert!(matches!(read_guess_line(line), GuessLine::Quit), "{:?}", line);
        assert!(matches!(line.trim().to_lowercase().as_str(), "q" | "quit"));
    }
}

#[test]
fn other_lines_are_guesses_with_white_space_cut_off() {
    for (line, text) in [("42\n", "42"), ("  7 ", "7"), ("qu", "qu"), ("quit now", "quit now"),
        ("", ""), ("\n", ""), ("q1", "q1"), ("exit", "exit"), (" qq ", "qq")]
    {
        match read_guess_line(line) {
            GuessLine::Guess(inner) => assert_eq!(inner, text),
            GuessLine::Quit => panic!("{:?} is no quit word", line),
        }
    }
}

#[test]
fn play_again_takes_yes_and_no() {
    for line in ["y", "Y", "yes", "YES", "Yes\n", "  y  "] {
        assert_eq!(read_play_again(line), Some(true), "{:?}", line);
    }
    for line in ["n", "N", "no", "NO", "No\n", "  n  "] {
        assert_eq!(read_play_again(line), Some(false), "{:?}", line);
    }
    for line in ["", "\n", "ye", "yess", "nope", "maybe", "1", "y n", "yes!"] {
        assert_eq!(read_play_again(line), None, "{:?}", line);
    }
}

#[test]
fn menu_choice_takes_one_two_three() {
    assert_eq!(read_menu_choice("1\n"), Some(DifficultyTier::Easy));
    assert_eq!(read_menu_choice(" 2 "), Some(DifficultyTier::Medium));
    assert_eq!(read_menu_choice("3"), Some(DifficultyTier::Hard));
    assert_eq!(read_menu_choice("+1"), Some(DifficultyTier::Easy));
    assert_eq!(read_menu_choice("03"), Some(DifficultyTier::Hard));
    assert_eq!(read_menu_choice("+2"), Some(DifficultyTier::Medium));
    for line in ["", "\n", "0", "-0", "4", "50", "100", "easy", "1 2", "-1", "-2", "1.0",
        "4294967297", "99999999999999999999", "+", "-"]
    {
        assert_eq!(read_menu_choice(line), None, "{:?}", line);
    }
}
