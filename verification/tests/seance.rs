use riddle::seance::{tidy_reply, truncate_words};

#[test]
fn tidy_collapses_white_space() {
    assert_eq!(tidy_reply("  One.\n\nTwo \t three  "), "One. Two three");
    assert_eq!(tidy_reply("\u{3000}wide\u{a0}space\u{2028}"), "wide space");
    assert_eq!(tidy_reply(" \n\t "), "");
    assert_eq!(tidy_reply("single"), "single");
}

#[test]
fn tidy_is_stable() {
    let once = tidy_reply("a  b\n c ");
    assert_eq!(tidy_reply(&once), once);
}

#[test]
fn short_text_is_kept_whole() {
    assert_eq!(truncate_words("I remember.", 240), "I remember.");
    assert_eq!(truncate_words("exactly ten", 11), "exactly ten");
}

#[test]
fn long_text_is_cut_at_a_word() {
    assert_eq!(truncate_words("one two three four", 12), "one two...");
    assert_eq!(truncate_words("one two three four", 11), "one two...");
    assert_eq!(truncate_words("one two three four", 10), "one two...");
    assert_eq!(truncate_words("one two three four", 9), "one...");
    assert_eq!(truncate_words("supercalifragilistic", 10), "...");
}

#[test]
fn cut_counts_bytes_not_characters() {
    let text = "\u{e9}\u{e9}\u{e9} \u{e9}\u{e9}\u{e9} \u{e9}\u{e9}\u{e9}";
    assert_eq!(text.chars().count(), 11);
    assert_eq!(truncate_words(text, 12), "\u{e9}\u{e9}\u{e9}...");
}

#[test]
fn cut_never_exceeds_budget() {
    let text = "The diary remembers every word that was ever written in it, and it answers in kind. ".repeat(8);
    for max in 3..300 {
        let out = truncate_words(&text, max);
        assert!(out.len() <= max, "max {max}: {out}");
    }
}
