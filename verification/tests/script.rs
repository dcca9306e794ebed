use riddle::script::{fold_to_ascii, FontError, Script};

/// A JHF record: id, vertex count, then the coordinate pairs.
fn record(pairs: &str) -> String {
    format!("{:5}{:3}{}", 1, pairs.chars().count() / 2, pairs)
}

fn font(extra_first: &str) -> String {
    let mut text = record(extra_first);
    text.push('\n');
    for _ in 1..96 {
        text.push_str(&record("JZ"));
        text.push_str("\r\n");
    }
    text
}

#[test]
fn reads_glyph_bounds_and_paths() {
    let s = Script::load(&font("IUQRRSST RTTUU")).unwrap();
    let g = s.glyph(' ');
    assert_eq!((g.left, g.right), (-9, 3));
    assert_eq!(g.polylines, vec![vec![(-1, 0), (0, 1), (1, 2)], vec![(2, 2), (3, 3)]]);
    assert_eq!(g.advance(), 12);
    let g = s.glyph('A');
    assert_eq!((g.left, g.right), (-8, 8));
    assert!(g.polylines.is_empty());
}

#[test]
fn single_point_paths_are_dropped() {
    let s = Script::load(&font("JZQR RRSST")).unwrap();
    assert_eq!(s.glyph(' ').polylines, vec![vec![(0, 1), (1, 2)]]);
}

#[test]
fn unknown_characters_use_the_question_mark() {
    let mut text = String::new();
    for i in 0..96 {
        let left = char::from(b'A' + (i % 26) as u8);
        text.push_str(&record(&format!("{left}Z")));
    }
    let s = Script::load(&text).unwrap();
    let q = s.glyph('?');
    assert_eq!(s.glyph('\u{e9}').left, q.left);
    assert_eq!(s.glyph('\n').left, q.left);
    assert_eq!(s.glyph('\u{7f}').left, ('A' as i32 + 95 % 26) - 'R' as i32);
    assert_eq!(q.left, ('A' as i32 + 31 % 26) - 'R' as i32);
}

#[test]
fn bad_count_is_reported() {
    let text = "    1 x3JZ".to_string();
    match Script::load(&text) {
        Err(FontError::BadCount { offset, count }) => {
            assert_eq!(offset, 0);
            assert_eq!(count, " x3");
        }
        other => panic!("unexpected {other:?}"),
    }
}

#[test]
fn truncated_record_is_reported() {
    match Script::load("    1  5JZ") {
        Err(FontError::Truncated { offset }) => assert_eq!(offset, 8),
        other => panic!("unexpected {other:?}"),
    }
}

#[test]
fn too_few_glyphs_are_reported() {
    let text = record("JZ").repeat(95);
    match Script::load(&text) {
        Err(FontError::TooFewGlyphs { found }) => assert_eq!(found, 95),
        other => panic!("unexpected {other:?}"),
    }
}

#[test]
fn count_accepts_padding_and_plus() {
    let mut text = String::from("    1 +1JZ");
    for _ in 1..96 {
        text.push_str("    1  1JZ");
    }
    assert!(Script::load(&text).is_ok());
}

#[test]
fn folds_accents_and_punctuation() {
    assert_eq!(fold_to_ascii("\u{c9}\u{e9}n caf\u{e9}\u{2026}"), "Een cafe...");
    assert_eq!(fold_to_ascii("Stra\u{df}e \u{201c}hi\u{201d} \u{2013} it\u{2019}s"), "Strasse \"hi\" - it's");
    assert_eq!(fold_to_ascii("\u{20ac}5 \u{f8}\u{c5}\u{f1}"), "?5 oAn");
    assert_eq!(fold_to_ascii("plain ASCII ~"), "plain ASCII ~");
}

#[test]
fn folding_twice_is_folding_once() {
    let once = fold_to_ascii("na\u{ef}ve \u{2014} \u{1f600}");
    assert_eq!(fold_to_ascii(&once), once);
    assert!(once.is_ascii());
}
