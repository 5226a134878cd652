use lrclib_core::text::{
    keep_visible, prepare_input, process_param, strip_marks, strip_timestamp,
};

#[test]
fn prepare_lowers_and_drops_punctuation() {
    assert_eq!(prepare_input("Don't Stop Believin'"), "dont stop believin");
    assert_eq!(prepare_input("AC/DC - Back_In.Black (Live)!"), "ac dc back in black live");
    assert_eq!(prepare_input(""), "");
}

#[test]
fn prepare_drops_diacritics() {
    assert_eq!(prepare_input("Beyonc\u{e9}"), "beyonce");
    assert_eq!(prepare_input("Sigur R\u{f3}s"), "sigur ros");
    assert_eq!(prepare_input("\u{c9}T\u{c9}"), "ete");
}

#[test]
fn prepare_lowers_what_has_no_plain_form() {
    assert_eq!(prepare_input("\u{10400}"), "\u{10428}");
    assert_eq!(prepare_input("\u{041f}\u{0420}"), "\u{043f}\u{0440}");
}

#[test]
fn prepare_drops_typographic_apostrophes() {
    assert_eq!(prepare_input("it\u{2019}s"), "its");
}

#[test]
fn prepare_collapses_white_space() {
    assert_eq!(prepare_input("  a \t b\nc\u{a0}\u{3000}d  "), "a b c d");
    assert_eq!(prepare_input("a\0b"), "a b");
}

#[test]
fn prepare_twice_is_prepare_once_on_plain_text() {
    let samples = ["Beyonc\u{e9}\u{2019}s: Fr\u{e8}re", "", "  ", "A--B", "'", "Hello, World!", "a'b c\\d[e]{f}", "\t\r\n", "0 1  2"];
    for sample in samples {
        let once = prepare_input(sample);
        assert_eq!(prepare_input(&once), once);
        assert!(!once.contains(':'));
        assert!(!once.contains('\''));
        assert!(!once.contains("  "));
        assert_eq!(once.trim(), once);
    }
}

#[test]
fn prepare_twice_can_differ_beyond_ascii() {
    assert_eq!(prepare_input("\u{246}"), "\u{247}");
    assert_eq!(prepare_input("\u{247}"), "e");
}

#[test]
fn prepare_ignores_case() {
    assert_eq!(prepare_input("HeLLo"), prepare_input("hEllO"));
}

#[test]
fn every_spacing_mark_becomes_a_space() {
    let marks = "`~!@#$%^&*()_|+-=?;:\",.<>{}[]\\/\0\n";
    assert_eq!(marks.len(), 33);
    for mark in marks.chars() {
        let text = format!("a{}b", mark);
        assert_eq!(strip_marks(&text), "a b");
    }
}

#[test]
fn strip_marks_keeps_the_rest() {
    assert_eq!(strip_marks("R\u{e9}'al:\u{2019}T "), "R\u{e9}al T ");
    assert_eq!(strip_marks("''"), "");
}

#[test]
fn keep_visible_drops_blank_text() {
    assert_eq!(keep_visible(String::new()), None);
    assert_eq!(keep_visible(" \t\u{2003}\u{85}".to_string()), None);
    assert_eq!(keep_visible(" x ".to_string()), Some(" x ".to_string()));
}

#[test]
fn params_are_prepared_or_dropped() {
    assert_eq!(process_param(None), None);
    assert_eq!(process_param(Some("")), None);
    assert_eq!(process_param(Some(" ...'' ")), None);
    assert_eq!(process_param(Some("The End?")), Some("the end".to_string()));
}

#[test]
fn timestamps_are_stripped() {
    assert_eq!(strip_timestamp("[00:17.12] I feel your whisper"), "I feel your whisper");
    assert_eq!(strip_timestamp("[00:17.12]I feel"), "I feel");
    assert_eq!(strip_timestamp("[00:17.12]"), "");
    assert_eq!(strip_timestamp("[]   x"), "x");
}

#[test]
fn stripping_takes_the_longest_tag_of_the_first_line() {
    assert_eq!(strip_timestamp("[a] b] c"), "c");
    assert_eq!(strip_timestamp("[a]\n[b] c"), "\n[b] c");
    assert_eq!(strip_timestamp("[a] x\n[b] c] d"), "x\n[b] c] d");
    assert_eq!(strip_timestamp("[a]\t x"), "\t x");
}

#[test]
fn untagged_lines_are_kept() {
    for line in ["", "plain", " [00:01] x", "[00:01", "x [a] y", "[a\n] b", "\n[a] b", "]["] {
        assert_eq!(strip_timestamp(line), line);
    }
}

#[test]
fn stripping_twice_is_stripping_once() {
    for line in ["[a] [b", "[a] b", "[a]\n[b] c", "[[a]] ]b", "", "[a]  "] {
        let once = strip_timestamp(line);
        assert_eq!(strip_timestamp(&once), once);
        assert!(line.ends_with(&once));
    }
}

#[test]
fn white_space_is_what_unicode_says() {
    for c in '\0'..=char::MAX {
        assert_eq!(keep_visible(c.to_string()).is_none(), c.is_whitespace());
    }
}

#[test]
fn collapsing_joins_words_with_single_spaces() {
    for text in ["", " a", "a ", " a  b ", "\u{2003}a\tb\u{85}\u{85}c", "a", "   "] {
        let words: Vec<&str> = text.split_whitespace().collect();
        assert_eq!(prepare_input(text), words.join(" "));
    }
}

#[test]
fn ascii_text_is_lowered_letter_by_letter() {
    for c in '\0'..='\u{7f}' {
        let kept = strip_marks(&c.to_string()) == c.to_string() && !c.is_whitespace();
        let expected = if kept { c.to_ascii_lowercase().to_string() } else { String::new() };
        assert_eq!(prepare_input(&c.to_string()), expected);
    }
}

#[test]
fn texts_that_differ_in_marks_only_are_prepared_alike() {
    let same = ["Rock 'n' Roll!", "rock  n-roll", "(ROCK) N. roll'", "\trock_n\u{2019}/roll\n"];
    for text in same {
        assert_eq!(prepare_input(text), "rock n roll");
    }
    assert_ne!(prepare_input("rockn roll"), "rock n roll");
}

#[test]
fn marks_make_no_difference_beyond_ascii_either() {
    let plain = prepare_input("\u{041a}\u{0438}\u{043d}\u{043e} \u{65e5}\u{672c}");
    assert_eq!(plain, "\u{043a}\u{0438}\u{043d}\u{043e} \u{65e5}\u{672c}");
    for mark in ["-", ":", "'\u{2019} ", ", "] {
        let text = format!("\u{041a}\u{0438}\u{2019}\u{043d}\u{043e}{}\u{65e5}\u{672c}'", mark);
        assert_eq!(prepare_input(&text), plain);
    }
}

#[test]
fn no_character_leaves_a_mark_behind() {
    let marks = "`~!@#$%^&*()_|+-=?;:\",.<>{}[]\\/\0\n'\u{2019}";
    let characters: Vec<char> = ('\0'..=char::MAX).collect();
    for some in characters.chunks(8192) {
        let text: String = some.iter().collect();
        let prepared = prepare_input(&text);
        assert!(!prepared.contains(|c: char| marks.contains(c)));
    }
}
