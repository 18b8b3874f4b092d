use dough::ansi::{store_colors, strip_ansi_codes};
use dough::measure::calculate_length_of_longest_line;
use dough::source::{prepare_source, remove_comments};
use dough::text::remove_last_n_lines;

#[test]
fn longest_line_ignores_color_codes() {
    let line = String::from("\x1b[31m0123456789\x1b[0m");
    assert_eq!(calculate_length_of_longest_line(&line, true), 10);
}

#[test]
fn longest_line_ignores_strike_marks_and_directives() {
    let text = String::from("a\u{0336}b\u{0336}c\u{0336}\nxy$[c]$");
    assert_eq!(calculate_length_of_longest_line(&text, true), 3);
}

#[test]
fn longest_line_uses_display_width() {
    let text = String::from("日本\nabc");
    assert_eq!(calculate_length_of_longest_line(&text, true), 4);
}

#[test]
fn longest_line_without_inner_spaces() {
    let text = String::from("  a b c");
    assert_eq!(calculate_length_of_longest_line(&text, true), 7);
    assert_eq!(calculate_length_of_longest_line(&text, false), 5);
}

#[test]
fn longest_line_of_empty_text() {
    assert_eq!(calculate_length_of_longest_line(&String::new(), true), 0);
}

#[test]
fn tracker_propagates_and_resets() {
    let lines = vec![
        String::from("\x1b[31mred text"),
        String::from(""),
        String::from("unstyled"),
    ];
    let colors = store_colors(&lines);
    assert_eq!(colors, vec![
        String::from("\x1b[31m"),
        String::from("\x1b[0m"),
        String::from("\x1b[0m"),
    ]);
}

#[test]
fn tracker_inherits_color_on_plain_lines() {
    let lines = vec![
        String::from("\x1b[1;32mgreen"),
        String::from("still green"),
        String::from("   "),
        String::from("\x1b[0mreset"),
    ];
    let colors = store_colors(&lines);
    assert_eq!(colors, vec![
        String::from("\x1b[1;32m"),
        String::from("\x1b[1;32m"),
        String::from("\x1b[0m"),
        String::from("\x1b[0m"),
    ]);
}

#[test]
fn strip_removes_escape_sequences() {
    assert_eq!(strip_ansi_codes("\x1b[1;31mbold\x1b[0m plain \x1b[m"), "bold plain ");
    assert_eq!(strip_ansi_codes("\x1b[31 not an escape"), "\x1b[31 not an escape");
}

#[test]
fn trimming_keeps_first_lines() {
    let slide = "one\ntwo\nthree\nfour";
    assert_eq!(remove_last_n_lines(slide, 0), "one\ntwo\nthree\nfour");
    assert_eq!(remove_last_n_lines(slide, 1), "one\ntwo\nthree");
    assert_eq!(remove_last_n_lines(slide, 3), "one");
    assert_eq!(remove_last_n_lines(slide, 4), "");
    assert_eq!(remove_last_n_lines(slide, 9), "");
    assert!(slide.starts_with(&remove_last_n_lines(slide, 2)));
}

#[test]
fn trimming_empty_text() {
    assert_eq!(remove_last_n_lines("", 2), "");
}

#[test]
fn comments_are_removed_across_lines() {
    assert_eq!(remove_comments("a<!-- x\ny -->b<!-- c -->d"), "abd");
    assert_eq!(remove_comments("keep <!-- open"), "keep <!-- open");
}

#[test]
fn front_matter_is_dropped() {
    assert_eq!(prepare_source("---\ntitle: x\n---\n# Hi\ntext"), "# Hi\ntext\n");
    assert_eq!(prepare_source("---\nno end"), "---\nno end\n");
    assert_eq!(prepare_source(""), "");
}

#[test]
fn unicode_blank_lines_reset_the_color() {
    let lines = vec![
        String::from("\x1b[31mred"),
        String::from("\u{a0}\u{a0}"),
        String::from("after"),
        String::from("\x1b[32mgreen"),
        String::from("\u{2003}\u{3000}"),
    ];
    let colors = store_colors(&lines);
    assert_eq!(colors, vec![
        String::from("\x1b[31m"),
        String::from("\x1b[0m"),
        String::from("\x1b[0m"),
        String::from("\x1b[32m"),
        String::from("\x1b[0m"),
    ]);
}

#[test]
fn width_is_the_same_without_escapes_and_strikes() {
    let text = String::from("\x1b[1;33mwide 日本\x1b[0m\na\u{0336}b\u{0336}\n\x1b[32mplain");
    let bare = strip_ansi_codes(&text).replace('\u{0336}', "");
    assert_eq!(calculate_length_of_longest_line(&text, true), calculate_length_of_longest_line(&bare, true));
    assert_eq!(calculate_length_of_longest_line(&text, false), calculate_length_of_longest_line(&bare, false));
    assert_eq!(calculate_length_of_longest_line(&text, true), 9);
}
