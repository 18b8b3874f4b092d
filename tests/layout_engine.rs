use dough::ansi::strip_ansi_codes;
use dough::layout::{align_content, align_custom, align_horizontal, align_vertical, draw_box, get_bounds, ColorPair, LayoutOptions};
use dough::style::{StyleConfig, StyleError};
use unicode_width::UnicodeWidthStr;

fn plain_options() -> LayoutOptions {
    LayoutOptions {
        boxed: false,
        horizontal_alignment: false,
        vertical_alignment: false,
        content_below: false,
        highlighter: ColorPair { fg: String::from("black"), bg: Some(String::from("white")) },
    }
}

fn hl() -> ColorPair {
    ColorPair { fg: String::from("black"), bg: Some(String::from("white")) }
}

#[test]
fn custom_alignment_is_idempotent_without_directives() {
    let text = "\n\x1b[31m█ Title\x1b[0m\n\nbody text\n";
    let once = align_custom(text, 0, &hl());
    let twice = align_custom(&once, 0, &hl());
    assert_eq!(once, twice);
    assert_eq!(once, "\n\x1b[31m█ Title\x1b[0m\n\nbody text\n");
}

#[test]
fn inline_directives_align_lines() {
    let text = "abcdefgh\nab$[c]$\nab$[r]$\nab$[l]$";
    let out = align_custom(text, 0, &hl());
    assert_eq!(out, "abcdefgh\n\x1b[0m   ab\n\x1b[0m      ab\nab\n");
}

#[test]
fn block_directives_align_until_end_marker() {
    let text = "abcdef\n$[c]\nab\nabcd\n$[e]$\nafter";
    let out = align_custom(text, 0, &hl());
    assert_eq!(out, "abcdef\n\x1b[0m  ab\n\x1b[0m abcd\nafter\n");
}

#[test]
fn thematic_break_stretches_to_longest_line() {
    let out = align_custom("12345\n---", 0, &hl());
    assert_eq!(out, "12345\n-----\n");
}

#[test]
fn highlighted_line_is_repainted() {
    let out = align_custom("a\n\x1b[31mb\x1b[0m\nc", 2, &hl());
    assert_eq!(out, "a\n\x1b[47;30mb\x1b[0m\nc\n");
}

#[test]
fn box_lines_share_one_width_and_keep_content() {
    let content = "ab\n\x1b[31mlonger line\x1b[0m\nx\u{0336}y";
    let colors = vec![String::from("\x1b[0m"), String::from("\x1b[31m"), String::from("\x1b[31m")];
    let boxed = draw_box(content, &colors);
    let lines: Vec<&str> = boxed.lines().collect();
    assert_eq!(lines.len(), 5);
    let widths: Vec<usize> = lines
        .iter()
        .map(|l| UnicodeWidthStr::width(strip_ansi_codes(l).replace('\u{0336}', "").as_str()))
        .collect();
    assert!(widths.iter().all(|w| *w == widths[0]));
    assert_eq!(widths[0], 11 + 6);
    let content_lines: Vec<&str> = content.split('\n').collect();
    for (i, line) in content_lines.iter().enumerate() {
        let row = lines[i + 1];
        let color = colors[i].as_str();
        let prefix = format!("│  \x1b[0m{}", color);
        assert!(row.starts_with(&prefix));
        assert_eq!(&row[prefix.len()..prefix.len() + line.len()], *line);
        assert!(row.ends_with("  │"));
    }
}

#[test]
fn box_of_empty_content() {
    let boxed = draw_box("", &Vec::new());
    assert_eq!(boxed, "┌────┐\n│  \x1b[0m\x1b[0m\x1b[0m  │\n└────┘\n");
}

#[test]
fn horizontal_centring_pads_each_line() {
    let colors = vec![String::from("\x1b[0m"), String::from("\x1b[31m")];
    let out = align_horizontal("abcd\nab", 10, &colors, false);
    assert_eq!(out, "   \x1b[0mabcd\x1b[0m\n   \x1b[31mab\x1b[0m\n");
    assert_eq!(align_horizontal("abcd", 4, &colors, false), "abcd");
}

#[test]
fn vertical_centring_moves_bounds() {
    let mut upper: usize = 3;
    let mut lower: usize = 0;
    let out = align_vertical("a\nb\nc", 9, false, &mut upper, &mut lower);
    assert_eq!(out, "\n\n\na\nb\nc");
    assert_eq!((upper, lower), (6, 3));
    let mut upper: usize = 3;
    let mut lower: usize = 0;
    let out = align_vertical("a\nb\nc", 9, true, &mut upper, &mut lower);
    assert_eq!(out, "a\nb\nc\n\n\n");
    let mut upper: usize = 3;
    let mut lower: usize = 0;
    let out = align_vertical("a\nb\nc", 2, false, &mut upper, &mut lower);
    assert_eq!(out, "a\nb\nc");
    assert_eq!((upper, lower), (3, 0));
}

#[test]
fn layout_counts_scroll_bounds() {
    let mut options = plain_options();
    let plain = align_content("a\nb", &options, 0, 80, 24);
    assert_eq!(plain.text, "a\nb\n");
    assert_eq!(get_bounds(&plain), (2, 0));
    options.boxed = true;
    options.vertical_alignment = true;
    let boxed = align_content("a\nb", &options, 0, 80, 24);
    assert_eq!(get_bounds(&boxed), (2 + 2 + 9, 9));
}

#[test]
fn layout_options_need_flags() {
    let cfg = StyleConfig::parse("box: true\nhorizontal_alignment: false\nvertical_alignment: true\nterminal: warp\nhighlighter: red on blue");
    let o = LayoutOptions::from_style(&cfg).ok().unwrap();
    assert!(o.boxed && !o.horizontal_alignment && o.vertical_alignment && o.content_below);
    assert_eq!(o.highlighter.fg, "red");
    assert_eq!(o.highlighter.bg, Some(String::from("blue")));
    let missing = StyleConfig::parse("box: true\nvertical_alignment: true");
    assert_eq!(LayoutOptions::from_style(&missing).err(), Some(StyleError::MissingStyleKey(String::from("horizontal_alignment"))));
    let invalid = StyleConfig::parse("box: yes");
    assert_eq!(LayoutOptions::from_style(&invalid).err(), Some(StyleError::InvalidFlag(String::from("box"))));
}

#[test]
fn default_highlighter_is_black_on_white() {
    let cfg = StyleConfig::parse("box: false\nhorizontal_alignment: false\nvertical_alignment: false");
    let o = LayoutOptions::from_style(&cfg).ok().unwrap();
    assert_eq!(o.highlighter.fg, "black");
    assert_eq!(o.highlighter.bg, Some(String::from("white")));
    assert!(!o.content_below);
}

#[test]
fn layout_twice_adds_nothing() {
    let options = plain_options();
    let once = align_content("a", &options, 0, 80, 24);
    assert_eq!(once.text, "a\n");
    let twice = align_content(&once.text, &options, 0, 80, 24);
    assert_eq!(twice.text, once.text);
    let empty = align_content("", &options, 0, 80, 24);
    assert_eq!(align_content(&empty.text, &options, 0, 80, 24).text, empty.text);
}
