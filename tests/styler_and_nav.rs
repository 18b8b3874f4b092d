use dough::layout::{ColorPair, LayoutOptions};
use dough::navigation::{action_for_key, apply_action, missing_slide, plan_view, Key, MissingSlide, NavigationAction, RenderState, Shown, Step, ViewPlan};
use dough::ramen::{run_code, Language};
use dough::slide::prettify;
use dough::style::StyleConfig;
use dough::styler::{get_code, style_document, syntax_highlighter, MdNode};
use dough::Project;

fn text(s: &str) -> MdNode {
    MdNode::Text(String::from(s))
}

fn para(children: Vec<MdNode>) -> MdNode {
    MdNode::Paragraph(children)
}

fn code(lang: &str, body: &str) -> MdNode {
    MdNode::Code(Some(String::from(lang)), String::from(body))
}

fn no_highlight() -> StyleConfig {
    StyleConfig::parse("syntax_highlighting: false")
}

#[test]
fn code_blocks_register_in_document_order() {
    let doc = MdNode::Root(vec![
        para(vec![text("intro")]),
        code("python", "print(1)"),
        MdNode::BlockQuote(vec![para(vec![text("quoted")])]),
        MdNode::List(false, None, vec![MdNode::ListItem(vec![code("rust", "fn main() {}")])]),
    ]);
    let (_, codes) = style_document(&doc, &no_highlight());
    assert_eq!(codes.len(), 2);
    assert_eq!(get_code(&codes, 1), Ok((String::from("python"), String::from("print(1)"))));
    assert_eq!(get_code(&codes, 2), Ok((String::from("rust"), String::from("fn main() {}"))));
    assert_eq!(get_code(&codes, 3), Err(String::from("Code with index 3 not found")));
    assert_eq!(get_code(&codes, 0), Err(String::from("Code with index 0 not found")));
}

#[test]
fn code_without_language_is_plaintext() {
    let doc = MdNode::Root(vec![MdNode::Code(None, String::from("x\ty"))]);
    let (styled, codes) = style_document(&doc, &no_highlight());
    assert_eq!(get_code(&codes, 1), Ok((String::from("plaintext"), String::from("x\ty"))));
    assert_eq!(styled, "\nx    y\n\n");
}

#[test]
fn heading_uses_configured_or_default_color() {
    let doc = MdNode::Root(vec![MdNode::Heading(1, vec![text("Title")])]);
    let (styled, _) = style_document(&doc, &StyleConfig::parse(""));
    assert_eq!(styled, "\n\x1b[31m█ Title\x1b[0m\n");
    let (styled, _) = style_document(&doc, &StyleConfig::parse("h1: blue"));
    assert_eq!(styled, "\n\x1b[34m█ Title\x1b[0m\n");
    let deep = MdNode::Root(vec![MdNode::Heading(7, vec![text("Deep")])]);
    let (styled, _) = style_document(&deep, &StyleConfig::parse(""));
    assert_eq!(styled, "\nDeep\n");
}

#[test]
fn strikethrough_overlays_each_character() {
    let doc = MdNode::Root(vec![para(vec![text("a ~~bc~~ d")])]);
    let (styled, _) = style_document(&doc, &StyleConfig::parse(""));
    assert_eq!(styled, "\na b\u{0336}c\u{0336} d\n");
}

#[test]
fn nested_color_is_restored_after_inner_reset() {
    let doc = MdNode::Root(vec![MdNode::Link(vec![text("see "), MdNode::InlineCode(String::from("x"))], String::from("u"))]);
    let (styled, _) = style_document(&doc, &StyleConfig::parse("inline_code: red\nlink_text: blue\nlink_url: green"));
    assert_eq!(styled, "\x1b[34msee \x1b[31mx\x1b[0m\x1b[34m\x1b[0m - \x1b[32mu\x1b[0m");
}

#[test]
fn lists_number_and_bullet_items() {
    let items = vec![
        MdNode::ListItem(vec![para(vec![text("one")])]),
        MdNode::ListItem(vec![para(vec![text("two")])]),
    ];
    let ordered = MdNode::Root(vec![MdNode::List(true, Some(3), items)]);
    let cfg = StyleConfig::parse("ordered_list_bullet: yellow\nordered_list: white");
    let (styled, _) = style_document(&ordered, &cfg);
    assert_eq!(
        styled,
        "\n\x1b[37m\x1b[33m 3. \x1b[0m\x1b[37mone\n\x1b[0m\x1b[37m\x1b[33m 4. \x1b[0m\x1b[37mtwo\n\x1b[0m\n"
    );
    let bullets = MdNode::Root(vec![MdNode::List(false, None, vec![MdNode::ListItem(vec![para(vec![text("x")])])])]);
    let (styled, _) = style_document(&bullets, &StyleConfig::parse("unordered_list_bullet: red\nunordered_list: blue"));
    assert_eq!(styled, "\n\x1b[34m\x1b[31m • \x1b[0m\x1b[34mx\n\x1b[0m\n");
}

#[test]
fn definition_without_title_is_skipped() {
    let doc = MdNode::Root(vec![
        MdNode::Definition(String::from("id"), String::from("url"), None),
        MdNode::ThematicBreak,
        MdNode::Break,
    ]);
    let (styled, _) = style_document(&doc, &StyleConfig::parse(""));
    assert_eq!(styled, "\n---\n\n");
}

#[test]
fn highlighting_changes_code() {
    let out = syntax_highlighter("rs", String::from("fn main() {}\n"), String::from("base16-ocean.dark"), false);
    assert_ne!(out, "fn main() {}\n");
    assert!(out.contains("\x1b[38;2;"));
    let fallback = syntax_highlighter("rs", String::from("let x = 1;\n"), String::from("no such theme"), false);
    let expected = syntax_highlighter("rs", String::from("let x = 1;\n"), String::from("base16-ocean.dark"), false);
    assert_eq!(fallback, expected);
}

#[test]
fn prettify_renders_a_heading_slide() {
    let doc = MdNode::Root(vec![MdNode::Heading(1, vec![text("Title")])]);
    let options = LayoutOptions {
        boxed: false,
        horizontal_alignment: false,
        vertical_alignment: false,
        content_below: false,
        highlighter: ColorPair { fg: String::from("black"), bg: Some(String::from("white")) },
    };
    let slide = prettify(&doc, &StyleConfig::parse(""), &options, 0, 80, 24).ok().unwrap();
    assert_eq!(slide.rendered.text, "\n\x1b[31m█ Title\x1b[0m\n");
    assert_eq!((slide.rendered.upper_bound, slide.rendered.lower_bound), (2, 0));
    assert_eq!(slide.codes.len(), 0);
}

#[test]
fn keys_map_to_actions() {
    assert_eq!(action_for_key(Key::Right), NavigationAction::Next);
    assert_eq!(action_for_key(Key::Char('L')), NavigationAction::Next);
    assert_eq!(action_for_key(Key::Char('h')), NavigationAction::Previous);
    assert_eq!(action_for_key(Key::Char('K')), NavigationAction::ScrollUp);
    assert_eq!(action_for_key(Key::Down), NavigationAction::ScrollDown);
    assert_eq!(action_for_key(Key::Char('t')), NavigationAction::ToggleHighlight);
    assert_eq!(action_for_key(Key::Ctrl('r')), NavigationAction::Refresh);
    assert_eq!(action_for_key(Key::Ctrl('c')), NavigationAction::Exit);
    assert_eq!(action_for_key(Key::Esc), NavigationAction::Exit);
    assert_eq!(action_for_key(Key::Char('Q')), NavigationAction::Exit);
    assert_eq!(action_for_key(Key::Char('7')), NavigationAction::RunCode(7));
    assert_eq!(action_for_key(Key::Char('x')), NavigationAction::Stay);
    assert_eq!(action_for_key(Key::Other), NavigationAction::Stay);
}

#[test]
fn right_right_left_walks_two_slides() {
    let start = RenderState::new();
    let second = match apply_action(&start, NavigationAction::Next, 4) {
        Step::Continue(s) => s,
        Step::Exit => panic!("left early"),
    };
    assert_eq!(second.current_slide, 2);
    let third = match apply_action(&second, NavigationAction::Next, 0) {
        Step::Continue(s) => s,
        Step::Exit => panic!("left early"),
    };
    assert_eq!(third.current_slide, 3);
    assert_eq!(missing_slide(third.current_slide), MissingSlide::Finished);
    let back = match apply_action(&second, NavigationAction::Previous, 5) {
        Step::Continue(s) => s,
        Step::Exit => panic!("left early"),
    };
    assert_eq!(back.current_slide, 1);
    assert_eq!(back.lines, 1);
    assert!(back.render);
    assert_eq!(missing_slide(1), MissingSlide::NoSlides);
}

#[test]
fn previous_stays_on_first_slide() {
    let start = RenderState::new();
    assert_eq!(apply_action(&start, NavigationAction::Previous, 3), Step::Continue(RenderState { lines: 1, ..start }));
    assert_eq!(apply_action(&start, NavigationAction::Exit, 3), Step::Exit);
}

#[test]
fn scrolling_moves_by_one_and_stops_at_zero() {
    let s = RenderState { current_slide: 1, highlight: false, render: true, lines: 2 };
    assert_eq!(apply_action(&s, NavigationAction::ScrollUp, 2), Step::Continue(RenderState { render: false, lines: 3, ..s }));
    assert_eq!(apply_action(&s, NavigationAction::ScrollDown, 0), Step::Continue(RenderState { render: false, lines: 0, ..s }));
    let toggled = apply_action(&s, NavigationAction::ToggleHighlight, 5);
    assert_eq!(toggled, Step::Continue(RenderState { highlight: true, lines: 5, ..s }));
}

#[test]
fn scroll_plan_clamps_to_bounds() {
    let s = RenderState { current_slide: 1, highlight: false, render: false, lines: 50 };
    assert_eq!(plan_view(&s, 10, 0, false, false, 10), ViewPlan { lines: 8, shown: Shown::TrimLast(8), toggle_now: false });
    assert_eq!(plan_view(&s, 10, 0, true, false, 10), ViewPlan { lines: 9, shown: Shown::TrimLast(9), toggle_now: false });
    let low = RenderState { lines: 1, ..s };
    assert_eq!(plan_view(&low, 30, 6, false, false, 30).lines, 4);
    let fresh = RenderState { render: true, ..low };
    assert_eq!(plan_view(&fresh, 30, 0, false, true, 12), ViewPlan { lines: 12, shown: Shown::TrimLast(12), toggle_now: false });
    assert_eq!(plan_view(&fresh, 30, 0, false, false, 12).shown, Shown::Whole);
}

#[test]
fn highlight_plan_wraps_around() {
    let s = RenderState { current_slide: 1, highlight: true, render: false, lines: 9 };
    assert_eq!(plan_view(&s, 8, 0, false, false, 8).lines, 0);
    let zero = RenderState { lines: 0, ..s };
    assert_eq!(plan_view(&zero, 8, 0, false, false, 8).lines, 7);
    let fresh = RenderState { render: true, lines: 2, ..s };
    assert_eq!(plan_view(&fresh, 8, 0, false, true, 8), ViewPlan { lines: 2, shown: Shown::Whole, toggle_now: true });
}

#[test]
fn run_plans_follow_language() {
    let cfg = StyleConfig::parse("python: python3.11");
    let p = run_code(String::from("py"), String::from("print(1)"), &cfg).ok().unwrap();
    assert_eq!(p.language, Language::Python);
    assert_eq!(p.program, "python3.11");
    assert_eq!(p.source_file, "temp.py");
    assert_eq!(p.args, vec![String::from("temp.py")]);
    assert!(p.then_run.is_none());
    let c = run_code(String::from("cpp"), String::from("int main(){}"), &StyleConfig::parse("")).ok().unwrap();
    assert_eq!(c.program, "gcc");
    assert_eq!(c.args, vec![String::from("temp.c"), String::from("-o"), String::from("temp")]);
    assert_eq!(c.then_run, Some((String::from("./temp"), Vec::new())));
    assert_eq!(c.cleanup, vec![String::from("temp.c"), String::from("temp")]);
    let j = run_code(String::from("java"), String::new(), &StyleConfig::parse("")).ok().unwrap();
    assert_eq!(j.then_run, Some((String::from("java"), vec![String::from("Main")])));
    assert_eq!(j.cleanup, vec![String::from("Main.java"), String::from("Main.class")]);
    assert_eq!(run_code(String::from("cobol"), String::new(), &cfg).err(), Some(String::from("Language not supported")));
}

#[test]
fn project_runs_registered_code() {
    let doc = MdNode::Root(vec![code("js", "console.log(1)")]);
    let (_, codes) = style_document(&doc, &no_highlight());
    let plan = Project::run_code(1, &codes, &StyleConfig::parse("")).ok().unwrap();
    assert_eq!(plan.program, "node");
    assert_eq!(plan.code, "console.log(1)");
    assert_eq!(Project::run_code(2, &codes, &StyleConfig::parse("")).err(), Some(String::from("Code with index 2 not found")));
}

#[test]
fn project_paths_join_components() {
    let p = Project::new("deck", "/home/me", "default");
    assert_eq!(p.fs_path(), "/home/me/deck");
    assert_eq!(p.template(), "/home/me/templates/default");
    assert_eq!(p.slide_path(12), "/home/me/deck/12.md");
    assert_eq!(p.style_path(), "/home/me/deck/style.yml");
    let abs = Project::new("/tmp/deck", "/home/me/", "t");
    assert_eq!(abs.fs_path(), "/tmp/deck");
    assert_eq!(abs.template(), "/home/me/templates/t");
}

#[test]
fn new_command_project_keeps_name() {
    let p = dough::projects::Project::new("talk", "default");
    assert_eq!(p.name(), "talk");
}

#[test]
fn style_file_lines_become_settings() {
    let cfg = StyleConfig::parse("# comment\nh1: red\n  box :  true  \nlink_url: http://x\nh1: blue");
    assert_eq!(cfg.get("h1"), Some(String::from("blue")));
    assert_eq!(cfg.get("box"), Some(String::from("true")));
    assert_eq!(cfg.get("link_url"), Some(String::from("http://x")));
    assert_eq!(cfg.get("missing"), None);
    assert_eq!(cfg.get_or("missing", "d"), "d");
    assert_eq!(cfg.flag("box"), Ok(true));
}

#[test]
fn counters_stop_at_their_largest_value() {
    let last = RenderState { current_slide: u32::MAX, highlight: false, render: false, lines: 0 };
    assert_eq!(
        apply_action(&last, NavigationAction::Next, 0),
        Step::Continue(RenderState { render: true, lines: 1, ..last })
    );
    assert_eq!(
        apply_action(&last, NavigationAction::ScrollUp, u32::MAX),
        Step::Continue(RenderState { lines: u32::MAX, ..last })
    );
}

#[test]
fn code_runs_do_not_change_the_state() {
    let s = RenderState::new();
    assert_eq!(apply_action(&s, NavigationAction::RunCode(3), 9), Step::Continue(s));
    assert_eq!(apply_action(&s, NavigationAction::Stay, 9), Step::Continue(s));
}

#[test]
fn bullets_cycle_with_depth() {
    let mut node = MdNode::List(false, None, vec![MdNode::ListItem(vec![para(vec![text("x")])])]);
    for _ in 0..5 {
        node = MdNode::List(false, None, vec![MdNode::ListItem(vec![node])]);
    }
    let (styled, _) = style_document(&MdNode::Root(vec![node]), &StyleConfig::parse(""));
    let glyphs: Vec<&str> = [" • ", " · ", " * ", " - ", " • ", " · "]
        .iter()
        .copied()
        .filter(|g| styled.contains(*g))
        .collect();
    assert_eq!(glyphs.len(), 6);
    let deepest = format!("{}\x1b[32m · \x1b[0m", "  ".repeat(5));
    assert!(styled.contains(&deepest));
}
