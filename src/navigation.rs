//! The navigation state machine: keys become actions, actions move between slides, scroll,
//! and switch between highlight and scroll mode.

use vstd::prelude::*;
use crate::text::{join_lines, kept_lines, lemma_trimmed_is_prefix, lines_of};

verus! {

/// A key as the terminal reports it.
#[derive(Clone, Copy, Debug, PartialEq, Eq, Structural)]
pub enum Key {
    Right,
    Left,
    Up,
    Down,
    Esc,
    Char(char),
    Ctrl(char),
    Other,
}

/// What a key asks the presentation to do.
#[derive(Clone, Copy, Debug, PartialEq, Eq, Structural)]
pub enum NavigationAction {
    Next,
    Previous,
    Exit,
    Stay,
    ScrollUp,
    ScrollDown,
    Refresh,
    ToggleHighlight,
    /// Run the code block with this number (a digit key) without leaving the slide.
    RunCode(usize),
}

pub open spec fn action_of(key: Key) -> NavigationAction {
    match key {
        Key::Right => NavigationAction::Next,
        Key::Left => NavigationAction::Previous,
        Key::Up => NavigationAction::ScrollUp,
        Key::Down => NavigationAction::ScrollDown,
        Key::Esc => NavigationAction::Exit,
        Key::Ctrl(c) => if c == 'c' {
            NavigationAction::Exit
        } else if c == 'r' {
            NavigationAction::Refresh
        } else {
            NavigationAction::Stay
        },
        Key::Char(c) => if c == 'l' || c == 'L' {
            NavigationAction::Next
        } else if c == 'h' || c == 'H' {
            NavigationAction::Previous
        } else if c == 'q' || c == 'Q' {
            NavigationAction::Exit
        } else if c == 'k' || c == 'K' {
            NavigationAction::ScrollUp
        } else if c == 'j' || c == 'J' {
            NavigationAction::ScrollDown
        } else if c == 't' {
            NavigationAction::ToggleHighlight
        } else if '0' <= c && c <= '9' {
            NavigationAction::RunCode((c as u32 - '0' as u32) as usize)
        } else {
            NavigationAction::Stay
        },
        Key::Other => NavigationAction::Stay,
    }
}

/// The action a key asks for: arrows and `h` `j` `k` `l` (either case) move and scroll, `q`,
/// `Q`, Esc and Ctrl-C leave, `t` switches mode, Ctrl-R redraws, a digit runs that code
/// block; any other key does nothing.
pub fn action_for_key(key: Key) -> (r: NavigationAction)
    ensures
        r == action_of(key),
{
    match key {
        Key::Right => NavigationAction::Next,
        Key::Left => NavigationAction::Previous,
        Key::Up => NavigationAction::ScrollUp,
        Key::Down => NavigationAction::ScrollDown,
        Key::Esc => NavigationAction::Exit,
        Key::Ctrl(c) => if c == 'c' {
            NavigationAction::Exit
        } else if c == 'r' {
            NavigationAction::Refresh
        } else {
            NavigationAction::Stay
        },
        Key::Char(c) => if c == 'l' || c == 'L' {
            NavigationAction::Next
        } else if c == 'h' || c == 'H' {
            NavigationAction::Previous
        } else if c == 'q' || c == 'Q' {
            NavigationAction::Exit
        } else if c == 'k' || c == 'K' {
            NavigationAction::ScrollUp
        } else if c == 'j' || c == 'J' {
            NavigationAction::ScrollDown
        } else if c == 't' {
            NavigationAction::ToggleHighlight
        } else if '0' <= c && c <= '9' {
            NavigationAction::RunCode((c as u32 - '0' as u32) as usize)
        } else {
            NavigationAction::Stay
        },
        Key::Other => NavigationAction::Stay,
    }
}

/// The state of a presentation between two keys.
#[derive(Clone, Copy, Debug, PartialEq, Eq, Structural)]
pub struct RenderState {
    /// The slide shown, from 1.
    pub current_slide: u32,
    /// Highlight mode (the whole slide, one line highlighted) or scroll mode.
    pub highlight: bool,
    /// Whether the next render is of a fresh slide rather than a scroll of the same one.
    pub render: bool,
    /// In scroll mode the lines trimmed from the end; in highlight mode the highlighted line,
    /// counted from the end.
    pub lines: u32,
}

pub open spec fn start_state() -> RenderState {
    RenderState { current_slide: 1, highlight: true, render: true, lines: 1 }
}

pub open spec fn well_formed(s: RenderState) -> bool {
    s.current_slide >= 1
}

impl RenderState {
    /// The first slide, in highlight mode, about to be rendered fresh.
    pub fn new() -> (r: RenderState)
        ensures
            r == start_state(),
    {
        RenderState { current_slide: 1, highlight: true, render: true, lines: 1 }
    }
}

/// The line number handed to the styler: the highlighted line in highlight mode, none (0)
/// in scroll mode.
pub open spec fn highlight_target(s: RenderState) -> u32 {
    if s.highlight {
        s.lines
    } else {
        0
    }
}

pub fn highlight_target_of(s: &RenderState) -> (r: u32)
    ensures
        r == highlight_target(*s),
{
    if s.highlight {
        s.lines
    } else {
        0
    }
}

/// What a render shows.
#[derive(Clone, Copy, Debug, PartialEq, Eq, Structural)]
pub enum Shown {
    /// The whole slide.
    Whole,
    /// The slide without this many of its last lines.
    TrimLast(u32),
}

/// How one render goes: the line count it settles on, what it shows, and whether it switches
/// mode at once without waiting for a key.
#[derive(Clone, Copy, Debug, PartialEq, Eq, Structural)]
pub struct ViewPlan {
    pub lines: u32,
    pub shown: Shown,
    pub toggle_now: bool,
}

pub open spec fn sat_sub(a: int, b: int) -> int {
    if a > b {
        a - b
    } else {
        0
    }
}

pub open spec fn clamp_u32(n: int) -> u32 {
    if n > u32::MAX {
        u32::MAX
    } else {
        n as u32
    }
}

/// The line count after a render. In highlight mode it wraps: past the last line it comes
/// back to 0, and below 1 it goes to the last. In scroll mode it stays below the upper bound
/// (one less where boxed, two less otherwise) and, where the lower bound is above 2, at least
/// the lower bound less 2.
pub open spec fn settled_lines(s: RenderState, upper: usize, lower: usize, boxed: bool) -> u32 {
    if s.highlight {
        let span = sat_sub(sat_sub(upper as int, lower as int), 1);
        if span < s.lines {
            0
        } else if s.lines < 1 {
            clamp_u32(span)
        } else {
            s.lines
        }
    } else {
        let top = sat_sub(upper as int, if boxed { 1 } else { 2 });
        if top < s.lines {
            clamp_u32(top)
        } else if lower > 2 && lower - 2 > s.lines {
            clamp_u32(lower - 2)
        } else {
            s.lines
        }
    }
}

/// The plan of one render of a slide whose laid-out text has `slide_lines` lines.
pub open spec fn view_plan(
    s: RenderState,
    upper: usize,
    lower: usize,
    boxed: bool,
    clear: bool,
    slide_lines: nat,
) -> ViewPlan {
    let l = settled_lines(s, upper, lower, boxed);
    if s.highlight {
        ViewPlan { lines: l, shown: Shown::Whole, toggle_now: s.render && clear }
    } else if s.render && clear {
        ViewPlan { lines: clamp_u32(slide_lines as int), shown: Shown::TrimLast(clamp_u32(slide_lines as int)), toggle_now: false }
    } else if s.render {
        ViewPlan { lines: l, shown: Shown::Whole, toggle_now: false }
    } else {
        ViewPlan { lines: l, shown: Shown::TrimLast(l), toggle_now: false }
    }
}

fn sat_sub_exec(a: usize, b: usize) -> (r: usize)
    ensures
        r == sat_sub(a as int, b as int),
{
    if a > b {
        a - b
    } else {
        0
    }
}

fn clamp_exec(n: usize) -> (r: u32)
    ensures
        r == clamp_u32(n as int),
{
    if n > u32::MAX as usize {
        u32::MAX
    } else {
        n as u32
    }
}

/// Decides one render: see `view_plan`. In scroll mode a fresh slide with `clear` set starts
/// with every line trimmed, to be scrolled in line by line.
pub fn plan_view(
    s: &RenderState,
    upper_bound: usize,
    lower_bound: usize,
    boxed: bool,
    clear: bool,
    slide_lines: usize,
) -> (r: ViewPlan)
    ensures
        r == view_plan(*s, upper_bound, lower_bound, boxed, clear, slide_lines as nat),
{
    let l: u32 = if s.highlight {
        let span = sat_sub_exec(sat_sub_exec(upper_bound, lower_bound), 1);
        if span < s.lines as usize {
            0
        } else if s.lines < 1 {
            clamp_exec(span)
        } else {
            s.lines
        }
    } else {
        let top = sat_sub_exec(upper_bound, if boxed { 1 } else { 2 });
        if top < s.lines as usize {
            clamp_exec(top)
        } else if lower_bound > 2 && lower_bound - 2 > s.lines as usize {
            clamp_exec(lower_bound - 2)
        } else {
            s.lines
        }
    };
    if s.highlight {
        ViewPlan { lines: l, shown: Shown::Whole, toggle_now: s.render && clear }
    } else if s.render && clear {
        let all = clamp_exec(slide_lines);
        ViewPlan { lines: all, shown: Shown::TrimLast(all), toggle_now: false }
    } else if s.render {
        ViewPlan { lines: l, shown: Shown::Whole, toggle_now: false }
    } else {
        ViewPlan { lines: l, shown: Shown::TrimLast(l), toggle_now: false }
    }
}

/// What the presentation does after an action.
#[derive(Clone, Copy, Debug, PartialEq, Eq, Structural)]
pub enum Step {
    /// Go on with this state.
    Continue(RenderState),
    /// Leave the presentation.
    Exit,
}

pub open spec fn inc_u32(n: u32) -> u32 {
    if n < u32::MAX {
        (n + 1) as u32
    } else {
        n
    }
}

/// The state after an action, given the line count the render settled on.
pub open spec fn next_step(s: RenderState, a: NavigationAction, settled: u32) -> Step {
    match a {
        NavigationAction::Next => Step::Continue(RenderState {
            current_slide: inc_u32(s.current_slide),
            render: true,
            lines: 1,
            ..s
        }),
        NavigationAction::Previous => Step::Continue(RenderState {
            current_slide: if s.current_slide > 1 { (s.current_slide - 1) as u32 } else { s.current_slide },
            render: true,
            lines: 1,
            ..s
        }),
        NavigationAction::ScrollUp => Step::Continue(RenderState { render: false, lines: inc_u32(settled), ..s }),
        NavigationAction::ScrollDown => Step::Continue(RenderState {
            render: false,
            lines: if settled > 0 { (settled - 1) as u32 } else { 0 },
            ..s
        }),
        NavigationAction::ToggleHighlight => Step::Continue(RenderState {
            highlight: !s.highlight,
            lines: if s.highlight { 1 } else { settled },
            ..s
        }),
        NavigationAction::Refresh => Step::Continue(RenderState { render: true, lines: 1, ..s }),
        NavigationAction::Exit => Step::Exit,
        NavigationAction::Stay => Step::Continue(s),
        NavigationAction::RunCode(_) => Step::Continue(s),
    }
}

/// Applies an action: Next and Previous change slide (not below the first) and start it
/// fresh from line 1; scrolling moves the settled line count by one (not below 0) without a
/// fresh render; the mode switch starts highlight mode from line 1 and scroll mode from the
/// settled count; Refresh renders again from line 1; Exit leaves; other actions keep the
/// state.
pub fn apply_action(s: &RenderState, a: NavigationAction, settled: u32) -> (r: Step)
    ensures
        r == next_step(*s, a, settled),
        well_formed(*s) ==> (r matches Step::Continue(t) ==> well_formed(t)),
{
    match a {
        NavigationAction::Next => Step::Continue(RenderState {
            current_slide: if s.current_slide < u32::MAX { s.current_slide + 1 } else { s.current_slide },
            render: true,
            lines: 1,
            ..*s
        }),
        NavigationAction::Previous => Step::Continue(RenderState {
            current_slide: if s.current_slide > 1 { s.current_slide - 1 } else { s.current_slide },
            render: true,
            lines: 1,
            ..*s
        }),
        NavigationAction::ScrollUp => Step::Continue(RenderState {
            render: false,
            lines: if settled < u32::MAX { settled + 1 } else { settled },
            ..*s
        }),
        NavigationAction::ScrollDown => Step::Continue(RenderState {
            render: false,
            lines: if settled > 0 { settled - 1 } else { 0 },
            ..*s
        }),
        NavigationAction::ToggleHighlight => Step::Continue(RenderState {
            highlight: !s.highlight,
            lines: if s.highlight { 1 } else { settled },
            ..*s
        }),
        NavigationAction::Refresh => Step::Continue(RenderState { render: true, lines: 1, ..*s }),
        NavigationAction::Exit => Step::Exit,
        NavigationAction::Stay => Step::Continue(*s),
        NavigationAction::RunCode(_) => Step::Continue(*s),
    }
}

/// What it means that no file exists for the slide to show.
#[derive(Clone, Copy, Debug, PartialEq, Eq, Structural)]
pub enum MissingSlide {
    /// There is not even a first slide: the project is empty or misconfigured.
    NoSlides,
    /// The presentation went past its last slide and ends.
    Finished,
}

/// A missing first slide is an error; a missing later slide ends the presentation.
pub fn missing_slide(current_slide: u32) -> (r: MissingSlide)
    ensures
        r == (if current_slide <= 1 { MissingSlide::NoSlides } else { MissingSlide::Finished }),
{
    if current_slide <= 1 {
        MissingSlide::NoSlides
    } else {
        MissingSlide::Finished
    }
}


/// Scrolling shows a window of the full slide: in scroll mode a render that is not fresh
/// trims exactly the settled number of lines from the end, and what it shows is the slide's
/// first lines, byte for byte a prefix of the fully rendered slide.
pub proof fn lemma_scroll_shows_prefix(
    s: RenderState,
    upper: usize,
    lower: usize,
    boxed: bool,
    clear: bool,
    slide: Seq<char>,
)
    requires
        !s.highlight,
        !s.render,
    ensures
        ({
            let plan = view_plan(s, upper, lower, boxed, clear, lines_of(slide).len());
            let kept = join_lines(lines_of(slide).take(kept_lines(lines_of(slide).len() as int, plan.lines as int)));
            &&& plan.shown == Shown::TrimLast(plan.lines)
            &&& kept.len() <= slide.len()
            &&& kept == slide.take(kept.len() as int)
        }),
{
    let plan = view_plan(s, upper, lower, boxed, clear, lines_of(slide).len());
    lemma_trimmed_is_prefix(slide, plan.lines as nat);
}

/// However the lines were scrolled before, a render in scroll mode settles on a count no
/// larger than the upper scroll bound (the layout never gives a lower bound above it).
pub proof fn lemma_scroll_lines_bounded(s: RenderState, upper: usize, lower: usize, boxed: bool)
    requires
        !s.highlight,
        lower <= upper,
    ensures
        settled_lines(s, upper, lower, boxed) <= upper,
{
}

} // verus!
