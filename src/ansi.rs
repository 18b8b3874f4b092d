//! ANSI select-graphic-rendition escapes: recognising, stripping and tracking them.

use vstd::prelude::*;
use crate::text::{chars_of, string_of, views};

verus! {

pub const ESC: char = '\x1b';

pub const STRIKE_MARK: char = '\u{0336}';

/// The escape that resets every colour and attribute: `ESC [ 0 m`.
pub open spec fn reset_code() -> Seq<char> {
    seq![ESC, '[', '0', 'm']
}

pub fn reset_chars() -> (r: Vec<char>)
    ensures
        r@ == reset_code(),
{
    let mut r: Vec<char> = Vec::new();
    r.push(ESC);
    r.push('[');
    r.push('0');
    r.push('m');
    r
}

pub open spec fn is_digit(c: char) -> bool {
    '0' <= c && c <= '9'
}

pub open spec fn is_param(c: char) -> bool {
    is_digit(c) || c == ';'
}

/// How many characters from `j` on are digits or semicolons.
pub open spec fn param_run(s: Seq<char>, j: int) -> nat
    decreases s.len() - j,
{
    if 0 <= j < s.len() && is_param(s[j]) {
        1 + param_run(s, j + 1)
    } else {
        0
    }
}

/// How many characters from `j` on are digits.
pub open spec fn digit_run(s: Seq<char>, j: int) -> nat
    decreases s.len() - j,
{
    if 0 <= j < s.len() && is_digit(s[j]) {
        1 + digit_run(s, j + 1)
    } else {
        0
    }
}

/// The length of the escape `ESC [ {digit or ;}* m` that starts at `i`, or 0 if none does.
pub open spec fn sgr_len(s: Seq<char>, i: int) -> nat {
    if 0 <= i && i + 1 < s.len() && s[i] == ESC && s[i + 1] == '[' {
        let k = i + 2 + param_run(s, i + 2);
        if k < s.len() && s[k] == 'm' {
            (k + 1 - i) as nat
        } else {
            0
        }
    } else {
        0
    }
}

/// The length of the colour escape `ESC [ digits (; digits)? m` that starts at `i`, or 0.
pub open spec fn color_len(s: Seq<char>, i: int) -> nat {
    if 0 <= i && i + 1 < s.len() && s[i] == ESC && s[i + 1] == '[' && digit_run(s, i + 2) > 0 {
        let k = i + 2 + digit_run(s, i + 2);
        if k < s.len() && s[k] == 'm' {
            (k + 1 - i) as nat
        } else if k < s.len() && s[k] == ';' && digit_run(s, k + 1) > 0 && k + 1 + digit_run(
            s,
            k + 1,
        ) < s.len() && s[k + 1 + digit_run(s, k + 1)] == 'm' {
            (k + 2 + digit_run(s, k + 1) - i) as nat
        } else {
            0
        }
    } else {
        0
    }
}

/// `s` from `i` on, with every escape sequence removed (scanning left to right).
pub open spec fn strip_from(s: Seq<char>, i: int) -> Seq<char>
    decreases s.len() - i,
{
    if i < 0 || i >= s.len() {
        Seq::empty()
    } else if sgr_len(s, i) > 0 {
        strip_from(s, i + sgr_len(s, i))
    } else {
        seq![s[i]] + strip_from(s, i + 1)
    }
}

/// `s` with every escape sequence removed.
pub open spec fn strip_ansi(s: Seq<char>) -> Seq<char> {
    strip_from(s, 0)
}

/// The first colour escape in `s` from `i` on.
pub open spec fn first_color_from(s: Seq<char>, i: int) -> Option<Seq<char>>
    decreases s.len() - i,
{
    if i < 0 || i >= s.len() {
        None
    } else if color_len(s, i) > 0 {
        Some(s.subrange(i, i + color_len(s, i)))
    } else {
        first_color_from(s, i + 1)
    }
}

pub open spec fn first_color(s: Seq<char>) -> Option<Seq<char>> {
    first_color_from(s, 0)
}

/// Whether `c` has the Unicode `White_Space` property (what `str::trim` removes).
pub open spec fn is_space(c: char) -> bool {
    ('\u{9}' <= c && c <= '\u{d}') || c == ' ' || c == '\u{85}' || c == '\u{a0}' || c == '\u{1680}'
        || ('\u{2000}' <= c && c <= '\u{200a}') || c == '\u{2028}' || c == '\u{2029}' || c == '\u{202f}'
        || c == '\u{205f}' || c == '\u{3000}'
}

pub fn is_space_exec(c: char) -> (r: bool)
    ensures
        r == is_space(c),
{
    ('\u{9}' <= c && c <= '\u{d}') || c == ' ' || c == '\u{85}' || c == '\u{a0}' || c == '\u{1680}'
        || ('\u{2000}' <= c && c <= '\u{200a}') || c == '\u{2028}' || c == '\u{2029}' || c == '\u{202f}'
        || c == '\u{205f}' || c == '\u{3000}'
}

/// Empty or only whitespace.
pub open spec fn is_blank(s: Seq<char>) -> bool {
    forall|i: int| 0 <= i < s.len() ==> is_space(#[trigger] s[i])
}

/// The colour in force after a line, given the colour in force before it.
pub open spec fn next_color(prev: Seq<char>, line: Seq<char>) -> Seq<char> {
    if is_blank(line) {
        reset_code()
    } else {
        match first_color(line) {
            Some(c) => c,
            None => prev,
        }
    }
}

/// The colour in force after each line, starting from the reset colour.
pub open spec fn tracked_colors(lines: Seq<Seq<char>>) -> Seq<Seq<char>>
    decreases lines.len(),
{
    if lines.len() == 0 {
        Seq::empty()
    } else {
        let init = tracked_colors(lines.drop_last());
        let prev = if init.len() == 0 {
            reset_code()
        } else {
            init.last()
        };
        init.push(next_color(prev, lines.last()))
    }
}

fn is_digit_exec(c: char) -> (r: bool)
    ensures
        r == is_digit(c),
{
    '0' <= c && c <= '9'
}

fn param_run_exec(s: &Vec<char>, j: usize) -> (r: usize)
    requires
        j <= s.len(),
    ensures
        r == param_run(s@, j as int),
        j + r <= s.len(),
{
    let mut k: usize = j;
    while k < s.len() && (is_digit_exec(s[k]) || s[k] == ';')
        invariant
            j <= k <= s.len(),
            (k - j) + param_run(s@, k as int) == param_run(s@, j as int),
        decreases s.len() - k,
    {
        k = k + 1;
    }
    k - j
}

fn digit_run_exec(s: &Vec<char>, j: usize) -> (r: usize)
    requires
        j <= s.len(),
    ensures
        r == digit_run(s@, j as int),
        j + r <= s.len(),
{
    let mut k: usize = j;
    while k < s.len() && is_digit_exec(s[k])
        invariant
            j <= k <= s.len(),
            (k - j) + digit_run(s@, k as int) == digit_run(s@, j as int),
        decreases s.len() - k,
    {
        k = k + 1;
    }
    k - j
}

pub fn sgr_len_exec(s: &Vec<char>, i: usize) -> (r: usize)
    requires
        i <= s.len(),
    ensures
        r == sgr_len(s@, i as int),
        i + r <= s.len(),
{
    if i < s.len() && i + 1 < s.len() && s[i] == ESC && s[i + 1] == '[' {
        let k = i + 2 + param_run_exec(s, i + 2);
        if k < s.len() && s[k] == 'm' {
            k + 1 - i
        } else {
            0
        }
    } else {
        0
    }
}

pub fn color_len_exec(s: &Vec<char>, i: usize) -> (r: usize)
    requires
        i <= s.len(),
    ensures
        r == color_len(s@, i as int),
        i + r <= s.len(),
{
    if i < s.len() && i + 1 < s.len() && s[i] == ESC && s[i + 1] == '[' {
        let d1 = digit_run_exec(s, i + 2);
        if d1 == 0 {
            return 0;
        }
        let k = i + 2 + d1;
        if k < s.len() && s[k] == 'm' {
            k + 1 - i
        } else if k < s.len() && s[k] == ';' {
            let d2 = digit_run_exec(s, k + 1);
            let k2 = k + 1 + d2;
            if d2 > 0 && k2 < s.len() && s[k2] == 'm' {
                k2 + 1 - i
            } else {
                0
            }
        } else {
            0
        }
    } else {
        0
    }
}

/// `s` with every escape sequence removed.
pub fn strip_ansi_chars(s: &Vec<char>) -> (r: Vec<char>)
    ensures
        r@ == strip_ansi(s@),
{
    let mut out: Vec<char> = Vec::new();
    let mut i: usize = 0;
    while i < s.len()
        invariant
            i <= s.len(),
            out@ + strip_from(s@, i as int) == strip_ansi(s@),
        decreases s.len() - i,
    {
        let k = sgr_len_exec(s, i);
        if k > 0 {
            i = i + k;
        } else {
            assert(strip_from(s@, i as int) == seq![s@[i as int]] + strip_from(s@, i + 1));
            assert(out@.push(s@[i as int]) + strip_from(s@, i + 1) == out@ + strip_from(
                s@,
                i as int,
            ));
            out.push(s[i]);
            i = i + 1;
        }
    }
    assert(out@ + strip_from(s@, i as int) == out@);
    out
}

/// The line with every ANSI escape sequence (`ESC [ {digit or ;}* m`) removed.
pub fn strip_ansi_codes(line: &str) -> (r: String)
    ensures
        r@ == strip_ansi(line@),
{
    let chars = chars_of(line);
    let stripped = strip_ansi_chars(&chars);
    string_of(&stripped)
}

/// The first colour escape in `s`, if there is one.
pub fn first_color_exec(s: &Vec<char>) -> (r: Option<Vec<char>>)
    ensures
        match r {
            Some(c) => first_color(s@) == Some(c@),
            None => first_color(s@) is None,
        },
{
    let mut i: usize = 0;
    while i < s.len()
        invariant
            i <= s.len(),
            first_color_from(s@, i as int) == first_color(s@),
        decreases s.len() - i,
    {
        let k = color_len_exec(s, i);
        if k > 0 {
            let mut c: Vec<char> = Vec::new();
            let mut j: usize = i;
            while j < i + k
                invariant
                    i <= j <= i + k,
                    i + k <= s.len(),
                    c@ == s@.subrange(i as int, j as int),
                decreases i + k - j,
            {
                c.push(s[j]);
                j = j + 1;
            }
            return Some(c);
        }
        i = i + 1;
    }
    None
}

fn is_blank_exec(s: &Vec<char>) -> (r: bool)
    ensures
        r == is_blank(s@),
{
    let mut i: usize = 0;
    while i < s.len()
        invariant
            i <= s.len(),
            forall|j: int| 0 <= j < i ==> is_space(#[trigger] s@[j]),
        decreases s.len() - i,
    {
        if !is_space_exec(s[i]) {
            return false;
        }
        i = i + 1;
    }
    true
}

/// The colour in force after each line, as `tracked_colors` gives it.
pub fn track_colors(lines: &Vec<Vec<char>>) -> (r: Vec<Vec<char>>)
    ensures
        views(r@) == tracked_colors(views(lines@)),
        r@.len() == lines@.len(),
{
    let mut out: Vec<Vec<char>> = Vec::new();
    let mut current = reset_chars();
    let mut i: usize = 0;
    while i < lines.len()
        invariant
            i <= lines.len(),
            views(out@) == tracked_colors(views(lines@).take(i as int)),
            out@.len() == i,
            current@ == if i == 0 {
                reset_code()
            } else {
                out@.last()@
            },
        decreases lines.len() - i,
    {
        assert(views(lines@).take(i + 1).drop_last() == views(lines@).take(i as int));
        let line = &lines[i];
        if is_blank_exec(line) {
            current = reset_chars();
        } else {
            match first_color_exec(line) {
                Some(c) => {
                    current = c;
                },
                None => {},
            }
        }
        out.push(current.clone());
        assert(out@.last()@ == current@);
        i = i + 1;
    }
    assert(views(lines@).take(lines.len() as int) == views(lines@));
    out
}

/// For each line, the colour escape in force after it: a blank line resets the colour, a
/// line with a colour escape sets the first one it holds, any other line keeps the colour
/// of the line before (the first line starts from the reset colour).
pub fn store_colors(prettified: &Vec<String>) -> (r: Vec<String>)
    ensures
        r@.len() == prettified@.len(),
        forall|i: int|
            0 <= i < r@.len() ==> #[trigger] r@[i]@ == tracked_colors(
                prettified@.map_values(|l: String| l@),
            )[i],
{
    let mut lines: Vec<Vec<char>> = Vec::new();
    let mut i: usize = 0;
    while i < prettified.len()
        invariant
            i <= prettified.len(),
            lines@.len() == i,
            forall|k: int| 0 <= k < i ==> #[trigger] lines@[k]@ == prettified@[k]@,
        decreases prettified.len() - i,
    {
        lines.push(chars_of(prettified[i].as_str()));
        i = i + 1;
    }
    assert(views(lines@) =~= prettified@.map_values(|l: String| l@));
    let colors = track_colors(&lines);
    let mut out: Vec<String> = Vec::new();
    let mut j: usize = 0;
    while j < colors.len()
        invariant
            j <= colors.len(),
            colors@.len() == prettified@.len(),
            views(colors@) == tracked_colors(prettified@.map_values(|l: String| l@)),
            out@.len() == j,
            forall|k: int| 0 <= k < j ==> #[trigger] out@[k]@ == colors@[k]@,
        decreases colors.len() - j,
    {
        out.push(string_of(&colors[j]));
        j = j + 1;
    }
    proof {
        assert forall|k: int| 0 <= k < out@.len() implies #[trigger] out@[k]@ == tracked_colors(
            prettified@.map_values(|l: String| l@),
        )[k] by {
            assert(views(colors@)[k] == colors@[k]@);
        }
    }
    out
}

} // verus!
