//! The layout engine: alignment directives, line highlighting, the box, and horizontal and
//! vertical centring, with the scroll bounds of the result.

use vstd::prelude::*;
use crate::ansi::{color_len, digit_run, first_color_from, next_color, reset_chars, reset_code, strip_ansi, strip_ansi_chars, track_colors, tracked_colors};
use crate::measure::{
    display_width, replace_char, replace_char_exec, visible, visible_exec, width_of,
    directives_removed, directives_removed_exec, inline_directive_at, inline_directive_at_exec,
    line_width, line_width_exec, longest_line_chars, max_width,
};
use crate::style::{flag_error, flag_of, lookup, StyleConfig, StyleError};
use crate::paint::{fg_bg_params, fg_params, paint, paint_fg, paint_fg_bg};
use crate::text::{
    chars_of, extend, has_no_newline, lines_exec, lines_of, split_lines, split_lines_exec, string_of,
    terminate_lines, terminate_lines_exec, views, NEWLINE,
};

verus! {

/// A foreground colour name, with a background colour name or none.
pub struct ColorPair {
    pub fg: String,
    pub bg: Option<String>,
}

/// The escape parameters that paint in a colour pair.
pub open spec fn pair_params(p: ColorPair) -> Seq<char> {
    match p.bg {
        Some(b) => fg_bg_params(p.fg@, b@),
        None => fg_params(p.fg@),
    }
}

pub fn paint_pair(t: &Vec<char>, p: &ColorPair) -> (r: Vec<char>)
    ensures
        r@ == paint(t@, pair_params(*p)),
{
    match &p.bg {
        Some(b) => paint_fg_bg(t, p.fg.as_str(), b.as_str()),
        None => paint_fg(t, p.fg.as_str()),
    }
}

pub open spec fn spaces(n: nat) -> Seq<char> {
    Seq::new(n, |i: int| ' ')
}

pub open spec fn dashes(n: nat) -> Seq<char> {
    Seq::new(n, |i: int| '-')
}

pub fn repeat_char(c: char, n: usize) -> (r: Vec<char>)
    ensures
        r@ == Seq::new(n as nat, |i: int| c),
{
    let mut out: Vec<char> = Vec::new();
    let mut i: usize = 0;
    while i < n
        invariant
            i <= n,
            out@ == Seq::new(i as nat, |k: int| c),
        decreases n - i,
    {
        out.push(c);
        i = i + 1;
        assert(out@ =~= Seq::new(i as nat, |k: int| c));
    }
    out
}

/// Whether a line is a rule marker that is stretched to the widest line.
pub open spec fn rule_kind(l: Seq<char>) -> int {
    if l == seq!['-', '-', '-'] {
        1
    } else if l == seq!['*', '*', '*'] || l == seq!['_', '_', 'i', '_'] {
        2
    } else {
        0
    }
}

/// A rule marker stretched to `width`: `---` becomes `width` dashes, the other markers are
/// followed by them; any other line stays as it is.
pub open spec fn rule_line(l: Seq<char>, width: nat) -> Seq<char> {
    if rule_kind(l) == 1 {
        dashes(width)
    } else if rule_kind(l) == 2 {
        l + dashes(width)
    } else {
        l
    }
}

fn rule_kind_exec(l: &Vec<char>) -> (r: u8)
    ensures
        r as int == rule_kind(l@),
{
    if l.len() == 3 && l[0] == '-' && l[1] == '-' && l[2] == '-' {
        assert(l@ =~= seq!['-', '-', '-']);
        1
    } else if (l.len() == 3 && l[0] == '*' && l[1] == '*' && l[2] == '*') || (l.len() == 4 && l[0]
        == '_' && l[1] == '_' && l[2] == 'i' && l[3] == '_') {
        if l.len() == 3 {
            assert(l@ =~= seq!['*', '*', '*']);
        } else {
            assert(l@ =~= seq!['_', '_', 'i', '_']);
        }
        2
    } else {
        proof {
            if l@ == seq!['-', '-', '-'] {
                assert(l@[0] == '-' && l@[1] == '-' && l@[2] == '-');
            }
            if l@ == seq!['*', '*', '*'] {
                assert(l@[0] == '*' && l@[1] == '*' && l@[2] == '*');
            }
            if l@ == seq!['_', '_', 'i', '_'] {
                assert(l@[0] == '_' && l@[1] == '_' && l@[2] == 'i' && l@[3] == '_');
            }
        }
        0
    }
}

/// The padding that aligns a line of width `w` within `width`: half the difference to
/// centre, all of it to the right, none to the left.
pub open spec fn gap(width: nat, w: nat, a: char) -> nat {
    if width < w {
        0
    } else if a == 'c' {
        ((width - w) / 2) as nat
    } else if a == 'r' {
        (width - w) as nat
    } else {
        0
    }
}

/// A line aligned by `a` within `width`: a reset and the padding before it, except for `l`.
pub open spec fn pad_line(l: Seq<char>, a: char, width: nat) -> Seq<char> {
    if a == 'c' || a == 'r' {
        reset_code() + spaces(gap(width, line_width(l, true), a)) + l
    } else {
        l
    }
}

/// Whether a block directive `$[c]`, `$[l]` or `$[r]` starts at `i`.
pub open spec fn block_directive_at(s: Seq<char>, i: int) -> bool {
    0 <= i && i + 4 <= s.len() && s[i] == '$' && s[i + 1] == '[' && (s[i + 2] == 'c' || s[i + 2]
        == 'l' || s[i + 2] == 'r') && s[i + 3] == ']'
}

/// Whether the end marker `$[e]` starts at `i`.
pub open spec fn end_marker_at(s: Seq<char>, i: int) -> bool {
    0 <= i && i + 4 <= s.len() && s[i] == '$' && s[i + 1] == '[' && s[i + 2] == 'e' && s[i + 3]
        == ']'
}

/// The first position from `i` on where an inline directive starts.
pub open spec fn first_inline_from(s: Seq<char>, i: int) -> Option<int>
    decreases s.len() - i,
{
    if i < 0 || i >= s.len() {
        None
    } else if inline_directive_at(s, i) {
        Some(i)
    } else {
        first_inline_from(s, i + 1)
    }
}

/// The first position from `i` on where a block directive starts.
pub open spec fn first_block_from(s: Seq<char>, i: int) -> Option<int>
    decreases s.len() - i,
{
    if i < 0 || i >= s.len() {
        None
    } else if block_directive_at(s, i) {
        Some(i)
    } else {
        first_block_from(s, i + 1)
    }
}

/// Whether an end marker starts anywhere from `i` on.
pub open spec fn has_end_from(s: Seq<char>, i: int) -> bool
    decreases s.len() - i,
{
    if i < 0 || i >= s.len() {
        false
    } else {
        end_marker_at(s, i) || has_end_from(s, i + 1)
    }
}

/// The first line from `j` on that holds an end marker, or the number of lines.
pub open spec fn block_end(ls: Seq<Seq<char>>, j: int) -> int
    decreases ls.len() - j,
{
    if j < 0 || j >= ls.len() {
        ls.len() as int
    } else if has_end_from(ls[j], 0) {
        j
    } else {
        block_end(ls, j + 1)
    }
}

/// The lines from `i` on with their alignment directives applied: a line with an inline
/// directive is aligned alone and loses its directives; a line with a block directive is
/// dropped and every line up to the next end marker is aligned; the end marker line is
/// dropped too.
pub open spec fn align_from(ls: Seq<Seq<char>>, i: int, width: nat) -> Seq<Seq<char>>
    decreases ls.len() + 1 - i,
{
    if i < 0 || i >= ls.len() {
        Seq::empty()
    } else {
        match first_inline_from(ls[i], 0) {
            Some(p) => seq![pad_line(directives_removed(ls[i]), ls[i][p + 2], width)] + align_from(
                ls,
                i + 1,
                width,
            ),
            None => match first_block_from(ls[i], 0) {
                Some(p) => {
                    let e = block_end(ls, i + 1);
                    if e < i + 1 || e > ls.len() {
                        Seq::empty()
                    } else {
                        ls.subrange(i + 1, e).map_values(|l: Seq<char>| pad_line(l, ls[i][p + 2], width))
                            + align_from(ls, e + 1, width)
                    }
                },
                None => seq![ls[i]] + align_from(ls, i + 1, width),
            },
        }
    }
}

/// The lines of a buffer with rule markers stretched and the highlighted line (counted from
/// the end, where `h > 0` and there are more than `h` lines) repainted without its own
/// escapes.
pub open spec fn prepared_lines(ls: Seq<Seq<char>>, width: nat, h: nat, hl: Seq<char>) -> Seq<Seq<char>> {
    let stretched = ls.map_values(|l: Seq<char>| rule_line(l, width));
    if h > 0 && stretched.len() > h {
        let idx = stretched.len() - h;
        stretched.update(idx, paint(strip_ansi(stretched[idx]), hl))
    } else {
        stretched
    }
}

/// The widest line of a buffer, as alignment measures it.
pub open spec fn longest(p: Seq<char>) -> nat {
    max_width(split_lines(directives_removed(p)), true)
}

/// What custom alignment makes of a buffer: each resulting line followed by a newline.
pub open spec fn custom_aligned(p: Seq<char>, h: nat, hl: Seq<char>) -> Seq<char> {
    terminate_lines(align_from(prepared_lines(lines_of(p), longest(p), h, hl), 0, longest(p)))
}

fn first_inline_exec(s: &Vec<char>) -> (r: Option<usize>)
    ensures
        match r {
            Some(p) => first_inline_from(s@, 0) == Some(p as int) && p + 5 <= s.len(),
            None => first_inline_from(s@, 0) is None,
        },
{
    let mut i: usize = 0;
    while i < s.len()
        invariant
            i <= s.len(),
            first_inline_from(s@, i as int) == first_inline_from(s@, 0),
        decreases s.len() - i,
    {
        if inline_directive_at_exec(s, i) {
            return Some(i);
        }
        i = i + 1;
    }
    None
}

fn block_directive_at_exec(s: &Vec<char>, i: usize) -> (r: bool)
    ensures
        r == block_directive_at(s@, i as int),
{
    i < s.len() && s.len() - i >= 4 && s[i] == '$' && s[i + 1] == '[' && (s[i + 2] == 'c' || s[i
        + 2] == 'l' || s[i + 2] == 'r') && s[i + 3] == ']'
}

fn first_block_exec(s: &Vec<char>) -> (r: Option<usize>)
    ensures
        match r {
            Some(p) => first_block_from(s@, 0) == Some(p as int) && p + 4 <= s.len(),
            None => first_block_from(s@, 0) is None,
        },
{
    let mut i: usize = 0;
    while i < s.len()
        invariant
            i <= s.len(),
            first_block_from(s@, i as int) == first_block_from(s@, 0),
        decreases s.len() - i,
    {
        if block_directive_at_exec(s, i) {
            return Some(i);
        }
        i = i + 1;
    }
    None
}

fn has_end_exec(s: &Vec<char>) -> (r: bool)
    ensures
        r == has_end_from(s@, 0),
{
    let mut i: usize = 0;
    while i < s.len()
        invariant
            i <= s.len(),
            has_end_from(s@, i as int) == has_end_from(s@, 0),
        decreases s.len() - i,
    {
        if s.len() - i >= 4 && s[i] == '$' && s[i + 1] == '[' && s[i + 2] == 'e' && s[i + 3] == ']' {
            return true;
        }
        i = i + 1;
    }
    false
}

fn pad_line_exec(l: &Vec<char>, a: char, width: usize) -> (r: Vec<char>)
    ensures
        r@ == pad_line(l@, a, width as nat),
{
    if a == 'c' || a == 'r' {
        let w = line_width_exec(l, true);
        let n: usize = if width < w {
            0
        } else if a == 'c' {
            (width - w) / 2
        } else {
            width - w
        };
        let mut out = reset_chars();
        let sp = repeat_char(' ', n);
        extend(&mut out, &sp);
        extend(&mut out, l);
        out
    } else {
        l.clone()
    }
}

fn prepare_lines_exec(ls: &Vec<Vec<char>>, width: usize, h: u32, hl: &ColorPair) -> (r: Vec<Vec<char>>)
    ensures
        views(r@) == prepared_lines(views(ls@), width as nat, h as nat, pair_params(*hl)),
{
    let mut out: Vec<Vec<char>> = Vec::new();
    let mut i: usize = 0;
    while i < ls.len()
        invariant
            i <= ls.len(),
            out@.len() == i,
            forall|k: int| 0 <= k < i ==> #[trigger] out@[k]@ == rule_line(ls@[k]@, width as nat),
        decreases ls.len() - i,
    {
        let kind = rule_kind_exec(&ls[i]);
        if kind == 1 {
            out.push(repeat_char('-', width));
        } else if kind == 2 {
            let mut l = ls[i].clone();
            assert(l@ =~= ls@[i as int]@);
            let d = repeat_char('-', width);
            extend(&mut l, &d);
            out.push(l);
        } else {
            let l = ls[i].clone();
            assert(l@ =~= ls@[i as int]@);
            out.push(l);
        }
        i = i + 1;
    }
    let ghost stretched = views(ls@).map_values(|l: Seq<char>| rule_line(l, width as nat));
    assert(views(out@) =~= stretched);
    if h > 0 && out.len() > h as usize {
        let idx = out.len() - h as usize;
        let stripped = strip_ansi_chars(&out[idx]);
        let painted = paint_pair(&stripped, hl);
        out.set(idx, painted);
        assert(views(out@) =~= stretched.update(idx as int, paint(strip_ansi(stretched[idx as int]), pair_params(*hl))));
    }
    out
}

fn align_lines_exec(ls: &Vec<Vec<char>>, width: usize) -> (r: Vec<Vec<char>>)
    ensures
        views(r@) == align_from(views(ls@), 0, width as nat),
{
    let ghost all = views(ls@);
    let mut out: Vec<Vec<char>> = Vec::new();
    let mut i: usize = 0;
    while i < ls.len()
        invariant
            i <= ls.len(),
            all == views(ls@),
            views(out@) + align_from(all, i as int, width as nat) == align_from(all, 0, width as nat),
        decreases ls.len() - i,
    {
        let ghost before = views(out@);
        let line = &ls[i];
        match first_inline_exec(line) {
            Some(p) => {
                let cleaned = directives_removed_exec(line);
                let padded = pad_line_exec(&cleaned, line[p + 2], width);
                out.push(padded);
                assert(views(out@) =~= before.push(padded@));
                assert(views(out@) + align_from(all, i + 1, width as nat) =~= before + align_from(all, i as int, width as nat));
                i = i + 1;
            },
            None => match first_block_exec(line) {
                Some(p) => {
                    let a = line[p + 2];
                    let mut e: usize = i + 1;
                    while e < ls.len() && !has_end_exec(&ls[e])
                        invariant
                            i + 1 <= e <= ls.len(),
                            all == views(ls@),
                            block_end(all, e as int) == block_end(all, i + 1),
                        decreases ls.len() - e,
                    {
                        e = e + 1;
                    }
                    let ghost block = all.subrange(i + 1, e as int).map_values(|l: Seq<char>| pad_line(l, a, width as nat));
                    let mut k: usize = i + 1;
                    while k < e
                        invariant
                            i + 1 <= k <= e <= ls.len(),
                            all == views(ls@),
                            block == all.subrange(i + 1, e as int).map_values(|l: Seq<char>| pad_line(l, a, width as nat)),
                            views(out@) == before + block.take(k - (i + 1)),
                        decreases e - k,
                    {
                        let padded = pad_line_exec(&ls[k], a, width);
                        assert(all[k as int] == ls@[k as int]@);
                        assert(block[k - (i + 1)] == pad_line(all[k as int], a, width as nat));
                        let ghost prev = views(out@);
                        out.push(padded);
                        assert(views(out@) =~= prev.push(padded@));
                        assert(block.take(k + 1 - (i + 1)) =~= block.take(k - (i + 1)).push(block[k - (i + 1)]));
                        assert(views(out@) =~= before + block.take(k + 1 - (i + 1)));
                        k = k + 1;
                    }
                    assert(block.take(e - (i + 1)) == block);
                    assert(views(out@) + align_from(all, e + 1, width as nat) =~= before + align_from(all, i as int, width as nat));
                    i = if e < ls.len() { e + 1 } else { e };
                },
                None => {
                    let l = line.clone();
                    assert(l@ =~= all[i as int]);
                    out.push(l);
                    assert(views(out@) =~= before.push(all[i as int]));
                    assert(views(out@) + align_from(all, i + 1, width as nat) =~= before + align_from(all, i as int, width as nat));
                    i = i + 1;
                },
            },
        }
    }
    assert(views(out@) + align_from(all, i as int, width as nat) == views(out@));
    out
}

/// Applies the alignment directives of a buffer: rule markers stretched to the widest
/// line, the line `highlight_line_num` from the end (when it is above 0 and there are more
/// lines than that) repainted in the highlight colours, inline directives `$[c]$` `$[l]$`
/// `$[r]$` aligning their own line, block directives `$[c]` `$[l]` `$[r]` aligning each
/// line up to the next `$[e]` line; every resulting line ends with a newline.
pub fn align_custom(prettified: &str, highlight_line_num: u32, highlighter: &ColorPair) -> (r: String)
    ensures
        r@ == custom_aligned(prettified@, highlight_line_num as nat, pair_params(*highlighter)),
{
    let chars = crate::text::chars_of(prettified);
    let r = align_custom_chars(&chars, highlight_line_num, highlighter);
    crate::text::string_of(&r)
}

pub fn align_custom_chars(p: &Vec<char>, h: u32, hl: &ColorPair) -> (r: Vec<char>)
    ensures
        r@ == custom_aligned(p@, h as nat, pair_params(*hl)),
{
    let width = longest_line_chars(p, true);
    let lines = lines_exec(p);
    let prepared = prepare_lines_exec(&lines, width, h, hl);
    let aligned = align_lines_exec(&prepared, width);
    terminate_lines_exec(&aligned)
}


/// What a line shows inside the box: tabs as spaces, escapes and strike-through marks out.
pub open spec fn box_visible(line: Seq<char>) -> Seq<char> {
    visible(replace_char(line, '\t', ' '))
}

pub open spec fn box_line_width(line: Seq<char>) -> nat {
    display_width(box_visible(line))
}

/// The widest line of `ls` as the box measures it.
pub open spec fn box_width(ls: Seq<Seq<char>>) -> nat
    decreases ls.len(),
{
    if ls.len() == 0 {
        0
    } else {
        let m = box_width(ls.drop_last());
        let w = box_line_width(ls.last());
        if w > m {
            w
        } else {
            m
        }
    }
}

pub proof fn lemma_box_width_bounds(ls: Seq<Seq<char>>)
    ensures
        forall|i: int| 0 <= i < ls.len() ==> box_line_width(#[trigger] ls[i]) <= box_width(ls),
    decreases ls.len(),
{
    if ls.len() > 0 {
        lemma_box_width_bounds(ls.drop_last());
        assert forall|i: int| 0 <= i < ls.len() implies box_line_width(#[trigger] ls[i]) <= box_width(ls) by {
            if i < ls.len() - 1 {
                assert(ls.drop_last()[i] == ls[i]);
            }
        }
    }
}

/// The colour in force at line `i`, or the reset colour past the end of `colors`.
pub open spec fn color_at(colors: Seq<Seq<char>>, i: int) -> Seq<char> {
    if 0 <= i < colors.len() {
        colors[i]
    } else {
        reset_code()
    }
}

pub open spec fn horizontal_border(width: nat, left: char, right: char) -> Seq<char> {
    seq![left] + Seq::new(width + 4, |i: int| '─') + seq![right]
}

/// One line inside the box: the left border, a reset, the line's colour, the line, a reset,
/// the padding that brings it to `width`, the right border.
pub open spec fn box_row(line: Seq<char>, color: Seq<char>, width: nat) -> Seq<char> {
    seq!['│', ' ', ' '] + reset_code() + color + line + reset_code() + spaces(box_pad(line, width))
        + seq![' ', ' ', '│']
}

/// The spaces that bring a line to `width` inside the box.
pub open spec fn box_pad(line: Seq<char>, width: nat) -> nat {
    if box_line_width(line) <= width {
        (width - box_line_width(line)) as nat
    } else {
        0
    }
}

/// The widest line, held where the border's length would no longer fit in a `usize`.
pub open spec fn box_cap(ls: Seq<Seq<char>>) -> nat {
    if box_width(ls) <= usize::MAX - 8 {
        box_width(ls)
    } else {
        (usize::MAX - 8) as nat
    }
}

pub open spec fn box_rows(ls: Seq<Seq<char>>, colors: Seq<Seq<char>>, width: nat) -> Seq<Seq<char>> {
    Seq::new(ls.len(), |i: int| box_row(ls[i], color_at(colors, i), width))
}

/// The content (split at every newline) inside a box as wide as its widest line plus
/// padding; each line painted again in its colour after the border.
pub open spec fn boxed(content: Seq<char>, colors: Seq<Seq<char>>) -> Seq<char> {
    let ls = split_lines(content);
    let w = box_cap(ls);
    terminate_lines(
        seq![horizontal_border(w, '┌', '┐')] + box_rows(ls, colors, w) + seq![horizontal_border(w, '└', '┘')],
    )
}

fn border_exec(width: usize, left: char, right: char) -> (r: Vec<char>)
    requires
        width + 4 <= usize::MAX,
    ensures
        r@ == horizontal_border(width as nat, left, right),
{
    let mut out: Vec<char> = Vec::new();
    out.push(left);
    let line = repeat_char('─', width + 4);
    extend(&mut out, &line);
    out.push(right);
    assert(out@ =~= horizontal_border(width as nat, left, right));
    out
}

pub fn boxed_chars(content: &Vec<char>, colors: &Vec<Vec<char>>) -> (r: Vec<char>)
    ensures
        r@ == boxed(content@, views(colors@)),
{
    let lines = split_lines_exec(content);
    let ghost ls = views(lines@);
    let mut widths: Vec<usize> = Vec::new();
    let mut m: usize = 0;
    let mut i: usize = 0;
    while i < lines.len()
        invariant
            i <= lines.len(),
            ls == views(lines@),
            widths@.len() == i,
            forall|k: int| 0 <= k < i ==> #[trigger] widths@[k] == box_line_width(ls[k]),
            m == box_width(ls.take(i as int)),
        decreases lines.len() - i,
    {
        assert(ls.take(i + 1).drop_last() == ls.take(i as int));
        let tabless = replace_char_exec(&lines[i], '\t', ' ');
        let v = visible_exec(&tabless);
        let w = width_of(&v);
        widths.push(w);
        if w > m {
            m = w;
        }
        i = i + 1;
    }
    assert(ls.take(lines.len() as int) == ls);
    proof {
        lemma_box_width_bounds(ls);
    }
    if m > usize::MAX - 8 {
        m = usize::MAX - 8;
    }
    let mut rows: Vec<Vec<char>> = Vec::new();
    rows.push(border_exec(m, '┌', '┐'));
    let mut j: usize = 0;
    while j < lines.len()
        invariant
            j <= lines.len(),
            ls == views(lines@),
            widths@.len() == lines@.len(),
            forall|k: int| 0 <= k < lines@.len() ==> #[trigger] widths@[k] == box_line_width(ls[k]),
            m == box_cap(ls),
            rows@.len() == j + 1,
            rows@[0]@ == horizontal_border(m as nat, '┌', '┐'),
            forall|k: int| 0 <= k < j ==> #[trigger] rows@[k + 1]@ == box_row(ls[k], color_at(views(colors@), k), m as nat),
        decreases lines.len() - j,
    {
        let mut row: Vec<char> = Vec::new();
        row.push('│');
        row.push(' ');
        row.push(' ');
        let reset = reset_chars();
        extend(&mut row, &reset);
        if j < colors.len() {
            extend(&mut row, &colors[j]);
        } else {
            extend(&mut row, &reset);
        }
        extend(&mut row, &lines[j]);
        extend(&mut row, &reset);
        let pad = if widths[j] <= m {
            m - widths[j]
        } else {
            0
        };
        let sp = repeat_char(' ', pad);
        extend(&mut row, &sp);
        row.push(' ');
        row.push(' ');
        row.push('│');
        assert(row@ =~= box_row(ls[j as int], color_at(views(colors@), j as int), m as nat));
        rows.push(row);
        j = j + 1;
    }
    rows.push(border_exec(m, '└', '┘'));
    let ghost expected = seq![horizontal_border(m as nat, '┌', '┐')] + box_rows(ls, views(colors@), m as nat)
        + seq![horizontal_border(m as nat, '└', '┘')];
    assert forall|k: int| 0 <= k < expected.len() implies #[trigger] views(rows@)[k] == expected[k] by {
        if 1 <= k <= lines@.len() {
            let k1 = k - 1;
            assert(rows@[k1 + 1]@ == box_row(ls[k1], color_at(views(colors@), k1), m as nat));
        }
    }
    assert(views(rows@) =~= expected);
    terminate_lines_exec(&rows)
}


/// The left padding that centres a buffer in a terminal `term_width` columns wide.
pub open spec fn h_blank(p: Seq<char>, term_width: nat, right: bool) -> nat {
    let l = max_width(split_lines(directives_removed(p)), !right);
    if term_width > l {
        ((term_width - l) / 2) as nat
    } else {
        0
    }
}

pub open spec fn h_row(line: Seq<char>, color: Seq<char>, blank: nat) -> Seq<char> {
    spaces(blank) + color + line + reset_code()
}

/// The buffer centred horizontally: each line after the padding, in its colour, then a
/// reset; unchanged where no padding is needed.
pub open spec fn h_aligned(p: Seq<char>, term_width: nat, colors: Seq<Seq<char>>, right: bool) -> Seq<char> {
    let b = h_blank(p, term_width, right);
    let ls = lines_of(p);
    if b > 0 {
        terminate_lines(Seq::new(ls.len(), |i: int| h_row(ls[i], color_at(colors, i), b)))
    } else {
        p
    }
}

pub fn h_aligned_chars(p: &Vec<char>, term_width: u16, colors: &Vec<Vec<char>>, right: bool) -> (r: Vec<char>)
    ensures
        r@ == h_aligned(p@, term_width as nat, views(colors@), right),
{
    let l = longest_line_chars(p, !right);
    let b: usize = if (term_width as usize) > l {
        (term_width as usize - l) / 2
    } else {
        0
    };
    if b == 0 {
        return p.clone();
    }
    let lines = lines_exec(p);
    let ghost ls = views(lines@);
    let mut rows: Vec<Vec<char>> = Vec::new();
    let mut i: usize = 0;
    while i < lines.len()
        invariant
            i <= lines.len(),
            ls == views(lines@),
            b == h_blank(p@, term_width as nat, right),
            rows@.len() == i,
            forall|k: int| 0 <= k < i ==> #[trigger] rows@[k]@ == h_row(ls[k], color_at(views(colors@), k), b as nat),
        decreases lines.len() - i,
    {
        let mut row = repeat_char(' ', b);
        if i < colors.len() {
            extend(&mut row, &colors[i]);
        } else {
            let reset = reset_chars();
            extend(&mut row, &reset);
        }
        extend(&mut row, &lines[i]);
        let reset = reset_chars();
        extend(&mut row, &reset);
        assert(row@ =~= h_row(ls[i as int], color_at(views(colors@), i as int), b as nat));
        rows.push(row);
        i = i + 1;
    }
    assert(views(rows@) =~= Seq::new(ls.len(), |k: int| h_row(ls[k], color_at(views(colors@), k), b as nat)));
    terminate_lines_exec(&rows)
}

/// Pads every line of the buffer on the left so that its widest line sits in the middle of a
/// terminal `width` columns wide, painting each line again in the colour in force at it.
pub fn align_horizontal(prettified: &str, width: u16, line_color_map: &Vec<String>, right_alignment: bool) -> (r: String)
    ensures
        r@ == h_aligned(prettified@, width as nat, line_color_map@.map_values(|c: String| c@), right_alignment),
{
    let p = chars_of(prettified);
    let mut colors: Vec<Vec<char>> = Vec::new();
    let mut i: usize = 0;
    while i < line_color_map.len()
        invariant
            i <= line_color_map.len(),
            colors@.len() == i,
            forall|k: int| 0 <= k < i ==> #[trigger] colors@[k]@ == line_color_map@[k]@,
        decreases line_color_map.len() - i,
    {
        colors.push(chars_of(line_color_map[i].as_str()));
        i = i + 1;
    }
    assert(views(colors@) =~= line_color_map@.map_values(|c: String| c@));
    let r = h_aligned_chars(&p, width, &colors, right_alignment);
    string_of(&r)
}

pub open spec fn newlines(n: nat) -> Seq<char> {
    Seq::new(n, |i: int| NEWLINE)
}

/// The blank lines that centre a buffer in a terminal `height` lines high.
pub open spec fn v_blank(p: Seq<char>, height: nat) -> nat {
    let n = lines_of(p).len();
    if height > n {
        ((height - n) / 2) as nat
    } else {
        0
    }
}

/// The buffer centred vertically: the blank lines go before it, or after it for terminals
/// that scroll the other way.
pub open spec fn v_aligned(p: Seq<char>, height: nat, below: bool) -> Seq<char> {
    if below {
        p + newlines(v_blank(p, height))
    } else {
        newlines(v_blank(p, height)) + p
    }
}

fn v_blank_exec(p: &Vec<char>, height: u16) -> (r: usize)
    ensures
        r == v_blank(p@, height as nat),
        r <= height,
{
    let lines = lines_exec(p);
    let n = lines.len();
    if (height as usize) > n {
        (height as usize - n) / 2
    } else {
        0
    }
}

fn v_aligned_chars(p: &Vec<char>, height: u16, below: bool) -> (r: Vec<char>)
    ensures
        r@ == v_aligned(p@, height as nat, below),
{
    let b = v_blank_exec(p, height);
    let blank = repeat_char(NEWLINE, b);
    if below {
        let mut out = p.clone();
        assert(out@ =~= p@);
        extend(&mut out, &blank);
        out
    } else {
        let mut out = blank;
        extend(&mut out, p);
        out
    }
}

/// Adds the blank lines that centre the buffer vertically in a terminal `height` lines
/// high (before the buffer, or after it where `below`), and raises both scroll bounds by
/// their number.
pub fn align_vertical(
    prettified: &str,
    height: u16,
    below: bool,
    upper_bound: &mut usize,
    lower_bound: &mut usize,
) -> (r: String)
    requires
        *old(upper_bound) + height <= usize::MAX,
        *old(lower_bound) + height <= usize::MAX,
    ensures
        r@ == v_aligned(prettified@, height as nat, below),
        *final(upper_bound) == *old(upper_bound) + v_blank(prettified@, height as nat),
        *final(lower_bound) == *old(lower_bound) + v_blank(prettified@, height as nat),
{
    let p = chars_of(prettified);
    let b = v_blank_exec(&p, height);
    *upper_bound = *upper_bound + b;
    *lower_bound = *lower_bound + b;
    let r = v_aligned_chars(&p, height, below);
    string_of(&r)
}

/// How a slide is laid out, read from the style configuration.
pub struct LayoutOptions {
    pub boxed: bool,
    pub horizontal_alignment: bool,
    pub vertical_alignment: bool,
    /// Vertical padding goes after the content (terminals that scroll the other way).
    pub content_below: bool,
    pub highlighter: ColorPair,
}

/// The first position from `i` on where ` on ` starts.
pub open spec fn first_on_from(v: Seq<char>, i: int) -> Option<int>
    decreases v.len() - i,
{
    if i < 0 || i + 4 > v.len() {
        None
    } else if v.subrange(i, i + 4) == seq![' ', 'o', 'n', ' '] {
        Some(i)
    } else {
        first_on_from(v, i + 1)
    }
}

/// A colour setting `fg on bg`, or a foreground alone.
pub open spec fn pair_of(v: Seq<char>) -> (Seq<char>, Option<Seq<char>>) {
    match first_on_from(v, 0) {
        Some(i) => (v.take(i), Some(v.skip(i + 4))),
        None => (v, None),
    }
}

pub fn color_pair(v: &String) -> (r: ColorPair)
    ensures
        (r.fg@, match r.bg { Some(b) => Some(b@), None => None }) == pair_of(v@),
{
    let c = chars_of(v.as_str());
    let mut i: usize = 0;
    while i < c.len() && c.len() - i >= 4
        invariant
            i <= c.len(),
            c@ == v@,
            first_on_from(c@, i as int) == first_on_from(c@, 0),
        decreases c.len() - i,
    {
        if c[i] == ' ' && c[i + 1] == 'o' && c[i + 2] == 'n' && c[i + 3] == ' ' {
            assert(c@.subrange(i as int, i + 4) =~= seq![' ', 'o', 'n', ' ']);
            let mut fg: Vec<char> = Vec::new();
            let mut bg: Vec<char> = Vec::new();
            let mut k: usize = 0;
            while k < c.len()
                invariant
                    i + 4 <= c.len(),
                    k <= c.len(),
                    fg@ == c@.take(if k < i { k as int } else { i as int }),
                    bg@ == if k < i + 4 { Seq::<char>::empty() } else { c@.subrange(i + 4, k as int) },
                decreases c.len() - k,
            {
                if k < i {
                    fg.push(c[k]);
                } else if k >= i + 4 {
                    bg.push(c[k]);
                }
                k = k + 1;
                assert(fg@ =~= c@.take(if k < i { k as int } else { i as int }));
                assert(bg@ =~= if k < i + 4 { Seq::<char>::empty() } else { c@.subrange(i + 4, k as int) });
            }
            assert(bg@ =~= c@.skip(i + 4));
            return ColorPair { fg: string_of(&fg), bg: Some(string_of(&bg)) };
        } else {
            proof {
                if c@.subrange(i as int, i + 4) == seq![' ', 'o', 'n', ' '] {
                    assert(c@.subrange(i as int, i + 4)[0] == c@[i as int]);
                    assert(c@.subrange(i as int, i + 4)[1] == c@[i + 1]);
                    assert(c@.subrange(i as int, i + 4)[2] == c@[i + 2]);
                    assert(c@.subrange(i as int, i + 4)[3] == c@[i + 3]);
                }
            }
        }
        i = i + 1;
    }
    ColorPair { fg: v.clone(), bg: None }
}

impl LayoutOptions {
    /// The layout that a style configuration asks for: `Ok` where `box`,
    /// `horizontal_alignment` and `vertical_alignment` are each `true` or `false`; the
    /// highlight colours come from `highlighter` (black on white where it is not set);
    /// `terminal: warp` puts the vertical padding after the content.
    pub fn from_style(cfg: &StyleConfig) -> (r: Result<LayoutOptions, StyleError>)
        ensures
            match r {
                Ok(o) => flag_of(cfg@, "box"@) == Some(o.boxed)
                    && flag_of(cfg@, "horizontal_alignment"@) == Some(o.horizontal_alignment)
                    && flag_of(cfg@, "vertical_alignment"@) == Some(o.vertical_alignment)
                    && o.content_below == (lookup(cfg@, "terminal"@) == Some("warp"@))
                    && (o.highlighter.fg@, match o.highlighter.bg { Some(b) => Some(b@), None => None })
                        == pair_of(match lookup(cfg@, "highlighter"@) { Some(v) => v, None => "black on white"@ }),
                Err(e) => if flag_of(cfg@, "box"@) is None {
                    flag_error(cfg@, "box"@, e)
                } else if flag_of(cfg@, "horizontal_alignment"@) is None {
                    flag_error(cfg@, "horizontal_alignment"@, e)
                } else {
                    flag_of(cfg@, "vertical_alignment"@) is None && flag_error(cfg@, "vertical_alignment"@, e)
                },
            },
    {
        let boxed = match cfg.flag("box") {
            Ok(b) => b,
            Err(e) => return Err(e),
        };
        let horizontal_alignment = match cfg.flag("horizontal_alignment") {
            Ok(b) => b,
            Err(e) => return Err(e),
        };
        let vertical_alignment = match cfg.flag("vertical_alignment") {
            Ok(b) => b,
            Err(e) => return Err(e),
        };
        let content_below = match cfg.get("terminal") {
            Some(t) => crate::style::eq_str(&t, "warp"),
            None => false,
        };
        let hl = cfg.get_or("highlighter", "black on white");
        let highlighter = color_pair(&hl);
        Ok(LayoutOptions { boxed, horizontal_alignment, vertical_alignment, content_below, highlighter })
    }
}

/// A laid-out slide with the range of lines that scrolling may trim from it.
pub struct Rendered {
    pub text: String,
    pub upper_bound: usize,
    pub lower_bound: usize,
}

pub open spec fn stage_box(s: Seq<char>, o: LayoutOptions) -> Seq<char> {
    if o.boxed {
        boxed(s, tracked_colors(lines_of(s)))
    } else {
        s
    }
}

pub open spec fn stage_horizontal(s: Seq<char>, o: LayoutOptions, width: nat) -> Seq<char> {
    if o.horizontal_alignment {
        h_aligned(s, width, tracked_colors(lines_of(s)), false)
    } else {
        s
    }
}

/// The slide before vertical centring: aligned, boxed, centred horizontally as asked.
pub open spec fn pre_vertical(p: Seq<char>, o: LayoutOptions, h: nat, width: nat) -> Seq<char> {
    stage_horizontal(stage_box(custom_aligned(p, h, pair_params(o.highlighter)), o), o, width)
}

pub open spec fn vertical_blank(p: Seq<char>, o: LayoutOptions, h: nat, width: nat, height: nat) -> nat {
    if o.vertical_alignment {
        v_blank(pre_vertical(p, o, h, width), height)
    } else {
        0
    }
}

/// Text that ends with a newline; a newline is added where it does not.
pub open spec fn newline_ended(v: Seq<char>) -> Seq<char> {
    if v.len() > 0 && v.last() == NEWLINE {
        v
    } else {
        v.push(NEWLINE)
    }
}

/// The laid-out slide: custom alignment, then the box, horizontal and vertical centring as the
/// options ask, ending with a newline.
pub open spec fn laid_out(p: Seq<char>, o: LayoutOptions, h: nat, width: nat, height: nat) -> Seq<char> {
    let s = pre_vertical(p, o, h, width);
    let v = if o.vertical_alignment {
        v_aligned(s, height, o.content_below)
    } else {
        s
    };
    newline_ended(v)
}

fn colors_of(s: &Vec<char>) -> (r: Vec<Vec<char>>)
    ensures
        views(r@) == tracked_colors(lines_of(s@)),
{
    let lines = lines_exec(s);
    track_colors(&lines)
}

/// Lays out a styled slide. The upper scroll bound is the number of lines of the styled
/// slide, two more where it is boxed, and the vertical padding more; the lower bound is the
/// vertical padding.
pub fn align_content(prettified: &str, options: &LayoutOptions, highlight_line_num: u32, width: u16, height: u16) -> (r: Rendered)
    requires
        prettified@.len() + 65536 <= usize::MAX,
    ensures
        r.text@ == laid_out(prettified@, *options, highlight_line_num as nat, width as nat, height as nat),
        r.upper_bound == lines_of(prettified@).len() + (if options.boxed { 2nat } else { 0 })
            + vertical_blank(prettified@, *options, highlight_line_num as nat, width as nat, height as nat),
        r.lower_bound == vertical_blank(prettified@, *options, highlight_line_num as nat, width as nat, height as nat),
{
    let p = chars_of(prettified);
    let lines = lines_exec(&p);
    proof {
        crate::text::lemma_split_lines_shape(p@);
    }
    let mut upper: usize = lines.len();
    let mut lower: usize = 0;
    let mut s = align_custom_chars(&p, highlight_line_num, &options.highlighter);
    if options.boxed {
        let colors = colors_of(&s);
        upper = upper + 2;
        s = boxed_chars(&s, &colors);
    }
    if options.horizontal_alignment {
        let colors = colors_of(&s);
        s = h_aligned_chars(&s, width, &colors, false);
    }
    if options.vertical_alignment {
        let b = v_blank_exec(&s, height);
        upper = upper + b;
        lower = lower + b;
        s = v_aligned_chars(&s, height, options.content_below);
    }
    if !(s.len() > 0 && s[s.len() - 1] == NEWLINE) {
        s.push(NEWLINE);
    }
    Rendered { text: string_of(&s), upper_bound: upper, lower_bound: lower }
}


/// Draws a box round the content (split at every newline): a border as wide as the widest
/// line plus padding, and each line painted again in its colour after the left border and
/// padded to the box's width.
pub fn draw_box(content: &str, line_color_map: &Vec<String>) -> (r: String)
    ensures
        r@ == boxed(content@, line_color_map@.map_values(|c: String| c@)),
{
    let p = chars_of(content);
    let mut colors: Vec<Vec<char>> = Vec::new();
    let mut i: usize = 0;
    while i < line_color_map.len()
        invariant
            i <= line_color_map.len(),
            colors@.len() == i,
            forall|k: int| 0 <= k < i ==> #[trigger] colors@[k]@ == line_color_map@[k]@,
        decreases line_color_map.len() - i,
    {
        colors.push(chars_of(line_color_map[i].as_str()));
        i = i + 1;
    }
    assert(views(colors@) =~= line_color_map@.map_values(|c: String| c@));
    let r = boxed_chars(&p, &colors);
    string_of(&r)
}

/// The scroll bounds of a laid-out slide: upper, then lower.
pub fn get_bounds(r: &Rendered) -> (b: (usize, usize))
    ensures
        b == (r.upper_bound, r.lower_bound),
{
    (r.upper_bound, r.lower_bound)
}


proof fn lemma_no_newline_concat(a: Seq<char>, b: Seq<char>)
    requires
        has_no_newline(a),
        has_no_newline(b),
    ensures
        has_no_newline(a + b),
{
    assert forall|i: int| 0 <= i < (a + b).len() implies (a + b)[i] != NEWLINE by {
        if i < a.len() {
            assert((a + b)[i] == a[i]);
        } else {
            assert((a + b)[i] == b[i - a.len()]);
        }
    }
}

proof fn lemma_row_no_newline(line: Seq<char>, color: Seq<char>, width: nat)
    requires
        has_no_newline(line),
        has_no_newline(color),
    ensures
        has_no_newline(box_row(line, color, width)),
{
    let sp = spaces(box_pad(line, width));
    assert(has_no_newline(seq!['│', ' ', ' ']));
    assert(has_no_newline(reset_code()));
    assert(has_no_newline(sp));
    assert(has_no_newline(seq![' ', ' ', '│']));
    lemma_no_newline_concat(seq!['│', ' ', ' '], reset_code());
    lemma_no_newline_concat(seq!['│', ' ', ' '] + reset_code(), color);
    lemma_no_newline_concat(seq!['│', ' ', ' '] + reset_code() + color, line);
    lemma_no_newline_concat(seq!['│', ' ', ' '] + reset_code() + color + line, reset_code());
    lemma_no_newline_concat(seq!['│', ' ', ' '] + reset_code() + color + line + reset_code(), sp);
    lemma_no_newline_concat(seq!['│', ' ', ' '] + reset_code() + color + line + reset_code() + sp, seq![' ', ' ', '│']);
}

/// Box drawing keeps every line: the boxed text has two more lines than the content, each
/// inner line is the content line between the borders, painted again in its colour after a
/// reset, so that cutting the border away gives the line back exactly; and (where the widest
/// line fits) every inner line is padded to the same visible width.
pub proof fn lemma_box_round_trip(content: Seq<char>, colors: Seq<Seq<char>>)
    requires
        forall|k: int| 0 <= k < colors.len() ==> has_no_newline(#[trigger] colors[k]),
    ensures
        ({
            let ls = split_lines(content);
            let w = box_cap(ls);
            let out = lines_of(boxed(content, colors));
            &&& out.len() == ls.len() + 2
            &&& out[0] == horizontal_border(w, '┌', '┐')
            &&& out[ls.len() + 1int] == horizontal_border(w, '└', '┘')
            &&& forall|i: int| 0 <= i < ls.len() ==> #[trigger] out[i + 1] == box_row(ls[i], color_at(colors, i), w)
            &&& forall|i: int| 0 <= i < ls.len() ==> (#[trigger] out[i + 1]).subrange(
                7 + color_at(colors, i).len() as int,
                7 + color_at(colors, i).len() + ls[i].len() as int,
            ) == ls[i]
            &&& box_width(ls) <= usize::MAX - 8 ==> forall|i: int| 0 <= i < ls.len() ==> box_line_width(#[trigger] ls[i]) + box_pad(ls[i], w) == w
        }),
{
    let ls = split_lines(content);
    let w = box_cap(ls);
    crate::text::lemma_split_lines_shape(content);
    lemma_box_width_bounds(ls);
    let all = seq![horizontal_border(w, '┌', '┐')] + box_rows(ls, colors, w) + seq![horizontal_border(w, '└', '┘')];
    assert forall|k: int| 0 <= k < all.len() implies has_no_newline(#[trigger] all[k]) by {
        if k == 0 || k == all.len() - 1 {
            assert(has_no_newline(horizontal_border(w, '┌', '┐')));
            assert(has_no_newline(horizontal_border(w, '└', '┘')));
        } else {
            let i = k - 1;
            assert(all[k] == box_row(ls[i], color_at(colors, i), w));
            assert(has_no_newline(reset_code()));
            lemma_row_no_newline(ls[i], color_at(colors, i), w);
        }
    }
    crate::text::lemma_split_terminated(all);
    assert forall|i: int| 0 <= i < ls.len() implies (#[trigger] lines_of(boxed(content, colors))[i + 1]).subrange(
        7 + color_at(colors, i).len() as int,
        7 + color_at(colors, i).len() + ls[i].len() as int,
    ) == ls[i] by {
        let c = color_at(colors, i);
        let row = box_row(ls[i], c, w);
        assert(all[i + 1] == row);
        assert(row.subrange(7 + c.len() as int, 7 + c.len() + ls[i].len() as int) =~= ls[i]);
    }
}

/// No line of the buffer holds a block or inline alignment directive.
pub open spec fn free_of_directives(ls: Seq<Seq<char>>) -> bool {
    forall|k: int| 0 <= k < ls.len() ==> first_block_from(#[trigger] ls[k], 0) is None
}

/// No line of the buffer is a rule marker.
pub open spec fn free_of_rules(ls: Seq<Seq<char>>) -> bool {
    forall|k: int| 0 <= k < ls.len() ==> rule_kind(#[trigger] ls[k]) == 0
}

proof fn lemma_inline_is_block(s: Seq<char>, i: int)
    requires
        first_block_from(s, i) is None,
    ensures
        first_inline_from(s, i) is None,
    decreases s.len() - i,
{
    if 0 <= i < s.len() {
        lemma_inline_is_block(s, i + 1);
    }
}

proof fn lemma_align_plain(ls: Seq<Seq<char>>, i: int, width: nat)
    requires
        free_of_directives(ls),
        0 <= i <= ls.len(),
    ensures
        align_from(ls, i, width) == ls.skip(i),
    decreases ls.len() - i,
{
    if i < ls.len() {
        lemma_inline_is_block(ls[i], 0);
        lemma_align_plain(ls, i + 1, width);
        assert(ls.skip(i) =~= seq![ls[i]] + ls.skip(i + 1));
    } else {
        assert(ls.skip(i).len() == 0);
    }
}

proof fn lemma_prepared_plain(ls: Seq<Seq<char>>, width: nat, hl: Seq<char>)
    requires
        free_of_rules(ls),
    ensures
        prepared_lines(ls, width, 0, hl) == ls,
{
    assert(ls.map_values(|l: Seq<char>| rule_line(l, width)) =~= ls);
}

/// Custom alignment of a buffer without alignment directives or rule markers, with no line
/// highlighted, gives its lines each ended by a newline.
pub proof fn lemma_align_custom_plain(p: Seq<char>, hl: Seq<char>)
    requires
        free_of_directives(lines_of(p)),
        free_of_rules(lines_of(p)),
    ensures
        custom_aligned(p, 0, hl) == terminate_lines(lines_of(p)),
{
    let ls = lines_of(p);
    lemma_prepared_plain(ls, longest(p), hl);
    lemma_align_plain(ls, 0, longest(p));
    assert(ls.skip(0) == ls);
}

/// Custom alignment is idempotent on a buffer without alignment directives or rule markers
/// when no line is highlighted: aligning its own output again changes nothing, so repeated
/// passes never pile up padding.
pub proof fn lemma_align_custom_idempotent(p: Seq<char>, hl: Seq<char>)
    requires
        free_of_directives(lines_of(p)),
        free_of_rules(lines_of(p)),
    ensures
        custom_aligned(custom_aligned(p, 0, hl), 0, hl) == custom_aligned(p, 0, hl),
{
    let ls = lines_of(p);
    lemma_align_custom_plain(p, hl);
    crate::text::lemma_split_lines_shape(p);
    assert forall|k: int| 0 <= k < ls.len() implies has_no_newline(#[trigger] ls[k]) by {
        assert(ls[k] == split_lines(p)[k]);
    }
    crate::text::lemma_split_terminated(ls);
    let q = terminate_lines(ls);
    assert(lines_of(q) == ls);
    lemma_align_custom_plain(q, hl);
}


proof fn lemma_terminated_ends_with_newline(ls: Seq<Seq<char>>)
    requires
        ls.len() > 0,
    ensures
        terminate_lines(ls).len() > 0,
        terminate_lines(ls).last() == NEWLINE,
{
    let t = terminate_lines(ls.drop_last()) + ls.last().push(NEWLINE);
    assert(terminate_lines(ls) == t);
    assert(t.last() == NEWLINE);
}

/// With the box, centring and highlighting off, laying out a buffer without alignment
/// directives or rule markers is stable: laying out its own output again gives the same
/// text, with no padding and no line added.
pub proof fn lemma_layout_idempotent(p: Seq<char>, o: LayoutOptions, width: nat, height: nat)
    requires
        !o.boxed,
        !o.horizontal_alignment,
        !o.vertical_alignment,
        free_of_directives(lines_of(p)),
        free_of_rules(lines_of(p)),
    ensures
        laid_out(laid_out(p, o, 0, width, height), o, 0, width, height) == laid_out(p, o, 0, width, height),
{
    let hl = pair_params(o.highlighter);
    let ls = lines_of(p);
    lemma_align_custom_plain(p, hl);
    let q = laid_out(p, o, 0, width, height);
    if ls.len() > 0 {
        lemma_terminated_ends_with_newline(ls);
        assert(q == terminate_lines(ls));
        crate::text::lemma_split_lines_shape(p);
        assert forall|k: int| 0 <= k < ls.len() implies has_no_newline(#[trigger] ls[k]) by {
            assert(ls[k] == split_lines(p)[k]);
        }
        crate::text::lemma_split_terminated(ls);
        lemma_align_custom_plain(q, hl);
    } else {
        assert(terminate_lines(ls) == Seq::<char>::empty());
        assert(q == seq![NEWLINE]);
        let e = Seq::<char>::empty();
        assert(split_lines(e) == seq![e]);
        assert(q.drop_last() == e);
        assert(split_lines(q) == seq![e, e]);
        assert(lines_of(q) =~= seq![e]);
        assert(first_block_from(e, 0) is None);
        assert(rule_kind(e) == 0);
        lemma_align_custom_plain(q, hl);
        let one = seq![e];
        assert(one.drop_last() =~= Seq::<Seq<char>>::empty());
        assert(terminate_lines(one) == terminate_lines(one.drop_last()) + one.last().push(NEWLINE));
        assert(terminate_lines(one) =~= seq![NEWLINE]);
    }
}


proof fn lemma_digit_run_digits(s: Seq<char>, j: int, t: int)
    requires
        0 <= j <= t < j + digit_run(s, j),
    ensures
        0 <= t < s.len(),
        crate::ansi::is_digit(s[t]),
    decreases t - j,
{
    if t > j {
        lemma_digit_run_digits(s, j + 1, t);
    }
}

proof fn lemma_first_color_no_newline(s: Seq<char>, i: int)
    ensures
        first_color_from(s, i) matches Some(c) ==> has_no_newline(c),
    decreases s.len() - i,
{
    if 0 <= i < s.len() {
        if color_len(s, i) > 0 {
            let c = s.subrange(i, i + color_len(s, i));
            let k = i + 2 + digit_run(s, i + 2);
            assert forall|q: int| 0 <= q < c.len() implies c[q] != NEWLINE by {
                let t = i + q;
                assert(c[q] == s[t]);
                if t >= i + 2 && t < k {
                    lemma_digit_run_digits(s, i + 2, t);
                } else if t > k + 1 && t < k + 1 + digit_run(s, k + 1) {
                    lemma_digit_run_digits(s, k + 1, t);
                }
            }
        } else {
            lemma_first_color_no_newline(s, i + 1);
        }
    }
}

proof fn lemma_tracked_no_newline(lines: Seq<Seq<char>>)
    ensures
        forall|k: int| 0 <= k < tracked_colors(lines).len() ==> has_no_newline(#[trigger] tracked_colors(lines)[k]),
    decreases lines.len(),
{
    if lines.len() > 0 {
        lemma_tracked_no_newline(lines.drop_last());
        let init = tracked_colors(lines.drop_last());
        let prev = if init.len() == 0 { reset_code() } else { init.last() };
        assert(has_no_newline(reset_code()));
        lemma_first_color_no_newline(lines.last(), 0);
        assert(has_no_newline(next_color(prev, lines.last())));
        assert forall|k: int| 0 <= k < tracked_colors(lines).len() implies has_no_newline(#[trigger] tracked_colors(lines)[k]) by {
            if k < init.len() {
                assert(tracked_colors(lines)[k] == init[k]);
            }
        }
    }
}

/// The box stage of the layout keeps every line with the colour the tracker gives it: each
/// inner line of the boxed text is the border, a reset, the line's tracked colour, the line
/// itself, a reset, its padding and the border, so cutting border, colour, reset and padding
/// away gives the line back exactly.
pub proof fn lemma_box_stage_round_trip(s: Seq<char>)
    ensures
        ({
            let ls = split_lines(s);
            let colors = tracked_colors(lines_of(s));
            let w = box_cap(ls);
            let out = lines_of(boxed(s, colors));
            &&& out.len() == ls.len() + 2
            &&& forall|i: int| 0 <= i < ls.len() ==> #[trigger] out[i + 1] == box_row(ls[i], color_at(colors, i), w)
            &&& forall|i: int| 0 <= i < ls.len() ==> (#[trigger] out[i + 1]).subrange(
                7 + color_at(colors, i).len() as int,
                7 + color_at(colors, i).len() + ls[i].len() as int,
            ) == ls[i]
            &&& box_width(ls) <= usize::MAX - 8 ==> forall|i: int| 0 <= i < ls.len() ==> box_line_width(#[trigger] ls[i]) + box_pad(ls[i], w) == w
        }),
{
    lemma_tracked_no_newline(lines_of(s));
    lemma_box_round_trip(s, tracked_colors(lines_of(s)));
}

} // verus!
