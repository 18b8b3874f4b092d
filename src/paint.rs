//! Painting text with SGR escapes. Colour names resolve to codes through `colored`.

use vstd::prelude::*;
use crate::ansi::{is_digit, is_param, param_run, reset_chars, reset_code, sgr_len, strip_ansi, strip_from, ESC};
use crate::measure::{line_width, visible};
use crate::text::extend;

verus! {

/// The foreground code `colored` gives a colour name.
pub uninterp spec fn fg_code(name: Seq<char>) -> Seq<char>;

/// The background code `colored` gives a colour name.
pub uninterp spec fn bg_code(name: Seq<char>) -> Seq<char>;

pub open spec fn all_digits(s: Seq<char>) -> bool {
    forall|i: int| 0 <= i < s.len() ==> is_digit(#[trigger] s[i])
}

/// Relies on `colored::Color::from(&str)` and `Color::to_fg_str`: a name that is not a colour
/// becomes white, and every colour reached from a name has a code of two decimal digits.
#[verifier::external_body]
fn foreground_code(name: &str) -> (r: String)
    ensures
        r@ == fg_code(name@),
        r@.len() == 2,
        all_digits(r@),
{
    colored::Color::from(name).to_fg_str().into_owned()
}

/// Relies on `colored::Color::from(&str)` and `Color::to_bg_str`: a name that is not a colour
/// becomes white, and every colour reached from a name has a code of two or three decimal
/// digits.
#[verifier::external_body]
fn background_code(name: &str) -> (r: String)
    ensures
        r@ == bg_code(name@),
        2 <= r@.len() <= 3,
        all_digits(r@),
{
    colored::Color::from(name).to_bg_str().into_owned()
}

/// The escape `ESC [ params m`.
pub open spec fn sgr(params: Seq<char>) -> Seq<char> {
    seq![ESC, '['] + params + seq!['m']
}

/// `t` from `i` on, with `style` written again after every reset escape, so that text painted
/// inside painted text does not end the outer style.
pub open spec fn reinstate_from(t: Seq<char>, i: int, style: Seq<char>) -> Seq<char>
    decreases t.len() - i,
{
    if i < 0 || i >= t.len() {
        Seq::empty()
    } else if i + 4 <= t.len() && t.subrange(i, i + 4) == reset_code() {
        reset_code() + style + reinstate_from(t, i + 4, style)
    } else {
        seq![t[i]] + reinstate_from(t, i + 1, style)
    }
}

/// `t` painted with the escape parameters `params`: the style, the text (with the style
/// written again after each reset inside it), then a reset.
pub open spec fn paint(t: Seq<char>, params: Seq<char>) -> Seq<char> {
    sgr(params) + reinstate_from(t, 0, sgr(params)) + reset_code()
}

pub open spec fn fg_params(fg: Seq<char>) -> Seq<char> {
    fg_code(fg)
}

pub open spec fn fg_bg_params(fg: Seq<char>, bg: Seq<char>) -> Seq<char> {
    bg_code(bg) + seq![';'] + fg_code(fg)
}

pub open spec fn bold_params() -> Seq<char> {
    seq!['1']
}

pub open spec fn italic_params() -> Seq<char> {
    seq!['3']
}

pub open spec fn strike_params() -> Seq<char> {
    seq!['9']
}

fn is_reset_at(t: &Vec<char>, i: usize) -> (r: bool)
    requires
        i <= t.len(),
    ensures
        r == (i + 4 <= t.len() && t@.subrange(i as int, i + 4) == reset_code()),
{
    if t.len() - i >= 4 && t[i] == ESC && t[i + 1] == '[' && t[i + 2] == '0' && t[i + 3] == 'm' {
        assert(t@.subrange(i as int, i + 4) =~= reset_code());
        true
    } else {
        proof {
            if i + 4 <= t.len() && t@.subrange(i as int, i + 4) == reset_code() {
                assert(t@.subrange(i as int, i + 4)[0] == t@[i as int]);
                assert(t@.subrange(i as int, i + 4)[1] == t@[i + 1]);
                assert(t@.subrange(i as int, i + 4)[2] == t@[i + 2]);
                assert(t@.subrange(i as int, i + 4)[3] == t@[i + 3]);
            }
        }
        false
    }
}

/// `t` painted with the escape parameters `params`.
pub fn paint_exec(t: &Vec<char>, params: &Vec<char>) -> (r: Vec<char>)
    ensures
        r@ == paint(t@, params@),
{
    let mut style: Vec<char> = Vec::new();
    style.push(ESC);
    style.push('[');
    extend(&mut style, params);
    style.push('m');
    assert(style@ == sgr(params@));
    let mut out: Vec<char> = Vec::new();
    extend(&mut out, &style);
    let ghost start = out@;
    let mut i: usize = 0;
    while i < t.len()
        invariant
            i <= t.len(),
            style@ == sgr(params@),
            start == sgr(params@),
            out@ + reinstate_from(t@, i as int, style@) == start + reinstate_from(t@, 0, style@),
        decreases t.len() - i,
    {
        if is_reset_at(t, i) {
            let ghost before = out@;
            let r = reset_chars();
            extend(&mut out, &r);
            extend(&mut out, &style);
            assert(out@ + reinstate_from(t@, i + 4, style@) == before + reinstate_from(t@, i as int, style@));
            i = i + 4;
        } else {
            let ghost before = out@;
            out.push(t[i]);
            assert(out@ + reinstate_from(t@, i + 1, style@) == before + reinstate_from(t@, i as int, style@));
            i = i + 1;
        }
    }
    let r = reset_chars();
    extend(&mut out, &r);
    out
}

/// `t` in the foreground colour named `fg`.
pub fn paint_fg(t: &Vec<char>, fg: &str) -> (r: Vec<char>)
    ensures
        r@ == paint(t@, fg_params(fg@)),
{
    let code = foreground_code(fg);
    let params = crate::text::chars_of(code.as_str());
    paint_exec(t, &params)
}

/// `t` in the foreground colour named `fg` on the background colour named `bg`.
pub fn paint_fg_bg(t: &Vec<char>, fg: &str, bg: &str) -> (r: Vec<char>)
    ensures
        r@ == paint(t@, fg_bg_params(fg@, bg@)),
{
    let b = background_code(bg);
    let f = foreground_code(fg);
    let mut params = crate::text::chars_of(b.as_str());
    params.push(';');
    let fc = crate::text::chars_of(f.as_str());
    extend(&mut params, &fc);
    assert(params@ =~= fg_bg_params(fg@, bg@));
    paint_exec(t, &params)
}

/// `t` with the single attribute `code` (bold, italic or strike-through).
pub fn paint_attr(t: &Vec<char>, code: char) -> (r: Vec<char>)
    ensures
        r@ == paint(t@, seq![code]),
{
    let mut params: Vec<char> = Vec::new();
    params.push(code);
    assert(params@ == seq![code]);
    paint_exec(t, &params)
}


pub open spec fn has_no_esc(t: Seq<char>) -> bool {
    forall|i: int| 0 <= i < t.len() ==> t[i] != ESC
}

proof fn lemma_reinstate_plain(t: Seq<char>, i: int, style: Seq<char>)
    requires
        has_no_esc(t),
        0 <= i <= t.len(),
    ensures
        reinstate_from(t, i, style) == t.skip(i),
    decreases t.len() - i,
{
    if i < t.len() {
        lemma_reinstate_plain(t, i + 1, style);
        if i + 4 <= t.len() {
            assert(t.subrange(i, i + 4)[0] == t[i]);
            assert(reset_code()[0] == ESC);
        }
        assert(t.skip(i) =~= seq![t[i]] + t.skip(i + 1));
    } else {
        assert(t.skip(i).len() == 0);
    }
}

proof fn lemma_param_run_exact(s: Seq<char>, start: int, n: int, j: int)
    requires
        0 <= start <= j <= start + n,
        start + n < s.len(),
        forall|k: int| start <= k < start + n ==> is_param(s[k]),
        !is_param(s[start + n]),
    ensures
        param_run(s, j) == start + n - j,
    decreases start + n - j,
{
    if j < start + n {
        lemma_param_run_exact(s, start, n, j + 1);
    }
}

proof fn lemma_strip_tail(s: Seq<char>, k: int, t: Seq<char>, j: int)
    requires
        has_no_esc(t),
        0 <= k <= s.len(),
        s == s.take(k) + t + reset_code(),
        0 <= j <= t.len(),
    ensures
        strip_from(s, k + j) == t.skip(j),
    decreases t.len() - j,
{
    let e = k + t.len();
    let u = s.take(k) + t;
    assert(s == u + reset_code());
    assert(u.len() == e);
    if j == t.len() {
        assert(s[e] == reset_code()[0]);
        assert(s[e + 1] == reset_code()[1]);
        assert(s[e + 2] == reset_code()[2]);
        assert(s[e + 3] == reset_code()[3]);
        assert(s[e] == ESC && s[e + 1] == '[' && s[e + 2] == '0' && s[e + 3] == 'm');
        lemma_param_run_exact(s, e + 2, 1, e + 2);
        assert(sgr_len(s, e) == 4);
        assert(strip_from(s, e + 4) == Seq::<char>::empty());
        assert(t.skip(j).len() == 0);
    } else {
        lemma_strip_tail(s, k, t, j + 1);
        assert(u[k + j] == t[j]);
        assert(s[k + j] == u[k + j]);
        assert(sgr_len(s, k + j) == 0);
        assert(t.skip(j) =~= seq![t[j]] + t.skip(j + 1));
    }
}

/// Colour escapes do not count toward a line's width: text painted with any escape
/// parameters measures exactly what the bare text measures, as long as the text holds no
/// escape character of its own.
pub proof fn lemma_paint_keeps_width(t: Seq<char>, params: Seq<char>, spaces: bool)
    requires
        has_no_esc(t),
        forall|i: int| 0 <= i < params.len() ==> is_param(#[trigger] params[i]),
    ensures
        strip_ansi(paint(t, params)) == t,
        visible(paint(t, params)) == visible(t),
        line_width(paint(t, params), spaces) == line_width(t, spaces),
{
    let style = sgr(params);
    lemma_reinstate_plain(t, 0, style);
    assert(t.skip(0) == t);
    let s = paint(t, params);
    assert(s == style + t + reset_code());
    let k: int = params.len() as int + 3;
    assert(s.take(k) =~= style);
    assert(s =~= s.take(k) + t + reset_code());
    assert forall|i: int| 2 <= i < 2 + params.len() implies is_param(s[i]) by {
        assert(s[i] == params[i - 2]);
    }
    lemma_param_run_exact(s, 2, params.len() as int, 2);
    assert(sgr_len(s, 0) == k);
    lemma_strip_tail(s, k, t, 0);
    assert(strip_ansi(s) == strip_from(s, k));
    assert(strip_ansi(t) == t) by {
        lemma_strip_plain(t, 0);
    }
}

pub proof fn lemma_strip_plain(t: Seq<char>, i: int)
    requires
        has_no_esc(t),
        0 <= i <= t.len(),
    ensures
        strip_from(t, i) == t.skip(i),
    decreases t.len() - i,
{
    if i < t.len() {
        lemma_strip_plain(t, i + 1);
        assert(sgr_len(t, i) == 0);
        assert(t.skip(i) =~= seq![t[i]] + t.skip(i + 1));
    } else {
        assert(t.skip(i).len() == 0);
    }
    if i == 0 {
        assert(t.skip(0) == t);
    }
}

} // verus!
