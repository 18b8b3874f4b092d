//! Visible width of rendered lines: escapes, strike-through marks and alignment
//! directives do not count.

use vstd::prelude::*;
use unicode_width::UnicodeWidthStr;
use crate::ansi::{param_run, sgr_len, strip_ansi, strip_ansi_chars, strip_from, STRIKE_MARK, ESC};
use crate::paint::{has_no_esc, lemma_strip_plain};
use crate::text::{has_no_newline, lemma_split_append, NEWLINE};
use crate::text::{chars_of, split_lines, split_lines_exec, string_of, views};

verus! {

/// The number of terminal columns that `unicode-width` gives the string `s`.
pub uninterp spec fn display_width(s: Seq<char>) -> nat;

/// Relies on `unicode_width::UnicodeWidthStr::width`: the column width of `s`, which depends on
/// its characters alone; an empty string is zero columns wide.
#[verifier::external_body]
pub(crate) fn str_width(s: &str) -> (r: usize)
    ensures
        r == display_width(s@),
        s@.len() == 0 ==> r == 0,
{
    UnicodeWidthStr::width(s)
}

pub fn width_of(s: &Vec<char>) -> (r: usize)
    ensures
        r == display_width(s@),
        s@.len() == 0 ==> r == 0,
{
    let st = string_of(s);
    str_width(st.as_str())
}

/// `s` without any occurrence of `c`.
pub open spec fn remove_char(s: Seq<char>, c: char) -> Seq<char>
    decreases s.len(),
{
    if s.len() == 0 {
        Seq::empty()
    } else if s.last() == c {
        remove_char(s.drop_last(), c)
    } else {
        remove_char(s.drop_last(), c).push(s.last())
    }
}

/// `s` with each `from` replaced by `to`.
pub open spec fn replace_char(s: Seq<char>, from: char, to: char) -> Seq<char>
    decreases s.len(),
{
    if s.len() == 0 {
        Seq::empty()
    } else {
        replace_char(s.drop_last(), from, to).push(
            if s.last() == from {
                to
            } else {
                s.last()
            },
        )
    }
}

pub fn remove_char_exec(s: &Vec<char>, c: char) -> (r: Vec<char>)
    ensures
        r@ == remove_char(s@, c),
{
    let mut out: Vec<char> = Vec::new();
    let mut i: usize = 0;
    while i < s.len()
        invariant
            i <= s.len(),
            out@ == remove_char(s@.take(i as int), c),
        decreases s.len() - i,
    {
        assert(s@.take(i + 1).drop_last() == s@.take(i as int));
        if s[i] != c {
            out.push(s[i]);
        }
        i = i + 1;
    }
    assert(s@.take(s.len() as int) == s@);
    out
}

pub fn replace_char_exec(s: &Vec<char>, from: char, to: char) -> (r: Vec<char>)
    ensures
        r@ == replace_char(s@, from, to),
{
    let mut out: Vec<char> = Vec::new();
    let mut i: usize = 0;
    while i < s.len()
        invariant
            i <= s.len(),
            out@ == replace_char(s@.take(i as int), from, to),
        decreases s.len() - i,
    {
        assert(s@.take(i + 1).drop_last() == s@.take(i as int));
        if s[i] == from {
            out.push(to);
        } else {
            out.push(s[i]);
        }
        i = i + 1;
    }
    assert(s@.take(s.len() as int) == s@);
    out
}

/// What a line shows: escapes and strike-through marks taken out.
pub open spec fn visible(line: Seq<char>) -> Seq<char> {
    remove_char(strip_ansi(line), STRIKE_MARK)
}

pub fn visible_exec(line: &Vec<char>) -> (r: Vec<char>)
    ensures
        r@ == visible(line@),
{
    let stripped = strip_ansi_chars(line);
    remove_char_exec(&stripped, STRIKE_MARK)
}

/// The number of spaces at the start of `s`.
pub open spec fn leading_spaces(s: Seq<char>) -> nat
    decreases s.len(),
{
    if s.len() > 0 && s[0] == ' ' {
        1 + leading_spaces(s.drop_first())
    } else {
        0
    }
}

/// `s` with every space after its leading ones taken out.
pub open spec fn inner_spaces_removed(s: Seq<char>) -> Seq<char> {
    s.take(leading_spaces(s) as int) + remove_char(s.skip(leading_spaces(s) as int), ' ')
}

/// The width of a line: with `spaces`, all of its visible text; without, its visible text
/// less the spaces that follow its indentation.
pub open spec fn line_width(line: Seq<char>, spaces: bool) -> nat {
    if spaces {
        display_width(visible(line))
    } else {
        display_width(inner_spaces_removed(visible(line)))
    }
}

/// The largest `line_width` over `lines`, or 0 where there is none.
pub open spec fn max_width(lines: Seq<Seq<char>>, spaces: bool) -> nat
    decreases lines.len(),
{
    if lines.len() == 0 {
        0
    } else {
        let m = max_width(lines.drop_last(), spaces);
        let w = line_width(lines.last(), spaces);
        if w > m {
            w
        } else {
            m
        }
    }
}

fn leading_spaces_exec(s: &Vec<char>) -> (r: usize)
    ensures
        r == leading_spaces(s@),
        r <= s@.len(),
{
    let mut i: usize = 0;
    assert(s@.skip(0) == s@);
    while i < s.len() && s[i] == ' '
        invariant
            i <= s.len(),
            i + leading_spaces(s@.skip(i as int)) == leading_spaces(s@),
        decreases s.len() - i,
    {
        assert(s@.skip(i as int).drop_first() == s@.skip(i + 1));
        i = i + 1;
    }
    i
}

pub fn line_width_exec(line: &Vec<char>, spaces: bool) -> (r: usize)
    ensures
        r == line_width(line@, spaces),
{
    let v = visible_exec(line);
    if spaces {
        width_of(&v)
    } else {
        let lead = leading_spaces_exec(&v);
        let mut head: Vec<char> = Vec::new();
        let mut rest: Vec<char> = Vec::new();
        let mut i: usize = 0;
        while i < v.len()
            invariant
                i <= v.len(),
                lead <= v@.len(),
                head@ == v@.take(if i < lead { i as int } else { lead as int }),
                rest@ == if i < lead { Seq::<char>::empty() } else { v@.subrange(lead as int, i as int) },
            decreases v.len() - i,
        {
            if i < lead {
                head.push(v[i]);
            } else {
                rest.push(v[i]);
            }
            i = i + 1;
            assert(head@ =~= v@.take(if i < lead { i as int } else { lead as int }));
        }
        assert(rest@ == v@.skip(lead as int));
        let kept = remove_char_exec(&rest, ' ');
        crate::text::extend(&mut head, &kept);
        width_of(&head)
    }
}

/// Whether an inline alignment directive `$[c]$`, `$[l]$` or `$[r]$` starts at `i`.
pub open spec fn inline_directive_at(s: Seq<char>, i: int) -> bool {
    0 <= i && i + 5 <= s.len() && s[i] == '$' && s[i + 1] == '[' && (s[i + 2] == 'c' || s[i + 2]
        == 'l' || s[i + 2] == 'r') && s[i + 3] == ']' && s[i + 4] == '$'
}

/// `s` from `i` on with every inline alignment directive taken out.
pub open spec fn directives_removed_from(s: Seq<char>, i: int) -> Seq<char>
    decreases s.len() - i,
{
    if i < 0 || i >= s.len() {
        Seq::empty()
    } else if inline_directive_at(s, i) {
        directives_removed_from(s, i + 5)
    } else {
        seq![s[i]] + directives_removed_from(s, i + 1)
    }
}

pub open spec fn directives_removed(s: Seq<char>) -> Seq<char> {
    directives_removed_from(s, 0)
}

pub fn inline_directive_at_exec(s: &Vec<char>, i: usize) -> (r: bool)
    ensures
        r == inline_directive_at(s@, i as int),
{
    i < s.len() && s.len() - i >= 5 && s[i] == '$' && s[i + 1] == '[' && (s[i + 2] == 'c' || s[i
        + 2] == 'l' || s[i + 2] == 'r') && s[i + 3] == ']' && s[i + 4] == '$'
}

pub fn directives_removed_exec(s: &Vec<char>) -> (r: Vec<char>)
    ensures
        r@ == directives_removed(s@),
{
    let mut out: Vec<char> = Vec::new();
    let mut i: usize = 0;
    while i < s.len()
        invariant
            i <= s.len(),
            out@ + directives_removed_from(s@, i as int) == directives_removed(s@),
        decreases s.len() - i,
    {
        if inline_directive_at_exec(s, i) {
            i = i + 5;
        } else {
            assert(out@.push(s@[i as int]) + directives_removed_from(s@, i + 1) == out@
                + directives_removed_from(s@, i as int));
            out.push(s[i]);
            i = i + 1;
        }
    }
    assert(out@ + directives_removed_from(s@, i as int) == out@);
    out
}

/// The width of the widest line of `text`, inline alignment directives taken out first.
pub fn longest_line_chars(text: &Vec<char>, spaces: bool) -> (r: usize)
    ensures
        r == max_width(split_lines(directives_removed(text@)), spaces),
{
    let cleaned = directives_removed_exec(text);
    let lines = split_lines_exec(&cleaned);
    let mut best: usize = 0;
    let mut i: usize = 0;
    while i < lines.len()
        invariant
            i <= lines.len(),
            views(lines@) == split_lines(cleaned@),
            best == max_width(views(lines@).take(i as int), spaces),
        decreases lines.len() - i,
    {
        assert(views(lines@).take(i + 1).drop_last() == views(lines@).take(i as int));
        let w = line_width_exec(&lines[i], spaces);
        if w > best {
            best = w;
        }
        i = i + 1;
    }
    assert(views(lines@).take(lines.len() as int) == views(lines@));
    best
}

/// The width of the widest line of `prettified`, not counting escape sequences,
/// strike-through marks or inline alignment directives.
pub fn calculate_length_of_longest_line(prettified: &String, spaces: bool) -> (r: usize)
    ensures
        r == max_width(split_lines(directives_removed(prettified@)), spaces),
{
    let chars = chars_of(prettified.as_str());
    longest_line_chars(&chars, spaces)
}


/// No character of `s` is `c`.
pub open spec fn lacks(s: Seq<char>, c: char) -> bool {
    forall|k: int| 0 <= k < s.len() ==> s[k] != c
}

proof fn lemma_param_run_bound(s: Seq<char>, j: int)
    requires
        0 <= j <= s.len(),
    ensures
        param_run(s, j) <= s.len() - j,
    decreases s.len() - j,
{
    if j < s.len() {
        lemma_param_run_bound(s, j + 1);
    }
}

proof fn lemma_param_run_shift(pre: Seq<char>, b: Seq<char>, j: int)
    requires
        0 <= j,
    ensures
        param_run(pre + b, pre.len() + j) == param_run(b, j),
    decreases b.len() - j,
{
    if j < b.len() {
        assert((pre + b)[pre.len() + j] == b[j]);
        lemma_param_run_shift(pre, b, j + 1);
    }
}

proof fn lemma_strip_shift(pre: Seq<char>, b: Seq<char>, j: int)
    requires
        0 <= j,
    ensures
        strip_from(pre + b, pre.len() + j) == strip_from(b, j),
    decreases b.len() - j,
{
    let c = pre + b;
    let p = pre.len() as int;
    if j < b.len() {
        lemma_param_run_shift(pre, b, j + 2);
        assert(c[p + j] == b[j]);
        if j + 1 < b.len() {
            assert(c[p + j + 1] == b[j + 1]);
            let k = j + 2 + param_run(b, j + 2);
            if k < b.len() {
                assert(c[p + k] == b[k]);
            }
        }
        assert(sgr_len(c, p + j) == sgr_len(b, j));
        if sgr_len(b, j) > 0 {
            lemma_strip_shift(pre, b, j + sgr_len(b, j));
        } else {
            lemma_strip_shift(pre, b, j + 1);
        }
    }
}

proof fn lemma_param_run_cut(a: Seq<char>, b: Seq<char>, j: int)
    requires
        0 <= j <= a.len(),
    ensures
        param_run(a + seq![NEWLINE] + b, j) == param_run(a, j),
    decreases a.len() - j,
{
    let c = a + seq![NEWLINE] + b;
    if j < a.len() {
        assert(c[j] == a[j]);
        lemma_param_run_cut(a, b, j + 1);
    } else {
        assert(c[j] == NEWLINE);
    }
}

proof fn lemma_strip_cut(a: Seq<char>, b: Seq<char>, i: int)
    requires
        0 <= i <= a.len(),
    ensures
        strip_from(a + seq![NEWLINE] + b, i) == strip_from(a, i) + seq![NEWLINE] + strip_ansi(b),
    decreases a.len() - i,
{
    let c = a + seq![NEWLINE] + b;
    if i == a.len() {
        assert(c[i] == NEWLINE);
        assert(sgr_len(c, i) == 0);
        lemma_strip_shift(a + seq![NEWLINE], b, 0);
        assert(strip_from(c, i) == seq![NEWLINE] + strip_from(c, i + 1));
    } else {
        assert(c[i] == a[i]);
        if i + 1 < a.len() {
            assert(c[i + 1] == a[i + 1]);
            lemma_param_run_cut(a, b, i + 2);
            lemma_param_run_bound(a, i + 2);
            let k = i + 2 + param_run(a, i + 2);
            if k < a.len() {
                assert(c[k] == a[k]);
            } else {
                assert(c[k] == NEWLINE);
            }
        } else {
            assert(c[i + 1] == NEWLINE);
        }
        assert(sgr_len(c, i) == sgr_len(a, i));
        if sgr_len(a, i) > 0 {
            lemma_param_run_bound(a, i + 2);
            lemma_strip_cut(a, b, i + sgr_len(a, i));
        } else {
            lemma_strip_cut(a, b, i + 1);
            assert(seq![a[i]] + (strip_from(a, i + 1) + seq![NEWLINE] + strip_ansi(b)) =~= (seq![a[i]]
                + strip_from(a, i + 1)) + seq![NEWLINE] + strip_ansi(b));
        }
    }
}

proof fn lemma_strip_lacks(s: Seq<char>, i: int, ch: char)
    requires
        lacks(s, ch),
    ensures
        lacks(strip_from(s, i), ch),
    decreases s.len() - i,
{
    if 0 <= i < s.len() {
        if sgr_len(s, i) > 0 {
            lemma_strip_lacks(s, i + sgr_len(s, i), ch);
        } else {
            lemma_strip_lacks(s, i + 1, ch);
            let r = seq![s[i]] + strip_from(s, i + 1);
            assert forall|k: int| 0 <= k < r.len() implies r[k] != ch by {
                if k > 0 {
                    assert(r[k] == strip_from(s, i + 1)[k - 1]);
                }
            }
        }
    }
}

proof fn lemma_remove_lacks(s: Seq<char>, c: char, ch: char)
    requires
        lacks(s, ch) || ch == c,
    ensures
        lacks(remove_char(s, c), ch),
    decreases s.len(),
{
    if s.len() > 0 {
        lemma_remove_lacks(s.drop_last(), c, ch);
    }
}

proof fn lemma_remove_absent(s: Seq<char>, c: char)
    requires
        lacks(s, c),
    ensures
        remove_char(s, c) == s,
    decreases s.len(),
{
    if s.len() > 0 {
        lemma_remove_absent(s.drop_last(), c);
        assert(s.drop_last().push(s.last()) == s);
    }
}

proof fn lemma_remove_concat(x: Seq<char>, y: Seq<char>, c: char)
    ensures
        remove_char(x + y, c) == remove_char(x, c) + remove_char(y, c),
    decreases y.len(),
{
    if y.len() == 0 {
        assert(x + y == x);
        assert(remove_char(x, c) + remove_char(y, c) == remove_char(x, c));
    } else {
        lemma_remove_concat(x, y.drop_last(), c);
        assert((x + y).drop_last() == x + y.drop_last());
        assert((x + y).last() == y.last());
        if y.last() != c {
            assert((remove_char(x, c) + remove_char(y.drop_last(), c)).push(y.last()) =~= remove_char(x, c)
                + remove_char(y.drop_last(), c).push(y.last()));
        }
    }
}

/// The position of the last newline of `s`, or -1.
pub open spec fn last_newline(s: Seq<char>) -> int
    decreases s.len(),
{
    if s.len() == 0 {
        -1
    } else if s.last() == NEWLINE {
        s.len() - 1
    } else {
        last_newline(s.drop_last())
    }
}

proof fn lemma_last_newline(s: Seq<char>)
    ensures
        -1 <= last_newline(s) < s.len(),
        last_newline(s) >= 0 ==> s[last_newline(s)] == NEWLINE,
        forall|q: int| last_newline(s) < q < s.len() ==> s[q] != NEWLINE,
    decreases s.len(),
{
    if s.len() > 0 && s.last() != NEWLINE {
        lemma_last_newline(s.drop_last());
        assert forall|q: int| last_newline(s) < q < s.len() implies s[q] != NEWLINE by {
            if q < s.len() - 1 {
                assert(s.drop_last()[q] == s[q]);
            }
        }
    }
}

proof fn lemma_split_single(s: Seq<char>)
    requires
        has_no_newline(s),
    ensures
        split_lines(s) == seq![s],
{
    let e = Seq::<char>::empty();
    lemma_split_append(e, s);
    assert(e + s == s);
    assert(split_lines(e) == seq![e]);
    assert(seq![e].update(0, e + s) =~= seq![s]);
}

proof fn lemma_split_cut(a: Seq<char>, b: Seq<char>)
    requires
        has_no_newline(b),
    ensures
        split_lines(a + seq![NEWLINE] + b) == split_lines(a).push(b),
{
    let an = a + seq![NEWLINE];
    assert(an == a.push(NEWLINE));
    assert(an.drop_last() == a);
    assert(split_lines(an) == split_lines(a).push(Seq::empty()));
    lemma_split_append(an, b);
    assert(Seq::<char>::empty() + b == b);
    assert(split_lines(a).push(Seq::empty()).update(split_lines(a).len() as int, b) =~= split_lines(a).push(b));
}

/// The visible text of a buffer has the visible text of each of its lines as its lines.
pub proof fn lemma_visible_lines(s: Seq<char>)
    ensures
        split_lines(visible(s)) == split_lines(s).map_values(|l: Seq<char>| visible(l)),
    decreases s.len(),
{
    lemma_last_newline(s);
    let p = last_newline(s);
    if p < 0 {
        assert(has_no_newline(s));
        lemma_split_single(s);
        lemma_strip_lacks(s, 0, NEWLINE);
        lemma_remove_lacks(strip_ansi(s), STRIKE_MARK, NEWLINE);
        lemma_split_single(visible(s));
        assert(split_lines(s).map_values(|l: Seq<char>| visible(l)) =~= seq![visible(s)]);
    } else {
        let a = s.take(p);
        let b = s.skip(p + 1);
        assert(s =~= a + seq![NEWLINE] + b);
        assert(has_no_newline(b));
        lemma_strip_cut(a, b, 0);
        lemma_strip_lacks(b, 0, NEWLINE);
        lemma_remove_lacks(strip_ansi(b), STRIKE_MARK, NEWLINE);
        lemma_remove_concat(strip_ansi(a) + seq![NEWLINE], strip_ansi(b), STRIKE_MARK);
        lemma_remove_concat(strip_ansi(a), seq![NEWLINE], STRIKE_MARK);
        assert(remove_char(seq![NEWLINE], STRIKE_MARK) == seq![NEWLINE]) by {
            let one = seq![NEWLINE];
            assert(one.drop_last() =~= Seq::<char>::empty());
            assert(one.last() == NEWLINE);
            assert(remove_char(Seq::<char>::empty(), STRIKE_MARK) == Seq::<char>::empty());
            assert(Seq::<char>::empty().push(NEWLINE) =~= one);
        }
        assert(visible(s) == visible(a) + seq![NEWLINE] + visible(b));
        lemma_split_cut(a, b);
        lemma_split_cut(visible(a), visible(b));
        lemma_visible_lines(a);
        assert(split_lines(s).map_values(|l: Seq<char>| visible(l)) =~= split_lines(a).map_values(
            |l: Seq<char>| visible(l),
        ).push(visible(b)));
    }
}

proof fn lemma_no_dollar(s: Seq<char>, i: int)
    requires
        lacks(s, '$'),
        0 <= i <= s.len(),
    ensures
        directives_removed_from(s, i) == s.skip(i),
    decreases s.len() - i,
{
    if i < s.len() {
        lemma_no_dollar(s, i + 1);
        assert(s.skip(i) =~= seq![s[i]] + s.skip(i + 1));
    } else {
        assert(s.skip(i).len() == 0);
    }
}

proof fn lemma_visible_stable(l: Seq<char>, spaces: bool)
    requires
        has_no_esc(strip_ansi(l)),
    ensures
        line_width(visible(l), spaces) == line_width(l, spaces),
{
    let v = visible(l);
    lemma_remove_lacks(strip_ansi(l), STRIKE_MARK, ESC);
    lemma_strip_plain(v, 0);
    assert(v.skip(0) == v);
    lemma_remove_lacks(strip_ansi(l), STRIKE_MARK, STRIKE_MARK);
    lemma_remove_absent(v, STRIKE_MARK);
    assert(visible(v) == v);
}

proof fn lemma_max_width_visible(ls: Seq<Seq<char>>, spaces: bool)
    requires
        forall|k: int| 0 <= k < ls.len() ==> has_no_esc(strip_ansi(#[trigger] ls[k])),
    ensures
        max_width(ls.map_values(|l: Seq<char>| visible(l)), spaces) == max_width(ls, spaces),
    decreases ls.len(),
{
    if ls.len() > 0 {
        let dl = ls.drop_last();
        assert forall|k: int| 0 <= k < dl.len() implies has_no_esc(strip_ansi(#[trigger] dl[k])) by {
            assert(dl[k] == ls[k]);
        }
        lemma_max_width_visible(dl, spaces);
        let m = ls.map_values(|l: Seq<char>| visible(l));
        assert(m.drop_last() =~= dl.map_values(|l: Seq<char>| visible(l)));
        lemma_visible_stable(ls.last(), spaces);
    }
}

/// Escape sequences and strike-through marks never change the measured width: a buffer
/// measures what its text measures with every escape and strike-through mark taken out.
/// This holds where taking escapes out cannot form new ones or new alignment directives: the
/// buffer holds no `$`, and no line holds an escape character once its escapes are removed.
pub proof fn lemma_longest_ignores_escapes(s: Seq<char>, spaces: bool)
    requires
        lacks(s, '$'),
        forall|k: int| 0 <= k < split_lines(s).len() ==> has_no_esc(strip_ansi(#[trigger] split_lines(s)[k])),
    ensures
        max_width(split_lines(directives_removed(remove_char(strip_ansi(s), STRIKE_MARK))), spaces)
            == max_width(split_lines(directives_removed(s)), spaces),
{
    lemma_no_dollar(s, 0);
    assert(s.skip(0) == s);
    let v = visible(s);
    lemma_strip_lacks(s, 0, '$');
    lemma_remove_lacks(strip_ansi(s), STRIKE_MARK, '$');
    lemma_no_dollar(v, 0);
    assert(v.skip(0) == v);
    lemma_visible_lines(s);
    lemma_max_width_visible(split_lines(s), spaces);
}

} // verus!
