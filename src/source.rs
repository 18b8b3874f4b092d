//! Preparing slide source before it is parsed: HTML comments and front matter come out.

use vstd::prelude::*;
use crate::text::{chars_of, lines_exec, lines_of, string_of, terminate_lines, terminate_lines_exec, views};

verus! {

pub open spec fn opens_comment_at(s: Seq<char>, i: int) -> bool {
    0 <= i && i + 4 <= s.len() && s[i] == '<' && s[i + 1] == '!' && s[i + 2] == '-' && s[i + 3] == '-'
}

pub open spec fn closes_comment_at(s: Seq<char>, i: int) -> bool {
    0 <= i && i + 3 <= s.len() && s[i] == '-' && s[i + 1] == '-' && s[i + 2] == '>'
}

/// The first position from `j` on where `-->` starts.
pub open spec fn comment_close_from(s: Seq<char>, j: int) -> Option<int>
    decreases s.len() - j,
{
    if j < 0 || j + 3 > s.len() {
        None
    } else if closes_comment_at(s, j) {
        Some(j)
    } else {
        comment_close_from(s, j + 1)
    }
}

/// `s` from `i` on without its comments: each `<!--` with the first `-->` after it, and all
/// between, across lines; an unclosed `<!--` stays.
pub open spec fn comments_removed_from(s: Seq<char>, i: int) -> Seq<char>
    decreases s.len() - i,
{
    if i < 0 || i >= s.len() {
        Seq::empty()
    } else if opens_comment_at(s, i) && comment_close_from(s, i + 4) is Some {
        let j = comment_close_from(s, i + 4)->0;
        if j < i + 4 || j + 3 > s.len() {
            Seq::empty()
        } else {
            comments_removed_from(s, j + 3)
        }
    } else {
        seq![s[i]] + comments_removed_from(s, i + 1)
    }
}

fn comment_close_exec(s: &Vec<char>, j: usize) -> (r: Option<usize>)
    requires
        j <= s.len(),
    ensures
        match r {
            Some(k) => comment_close_from(s@, j as int) == Some(k as int) && j <= k && k + 3 <= s.len(),
            None => comment_close_from(s@, j as int) is None,
        },
{
    let mut k: usize = j;
    while k < s.len() && s.len() - k >= 3
        invariant
            j <= k <= s.len(),
            comment_close_from(s@, k as int) == comment_close_from(s@, j as int),
        decreases s.len() - k,
    {
        if s[k] == '-' && s[k + 1] == '-' && s[k + 2] == '>' {
            return Some(k);
        }
        k = k + 1;
    }
    None
}

/// The text without HTML comments `<!-- ... -->`, which may span lines.
pub fn remove_comments(text: &str) -> (r: String)
    ensures
        r@ == comments_removed_from(text@, 0),
{
    let s = chars_of(text);
    let mut out: Vec<char> = Vec::new();
    let mut i: usize = 0;
    while i < s.len()
        invariant
            i <= s.len(),
            s@ == text@,
            out@ + comments_removed_from(s@, i as int) == comments_removed_from(s@, 0),
        decreases s.len() - i,
    {
        if s.len() - i >= 4 && s[i] == '<' && s[i + 1] == '!' && s[i + 2] == '-' && s[i + 3] == '-' {
            match comment_close_exec(&s, i + 4) {
                Some(j) => {
                    i = j + 3;
                    continue;
                },
                None => {},
            }
        }
        let ghost before = out@;
        out.push(s[i]);
        assert(out@ + comments_removed_from(s@, i + 1) == before + comments_removed_from(s@, i as int));
        i = i + 1;
    }
    assert(out@ + comments_removed_from(s@, i as int) == out@);
    string_of(&out)
}

pub open spec fn is_fence(l: Seq<char>) -> bool {
    l == seq!['-', '-', '-']
}

/// The first line from `j` on that is `---`.
pub open spec fn fence_from(ls: Seq<Seq<char>>, j: int) -> Option<int>
    decreases ls.len() - j,
{
    if j < 0 || j >= ls.len() {
        None
    } else if is_fence(ls[j]) {
        Some(j)
    } else {
        fence_from(ls, j + 1)
    }
}

/// The lines of a document without its front matter: where the first line is `---` and a
/// later line is `---` too, both and all between are dropped.
pub open spec fn body_lines(ls: Seq<Seq<char>>) -> Seq<Seq<char>> {
    if ls.len() > 0 && is_fence(ls[0]) && fence_from(ls, 1) is Some {
        ls.skip(fence_from(ls, 1)->0 + 1)
    } else {
        ls
    }
}

fn is_fence_exec(l: &Vec<char>) -> (r: bool)
    ensures
        r == is_fence(l@),
{
    if l.len() == 3 && l[0] == '-' && l[1] == '-' && l[2] == '-' {
        assert(l@ =~= seq!['-', '-', '-']);
        true
    } else {
        proof {
            if is_fence(l@) {
                assert(l@[0] == '-' && l@[1] == '-' && l@[2] == '-');
            }
        }
        false
    }
}

/// The source handed to the Markdown parser: front matter dropped, each remaining line
/// ended by a newline.
pub fn prepare_source(md_text: &str) -> (r: String)
    ensures
        r@ == terminate_lines(body_lines(lines_of(md_text@))),
{
    let s = chars_of(md_text);
    let lines = lines_exec(&s);
    let ghost ls = views(lines@);
    if lines.len() > 0 && is_fence_exec(&lines[0]) {
        let mut j: usize = 1;
        while j < lines.len() && !is_fence_exec(&lines[j])
            invariant
                1 <= j <= lines.len(),
                ls == views(lines@),
                fence_from(ls, j as int) == fence_from(ls, 1),
            decreases lines.len() - j,
        {
            j = j + 1;
        }
        if j < lines.len() {
            let mut rest: Vec<Vec<char>> = Vec::new();
            let mut k: usize = j + 1;
            while k < lines.len()
                invariant
                    j + 1 <= k <= lines.len(),
                    ls == views(lines@),
                    rest@.len() == k - (j + 1),
                    forall|m: int| 0 <= m < rest@.len() ==> #[trigger] rest@[m]@ == ls[j + 1 + m],
                decreases lines.len() - k,
            {
                let l = lines[k].clone();
                assert(l@ =~= ls[k as int]);
                rest.push(l);
                k = k + 1;
            }
            assert(views(rest@) =~= ls.skip(j + 1));
            let t = terminate_lines_exec(&rest);
            return string_of(&t);
        }
    }
    let t = terminate_lines_exec(&lines);
    string_of(&t)
}

} // verus!
