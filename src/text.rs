//! Character buffers, line splitting and joining.

use vstd::prelude::*;
use vstd::std_specs::iter::IteratorSpec;

verus! {

pub const NEWLINE: char = '\n';

/// The characters of `s`, in order.
pub fn chars_of(s: &str) -> (r: Vec<char>)
    ensures
        r@ == s@,
{
    broadcast use vstd::string::group_string_axioms;

    let mut it = s.chars();
    let mut out: Vec<char> = Vec::new();
    loop
        invariant
            it.obeys_prophetic_iter_laws(),
            it.decrease() is Some,
            out@ + it.remaining() == s@,
        decreases it.decrease()->0,
    {
        let ghost before = it.remaining();
        match it.next() {
            Some(c) => {
                assert(before.len() > 0);
                assert(out@.push(c) + it.remaining() =~= out@ + before);
                out.push(c);
            },
            None => {
                assert(before.len() == 0);
                assert(out@ + before == out@);
                return out;
            },
        }
    }
}

/// Relies on `String: FromIterator<char>`: the string made of the characters of `v`, in order.
#[verifier::external_body]
pub(crate) fn string_of(v: &Vec<char>) -> (r: String)
    ensures
        r@ == v@,
{
    v.iter().collect()
}

/// The pieces of `s` between newline characters (as `str::split('\n')`): always at least one.
pub open spec fn split_lines(s: Seq<char>) -> Seq<Seq<char>>
    decreases s.len(),
{
    if s.len() == 0 {
        seq![Seq::empty()]
    } else {
        let init = split_lines(s.drop_last());
        if s.last() == NEWLINE {
            init.push(Seq::empty())
        } else {
            init.update(init.len() - 1, init.last().push(s.last()))
        }
    }
}

/// The lines of `s` (as `str::lines`, without carriage-return handling): the pieces between
/// newlines, without the empty piece that follows a final newline.
pub open spec fn lines_of(s: Seq<char>) -> Seq<Seq<char>> {
    let parts = split_lines(s);
    if parts.last().len() == 0 {
        parts.drop_last()
    } else {
        parts
    }
}

/// The lines joined with a newline between each two.
pub open spec fn join_lines(ls: Seq<Seq<char>>) -> Seq<char>
    decreases ls.len(),
{
    if ls.len() == 0 {
        Seq::empty()
    } else if ls.len() == 1 {
        ls[0]
    } else {
        join_lines(ls.drop_last()).push(NEWLINE) + ls.last()
    }
}

/// Each line followed by a newline.
pub open spec fn terminate_lines(ls: Seq<Seq<char>>) -> Seq<char>
    decreases ls.len(),
{
    if ls.len() == 0 {
        Seq::empty()
    } else {
        terminate_lines(ls.drop_last()) + ls.last().push(NEWLINE)
    }
}

pub open spec fn has_no_newline(s: Seq<char>) -> bool {
    forall|i: int| 0 <= i < s.len() ==> s[i] != NEWLINE
}

pub proof fn lemma_split_lines_shape(s: Seq<char>)
    ensures
        split_lines(s).len() >= 1,
        split_lines(s).len() <= s.len() + 1,
        forall|k: int| 0 <= k < split_lines(s).len() ==> has_no_newline(#[trigger] split_lines(s)[k]),
    decreases s.len(),
{
    if s.len() > 0 {
        lemma_split_lines_shape(s.drop_last());
    }
}

/// Appends the characters of `src` to `dst`.
pub fn extend(dst: &mut Vec<char>, src: &Vec<char>)
    ensures
        final(dst)@ == old(dst)@ + src@,
{
    let mut i: usize = 0;
    while i < src.len()
        invariant
            i <= src.len(),
            dst@ == old(dst)@ + src@.take(i as int),
        decreases src.len() - i,
    {
        dst.push(src[i]);
        i = i + 1;
        assert(src@.take(i as int) == src@.take(i - 1).push(src@[i - 1]));
    }
    assert(src@.take(src.len() as int) == src@);
}

/// Splits `s` at every newline.
pub fn split_lines_exec(s: &Vec<char>) -> (r: Vec<Vec<char>>)
    ensures
        r@.map_values(|l: Vec<char>| l@) == split_lines(s@),
{
    let mut done: Vec<Vec<char>> = Vec::new();
    let mut cur: Vec<char> = Vec::new();
    let mut i: usize = 0;
    while i < s.len()
        invariant
            i <= s.len(),
            done@.map_values(|l: Vec<char>| l@).push(cur@) == split_lines(s@.take(i as int)),
        decreases s.len() - i,
    {
        let c = s[i];
        assert(s@.take(i + 1).drop_last() == s@.take(i as int));
        if c == NEWLINE {
            done.push(cur);
            cur = Vec::new();
            assert(done@.map_values(|l: Vec<char>| l@) == split_lines(s@.take(i as int)));
        } else {
            cur.push(c);
        }
        i = i + 1;
    }
    assert(s@.take(s.len() as int) == s@);
    done.push(cur);
    done
}


pub open spec fn views(v: Seq<Vec<char>>) -> Seq<Seq<char>> {
    v.map_values(|l: Vec<char>| l@)
}

/// The lines of `s`, as `lines_of` gives them.
pub fn lines_exec(s: &Vec<char>) -> (r: Vec<Vec<char>>)
    ensures
        views(r@) == lines_of(s@),
{
    let mut parts = split_lines_exec(s);
    proof {
        lemma_split_lines_shape(s@);
    }
    let n = parts.len();
    if parts[n - 1].len() == 0 {
        parts.pop();
        assert(views(parts@) == split_lines(s@).drop_last());
    }
    parts
}

/// Joins `ls` with a newline between each two.
pub fn join_lines_exec(ls: &Vec<Vec<char>>) -> (r: Vec<char>)
    ensures
        r@ == join_lines(views(ls@)),
{
    let mut out: Vec<char> = Vec::new();
    let mut i: usize = 0;
    while i < ls.len()
        invariant
            i <= ls.len(),
            out@ == join_lines(views(ls@).take(i as int)),
        decreases ls.len() - i,
    {
        assert(views(ls@).take(i + 1).drop_last() == views(ls@).take(i as int));
        if i > 0 {
            out.push(NEWLINE);
        }
        extend(&mut out, &ls[i]);
        i = i + 1;
    }
    assert(views(ls@).take(ls.len() as int) == views(ls@));
    out
}

/// Writes each line of `ls` followed by a newline.
pub fn terminate_lines_exec(ls: &Vec<Vec<char>>) -> (r: Vec<char>)
    ensures
        r@ == terminate_lines(views(ls@)),
{
    let mut out: Vec<char> = Vec::new();
    let mut i: usize = 0;
    while i < ls.len()
        invariant
            i <= ls.len(),
            out@ == terminate_lines(views(ls@).take(i as int)),
        decreases ls.len() - i,
    {
        assert(views(ls@).take(i + 1).drop_last() == views(ls@).take(i as int));
        extend(&mut out, &ls[i]);
        out.push(NEWLINE);
        i = i + 1;
    }
    assert(views(ls@).take(ls.len() as int) == views(ls@));
    out
}

/// The number of lines that remain when `n` are taken from the end of `total`.
pub open spec fn kept_lines(total: int, n: int) -> int {
    if n >= total {
        0
    } else {
        total - n
    }
}

/// The text without its last `n` lines: the first lines of `text`, joined by newlines.
pub fn remove_last_n_lines(text: &str, n: u32) -> (r: String)
    ensures
        r@ == join_lines(lines_of(text@).take(kept_lines(lines_of(text@).len() as int, n as int))),
{
    let chars = chars_of(text);
    let mut lines = lines_exec(&chars);
    let ghost all = lines_of(text@);
    let keep: usize = if (n as usize) >= lines.len() {
        0
    } else {
        lines.len() - n as usize
    };
    lines.truncate(keep);
    assert(views(lines@) == all.take(keep as int));
    let joined = join_lines_exec(&lines);
    string_of(&joined)
}

/// Joining the pieces of `s` between newlines gives back `s`.
pub proof fn lemma_join_split(s: Seq<char>)
    ensures
        join_lines(split_lines(s)) == s,
    decreases s.len(),
{
    if s.len() > 0 {
        let init = s.drop_last();
        lemma_join_split(init);
        lemma_split_lines_shape(init);
        let ls = split_lines(init);
        if s.last() == NEWLINE {
            assert(split_lines(s).drop_last() == ls);
            assert(s == init.push(NEWLINE));
        } else {
            let up = ls.update(ls.len() - 1, ls.last().push(s.last()));
            assert(up.drop_last() == ls.drop_last());
            if ls.len() == 1 {
                assert(s == init.push(s.last()));
            } else {
                assert(s == init.push(s.last()));
                assert(join_lines(up) == join_lines(ls.drop_last()).push(NEWLINE) + ls.last().push(
                    s.last(),
                ));
                assert(join_lines(up) == join_lines(ls).push(s.last()));
            }
        }
    }
}

/// Joining the first `k` of some lines gives a prefix of joining them all.
pub proof fn lemma_join_take_prefix(ls: Seq<Seq<char>>, k: int)
    requires
        0 <= k <= ls.len(),
    ensures
        join_lines(ls.take(k)).len() <= join_lines(ls).len(),
        join_lines(ls.take(k)) == join_lines(ls).take(join_lines(ls.take(k)).len() as int),
    decreases ls.len(),
{
    if k == ls.len() {
        assert(ls.take(k) == ls);
    } else if k == 0 {
        assert(ls.take(k).len() == 0);
    } else {
        let dl = ls.drop_last();
        lemma_join_take_prefix(dl, k);
        assert(dl.take(k) == ls.take(k));
        let a = join_lines(ls.take(k));
        let b = join_lines(dl);
        assert(ls.len() >= 2);
        assert(join_lines(ls) == b.push(NEWLINE) + ls.last());
        assert(join_lines(ls).take(a.len() as int) == b.take(a.len() as int));
    }
}

/// Dropping the last `n` lines of a buffer leaves exactly its first lines: the result is a
/// prefix of the buffer, and it is the first `total - n` lines joined by newlines.
pub proof fn lemma_trimmed_is_prefix(s: Seq<char>, n: nat)
    ensures
        ({
            let kept = join_lines(lines_of(s).take(kept_lines(lines_of(s).len() as int, n as int)));
            &&& kept.len() <= s.len()
            &&& kept == s.take(kept.len() as int)
        }),
{
    let parts = split_lines(s);
    lemma_split_lines_shape(s);
    lemma_join_split(s);
    let k = kept_lines(lines_of(s).len() as int, n as int);
    assert(lines_of(s).take(k) == parts.take(k));
    lemma_join_take_prefix(parts, k);
}


/// Appending text without a newline extends the last piece.
pub proof fn lemma_split_append(a: Seq<char>, b: Seq<char>)
    requires
        has_no_newline(b),
    ensures
        split_lines(a + b) == split_lines(a).update(
            split_lines(a).len() - 1,
            split_lines(a).last() + b,
        ),
    decreases b.len(),
{
    lemma_split_lines_shape(a);
    if b.len() == 0 {
        assert(a + b == a);
        assert(split_lines(a).last() + b == split_lines(a).last());
        assert(split_lines(a).update(split_lines(a).len() - 1, split_lines(a).last()) =~= split_lines(a));
    } else {
        let bl = b.drop_last();
        lemma_split_append(a, bl);
        assert((a + b).drop_last() == a + bl);
        assert((a + b).last() == b.last());
        assert(b.last() != NEWLINE);
        assert(bl.push(b.last()) == b);
        let ls = split_lines(a);
        assert(split_lines(a + b) =~= ls.update(ls.len() - 1, ls.last() + b));
    }
}

/// Splitting newline-terminated lines gives them back, with an empty piece after the last.
pub proof fn lemma_split_terminated(ls: Seq<Seq<char>>)
    requires
        forall|k: int| 0 <= k < ls.len() ==> has_no_newline(#[trigger] ls[k]),
    ensures
        split_lines(terminate_lines(ls)) == ls.push(Seq::empty()),
        lines_of(terminate_lines(ls)) == ls,
    decreases ls.len(),
{
    if ls.len() == 0 {
        assert(split_lines(Seq::empty()) == seq![Seq::<char>::empty()]);
        assert(ls.push(Seq::empty()) =~= seq![Seq::<char>::empty()]);
    } else {
        let dl = ls.drop_last();
        assert forall|k: int| 0 <= k < dl.len() implies has_no_newline(#[trigger] dl[k]) by {
            assert(dl[k] == ls[k]);
        }
        lemma_split_terminated(dl);
        let t = terminate_lines(dl);
        assert(has_no_newline(ls.last()));
        lemma_split_append(t, ls.last());
        assert(terminate_lines(ls) == (t + ls.last()).push(NEWLINE));
        assert(split_lines(t + ls.last()) =~= ls);
        assert((t + ls.last()).push(NEWLINE).drop_last() == t + ls.last());
    }
    assert(split_lines(terminate_lines(ls)).drop_last() =~= ls);
}

} // verus!
