//! The style configuration: `key: value` lines, looked up by key, with the layout flags
//! checked once when the configuration is read.

use vstd::prelude::*;
use crate::ansi::{is_space, is_space_exec};
use crate::text::{chars_of, lines_exec, lines_of, string_of, views};

verus! {

/// One `key: value` setting.
pub struct StyleEntry {
    key: Vec<char>,
    value: Vec<char>,
}

/// The settings of a style file, in the order in which they were written.
pub struct StyleConfig {
    entries: Vec<StyleEntry>,
}

impl View for StyleConfig {
    type V = Seq<(Seq<char>, Seq<char>)>;

    closed spec fn view(&self) -> Seq<(Seq<char>, Seq<char>)> {
        self.entries@.map_values(|e: StyleEntry| (e.key@, e.value@))
    }
}

/// The value of the last entry with the given key.
pub open spec fn lookup(entries: Seq<(Seq<char>, Seq<char>)>, key: Seq<char>) -> Option<Seq<char>>
    decreases entries.len(),
{
    if entries.len() == 0 {
        None
    } else if entries.last().0 == key {
        Some(entries.last().1)
    } else {
        lookup(entries.drop_last(), key)
    }
}

/// The number of whitespace characters at the start of `s`.
pub open spec fn lead_ws(s: Seq<char>) -> nat
    decreases s.len(),
{
    if s.len() > 0 && is_space(s[0]) {
        1 + lead_ws(s.drop_first())
    } else {
        0
    }
}

/// The number of whitespace characters at the end of `s`.
pub open spec fn trail_ws(s: Seq<char>) -> nat
    decreases s.len(),
{
    if s.len() > 0 && is_space(s.last()) {
        1 + trail_ws(s.drop_last())
    } else {
        0
    }
}

/// `s` without whitespace at either end.
pub open spec fn trim(s: Seq<char>) -> Seq<char> {
    let t = s.skip(lead_ws(s) as int);
    t.take(t.len() - trail_ws(t))
}

/// The first position of `c` in `s`.
pub open spec fn first_index(s: Seq<char>, c: char) -> Option<int>
    decreases s.len(),
{
    if s.len() == 0 {
        None
    } else if s[0] == c {
        Some(0)
    } else {
        match first_index(s.drop_first(), c) {
            Some(k) => Some(k + 1),
            None => None,
        }
    }
}

/// The setting that a line holds: the text before its first colon and the text after it,
/// both trimmed; a line without a colon holds none.
pub open spec fn parse_line(l: Seq<char>) -> Option<(Seq<char>, Seq<char>)> {
    match first_index(l, ':') {
        Some(p) => Some((trim(l.take(p)), trim(l.skip(p + 1)))),
        None => None,
    }
}

/// The settings that the lines hold, in order.
pub open spec fn parse_lines(ls: Seq<Seq<char>>) -> Seq<(Seq<char>, Seq<char>)>
    decreases ls.len(),
{
    if ls.len() == 0 {
        Seq::empty()
    } else {
        match parse_line(ls.last()) {
            Some(e) => parse_lines(ls.drop_last()).push(e),
            None => parse_lines(ls.drop_last()),
        }
    }
}

fn trim_exec(s: &Vec<char>, from: usize, to: usize) -> (r: Vec<char>)
    requires
        from <= to <= s.len(),
    ensures
        r@ == trim(s@.subrange(from as int, to as int)),
{
    let ghost w = s@.subrange(from as int, to as int);
    let mut a: usize = from;
    assert(w.skip(0) == w);
    while a < to && is_space_exec(s[a])
        invariant
            from <= a <= to <= s.len(),
            w == s@.subrange(from as int, to as int),
            (a - from) + lead_ws(w.skip(a - from)) == lead_ws(w),
        decreases to - a,
    {
        assert(w.skip(a - from).drop_first() == w.skip(a - from + 1));
        a = a + 1;
    }
    let ghost t = w.skip(a - from);
    assert(t == s@.subrange(a as int, to as int));
    let mut b: usize = to;
    assert(t.take(t.len() as int) == t);
    while b > a && is_space_exec(s[b - 1])
        invariant
            from <= a <= b <= to <= s.len(),
            t == s@.subrange(a as int, to as int),
            (to - b) + trail_ws(t.take(b - a)) == trail_ws(t),
        decreases b - a,
    {
        assert(t.take(b - a).drop_last() == t.take(b - a - 1));
        b = b - 1;
    }
    let mut out: Vec<char> = Vec::new();
    let mut k: usize = a;
    while k < b
        invariant
            a <= k <= b <= s.len(),
            out@ == s@.subrange(a as int, k as int),
        decreases b - k,
    {
        out.push(s[k]);
        k = k + 1;
    }
    assert(out@ =~= t.take(t.len() - trail_ws(t)));
    out
}

fn parse_line_exec(l: &Vec<char>) -> (r: Option<StyleEntry>)
    ensures
        match r {
            Some(e) => parse_line(l@) == Some((e.key@, e.value@)),
            None => parse_line(l@) is None,
        },
{
    let mut p: usize = 0;
    assert(l@.skip(0) == l@);
    while p < l.len() && l[p] != ':'
        invariant
            p <= l.len(),
            forall|j: int| 0 <= j < p ==> l@[j] != ':',
            first_index(l@, ':') == match first_index(l@.skip(p as int), ':') {
                Some(k) => Some(k + p),
                None => None::<int>,
            },
        decreases l.len() - p,
    {
        assert(l@.skip(p as int).drop_first() == l@.skip(p + 1));
        p = p + 1;
    }
    if p == l.len() {
        assert(l@.skip(p as int).len() == 0);
        None
    } else {
        assert(l@.skip(p as int)[0] == ':');
        assert(l@.take(p as int) == l@.subrange(0, p as int));
        assert(l@.skip(p + 1) == l@.subrange(p + 1, l.len() as int));
        let key = trim_exec(l, 0, p);
        let value = trim_exec(l, p + 1, l.len());
        Some(StyleEntry { key, value })
    }
}

/// Whether a string holds exactly the characters of `b`.
pub fn eq_str(a: &String, b: &str) -> (r: bool)
    ensures
        r == (a@ == b@),
{
    let x = chars_of(a.as_str());
    let y = chars_of(b);
    eq_chars(&x, &y)
}

pub fn eq_chars(a: &Vec<char>, b: &Vec<char>) -> (r: bool)
    ensures
        r == (a@ == b@),
{
    if a.len() != b.len() {
        return false;
    }
    let mut i: usize = 0;
    while i < a.len()
        invariant
            i <= a.len() == b.len(),
            a@.take(i as int) == b@.take(i as int),
        decreases a.len() - i,
    {
        if a[i] != b[i] {
            assert(a@.take(i + 1)[i as int] != b@.take(i + 1)[i as int]);
            return false;
        }
        assert(a@.take(i + 1) =~= a@.take(i as int).push(a@[i as int]));
        assert(b@.take(i + 1) =~= b@.take(i as int).push(b@[i as int]));
        i = i + 1;
    }
    assert(a@.take(i as int) == a@);
    assert(b@.take(i as int) == b@);
    true
}

impl StyleConfig {
    /// Reads a style file: each line `key: value` sets `key`; a line without a colon is
    /// skipped; where a key is set twice the later setting holds.
    pub fn parse(content: &str) -> (r: StyleConfig)
        ensures
            r@ == parse_lines(lines_of(content@)),
    {
        let chars = chars_of(content);
        let lines = lines_exec(&chars);
        let mut entries: Vec<StyleEntry> = Vec::new();
        let mut i: usize = 0;
        while i < lines.len()
            invariant
                i <= lines.len(),
                views(lines@) == lines_of(content@),
                entries@.map_values(|e: StyleEntry| (e.key@, e.value@)) == parse_lines(
                    views(lines@).take(i as int),
                ),
            decreases lines.len() - i,
        {
            assert(views(lines@).take(i + 1).drop_last() == views(lines@).take(i as int));
            match parse_line_exec(&lines[i]) {
                Some(e) => {
                    entries.push(e);
                    assert(entries@.map_values(|e: StyleEntry| (e.key@, e.value@)) =~= parse_lines(
                        views(lines@).take(i + 1),
                    ));
                },
                None => {},
            }
            i = i + 1;
        }
        assert(views(lines@).take(lines.len() as int) == views(lines@));
        StyleConfig { entries }
    }

    /// The value set for `key`, if any.
    pub fn get(&self, key: &str) -> (r: Option<String>)
        ensures
            match r {
                Some(v) => lookup(self@, key@) == Some(v@),
                None => lookup(self@, key@) is None,
            },
    {
        let k = chars_of(key);
        let mut i: usize = self.entries.len();
        assert(self@.len() == self.entries@.len());
        assert(self@.take(i as int) == self@);
        while i > 0
            invariant
                i <= self.entries.len(),
                lookup(self@, key@) == lookup(self@.take(i as int), key@),
                self@.len() == self.entries@.len(),
                k@ == key@,
            decreases i,
        {
            assert(self@[i - 1] == (self.entries@[i - 1].key@, self.entries@[i - 1].value@));
            let ghost t = self@.take(i as int);
            assert(t.len() == i);
            assert(t.drop_last() =~= self@.take(i - 1));
            assert(t.last() == self@[i - 1]);
            assert(lookup(t, key@) == if t.last().0 == key@ {
                Some(t.last().1)
            } else {
                lookup(t.drop_last(), key@)
            });
            if eq_chars(&self.entries[i - 1].key, &k) {
                return Some(string_of(&self.entries[i - 1].value));
            }
            i = i - 1;
        }
        None
    }

    /// The value set for `key`, or `default` where none is.
    pub fn get_or(&self, key: &str, default: &str) -> (r: String)
        ensures
            r@ == match lookup(self@, key@) {
                Some(v) => v,
                None => default@,
            },
    {
        match self.get(key) {
            Some(v) => v,
            None => String::from_str(default),
        }
    }
}

/// Why a style configuration cannot be used.
#[derive(Debug, PartialEq, Eq)]
pub enum StyleError {
    /// A flag that the engine needs is not set.
    MissingStyleKey(String),
    /// A flag is set to something other than `true` or `false`.
    InvalidFlag(String),
}

pub open spec fn true_text() -> Seq<char> {
    seq!['t', 'r', 'u', 'e']
}

pub open spec fn false_text() -> Seq<char> {
    seq!['f', 'a', 'l', 's', 'e']
}

/// What a flag setting means: `true`, `false`, or nothing usable.
pub open spec fn flag_value(v: Seq<char>) -> Option<bool> {
    if v == true_text() {
        Some(true)
    } else if v == false_text() {
        Some(false)
    } else {
        None
    }
}

fn flag_value_exec(v: &String) -> (r: Option<bool>)
    ensures
        r == flag_value(v@),
{
    let c = chars_of(v.as_str());
    let mut t: Vec<char> = Vec::new();
    t.push('t');
    t.push('r');
    t.push('u');
    t.push('e');
    let mut f: Vec<char> = Vec::new();
    f.push('f');
    f.push('a');
    f.push('l');
    f.push('s');
    f.push('e');
    assert(t@ =~= true_text());
    assert(f@ =~= false_text());
    if eq_chars(&c, &t) {
        Some(true)
    } else if eq_chars(&c, &f) {
        Some(false)
    } else {
        None
    }
}

/// The flag `key` of the configuration: an error where it is missing or neither `true` nor
/// `false`.
pub open spec fn flag_of(cfg: Seq<(Seq<char>, Seq<char>)>, key: Seq<char>) -> Option<bool> {
    match lookup(cfg, key) {
        Some(v) => flag_value(v),
        None => None,
    }
}

/// The error that reading the flag `key` gives where it is not a usable flag.
pub open spec fn flag_error(cfg: Seq<(Seq<char>, Seq<char>)>, key: Seq<char>, e: StyleError) -> bool {
    match lookup(cfg, key) {
        None => e is MissingStyleKey && e->MissingStyleKey_0@ == key,
        Some(_) => e is InvalidFlag && e->InvalidFlag_0@ == key,
    }
}

impl StyleConfig {
    /// The flag `key`: `Ok` with its value where it is set to `true` or `false`,
    /// `MissingStyleKey` where it is not set, `InvalidFlag` where it is set to anything else.
    pub fn flag(&self, key: &str) -> (r: Result<bool, StyleError>)
        ensures
            match flag_of(self@, key@) {
                Some(b) => r == Ok::<bool, StyleError>(b),
                None => r matches Err(e) && flag_error(self@, key@, e),
            },
    {
        match self.get(key) {
            None => Err(StyleError::MissingStyleKey(String::from_str(key))),
            Some(v) => match flag_value_exec(&v) {
                Some(b) => Ok(b),
                None => Err(StyleError::InvalidFlag(String::from_str(key))),
            },
        }
    }
}

} // verus!
