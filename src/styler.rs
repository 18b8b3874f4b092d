//! The Markdown styler: turns a document tree into ANSI-styled text and collects its fenced
//! code blocks, in document order, into a registry.

use vstd::prelude::*;
use crate::ansi::STRIKE_MARK;
use crate::highlight::{builtin_theme, has_theme, highlight, highlighted};
use crate::layout::{color_pair, pair_of, paint_pair};
use crate::paint::{fg_bg_params, fg_params, paint, paint_attr, paint_fg, paint_fg_bg};
use crate::style::{eq_str, lookup, StyleConfig};
use crate::text::{chars_of, extend, join_lines, join_lines_exec, lines_exec, lines_of, string_of, NEWLINE};

verus! {

broadcast use vstd::std_specs::vec::group_vec_axioms, vstd::seq::group_seq_axioms;

/// A node of a parsed Markdown document.
pub enum MdNode {
    Root(Vec<MdNode>),
    Paragraph(Vec<MdNode>),
    Text(String),
    /// A heading and its level.
    Heading(u8, Vec<MdNode>),
    InlineCode(String),
    /// A fenced code block: its language tag, if any, and its text.
    Code(Option<String>, String),
    Emphasis(Vec<MdNode>),
    Strong(Vec<MdNode>),
    /// A link: its text and its address.
    Link(Vec<MdNode>, String),
    ThematicBreak,
    BlockQuote(Vec<MdNode>),
    /// A list: whether it is ordered, the number of its first item, its items.
    List(bool, Option<u32>, Vec<MdNode>),
    ListItem(Vec<MdNode>),
    Break,
    Delete(Vec<MdNode>),
    /// A link definition: identifier, address, title.
    Definition(String, String, Option<String>),
    /// Anything the styler does not render.
    Other,
}

/// A fenced code block kept for later execution.
pub struct CodeBlock {
    pub lang: String,
    pub code: String,
}

pub open spec fn block_view(b: CodeBlock) -> (Seq<char>, Seq<char>) {
    (b.lang@, b.code@)
}

/// How the text of each child is decorated before it is joined.
pub enum Deco {
    Plain,
    /// Painted with one SGR attribute (`1` bold, `3` italic, `9` strike-through).
    Attr(char),
}

pub open spec fn decorate(t: Seq<char>, d: Deco) -> Seq<char> {
    match d {
        Deco::Plain => t,
        Deco::Attr(c) => paint(t, seq![c]),
    }
}

/// The setting `key`, or `default` where it is not set.
pub open spec fn setting(cfg: Seq<(Seq<char>, Seq<char>)>, key: Seq<char>, default: Seq<char>) -> Seq<char> {
    match lookup(cfg, key) {
        Some(v) => v,
        None => default,
    }
}

pub open spec fn or_empty(t: Option<Seq<char>>) -> Seq<char> {
    match t {
        Some(x) => x,
        None => Seq::empty(),
    }
}

/// Each character of `m` followed by the combining long stroke overlay.
pub open spec fn struck(m: Seq<char>) -> Seq<char>
    decreases m.len(),
{
    if m.len() == 0 {
        Seq::empty()
    } else {
        struck(m.drop_last()) + seq![m.last(), STRIKE_MARK]
    }
}

/// Where the `~~` that closes a strike-through opened before `j` starts: the first `~~` from
/// `j` on, with no newline before it.
pub open spec fn close_from(s: Seq<char>, j: int) -> Option<int>
    decreases s.len() - j,
{
    if j < 0 || j + 1 >= s.len() || s[j] == NEWLINE {
        None
    } else if s[j] == '~' && s[j + 1] == '~' {
        Some(j)
    } else {
        close_from(s, j + 1)
    }
}

/// `s` from `i` on with each `~~text~~` (on one line) replaced by the text struck through.
pub open spec fn strike_from(s: Seq<char>, i: int) -> Seq<char>
    decreases s.len() - i,
{
    if i < 0 || i >= s.len() {
        Seq::empty()
    } else if i + 1 < s.len() && s[i] == '~' && s[i + 1] == '~' && close_from(s, i + 2) is Some {
        let j = close_from(s, i + 2)->0;
        if j < i + 2 || j + 2 > s.len() {
            Seq::empty()
        } else {
            struck(s.subrange(i + 2, j)) + strike_from(s, j + 2)
        }
    } else {
        seq![s[i]] + strike_from(s, i + 1)
    }
}

pub open spec fn strike(s: Seq<char>) -> Seq<char> {
    strike_from(s, 0)
}

/// `s` with each tab written as four spaces.
pub open spec fn expand_tabs(s: Seq<char>) -> Seq<char>
    decreases s.len(),
{
    if s.len() == 0 {
        Seq::empty()
    } else if s.last() == '\t' {
        expand_tabs(s.drop_last()) + seq![' ', ' ', ' ', ' ']
    } else {
        expand_tabs(s.drop_last()).push(s.last())
    }
}

/// The decimal digits of `n`.
pub open spec fn decimal(n: nat) -> Seq<char>
    decreases n,
{
    if n < 10 {
        seq![digit_char(n)]
    } else {
        decimal(n / 10).push(digit_char(n % 10))
    }
}

pub open spec fn digit_char(d: nat) -> char {
    if d == 0 { '0' } else if d == 1 { '1' } else if d == 2 { '2' } else if d == 3 { '3' } else if d == 4 {
        '4'
    } else if d == 5 { '5' } else if d == 6 { '6' } else if d == 7 { '7' } else if d == 8 { '8' } else {
        '9'
    }
}

pub open spec fn repeat_seq(s: Seq<char>, n: nat) -> Seq<char>
    decreases n,
{
    if n == 0 {
        Seq::empty()
    } else {
        repeat_seq(s, (n - 1) as nat) + s
    }
}

/// The indentation of a paragraph at a nesting depth: one white-on-black space per level.
pub open spec fn indent(depth: nat) -> Seq<char> {
    repeat_seq(paint(" "@, fg_bg_params("white"@, "black"@)), depth)
}

/// The bullet of an unordered list item at a nesting depth: four glyphs, in turn.
pub open spec fn bullet_glyph(depth: nat) -> Seq<char> {
    if depth % 4 == 1 {
        seq![' ', '·', ' ']
    } else if depth % 4 == 2 {
        seq![' ', '*', ' ']
    } else if depth % 4 == 3 {
        seq![' ', '-', ' ']
    } else {
        seq![' ', '•', ' ']
    }
}

pub open spec fn heading_key(level: u8) -> Seq<char> {
    seq!['h', digit_char(level as nat)]
}

pub open spec fn heading_default(level: u8) -> Seq<char> {
    if level == 1 {
        "red"@
    } else if level == 2 {
        "yellow"@
    } else if level == 3 {
        "green"@
    } else if level == 4 {
        "blue"@
    } else if level == 5 {
        "magenta"@
    } else {
        "cyan"@
    }
}

pub open spec fn code_lang(lang: Option<String>) -> Seq<char> {
    match lang {
        Some(l) => l@,
        None => "plaintext"@,
    }
}

/// The text of a code block: highlighted where `syntax_highlighting` is `true` (the default)
/// and cut into lines again; tabs become four spaces either way.
pub open spec fn code_text(lang: Option<String>, code: Seq<char>, cfg: Seq<(Seq<char>, Seq<char>)>) -> Seq<char> {
    if setting(cfg, "syntax_highlighting"@, "true"@) == "true"@ {
        let bg = setting(cfg, "syntax_bg"@, "false"@);
        join_lines(lines_of(highlighter_output(
            code_lang(lang),
            code,
            setting(cfg, "syntax_theme"@, "base16-ocean.dark"@),
            bg == "true"@ || bg == "True"@,
        )))
    } else {
        expand_tabs(code)
    }
}

/// The styled text of a node at a nesting depth, or nothing for nodes that are not rendered.
pub open spec fn styled(n: MdNode, depth: nat, cfg: Seq<(Seq<char>, Seq<char>)>) -> Option<Seq<char>>
    decreases n,
{
    match n {
        MdNode::Root(cs) => Some(joined(cs@, depth, cfg, Deco::Plain).push(NEWLINE)),
        MdNode::Paragraph(cs) => Some(seq![NEWLINE] + indent(depth) + strike(joined(cs@, depth, cfg, Deco::Plain)) + seq![NEWLINE]),
        MdNode::Text(v) => Some(strike(v@)),
        MdNode::Heading(level, cs) => if 1 <= level <= 6 {
            Some(seq![NEWLINE] + paint(repeat_seq(seq!['█'], level as nat) + seq![' '] + joined(cs@, depth, cfg, Deco::Plain),
                fg_params(setting(cfg, heading_key(level), heading_default(level)))) + seq![NEWLINE])
        } else {
            Some(seq![NEWLINE] + joined(cs@, depth, cfg, Deco::Plain) + seq![NEWLINE])
        },
        MdNode::InlineCode(v) => Some(paint(v@, fg_params(setting(cfg, "inline_code"@, "green"@)))),
        MdNode::Code(lang, v) => Some(seq![NEWLINE] + code_text(lang, v@, cfg) + seq![NEWLINE, NEWLINE]),
        MdNode::Emphasis(cs) => Some(joined(cs@, depth, cfg, Deco::Attr('3'))),
        MdNode::Strong(cs) => Some(joined(cs@, depth, cfg, Deco::Attr('1'))),
        MdNode::Delete(cs) => Some(joined(cs@, depth, cfg, Deco::Attr('9'))),
        MdNode::Link(cs, url) => Some(paint(joined(cs@, depth, cfg, Deco::Plain), fg_params(setting(cfg, "link_text"@, "blue"@)))
            + seq![' ', '-', ' '] + paint(url@, fg_params(setting(cfg, "link_url"@, "green"@)))),
        MdNode::ThematicBreak => Some(seq![NEWLINE, '-', '-', '-', NEWLINE]),
        MdNode::BlockQuote(cs) => Some(paint(joined(cs@, deeper(depth), cfg, Deco::Plain),
            pair_view_params(pair_of(setting(cfg, "blockquote"@, "black on white"@)))).push(NEWLINE)),
        MdNode::List(ordered, start, items) => Some(seq![NEWLINE] + listed(items@, depth, cfg, ordered,
            match start { Some(s) => s as nat, None => 1 }) + seq![NEWLINE]),
        MdNode::Break => Some(seq![NEWLINE]),
        MdNode::Definition(id, url, title) => match title {
            Some(t) => {
                let c = fg_params(setting(cfg, "definition"@, "green"@));
                Some(seq!['['] + paint(id@, c) + seq![']', ':', ' '] + paint(url@, c) + seq![' '] + paint(t@, c))
            },
            None => None,
        },
        MdNode::ListItem(_) => None,
        MdNode::Other => None,
    }
}

/// One level deeper, held at the largest depth a `usize` counts.
pub open spec fn deeper(d: nat) -> nat {
    if d < usize::MAX {
        d + 1
    } else {
        d
    }
}

pub open spec fn pair_view_params(p: (Seq<char>, Option<Seq<char>>)) -> Seq<char> {
    match p.1 {
        Some(b) => fg_bg_params(p.0, b),
        None => fg_params(p.0),
    }
}

/// The styled text of each child, decorated, in order.
pub open spec fn joined(cs: Seq<MdNode>, depth: nat, cfg: Seq<(Seq<char>, Seq<char>)>, d: Deco) -> Seq<char>
    decreases cs,
{
    if cs.len() == 0 {
        Seq::empty()
    } else {
        joined(cs.drop_last(), depth, cfg, d) + match styled(cs.last(), depth, cfg) {
            Some(t) => decorate(t, d),
            None => Seq::empty(),
        }
    }
}

/// The content of a list item: paragraphs give their text without paragraph breaks.
pub open spec fn item_content(cs: Seq<MdNode>, depth: nat, cfg: Seq<(Seq<char>, Seq<char>)>) -> Seq<char>
    decreases cs,
{
    if cs.len() == 0 {
        Seq::empty()
    } else {
        item_content(cs.drop_last(), depth, cfg) + match cs.last() {
            MdNode::Paragraph(pcs) => joined(pcs@, depth, cfg, Deco::Plain),
            other => or_empty(styled(other, depth, cfg)),
        }
    }
}

pub open spec fn item_text(item: MdNode, depth: nat, cfg: Seq<(Seq<char>, Seq<char>)>) -> Seq<char>
    decreases item,
{
    match item {
        MdNode::ListItem(cs) => item_content(cs@, depth, cfg),
        _ => Seq::empty(),
    }
}

/// The number of the item `k` places after the first, held at the largest `u64`.
pub open spec fn item_number(start: nat, k: nat) -> nat {
    if start + k <= u64::MAX {
        start + k
    } else {
        u64::MAX as nat
    }
}

pub open spec fn bullet(ordered: bool, number: nat, depth: nat, cfg: Seq<(Seq<char>, Seq<char>)>) -> Seq<char> {
    if ordered {
        paint(seq![' '] + decimal(number) + seq!['.', ' '], fg_params(setting(cfg, "ordered_list_bullet"@, "green"@)))
    } else {
        paint(bullet_glyph(depth), fg_params(setting(cfg, "unordered_list_bullet"@, "green"@)))
    }
}

/// The items of a list, each indented, with its bullet or number, its content and a newline,
/// all painted in the list's text colour.
pub open spec fn listed(items: Seq<MdNode>, depth: nat, cfg: Seq<(Seq<char>, Seq<char>)>, ordered: bool, start: nat) -> Seq<char>
    decreases items,
{
    if items.len() == 0 {
        Seq::empty()
    } else {
        let text_color = if ordered {
            setting(cfg, "ordered_list"@, "blue"@)
        } else {
            setting(cfg, "unordered_list"@, "blue"@)
        };
        listed(items.drop_last(), depth, cfg, ordered, start) + paint(
            repeat_seq(seq![' ', ' '], depth) + bullet(ordered, item_number(start, (items.len() - 1) as nat), depth, cfg)
                + item_text(items.last(), deeper(depth), cfg) + seq![NEWLINE],
            fg_params(text_color),
        )
    }
}


/// The code blocks of a node, in document order, as the styler meets them.
pub open spec fn codes(n: MdNode) -> Seq<(Seq<char>, Seq<char>)>
    decreases n,
{
    match n {
        MdNode::Root(cs) => codes_of(cs@),
        MdNode::Paragraph(cs) => codes_of(cs@),
        MdNode::Heading(_, cs) => codes_of(cs@),
        MdNode::Emphasis(cs) => codes_of(cs@),
        MdNode::Strong(cs) => codes_of(cs@),
        MdNode::Delete(cs) => codes_of(cs@),
        MdNode::Link(cs, _) => codes_of(cs@),
        MdNode::BlockQuote(cs) => codes_of(cs@),
        MdNode::Code(lang, v) => seq![(code_lang(lang), v@)],
        MdNode::List(_, _, items) => list_codes(items@),
        _ => Seq::empty(),
    }
}

pub open spec fn codes_of(cs: Seq<MdNode>) -> Seq<(Seq<char>, Seq<char>)>
    decreases cs,
{
    if cs.len() == 0 {
        Seq::empty()
    } else {
        codes_of(cs.drop_last()) + codes(cs.last())
    }
}

pub open spec fn item_codes(cs: Seq<MdNode>) -> Seq<(Seq<char>, Seq<char>)>
    decreases cs,
{
    if cs.len() == 0 {
        Seq::empty()
    } else {
        item_codes(cs.drop_last()) + match cs.last() {
            MdNode::Paragraph(pcs) => codes_of(pcs@),
            other => codes(other),
        }
    }
}

pub open spec fn list_codes(items: Seq<MdNode>) -> Seq<(Seq<char>, Seq<char>)>
    decreases items,
{
    if items.len() == 0 {
        Seq::empty()
    } else {
        list_codes(items.drop_last()) + match items.last() {
            MdNode::ListItem(cs) => item_codes(cs@),
            _ => Seq::empty(),
        }
    }
}

pub open spec fn blocks(reg: Seq<CodeBlock>) -> Seq<(Seq<char>, Seq<char>)> {
    reg.map_values(|b: CodeBlock| block_view(b))
}

pub proof fn lemma_blocks_push(reg: Seq<CodeBlock>, b: CodeBlock)
    ensures
        blocks(reg.push(b)) == blocks(reg).push(block_view(b)),
{
    assert(blocks(reg.push(b)) =~= blocks(reg).push(block_view(b)));
}

fn expand_tabs_exec(s: &Vec<char>) -> (r: Vec<char>)
    ensures
        r@ == expand_tabs(s@),
{
    let mut out: Vec<char> = Vec::new();
    let mut i: usize = 0;
    while i < s.len()
        invariant
            i <= s.len(),
            out@ == expand_tabs(s@.take(i as int)),
        decreases s.len() - i,
    {
        assert(s@.take(i + 1).drop_last() == s@.take(i as int));
        if s[i] == '\t' {
            out.push(' ');
            out.push(' ');
            out.push(' ');
            out.push(' ');
            assert(out@ =~= expand_tabs(s@.take(i + 1)));
        } else {
            out.push(s[i]);
        }
        i = i + 1;
    }
    assert(s@.take(s.len() as int) == s@);
    out
}

fn struck_exec(s: &Vec<char>, from: usize, to: usize, out: &mut Vec<char>)
    requires
        from <= to <= s.len(),
    ensures
        final(out)@ == old(out)@ + struck(s@.subrange(from as int, to as int)),
{
    let mut k: usize = from;
    while k < to
        invariant
            from <= k <= to <= s.len(),
            out@ == old(out)@ + struck(s@.subrange(from as int, k as int)),
        decreases to - k,
    {
        assert(s@.subrange(from as int, k + 1).drop_last() == s@.subrange(from as int, k as int));
        out.push(s[k]);
        out.push(STRIKE_MARK);
        assert(out@ =~= old(out)@ + struck(s@.subrange(from as int, k + 1)));
        k = k + 1;
    }
}

fn close_exec(s: &Vec<char>, j: usize) -> (r: Option<usize>)
    requires
        j <= s.len(),
    ensures
        match r {
            Some(k) => close_from(s@, j as int) == Some(k as int) && j <= k && k + 1 < s.len(),
            None => close_from(s@, j as int) is None,
        },
{
    let mut k: usize = j;
    while k < s.len() && k + 1 < s.len() && s[k] != NEWLINE
        invariant
            j <= k <= s.len(),
            close_from(s@, k as int) == close_from(s@, j as int),
        decreases s.len() - k,
    {
        if s[k] == '~' && s[k + 1] == '~' {
            return Some(k);
        }
        k = k + 1;
    }
    None
}

/// `s` with each `~~text~~` (on one line) replaced by the text struck through.
pub fn strike_exec(s: &Vec<char>) -> (r: Vec<char>)
    ensures
        r@ == strike(s@),
{
    let mut out: Vec<char> = Vec::new();
    let mut i: usize = 0;
    while i < s.len()
        invariant
            i <= s.len(),
            out@ + strike_from(s@, i as int) == strike(s@),
        decreases s.len() - i,
    {
        let ghost before = out@;
        if i + 1 < s.len() && s[i] == '~' && s[i + 1] == '~' {
            match close_exec(s, i + 2) {
                Some(j) => {
                    struck_exec(s, i + 2, j, &mut out);
                    assert(out@ + strike_from(s@, j + 2) == before + strike_from(s@, i as int));
                    i = j + 2;
                    continue;
                },
                None => {},
            }
        }
        out.push(s[i]);
        assert(out@ + strike_from(s@, i + 1) == before + strike_from(s@, i as int));
        i = i + 1;
    }
    assert(out@ + strike_from(s@, i as int) == out@);
    out
}

pub fn decimal_chars(n: u64) -> (r: Vec<char>)
    ensures
        r@ == decimal(n as nat),
    decreases n,
{
    let d = n % 10;
    let c = if d == 0 { '0' } else if d == 1 { '1' } else if d == 2 { '2' } else if d == 3 { '3' } else if d == 4 {
        '4'
    } else if d == 5 { '5' } else if d == 6 { '6' } else if d == 7 { '7' } else if d == 8 { '8' } else {
        '9'
    };
    if n < 10 {
        let mut r: Vec<char> = Vec::new();
        r.push(c);
        assert(r@ =~= seq![digit_char(n as nat)]);
        r
    } else {
        let mut r = decimal_chars(n / 10);
        r.push(c);
        r
    }
}

fn repeat_exec(s: &Vec<char>, n: usize) -> (r: Vec<char>)
    ensures
        r@ == repeat_seq(s@, n as nat),
{
    let mut out: Vec<char> = Vec::new();
    let mut i: usize = 0;
    while i < n
        invariant
            i <= n,
            out@ == repeat_seq(s@, i as nat),
        decreases n - i,
    {
        extend(&mut out, s);
        i = i + 1;
    }
    out
}

fn literal(s: &str) -> (r: Vec<char>)
    ensures
        r@ == s@,
{
    chars_of(s)
}

fn code_text_exec(lang: &Option<String>, code: &String, cfg: &StyleConfig) -> (r: Vec<char>)
    ensures
        r@ == code_text(*lang, code@, cfg@),
{
    let on = cfg.get_or("syntax_highlighting", "true");
    if eq_str(&on, "true") {
        let bgs = cfg.get_or("syntax_bg", "false");
        let bg = eq_str(&bgs, "true") || eq_str(&bgs, "True");
        let theme = cfg.get_or("syntax_theme", "base16-ocean.dark");
        let language = match lang {
            Some(l) => l.clone(),
            None => String::from_str("plaintext"),
        };
        let h = syntax_highlighter(language.as_str(), code.clone(), theme, bg);
        let hc = chars_of(h.as_str());
        let ls = lines_exec(&hc);
        join_lines_exec(&ls)
    } else {
        let c = chars_of(code.as_str());
        expand_tabs_exec(&c)
    }
}

fn deeper_exec(d: usize) -> (r: usize)
    ensures
        r == deeper(d as nat),
{
    if d < usize::MAX {
        d + 1
    } else {
        d
    }
}

fn heading_default_exec(level: u8) -> (r: &'static str)
    ensures
        r@ == heading_default(level),
{
    if level == 1 {
        "red"
    } else if level == 2 {
        "yellow"
    } else if level == 3 {
        "green"
    } else if level == 4 {
        "blue"
    } else if level == 5 {
        "magenta"
    } else {
        "cyan"
    }
}

fn decorate_exec(t: Vec<char>, d: &Deco) -> (r: Vec<char>)
    ensures
        r@ == decorate(t@, *d),
{
    match d {
        Deco::Plain => t,
        Deco::Attr(c) => paint_attr(&t, *c),
    }
}

/// The styled text of each child, decorated, in order; their code blocks are registered.
fn join_exec(cs: &Vec<MdNode>, depth: usize, cfg: &StyleConfig, d: &Deco, reg: &mut Vec<CodeBlock>) -> (r: Vec<char>)
    ensures
        r@ == joined(cs@, depth as nat, cfg@, *d),
        blocks(final(reg)@) == blocks(old(reg)@) + codes_of(cs@),
    decreases cs,
{
    let mut out: Vec<char> = Vec::new();
    let mut i: usize = 0;
    assert(codes_of(cs@.take(0)) =~= Seq::<(Seq<char>, Seq<char>)>::empty());
    while i < cs.len()
        invariant
            i <= cs.len(),
            out@ == joined(cs@.take(i as int), depth as nat, cfg@, *d),
            blocks(reg@) == blocks(old(reg)@) + codes_of(cs@.take(i as int)),
        decreases cs.len() - i,
    {
        assert(cs@.take(i + 1).drop_last() == cs@.take(i as int));
        assert(cs@.take(i + 1).last() == cs@[i as int]);
        match render_node(&cs[i], depth, cfg, reg) {
            Some(t) => {
                let dt = decorate_exec(t, d);
                extend(&mut out, &dt);
            },
            None => {},
        }
        i = i + 1;
    }
    assert(cs@.take(cs.len() as int) == cs@);
    out
}

fn item_content_exec(cs: &Vec<MdNode>, depth: usize, cfg: &StyleConfig, reg: &mut Vec<CodeBlock>) -> (r: Vec<char>)
    ensures
        r@ == item_content(cs@, depth as nat, cfg@),
        blocks(final(reg)@) == blocks(old(reg)@) + item_codes(cs@),
    decreases cs,
{
    let mut out: Vec<char> = Vec::new();
    let mut i: usize = 0;
    assert(item_codes(cs@.take(0)) =~= Seq::<(Seq<char>, Seq<char>)>::empty());
    while i < cs.len()
        invariant
            i <= cs.len(),
            out@ == item_content(cs@.take(i as int), depth as nat, cfg@),
            blocks(reg@) == blocks(old(reg)@) + item_codes(cs@.take(i as int)),
        decreases cs.len() - i,
    {
        assert(cs@.take(i + 1).drop_last() == cs@.take(i as int));
        assert(cs@.take(i + 1).last() == cs@[i as int]);
        match &cs[i] {
            MdNode::Paragraph(pcs) => {
                let t = join_exec(pcs, depth, cfg, &Deco::Plain, reg);
                extend(&mut out, &t);
            },
            other => {
                match render_node(other, depth, cfg, reg) {
                    Some(t) => extend(&mut out, &t),
                    None => {},
                }
            },
        }
        i = i + 1;
    }
    assert(cs@.take(cs.len() as int) == cs@);
    out
}

fn bullet_exec(ordered: bool, number: u64, depth: usize, cfg: &StyleConfig) -> (r: Vec<char>)
    ensures
        r@ == bullet(ordered, number as nat, depth as nat, cfg@),
{
    if ordered {
        let color = cfg.get_or("ordered_list_bullet", "green");
        let mut t: Vec<char> = Vec::new();
        t.push(' ');
        let digits = decimal_chars(number);
        extend(&mut t, &digits);
        t.push('.');
        t.push(' ');
        assert(t@ =~= seq![' '] + decimal(number as nat) + seq!['.', ' ']);
        paint_fg(&t, color.as_str())
    } else {
        let color = cfg.get_or("unordered_list_bullet", "green");
        let glyph = if depth % 4 == 1 {
            literal(" · ")
        } else if depth % 4 == 2 {
            literal(" * ")
        } else if depth % 4 == 3 {
            literal(" - ")
        } else {
            literal(" • ")
        };
        proof {
            reveal_strlit(" · ");
            reveal_strlit(" * ");
            reveal_strlit(" - ");
            reveal_strlit(" • ");
        }
        assert(glyph@ =~= bullet_glyph(depth as nat));
        paint_fg(&glyph, color.as_str())
    }
}

fn listed_exec(
    items: &Vec<MdNode>,
    depth: usize,
    cfg: &StyleConfig,
    ordered: bool,
    start: u32,
    reg: &mut Vec<CodeBlock>,
) -> (r: Vec<char>)
    ensures
        r@ == listed(items@, depth as nat, cfg@, ordered, start as nat),
        blocks(final(reg)@) == blocks(old(reg)@) + list_codes(items@),
    decreases items,
{
    let text_color = if ordered {
        cfg.get_or("ordered_list", "blue")
    } else {
        cfg.get_or("unordered_list", "blue")
    };
    let two = literal("  ");
    proof {
        reveal_strlit("  ");
    }
    assert(two@ =~= seq![' ', ' ']);
    let mut out: Vec<char> = Vec::new();
    let mut i: usize = 0;
    assert(list_codes(items@.take(0)) =~= Seq::<(Seq<char>, Seq<char>)>::empty());
    while i < items.len()
        invariant
            i <= items.len(),
            two@ == seq![' ', ' '],
            text_color@ == if ordered {
                setting(cfg@, "ordered_list"@, "blue"@)
            } else {
                setting(cfg@, "unordered_list"@, "blue"@)
            },
            out@ == listed(items@.take(i as int), depth as nat, cfg@, ordered, start as nat),
            blocks(reg@) == blocks(old(reg)@) + list_codes(items@.take(i as int)),
        decreases items.len() - i,
    {
        assert(items@.take(i + 1).drop_last() == items@.take(i as int));
        assert(items@.take(i + 1).last() == items@[i as int]);
        let mut line = repeat_exec(&two, depth);
        let k: u128 = i as u128;
        let number: u64 = if k <= (u64::MAX - start as u64) as u128 {
            (start as u128 + k) as u64
        } else {
            u64::MAX
        };
        assert(number == item_number(start as nat, i as nat));
        let b = bullet_exec(ordered, number, depth, cfg);
        extend(&mut line, &b);
        let inner = deeper_exec(depth);
        let ghost head = line@;
        match &items[i] {
            MdNode::ListItem(cs) => {
                let t = item_content_exec(cs, inner, cfg, reg);
                extend(&mut line, &t);
            },
            _ => {},
        }
        assert(line@ =~= head + item_text(items@[i as int], deeper(depth as nat), cfg@));
        line.push(NEWLINE);
        assert(line@ =~= repeat_seq(seq![' ', ' '], depth as nat) + bullet(ordered, item_number(start as nat, i as nat), depth as nat, cfg@)
            + item_text(items@[i as int], deeper(depth as nat), cfg@) + seq![NEWLINE]);
        let painted = paint_fg(&line, text_color.as_str());
        extend(&mut out, &painted);
        i = i + 1;
    }
    assert(items@.take(items.len() as int) == items@);
    out
}

/// The styled text of a node at a nesting depth (nothing for nodes that are not rendered);
/// its code blocks are registered, in document order.
pub fn render_node(n: &MdNode, depth: usize, cfg: &StyleConfig, reg: &mut Vec<CodeBlock>) -> (r: Option<Vec<char>>)
    ensures
        match r {
            Some(t) => styled(*n, depth as nat, cfg@) == Some(t@),
            None => styled(*n, depth as nat, cfg@) is None,
        },
        blocks(final(reg)@) == blocks(old(reg)@) + codes(*n),
    decreases n,
{
    match n {
        MdNode::Root(cs) => {
            let mut t = join_exec(cs, depth, cfg, &Deco::Plain, reg);
            t.push(NEWLINE);
            assert(styled(*n, depth as nat, cfg@) == Some(t@));
            Some(t)
        },
        MdNode::Paragraph(cs) => {
            let inner = join_exec(cs, depth, cfg, &Deco::Plain, reg);
            let unit = paint_fg_bg(&literal(" "), "white", "black");
            let ind = repeat_exec(&unit, depth);
            let mut t: Vec<char> = Vec::new();
            t.push(NEWLINE);
            extend(&mut t, &ind);
            let st = strike_exec(&inner);
            extend(&mut t, &st);
            t.push(NEWLINE);
            assert(t@ =~= seq![NEWLINE] + indent(depth as nat) + strike(inner@) + seq![NEWLINE]);
            Some(t)
        },
        MdNode::Text(v) => Some(strike_exec(&chars_of(v.as_str()))),
        MdNode::Heading(level, cs) => {
            let inner = join_exec(cs, depth, cfg, &Deco::Plain, reg);
            let mut t: Vec<char> = Vec::new();
            t.push(NEWLINE);
            if 1 <= *level && *level <= 6 {
                let mut key: Vec<char> = Vec::new();
                key.push('h');
                let digits = decimal_chars(*level as u64);
                assert(decimal(*level as nat) == seq![digit_char(*level as nat)]);
                extend(&mut key, &digits);
                assert(key@ =~= heading_key(*level));
                let keys = string_of(&key);
                let color = cfg.get_or(keys.as_str(), heading_default_exec(*level));
                let block = literal("█");
                proof {
                    reveal_strlit("█");
                }
                let mut head = repeat_exec(&block, *level as usize);
                head.push(' ');
                extend(&mut head, &inner);
                assert(block@ =~= seq!['█']);
                assert(head@ =~= repeat_seq(seq!['█'], *level as nat) + seq![' '] + inner@);
                let painted = paint_fg(&head, color.as_str());
                extend(&mut t, &painted);
                t.push(NEWLINE);
                assert(t@ =~= seq![NEWLINE] + painted@ + seq![NEWLINE]);
            } else {
                extend(&mut t, &inner);
                t.push(NEWLINE);
                assert(t@ =~= seq![NEWLINE] + inner@ + seq![NEWLINE]);
            }
            assert(styled(*n, depth as nat, cfg@) == Some(t@));
            Some(t)
        },
        MdNode::InlineCode(v) => {
            let color = cfg.get_or("inline_code", "green");
            Some(paint_fg(&chars_of(v.as_str()), color.as_str()))
        },
        MdNode::Code(lang, v) => {
            let language = match lang {
                Some(l) => l.clone(),
                None => String::from_str("plaintext"),
            };
            let block = CodeBlock { lang: language, code: v.clone() };
            proof {
                lemma_blocks_push(reg@, block);
            }
            reg.push(block);
            let body = code_text_exec(lang, v, cfg);
            let mut t: Vec<char> = Vec::new();
            t.push(NEWLINE);
            extend(&mut t, &body);
            t.push(NEWLINE);
            t.push(NEWLINE);
            assert(t@ =~= seq![NEWLINE] + code_text(*lang, v@, cfg@) + seq![NEWLINE, NEWLINE]);
            Some(t)
        },
        MdNode::Emphasis(cs) => Some(join_exec(cs, depth, cfg, &Deco::Attr('3'), reg)),
        MdNode::Strong(cs) => Some(join_exec(cs, depth, cfg, &Deco::Attr('1'), reg)),
        MdNode::Delete(cs) => Some(join_exec(cs, depth, cfg, &Deco::Attr('9'), reg)),
        MdNode::Link(cs, url) => {
            let inner = join_exec(cs, depth, cfg, &Deco::Plain, reg);
            let text_color = cfg.get_or("link_text", "blue");
            let url_color = cfg.get_or("link_url", "green");
            let mut t = paint_fg(&inner, text_color.as_str());
            t.push(' ');
            t.push('-');
            t.push(' ');
            let u = paint_fg(&chars_of(url.as_str()), url_color.as_str());
            extend(&mut t, &u);
            assert(t@ =~= paint(inner@, fg_params(text_color@)) + seq![' ', '-', ' '] + paint(url@, fg_params(url_color@)));
            Some(t)
        },
        MdNode::ThematicBreak => {
            let mut t: Vec<char> = Vec::new();
            t.push(NEWLINE);
            t.push('-');
            t.push('-');
            t.push('-');
            t.push(NEWLINE);
            assert(t@ =~= seq![NEWLINE, '-', '-', '-', NEWLINE]);
            Some(t)
        },
        MdNode::BlockQuote(cs) => {
            let inner = join_exec(cs, deeper_exec(depth), cfg, &Deco::Plain, reg);
            let setting_value = cfg.get_or("blockquote", "black on white");
            let pair = color_pair(&setting_value);
            let mut t = paint_pair(&inner, &pair);
            t.push(NEWLINE);
            assert(styled(*n, depth as nat, cfg@) == Some(t@));
            Some(t)
        },
        MdNode::List(ordered, start, items) => {
            let first: u32 = match start {
                Some(s) => *s,
                None => 1,
            };
            let body = listed_exec(items, depth, cfg, *ordered, first, reg);
            let mut t: Vec<char> = Vec::new();
            t.push(NEWLINE);
            extend(&mut t, &body);
            t.push(NEWLINE);
            assert(t@ =~= seq![NEWLINE] + body@ + seq![NEWLINE]);
            Some(t)
        },
        MdNode::Break => {
            let mut t: Vec<char> = Vec::new();
            t.push(NEWLINE);
            assert(t@ =~= seq![NEWLINE]);
            Some(t)
        },
        MdNode::Definition(id, url, title) => match title {
            Some(tt) => {
                let color = cfg.get_or("definition", "green");
                let mut t: Vec<char> = Vec::new();
                t.push('[');
                let a = paint_fg(&chars_of(id.as_str()), color.as_str());
                extend(&mut t, &a);
                t.push(']');
                t.push(':');
                t.push(' ');
                let b = paint_fg(&chars_of(url.as_str()), color.as_str());
                extend(&mut t, &b);
                t.push(' ');
                let c = paint_fg(&chars_of(tt.as_str()), color.as_str());
                extend(&mut t, &c);
                assert(t@ =~= seq!['['] + paint(id@, fg_params(color@)) + seq![']', ':', ' '] + paint(url@, fg_params(color@)) + seq![' '] + paint(tt@, fg_params(color@)));
                Some(t)
            },
            None => None,
        },
        MdNode::ListItem(_) => None,
        MdNode::Other => None,
    }
}


/// The fenced code blocks of a slide, in document order, addressed from 1.
pub struct CodeRegistry {
    blocks: Vec<CodeBlock>,
}

impl View for CodeRegistry {
    type V = Seq<(Seq<char>, Seq<char>)>;

    closed spec fn view(&self) -> Seq<(Seq<char>, Seq<char>)> {
        blocks(self.blocks@)
    }
}

impl CodeRegistry {
    pub fn len(&self) -> (r: usize)
        ensures
            r == self@.len(),
    {
        self.blocks.len()
    }
}

/// The styled text of a document: what its root renders to, without a final newline.
pub open spec fn document_text(doc: MdNode, cfg: Seq<(Seq<char>, Seq<char>)>) -> Seq<char> {
    let t = or_empty(styled(doc, 0, cfg));
    if t.len() > 0 && t.last() == NEWLINE {
        t.drop_last()
    } else {
        t
    }
}

/// Styles a document, and collects its code blocks, in document order, into a new registry.
pub fn style_document(doc: &MdNode, style: &StyleConfig) -> (r: (String, CodeRegistry))
    ensures
        r.0@ == document_text(*doc, style@),
        r.1@ == codes(*doc),
{
    let (t, reg) = style_document_chars(doc, style);
    (string_of(&t), reg)
}

pub fn style_document_chars(doc: &MdNode, style: &StyleConfig) -> (r: (Vec<char>, CodeRegistry))
    ensures
        r.0@ == document_text(*doc, style@),
        r.1@ == codes(*doc),
{
    let mut reg: Vec<CodeBlock> = Vec::new();
    let mut t = match render_node(doc, 0, style, &mut reg) {
        Some(t) => t,
        None => Vec::new(),
    };
    if t.len() > 0 && t[t.len() - 1] == NEWLINE {
        t.pop();
    }
    assert(blocks(Seq::<CodeBlock>::empty()) =~= Seq::<(Seq<char>, Seq<char>)>::empty());
    assert(blocks(reg@) =~= codes(*doc));
    (t, CodeRegistry { blocks: reg })
}

/// The message for a code block that is not registered.
pub open spec fn not_found_message(index: nat) -> Seq<char> {
    "Code with index "@ + decimal(index) + " not found"@
}

/// The language and text of the code block at `index` (from 1); an error naming the index
/// where there is none.
pub fn get_code(codes: &CodeRegistry, index: usize) -> (r: Result<(String, String), String>)
    ensures
        1 <= index <= codes@.len() ==> (r matches Ok(p) && p.0@ == codes@[index - 1].0 && p.1@ == codes@[index - 1].1),
        !(1 <= index <= codes@.len()) ==> (r matches Err(m) && m@ == not_found_message(index as nat)),
{
    if 1 <= index && index <= codes.blocks.len() {
        let b = &codes.blocks[index - 1];
        assert(codes@[index - 1] == block_view(codes.blocks@[index - 1]));
        Ok((b.lang.clone(), b.code.clone()))
    } else {
        let mut m = literal("Code with index ");
        let digits = decimal_chars(index as u64);
        extend(&mut m, &digits);
        let tail = literal(" not found");
        extend(&mut m, &tail);
        Err(string_of(&m))
    }
}


/// The theme that highlighting uses for a requested one: the requested theme where `syntect`
/// knows it, else the default where it knows that.
pub open spec fn theme_for(requested: Seq<char>) -> Option<Seq<char>> {
    if builtin_theme(requested) {
        Some(requested)
    } else if builtin_theme("base16-ocean.dark"@) {
        Some("base16-ocean.dark"@)
    } else {
        None
    }
}

/// What highlighting gives: the code highlighted with the theme found for the requested
/// one, tabs as four spaces; the code with tabs expanded only where no theme is found.
pub open spec fn highlighter_output(lang: Seq<char>, code: Seq<char>, theme: Seq<char>, bg: bool) -> Seq<char> {
    match theme_for(theme) {
        Some(t) => expand_tabs(highlighted(lang, code, t, bg)),
        None => expand_tabs(code),
    }
}

/// Highlights code for the terminal in the grammar found for `language` (plain text where
/// none is) and the theme `theme` (the default where it is unknown); tabs become four
/// spaces. Where no theme is found the code comes back with tabs expanded only.
pub fn syntax_highlighter(language: &str, code_section: String, theme: String, bg: bool) -> (r: String)
    ensures
        r@ == highlighter_output(language@, code_section@, theme@, bg),
{
    let chosen = if has_theme(theme.as_str()) {
        Some(theme)
    } else if has_theme("base16-ocean.dark") {
        Some(String::from_str("base16-ocean.dark"))
    } else {
        None
    };
    let raw = match chosen {
        Some(t) => highlight(language, code_section.as_str(), t.as_str(), bg),
        None => code_section,
    };
    let e = expand_tabs_exec(&chars_of(raw.as_str()));
    string_of(&e)
}

} // verus!
