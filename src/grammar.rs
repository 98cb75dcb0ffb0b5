use vstd::prelude::*;

use crate::charset::{chars_in, CharSet};
use crate::text::{chars_of, decimal_i32, digit_value, is_digit, parse_i32, string_of};

verus! {

/// The context character of a rule that names none.
pub const NO_CTX: char = '\u{ff}';

/// The mark whose first three occurrences in a template are its anchors.
pub const ANCHOR: char = '@';

/// A compiled rewrite rule.
#[derive(Clone, Debug, PartialEq)]
pub struct Rule {
    pub lhs: char,
    pub lhs_all: String,
    pub rhs_all: String,
    pub ro: i32,
    pub co: i32,
    pub rm: i32,
    pub cm: i32,
    pub rq: i32,
    pub cq: i32,
    pub fore: u8,
    pub back: u8,
    pub reward: i32,
    pub key: char,
    pub ctx: char,
    pub rep: char,
    pub ctx_rep: char,
    pub weight: i32,
    pub z_ord: u8,
    pub sound: char,
}

/// A rule with its strings seen as character sequences.
pub struct RuleView {
    pub lhs: char,
    pub lhs_all: Seq<char>,
    pub rhs_all: Seq<char>,
    pub ro: i32,
    pub co: i32,
    pub rm: i32,
    pub cm: i32,
    pub rq: i32,
    pub cq: i32,
    pub fore: u8,
    pub back: u8,
    pub reward: i32,
    pub key: char,
    pub ctx: char,
    pub rep: char,
    pub ctx_rep: char,
    pub weight: i32,
    pub z_ord: u8,
    pub sound: char,
}

impl View for Rule {
    type V = RuleView;

    open spec fn view(&self) -> RuleView {
        RuleView {
            lhs: self.lhs,
            lhs_all: self.lhs_all@,
            rhs_all: self.rhs_all@,
            ro: self.ro,
            co: self.co,
            rm: self.rm,
            cm: self.cm,
            rq: self.rq,
            cq: self.cq,
            fore: self.fore,
            back: self.back,
            reward: self.reward,
            key: self.key,
            ctx: self.ctx,
            rep: self.rep,
            ctx_rep: self.ctx_rep,
            weight: self.weight,
            z_ord: self.z_ord,
            sound: self.sound,
        }
    }
}

/// A seed: a glyph and the row and column classes where `start` places it.
#[derive(Clone, Copy, Debug, PartialEq, Eq)]
pub struct Start {
    pub ul: char,
    pub lr: char,
    pub c: char,
}

/// The character at `i`, or `def` where the line is shorter.
pub open spec fn char_at_or(line: Seq<char>, i: int, def: char) -> char {
    if 0 <= i < line.len() {
        line[i]
    } else {
        def
    }
}

/// The line from index `n` on; empty where it is shorter.
pub open spec fn tail_from(line: Seq<char>, n: int) -> Seq<char> {
    if n <= line.len() {
        line.subrange(n, line.len() as int)
    } else {
        Seq::empty()
    }
}

/// Row and column of the character at index `i` of a template: the number of newlines
/// before it, and its distance from the start of its line.
pub open spec fn pos_of(s: Seq<char>, i: int) -> (int, int)
    decreases i,
{
    if i <= 0 {
        (0, 0)
    } else {
        let p = pos_of(s, i - 1);
        if s[i - 1] == '\n' {
            (p.0 + 1, 0)
        } else {
            (p.0, p.1 + 1)
        }
    }
}

/// Index of occurrence number `ord` (counted from 0) of `mark` in `s` at or after `i`, or -1.
pub open spec fn nth_index(s: Seq<char>, mark: char, ord: int, i: int) -> int
    decreases s.len() - i,
{
    if i < 0 || i >= s.len() {
        -1
    } else if s[i] == mark && ord <= 0 {
        i
    } else if s[i] == mark {
        nth_index(s, mark, ord - 1, i + 1)
    } else {
        nth_index(s, mark, ord, i + 1)
    }
}

/// Position of occurrence number `ord` of the mark in a template, or (-1, -1) without one.
pub open spec fn anchor_of(s: Seq<char>, mark: char, ord: int) -> (int, int) {
    let k = nth_index(s, mark, ord, 0);
    if k < 0 {
        (-1, -1)
    } else {
        pos_of(s, k)
    }
}

/// A header digit, or `def` where the character is none.
pub open spec fn digit_or(c: char, def: u8) -> u8 {
    if is_digit(c) {
        digit_value(c) as u8
    } else {
        def
    }
}

/// Index of the first space in `t`, or -1.
pub open spec fn first_space(t: Seq<char>) -> int
    decreases t.len(),
{
    if t.len() == 0 {
        -1
    } else if t[0] == ' ' {
        0
    } else {
        let k = first_space(t.drop_first());
        if k < 0 {
            -1
        } else {
            k + 1
        }
    }
}

/// The text of `t` before its first space.
pub open spec fn first_token(t: Seq<char>) -> Seq<char> {
    let k = first_space(t);
    if k < 0 {
        t
    } else {
        t.take(k)
    }
}

/// Reward and weight from the numeric tail of a header (after column 10): two
/// space-separated integers, each falling back to its default where it does not parse.
pub open spec fn reward_weight(header: Seq<char>) -> (i32, i32) {
    if header.len() > 11 {
        let tail = header.subrange(11, header.len() as int);
        let k = first_space(tail);
        let reward = match decimal_i32(first_token(tail)) {
            Some(v) => v,
            None => 0i32,
        };
        let weight = if k < 0 {
            1i32
        } else {
            match decimal_i32(first_token(tail.skip(k + 1))) {
                Some(v) => v,
                None => 1i32,
            }
        };
        (reward, weight)
    } else {
        (0i32, 1i32)
    }
}

/// The template with every `*` replaced by the rule's nonterminal.
pub open spec fn star_to(rhs: Seq<char>, s: char) -> Seq<char> {
    rhs.map_values(|ch: char| if ch == '*' { s } else { ch })
}

/// The rule that a header line (at least five characters) and a template compile to.
pub open spec fn rule_of(header: Seq<char>, rhs: Seq<char>) -> RuleView {
    let s = header[2];
    let ctx = char_at_or(header, 7, NO_CTX);
    let ctx_rep = char_at_or(header, 8, ' ');
    let rw = reward_weight(header);
    RuleView {
        lhs: s,
        lhs_all: header.subrange(1, header.len() as int),
        rhs_all: star_to(rhs, s),
        ro: anchor_of(rhs, ANCHOR, 0).0 as i32,
        co: anchor_of(rhs, ANCHOR, 0).1 as i32,
        rm: anchor_of(rhs, ANCHOR, 1).0 as i32,
        cm: anchor_of(rhs, ANCHOR, 1).1 as i32,
        rq: anchor_of(rhs, ANCHOR, 2).0 as i32,
        cq: anchor_of(rhs, ANCHOR, 2).1 as i32,
        fore: digit_or(char_at_or(header, 5, '7'), 7),
        back: digit_or(char_at_or(header, 6, '8'), 8),
        reward: rw.0,
        key: header[3],
        ctx: if ctx == '?' { NO_CTX } else { ctx },
        rep: header[4],
        ctx_rep: if ctx_rep == '*' { s } else { ctx_rep },
        weight: rw.1,
        z_ord: ((char_at_or(header, 9, 'a') as u32) % 256) as u8,
        sound: header[1],
    }
}

/// Positions stay within the prefix that leads to them.
pub proof fn lemma_pos_bounds(s: Seq<char>, i: int)
    requires
        0 <= i <= s.len(),
    ensures
        0 <= pos_of(s, i).0 <= i,
        0 <= pos_of(s, i).1 <= i,
    decreases i,
{
    if i > 0 {
        lemma_pos_bounds(s, i - 1);
    }
}

/// `first_space` is the least index that holds a space.
pub proof fn lemma_first_space(t: Seq<char>)
    ensures
        -1 <= first_space(t) < t.len(),
        first_space(t) >= 0 ==> t[first_space(t)] == ' ',
        forall|j: int|
            0 <= j < t.len() && (first_space(t) < 0 || j < first_space(t)) ==> t[j] != ' ',
    decreases t.len(),
{
    if t.len() > 0 && t[0] != ' ' {
        lemma_first_space(t.drop_first());
        assert forall|j: int|
            0 <= j < t.len() && (first_space(t) < 0 || j < first_space(t)) implies t[j] != ' ' by {
            if j > 0 {
                assert(t[j] == t.drop_first()[j - 1]);
            }
        }
    }
}

/// The character at `i`, or `def` where the line is shorter.
fn at_with_default(line: &Vec<char>, i: usize, def: char) -> (r: char)
    ensures
        r == char_at_or(line@, i as int, def),
{
    if i < line.len() {
        line[i]
    } else {
        def
    }
}

/// The characters of `v` from `from` up to `to`.
pub fn copy_range(v: &Vec<char>, from: usize, to: usize) -> (r: Vec<char>)
    requires
        from <= to <= v.len(),
    ensures
        r@ == v@.subrange(from as int, to as int),
{
    let mut out: Vec<char> = Vec::new();
    let mut i: usize = from;
    while i < to
        invariant
            from <= i <= to <= v.len(),
            out@ == v@.subrange(from as int, i as int),
        decreases to - i,
    {
        out.push(v[i]);
        i = i + 1;
        assert(out@ =~= v@.subrange(from as int, i as int));
    }
    out
}

/// A copy of the characters.
fn clone_chars(v: &Vec<char>) -> (r: Vec<char>)
    ensures
        r@ == v@,
{
    let r = copy_range(v, 0, v.len());
    assert(v@.subrange(0, v@.len() as int) =~= v@);
    r
}

/// The template with every `*` replaced by `s`.
fn replace_star(rhs: &Vec<char>, s: char) -> (r: Vec<char>)
    ensures
        r@ == star_to(rhs@, s),
{
    let mut out: Vec<char> = Vec::new();
    let mut i: usize = 0;
    while i < rhs.len()
        invariant
            i <= rhs.len(),
            out@ == star_to(rhs@.subrange(0, i as int), s),
        decreases rhs.len() - i,
    {
        let ch = rhs[i];
        out.push(if ch == '*' { s } else { ch });
        i = i + 1;
        assert(out@ =~= star_to(rhs@.subrange(0, i as int), s));
    }
    assert(rhs@.subrange(0, rhs@.len() as int) =~= rhs@);
    out
}

/// Row and column of occurrence number `ord` of `spec` in the template, or (-1, -1).
fn origin(rhs: &Vec<char>, spec: char, ord: i32) -> (r: (i32, i32))
    requires
        rhs.len() <= i32::MAX,
        spec != '\n',
        ord >= 0,
    ensures
        r.0 as int == anchor_of(rhs@, spec, ord as int).0,
        r.1 as int == anchor_of(rhs@, spec, ord as int).1,
{
    let mut left = ord;
    let ghost ord0 = ord as int;
    let mut row_off: i32 = 0;
    let mut col_off: i32 = 0;
    let mut i: usize = 0;
    while i < rhs.len()
        invariant
            i <= rhs.len() <= i32::MAX,
            spec != '\n',
            left >= 0,
            ord0 == ord as int,
            row_off as int == pos_of(rhs@, i as int).0,
            col_off as int == pos_of(rhs@, i as int).1,
            nth_index(rhs@, spec, ord0, 0) == nth_index(rhs@, spec, left as int, i as int),
        decreases rhs.len() - i,
    {
        proof {
            lemma_pos_bounds(rhs@, i as int);
        }
        let p = rhs[i];
        if p == '\n' {
            row_off = row_off + 1;
            col_off = 0;
        } else {
            if p == spec {
                if left == 0 {
                    assert(nth_index(rhs@, spec, left as int, i as int) == i as int);
                    assert(nth_index(rhs@, spec, ord0, 0) == i as int);
                    return (row_off, col_off);
                }
                left = left - 1;
            }
            col_off = col_off + 1;
        }
        i = i + 1;
    }
    (-1, -1)
}

/// A header digit, or `def` where the character is none.
fn header_digit(c: char, def: u8) -> (r: u8)
    ensures
        r == digit_or(c, def),
{
    if '0' <= c && c <= '9' {
        ((c as u32) - ('0' as u32)) as u8
    } else {
        def
    }
}

/// Index of the first space in `t`, if any.
fn find_space(t: &Vec<char>) -> (r: Option<usize>)
    ensures
        match r {
            Some(k) => k as int == first_space(t@),
            None => first_space(t@) == -1,
        },
{
    proof {
        lemma_first_space(t@);
    }
    let mut i: usize = 0;
    while i < t.len()
        invariant
            i <= t.len(),
            forall|j: int| 0 <= j < i ==> t@[j] != ' ',
            -1 <= first_space(t@) < t@.len(),
            first_space(t@) >= 0 ==> t@[first_space(t@)] == ' ',
            forall|j: int|
                0 <= j < t@.len() && (first_space(t@) < 0 || j < first_space(t@)) ==> t@[j]
                    != ' ',
        decreases t.len() - i,
    {
        if t[i] == ' ' {
            return Some(i);
        }
        i = i + 1;
    }
    None
}

/// The text of `t` before its first space.
fn token_of(t: &Vec<char>) -> (r: Vec<char>)
    ensures
        r@ == first_token(t@),
{
    match find_space(t) {
        Some(k) => {
            proof {
                lemma_first_space(t@);
            }
            copy_range(t, 0, k)
        },
        None => copy_range(t, 0, t.len()),
    }
}

/// An integer read from `t`, or `def` where it does not parse.
fn int_or(t: &Vec<char>, def: i32) -> (r: i32)
    ensures
        r == match decimal_i32(t@) {
            Some(v) => v,
            None => def,
        },
{
    let s = string_of(t);
    match parse_i32(s.as_str()) {
        Some(v) => v,
        None => def,
    }
}

/// Reward and weight from the numeric tail of a header.
fn reward_weight_of(header: &Vec<char>) -> (r: (i32, i32))
    ensures
        r == reward_weight(header@),
{
    if header.len() > 11 {
        let tail = copy_range(header, 11, header.len());
        let reward = int_or(&token_of(&tail), 0);
        let weight = match find_space(&tail) {
            Some(k) => {
                proof {
                    lemma_first_space(tail@);
                }
                let rest = copy_range(&tail, k + 1, tail.len());
                assert(rest@ == tail@.skip(k + 1));
                int_or(&token_of(&rest), 1)
            },
            None => 1,
        };
        (reward, weight)
    } else {
        (0, 1)
    }
}

/// Compiles a header line and a template into a rule.
fn compile_rule(header: &Vec<char>, rhs: &Vec<char>) -> (r: Rule)
    requires
        header.len() >= 5,
        rhs.len() <= i32::MAX,
    ensures
        r@ == rule_of(header@, rhs@),
{
    let s = header[2];
    let (ro, co) = origin(rhs, ANCHOR, 0);
    let (rm, cm) = origin(rhs, ANCHOR, 1);
    let (rq, cq) = origin(rhs, ANCHOR, 2);
    let (reward, weight) = reward_weight_of(header);
    let ctx_0 = at_with_default(header, 7, NO_CTX);
    let ctx = if ctx_0 == '?' { NO_CTX } else { ctx_0 };
    let ctx_rep_0 = at_with_default(header, 8, ' ');
    let ctx_rep = if ctx_rep_0 == '*' { s } else { ctx_rep_0 };
    let lhs_all = string_of(&copy_range(header, 1, header.len()));
    let rhs_all = string_of(&replace_star(rhs, s));
    let z = at_with_default(header, 9, 'a');
    Rule {
        lhs: s,
        lhs_all,
        rhs_all,
        ro,
        co,
        rm,
        cm,
        rq,
        cq,
        fore: header_digit(at_with_default(header, 5, '7'), 7),
        back: header_digit(at_with_default(header, 6, '8'), 8),
        reward,
        key: header[3],
        ctx,
        rep: header[4],
        ctx_rep,
        weight,
        z_ord: ((z as u32) % 256) as u8,
        sound: header[1],
    }
}

/// A grammar: seeds, rules in the order they were added, the characters that rules
/// rewrite, a help line, and sound files by alias.
pub struct Grammar2D {
    pub seeds: Vec<Start>,
    pub rules: Vec<Rule>,
    pub nonterminals: CharSet,
    pub help: String,
    pub sounds: Vec<(char, String)>,
}

pub struct GrammarView {
    pub seeds: Seq<Start>,
    pub rules: Seq<RuleView>,
    pub nonterminals: Set<char>,
    pub help: Seq<char>,
    pub sounds: Seq<(char, Seq<char>)>,
}

impl View for Grammar2D {
    type V = GrammarView;

    open spec fn view(&self) -> GrammarView {
        GrammarView {
            seeds: self.seeds@,
            rules: self.rules@.map_values(|r: Rule| r@),
            nonterminals: chars_in(self.nonterminals),
            help: self.help@,
            sounds: self.sounds@.map_values(|p: (char, String)| (p.0, p.1@)),
        }
    }
}

/// The characters that some rule rewrites.
pub open spec fn lhs_set(rules: Seq<RuleView>) -> Set<char> {
    Set::new(|c: char| exists|i: int| 0 <= i < rules.len() && rules[i].lhs == c)
}

/// A grammar with nothing in it.
pub open spec fn empty_grammar() -> GrammarView {
    GrammarView {
        seeds: Seq::empty(),
        rules: Seq::empty(),
        nonterminals: Set::empty(),
        help: Seq::empty(),
        sounds: Seq::empty(),
    }
}

/// The grammar with one rule more, compiled from a header line and a template; a header
/// too short to name a nonterminal, a key and a replacement adds nothing.
pub open spec fn add_rule_spec(g: GrammarView, header: Seq<char>, rhs: Seq<char>) -> GrammarView {
    if header.len() < 5 {
        g
    } else {
        GrammarView {
            rules: g.rules.push(rule_of(header, rhs)),
            nonterminals: g.nonterminals.insert(header[2]),
            ..g
        }
    }
}

/// Lines joined with newlines, with none after the last.
pub open spec fn join_lines(ls: Seq<Seq<char>>) -> Seq<char>
    decreases ls.len(),
{
    if ls.len() == 0 {
        Seq::empty()
    } else if ls.len() == 1 {
        ls[0]
    } else {
        join_lines(ls.drop_last()) + seq!['\n'] + ls.last()
    }
}

/// Each header of a batch paired with the one template.
pub open spec fn process_spec(g: GrammarView, lhss: Seq<Seq<char>>, rhs: Seq<char>) -> GrammarView
    decreases lhss.len(),
{
    if lhss.len() == 0 {
        g
    } else {
        add_rule_spec(process_spec(g, lhss.drop_last(), rhs), lhss.last(), rhs)
    }
}

/// The sound table with `alias` bound to `file`: an entry under that alias is replaced,
/// else one is added at the end.
pub open spec fn sound_set(s: Seq<(char, Seq<char>)>, alias: char, file: Seq<char>) -> Seq<
    (char, Seq<char>),
> {
    if exists|i: int| 0 <= i < s.len() && s[i].0 == alias {
        s.map_values(|p: (char, Seq<char>)| if p.0 == alias { (alias, file) } else { p })
    } else {
        s.push((alias, file))
    }
}

/// What the loader holds between lines: the grammar so far, the pending headers and the
/// pending template lines.
pub struct LoadState {
    pub g: GrammarView,
    pub lhs: Seq<Seq<char>>,
    pub rhs: Seq<Seq<char>>,
}

/// One line of a grammar file, classified on its first character.
pub open spec fn load_line(st: LoadState, line: Seq<char>) -> LoadState {
    let g = st.g;
    if line.len() > 0 && line[0] == '#' {
        let second = char_at_or(line, 1, ' ');
        if second == '!' {
            LoadState { g: GrammarView { help: tail_from(line, 2), ..g }, ..st }
        } else if second == '=' {
            let sounds = sound_set(g.sounds, char_at_or(line, 2, '='), tail_from(line, 3));
            LoadState { g: GrammarView { sounds, ..g }, ..st }
        } else {
            st
        }
    } else if line.len() > 0 && line[0] == '^' {
        let seed = Start {
            c: char_at_or(line, 1, 's'),
            ul: char_at_or(line, 2, 'c'),
            lr: char_at_or(line, 3, 'c'),
        };
        LoadState { g: GrammarView { seeds: g.seeds.push(seed), ..g }, ..st }
    } else if line.len() > 0 && line[0] == '=' {
        if st.rhs.len() > 0 {
            LoadState {
                g: process_spec(g, st.lhs, join_lines(st.rhs)),
                lhs: seq![line],
                rhs: Seq::empty(),
            }
        } else {
            LoadState { lhs: st.lhs.push(line), ..st }
        }
    } else {
        LoadState { rhs: st.rhs.push(line), ..st }
    }
}

/// The loader's state after the given lines.
pub open spec fn load_lines(st: LoadState, lines: Seq<Seq<char>>) -> LoadState
    decreases lines.len(),
{
    if lines.len() == 0 {
        st
    } else {
        load_line(load_lines(st, lines.drop_last()), lines.last())
    }
}

/// The seed that a grammar without one gets.
pub open spec fn default_seed() -> Start {
    Start { ul: 'c', lr: 'c', c: 'c' }
}

/// The grammar `g` after loading a file of the given lines: the help line is cleared, the
/// lines are read in order, pending headers are paired with the last template, and a
/// grammar left without seeds gets the default one.
pub open spec fn load_spec(g: GrammarView, lines: Seq<Seq<char>>) -> GrammarView {
    let st = load_lines(
        LoadState { g: GrammarView { help: Seq::empty(), ..g }, lhs: Seq::empty(), rhs: Seq::empty() },
        lines,
    );
    let g1 = if st.rhs.len() > 0 {
        process_spec(st.g, st.lhs, join_lines(st.rhs))
    } else {
        st.g
    };
    if g1.seeds.len() == 0 {
        GrammarView { seeds: seq![default_seed()], ..g1 }
    } else {
        g1
    }
}

/// Characters in the lines, counting one more for the end of each line.
pub open spec fn text_len(ls: Seq<Seq<char>>) -> int
    decreases ls.len(),
{
    if ls.len() == 0 {
        0
    } else {
        text_len(ls.drop_last()) + ls.last().len() + 1
    }
}

pub open spec fn lines_view(lines: Seq<String>) -> Seq<Seq<char>> {
    lines.map_values(|l: String| l@)
}

pub open spec fn buffer_view(lines: Seq<Vec<char>>) -> Seq<Seq<char>> {
    lines.map_values(|l: Vec<char>| l@)
}

pub proof fn lemma_join_len(ls: Seq<Seq<char>>)
    ensures
        join_lines(ls).len() <= text_len(ls),
    decreases ls.len(),
{
    if ls.len() > 1 {
        lemma_join_len(ls.drop_last());
    } else if ls.len() == 1 {
        assert(text_len(ls.drop_last()) == 0);
    }
}

pub proof fn lemma_text_len_prefix(ls: Seq<Seq<char>>, i: int)
    requires
        0 <= i <= ls.len(),
    ensures
        0 <= text_len(ls.take(i)) <= text_len(ls),
    decreases ls.len(),
{
    if i < ls.len() {
        lemma_text_len_prefix(ls.drop_last(), i);
        assert(ls.drop_last().take(i) =~= ls.take(i));
    } else {
        assert(ls.take(i) =~= ls);
        if ls.len() > 0 {
            lemma_text_len_prefix(ls.drop_last(), i - 1);
            assert(ls.drop_last().take(i - 1) =~= ls.drop_last());
        }
    }
}

/// Lines joined with newlines.
fn join(ls: &Vec<Vec<char>>) -> (r: Vec<char>)
    ensures
        r@ == join_lines(buffer_view(ls@)),
{
    let ghost v = buffer_view(ls@);
    if ls.len() == 0 {
        return Vec::new();
    }
    let mut out = copy_range(&ls[0], 0, ls[0].len());
    assert(v.take(1).drop_last() =~= Seq::<Seq<char>>::empty());
    assert(out@ == join_lines(v.take(1)));
    let mut i: usize = 1;
    while i < ls.len()
        invariant
            1 <= i <= ls.len(),
            v == buffer_view(ls@),
            out@ == join_lines(v.take(i as int)),
        decreases ls.len() - i,
    {
        out.push('\n');
        let mut j: usize = 0;
        let ghost before = out@;
        while j < ls[i].len()
            invariant
                i < ls.len(),
                j <= ls[i as int].len(),
                out@ == before + ls[i as int]@.take(j as int),
            decreases ls[i as int].len() - j,
        {
            out.push(ls[i][j]);
            j = j + 1;
            assert(out@ =~= before + ls[i as int]@.take(j as int));
        }
        assert(ls[i as int]@.take(j as int) =~= ls[i as int]@);
        assert(v.take(i + 1).drop_last() =~= v.take(i as int));
        i = i + 1;
    }
    assert(v.take(i as int) =~= v);
    out
}

impl Default for Grammar2D {
    fn default() -> (r: Grammar2D)
        ensures
            r@ == empty_grammar(),
            r.wf(),
    {
        let r = Grammar2D {
            seeds: Vec::new(),
            rules: Vec::new(),
            nonterminals: CharSet::new(),
            help: String::new(),
            sounds: Vec::new(),
        };
        assert(r@.rules =~= Seq::<RuleView>::empty());
        assert(r@.sounds =~= Seq::<(char, Seq<char>)>::empty());
        assert(lhs_set(r@.rules) =~= Set::<char>::empty());
        r
    }
}

impl Grammar2D {
    /// The nonterminals are exactly the characters that the rules rewrite, and no template
    /// is too long for its anchors to fit in an `i32`.
    pub open spec fn wf(&self) -> bool {
        &&& self@.nonterminals == lhs_set(self@.rules)
        &&& forall|i: int| 0 <= i < self@.rules.len() ==> #[trigger] self@.rules[i].rhs_all.len() <= i32::MAX
    }

    /// Adds the rule that a header line and a template compile to.
    fn add_rule(&mut self, lhs0: &Vec<char>, rhs: &Vec<char>)
        requires
            old(self).wf(),
            rhs.len() <= i32::MAX,
        ensures
            final(self).wf(),
            final(self)@ == add_rule_spec(old(self)@, lhs0@, rhs@),
    {
        if lhs0.len() < 5 {
            return;
        }
        let s = lhs0[2];
        if !self.nonterminals.contains(s) {
            self.nonterminals.insert(s);
        }
        let rule = compile_rule(lhs0, rhs);
        let ghost old_rules = self@.rules;
        self.rules.push(rule);
        assert(self@.rules =~= old_rules.push(rule_of(lhs0@, rhs@)));
        assert(self@.nonterminals =~= old(self)@.nonterminals.insert(s));
        assert(lhs_set(self@.rules) =~= lhs_set(old_rules).insert(s)) by {
            assert forall|c: char| lhs_set(self@.rules).contains(c) implies lhs_set(
                old_rules,
            ).insert(s).contains(c) by {
                let i = choose|i: int| 0 <= i < self@.rules.len() && self@.rules[i].lhs == c;
                if i < old_rules.len() {
                    assert(old_rules[i] == self@.rules[i]);
                }
            }
            assert forall|c: char| lhs_set(old_rules).insert(s).contains(c) implies lhs_set(
                self@.rules,
            ).contains(c) by {
                if c == s {
                    assert(self@.rules[old_rules.len() as int].lhs == s);
                } else {
                    let i = choose|i: int| 0 <= i < old_rules.len() && old_rules[i].lhs == c;
                    assert(self@.rules[i] == old_rules[i]);
                }
            }
        }
    }

    /// Pairs every pending header with the template made of the pending lines.
    fn process(&mut self, lhss: &Vec<Vec<char>>, rule: &Vec<Vec<char>>)
        requires
            old(self).wf(),
            text_len(buffer_view(rule@)) <= i32::MAX,
        ensures
            final(self).wf(),
            final(self)@ == process_spec(old(self)@, buffer_view(lhss@), join_lines(buffer_view(rule@))),
    {
        proof {
            lemma_join_len(buffer_view(rule@));
        }
        let rhs = join(rule);
        let mut i: usize = 0;
        while i < lhss.len()
            invariant
                i <= lhss.len(),
                rhs.len() <= i32::MAX,
                rhs@ == join_lines(buffer_view(rule@)),
                self.wf(),
                self@ == process_spec(old(self)@, buffer_view(lhss@).take(i as int), rhs@),
            decreases lhss.len() - i,
        {
            self.add_rule(&lhss[i], &rhs);
            assert(buffer_view(lhss@).take(i + 1).drop_last() =~= buffer_view(lhss@).take(i as int));
            i = i + 1;
        }
        assert(buffer_view(lhss@).take(i as int) =~= buffer_view(lhss@));
    }

    /// Reads one line of a grammar file into the grammar and the pending buffers.
    fn load_line(&mut self, line: &Vec<char>, lhs: &mut Vec<Vec<char>>, rhs: &mut Vec<Vec<char>>)
        requires
            old(self).wf(),
            text_len(buffer_view(old(rhs)@)) + line.len() + 1 <= i32::MAX,
        ensures
            final(self).wf(),
            (LoadState { g: final(self)@, lhs: buffer_view(final(lhs)@), rhs: buffer_view(final(rhs)@) })
                == load_line(
                LoadState { g: old(self)@, lhs: buffer_view(old(lhs)@), rhs: buffer_view(old(rhs)@) },
                line@,
            ),
            text_len(buffer_view(final(rhs)@)) <= text_len(buffer_view(old(rhs)@)) + line.len() + 1,
    {
        proof {
            lemma_text_len_prefix(buffer_view(old(rhs)@), 0);
        }
        if line.len() == 0 {
            rhs.push(clone_chars(line));
            assert(buffer_view(rhs@) =~= buffer_view(old(rhs)@).push(line@));
            assert(buffer_view(rhs@).drop_last() =~= buffer_view(old(rhs)@));
            return;
        }
        let fc = line[0];
        if fc == '#' {
            let second_char = at_with_default(line, 1, ' ');
            if second_char == '!' {
                self.help = string_of(&copy_range(line, 2, line.len()));
            } else if second_char == '=' {
                let alias = at_with_default(line, 2, '=');
                let sound_file = if line.len() >= 3 {
                    copy_range(line, 3, line.len())
                } else {
                    Vec::new()
                };
                bind_sound(&mut self.sounds, alias, &sound_file);
            }
        } else if fc == '^' {
            let c = at_with_default(line, 1, 's');
            let ul = at_with_default(line, 2, 'c');
            let lr = at_with_default(line, 3, 'c');
            self.seeds.push(Start { ul, lr, c });
        } else if fc == '=' {
            if rhs.len() > 0 {
                self.process(lhs, rhs);
                lhs.clear();
                rhs.clear();
                assert(buffer_view(rhs@) =~= Seq::<Seq<char>>::empty());
                assert(text_len(buffer_view(rhs@)) == 0);
            }
            let ghost before = buffer_view(lhs@);
            lhs.push(clone_chars(line));
            assert(buffer_view(lhs@) =~= before.push(line@));
            assert(old(rhs).len() == 0 ==> buffer_view(old(rhs)@) =~= Seq::<Seq<char>>::empty());
        } else {
            rhs.push(clone_chars(line));
            assert(buffer_view(rhs@) =~= buffer_view(old(rhs)@).push(line@));
            assert(buffer_view(rhs@).drop_last() =~= buffer_view(old(rhs)@));
        }
    }

    /// Loads a grammar file, given as its lines: comments (`#`), with the help line (`#!`)
    /// and sound files (`#=`); seeds (`^`); rule headers (`=`), each paired with the
    /// template made of the other lines that follow its batch of headers.
    pub fn load(&mut self, lines: &Vec<String>)
        requires
            old(self).wf(),
            text_len(lines_view(lines@)) <= i32::MAX,
        ensures
            final(self).wf(),
            final(self)@ == load_spec(old(self)@, lines_view(lines@)),
    {
        let ghost lv = lines_view(lines@);
        let mut lhs: Vec<Vec<char>> = Vec::new();
        let mut rhs: Vec<Vec<char>> = Vec::new();
        self.help = String::new();
        let ghost st0 = LoadState {
            g: GrammarView { help: Seq::empty(), ..old(self)@ },
            lhs: Seq::empty(),
            rhs: Seq::empty(),
        };
        assert(buffer_view(lhs@) =~= Seq::<Seq<char>>::empty());
        assert(buffer_view(rhs@) =~= Seq::<Seq<char>>::empty());
        let mut i: usize = 0;
        while i < lines.len()
            invariant
                i <= lines.len(),
                lv == lines_view(lines@),
                text_len(lv) <= i32::MAX,
                self.wf(),
                load_lines(st0, lv.take(i as int)) == (LoadState {
                    g: self@,
                    lhs: buffer_view(lhs@),
                    rhs: buffer_view(rhs@),
                }),
                text_len(buffer_view(rhs@)) <= text_len(lv.take(i as int)),
            decreases lines.len() - i,
        {
            let line = chars_of(lines[i].as_str());
            proof {
                assert(lv.take(i + 1).drop_last() =~= lv.take(i as int));
                assert(lv.take(i + 1).last() == line@);
                lemma_text_len_prefix(lv, i + 1);
            }
            self.load_line(&line, &mut lhs, &mut rhs);
            i = i + 1;
        }
        assert(lv.take(i as int) =~= lv);
        if rhs.len() > 0 {
            self.process(&lhs, &rhs);
        }
        if self.seeds.len() == 0 {
            self.seeds.push(Start { ul: 'c', lr: 'c', c: 'c' });
            assert(self@.seeds =~= seq![default_seed()]);
        }
    }
}

/// Binds `alias` to `file` in a sound table.
fn bind_sound(sounds: &mut Vec<(char, String)>, alias: char, file: &Vec<char>)
    ensures
        final(sounds)@.map_values(|p: (char, String)| (p.0, p.1@)) == sound_set(
            old(sounds)@.map_values(|p: (char, String)| (p.0, p.1@)),
            alias,
            file@,
        ),
{
    let ghost old_v = old(sounds)@.map_values(|p: (char, String)| (p.0, p.1@));
    let mut found = false;
    let mut i: usize = 0;
    while i < sounds.len()
        invariant
            i <= sounds.len() == old_v.len(),
            old_v == old(sounds)@.map_values(|p: (char, String)| (p.0, p.1@)),
            forall|j: int|
                0 <= j < i ==> (sounds[j].0, sounds[j].1@) == (if old_v[j].0 == alias {
                    (alias, file@)
                } else {
                    old_v[j]
                }),
            forall|j: int| i <= j < sounds.len() ==> (sounds[j].0, sounds[j].1@) == old_v[j],
            found <==> exists|j: int| 0 <= j < i && old_v[j].0 == alias,
        decreases sounds.len() - i,
    {
        if sounds[i].0 == alias {
            sounds[i] = (alias, string_of(file));
            found = true;
            assert(old_v[i as int].0 == alias);
        } else {
            assert(old_v[i as int].0 != alias);
        }
        i = i + 1;
    }
    let ghost new_v = sounds@.map_values(|p: (char, String)| (p.0, p.1@));
    if !found {
        sounds.push((alias, string_of(file)));
        assert(sounds@.map_values(|p: (char, String)| (p.0, p.1@)) =~= old_v.push((alias, file@)));
    } else {
        assert(new_v =~= old_v.map_values(
            |p: (char, Seq<char>)| if p.0 == alias { (alias, file@) } else { p },
        ));
    }
}

} // verus!
