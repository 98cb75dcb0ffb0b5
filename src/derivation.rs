use vstd::prelude::*;

use crate::charset::{chars_in, CharSet};
use crate::grammar::{lemma_pos_bounds, pos_of, Grammar2D, GrammarView, Rule, RuleView, Start};
use crate::selection::{choose_weighted, lemma_pick, lemma_total_bounds, pick, total};
use crate::terminal::{events_view, EventView, TerminalEvent};
use crate::invariants::{
    below_top, lemma_blank_index_exact, lemma_start_index_exact, lemma_step_keeps, same_top_row,
};
use crate::random::random_draw;
use crate::text::{char_string, chars_of, last_token, last_word};

verus! {

/// The glyph of an empty memory cell.
pub const EMPTY_GLYPH: char = '\u{ff}';

/// The z-order of seeds and of restored blanks (the code of `a`).
pub const BASE_Z: u8 = 97;

/// The contents of one grid position.
#[derive(Clone, Copy, Debug, PartialEq, Eq)]
pub struct GridCell {
    pub c: char,
    pub fore: u8,
    pub back: u8,
    pub z_ord: u8,
}

/// The cell that a new grid holds everywhere: a blank, white on black.
pub open spec fn blank_cell() -> GridCell {
    GridCell { c: ' ', fore: 7, back: 0, z_ord: BASE_Z }
}

pub open spec fn rows_of<T>(g: Seq<Vec<T>>) -> Seq<Seq<T>> {
    g.map_values(|x: Vec<T>| x@)
}

/// A grid of `rows` sequences of `cols` items each.
pub open spec fn shaped<T>(s: Seq<Seq<T>>, rows: int, cols: int) -> bool {
    s.len() == rows && forall|r: int| 0 <= r < rows ==> #[trigger] s[r].len() == cols
}

/// The two layers of the grid and the index of positions that hold a nonterminal.
pub struct Grid {
    rows: usize,
    cols: usize,
    current: Vec<Vec<GridCell>>,
    memory: Vec<Vec<GridCell>>,
    active: Vec<Vec<Option<char>>>,
}

pub struct GridView {
    pub rows: int,
    pub cols: int,
    pub current: Seq<Seq<GridCell>>,
    pub memory: Seq<Seq<GridCell>>,
    pub active: Seq<Seq<Option<char>>>,
}

impl View for Grid {
    type V = GridView;

    closed spec fn view(&self) -> GridView {
        GridView {
            rows: self.rows as int,
            cols: self.cols as int,
            current: rows_of(self.current@),
            memory: rows_of(self.memory@),
            active: rows_of(self.active@),
        }
    }
}

impl GridView {
    pub open spec fn wf(self) -> bool {
        &&& 0 <= self.rows <= i32::MAX
        &&& 0 <= self.cols <= i32::MAX
        &&& shaped(self.current, self.rows, self.cols)
        &&& shaped(self.memory, self.rows, self.cols)
        &&& shaped(self.active, self.rows, self.cols)
    }

    pub open spec fn in_grid(self, r: int, c: int) -> bool {
        0 <= r < self.rows && 0 <= c < self.cols
    }

    /// The index lists exactly the positions whose visible glyph is a nonterminal.
    pub open spec fn index_exact(self, nts: Set<char>) -> bool {
        forall|r: int, c: int|
            #![trigger self.active[r][c]]
            self.in_grid(r, c) ==> self.active[r][c] == (if nts.contains(self.current[r][c].c) {
                Some(self.current[r][c].c)
            } else {
                None
            })
    }
}

/// Writes one item of a grid.
fn set_at<T>(g: &mut Vec<Vec<T>>, r: usize, c: usize, v: T)
    requires
        r < old(g).len(),
        c < old(g)[r as int].len(),
    ensures
        rows_of(final(g)@) == rows_of(old(g)@).update(
            r as int,
            rows_of(old(g)@)[r as int].update(c as int, v),
        ),
{
    g[r][c] = v;
    assert(rows_of(g@) =~= rows_of(old(g)@).update(
        r as int,
        rows_of(old(g)@)[r as int].update(c as int, v),
    ));
}

// ----- matching -----

/// What the matcher reads at a grid position: the glyph (a blank as `~`), or `#` outside
/// the grid and on the top row.
pub open spec fn ctx_at(g: GridView, r: int, c: int) -> char {
    if 0 < r < g.rows && 0 <= c < g.cols {
        let ch = g.current[r][c].c;
        if ch == ' ' {
            '~'
        } else {
            ch
        }
    } else {
        '#'
    }
}

/// The character that a template character requires.
pub open spec fn required(rule: RuleView, p: char) -> char {
    let a = if p == '@' {
        rule.lhs
    } else {
        p
    };
    let b = if p == '&' {
        rule.ctx
    } else {
        a
    };
    if b == ' ' {
        '~'
    } else {
        b
    }
}

/// Whether a template character accepts what the matcher read.
pub open spec fn accepts(rule: RuleView, p: char, ctx: char) -> bool {
    let req = required(rule, p);
    !((req != '!' && req != '%' && req != ctx) || (req == '!' && ctx == rule.ctx) || (p == '%'
        && ctx != rule.ctx_rep && ctx != rule.ctx))
}

/// A rule is horizontal when its third anchor lies right of its first.
pub open spec fn is_horizontal(rule: RuleView) -> bool {
    rule.cq > rule.co
}

/// Whether the template character at `i` belongs to the pattern that is matched: not a
/// newline or a space, and before the middle anchor's column (horizontal rules) or row
/// (vertical ones).
pub open spec fn tested(rule: RuleView, i: int) -> bool {
    let p = rule.rhs_all[i];
    let o = pos_of(rule.rhs_all, i);
    p != '\n' && p != ' ' && if is_horizontal(rule) {
        o.1 < rule.cm
    } else {
        o.0 < rule.rm
    }
}

pub open spec fn cell_ok(g: GridView, rule: RuleView, r0: int, c0: int, i: int) -> bool {
    let o = pos_of(rule.rhs_all, i);
    tested(rule, i) ==> accepts(rule, rule.rhs_all[i], ctx_at(g, r0 + o.0, c0 + o.1))
}

/// Whether the rule applies with its template's top-left corner at `(r0, c0)`.
pub open spec fn applicable(g: GridView, rule: RuleView, r0: int, c0: int) -> bool {
    forall|i: int| 0 <= i < rule.rhs_all.len() ==> #[trigger] cell_ok(g, rule, r0, c0, i)
}

pub proof fn lemma_row_monotone(s: Seq<char>, i: int, j: int)
    requires
        0 <= i <= j <= s.len(),
    ensures
        pos_of(s, i).0 <= pos_of(s, j).0,
    decreases j - i,
{
    if i < j {
        lemma_row_monotone(s, i, j - 1);
    }
}

// ----- rewriting -----

/// Whether the template character at `i` belongs to the part that is written: not a
/// newline, and past the middle anchor's column (horizontal rules) or row (vertical ones).
pub open spec fn rewritten(rule: RuleView, i: int) -> bool {
    let o = pos_of(rule.rhs_all, i);
    rule.rhs_all[i] != '\n' && if is_horizontal(rule) {
        o.1 > rule.cm
    } else {
        o.0 > rule.rm
    }
}

/// The character that a template character writes: `@` the rule's replacement, then `&`
/// the context replacement.
pub open spec fn out_char(rule: RuleView, p: char) -> char {
    let a = if p == '@' {
        rule.rep
    } else {
        p
    };
    if a == '&' {
        rule.ctx_rep
    } else {
        a
    }
}

/// The cell written for output character `rep1` at `(r, c)`: `~` writes a blank, a
/// background above 7 is taken from memory, `$` restores the memory cell, and an empty
/// memory glyph becomes a blank.
pub open spec fn written_cell(g: GridView, rule: RuleView, r: int, c: int, rep1: char) -> GridCell {
    let rep = if rep1 == '~' {
        ' '
    } else {
        rep1
    };
    let m = g.memory[r][c];
    let back = if rule.back > 7 {
        m.back
    } else {
        rule.back
    };
    let d1 = if rep == '$' {
        m
    } else {
        GridCell { c: rep, fore: rule.fore, back, z_ord: rule.z_ord }
    };
    if d1.c == EMPTY_GLYPH {
        GridCell { c: ' ', fore: rule.fore, back, z_ord: BASE_Z }
    } else {
        d1
    }
}

/// Whether output character `rep1` is committed at `(r, c)`: it is no space, the position
/// is in the grid below the top row, and the rule's z-order is at least the memory's.
pub open spec fn commits(g: GridView, rule: RuleView, r: int, c: int, rep1: char) -> bool {
    rep1 != ' ' && 0 < r < g.rows && 0 <= c < g.cols && rule.z_ord >= g.memory[r][c].z_ord
}

/// The grid after committing cell `d` at `(r, c)`: a terminal is written to both layers
/// and leaves the index; a nonterminal is written to the visible layer, lends its
/// background to memory, and enters the index.
pub open spec fn commit(g: GridView, nts: Set<char>, r: int, c: int, d: GridCell) -> GridView {
    let nt = nts.contains(d.c);
    let m = g.memory[r][c];
    GridView {
        current: g.current.update(r, g.current[r].update(c, d)),
        memory: g.memory.update(
            r,
            g.memory[r].update(
                c,
                if nt {
                    GridCell { back: d.back, ..m }
                } else {
                    d
                },
            ),
        ),
        active: g.active.update(
            r,
            g.active[r].update(
                c,
                if nt {
                    Some(d.c)
                } else {
                    None
                },
            ),
        ),
        ..g
    }
}

/// A grid and the events emitted so far.
pub struct Frame {
    pub grid: GridView,
    pub events: Seq<EventView>,
}

/// The frame after the first `n` template characters of a rule applied at `(r0, c0)`.
pub open spec fn apply_upto(f: Frame, nts: Set<char>, rule: RuleView, r0: int, c0: int, n: int) -> Frame
    decreases n,
{
    if n <= 0 {
        f
    } else {
        let prev = apply_upto(f, nts, rule, r0, c0, n - 1);
        let o = pos_of(rule.rhs_all, n - 1);
        let r = r0 + o.0;
        let c = c0 + o.1;
        let rep1 = out_char(rule, rule.rhs_all[n - 1]);
        if rewritten(rule, n - 1) && commits(prev.grid, rule, r, c, rep1) {
            let d = written_cell(prev.grid, rule, r, c, rep1);
            Frame {
                grid: commit(prev.grid, nts, r, c, d),
                events: prev.events.push(
                    EventView { row: r as usize, col: c as usize, s: seq![d.c], fore: d.fore, back: d.back },
                ),
            }
        } else {
            prev
        }
    }
}

/// The grid and events after applying a rule with its template's top-left corner at
/// `(r0, c0)`.
pub open spec fn apply_spec(g: GridView, nts: Set<char>, rule: RuleView, r0: int, c0: int) -> Frame {
    apply_upto(Frame { grid: g, events: Seq::empty() }, nts, rule, r0, c0, rule.rhs_all.len() as int)
}

/// Offsets that a template of at most `i32::MAX` characters can add to a grid position.
pub open spec fn offset_ok(r0: i64, c0: i64) -> bool {
    -0x1_0000_0000 <= r0 <= 0x1_0000_0000 && -0x1_0000_0000 <= c0 <= 0x1_0000_0000
}

impl Grid {
    /// Whether `rule` applies with its template's top-left corner at `(ro, co)`.
    fn is_rule_applicable(&self, ro: i64, co: i64, rule: &Rule) -> (r: bool)
        requires
            self@.wf(),
            rule.rhs_all@.len() <= i32::MAX,
            offset_ok(ro, co),
        ensures
            r == applicable(self@, rule@, ro as int, co as int),
    {
        let rhs = chars_of(rule.rhs_all.as_str());
        let ghost s = rule.rhs_all@;
        let mut r: i64 = ro;
        let mut c: i64 = co;
        let horizontal = rule.cq > rule.co;
        let mut i: usize = 0;
        while i < rhs.len()
            invariant
                self@.wf(),
                rhs@ == s,
                s == rule.rhs_all@,
                s.len() <= i32::MAX,
                offset_ok(ro, co),
                horizontal == is_horizontal(rule@),
                i <= rhs.len(),
                r == ro + pos_of(s, i as int).0,
                c == co + pos_of(s, i as int).1,
                forall|j: int| 0 <= j < i ==> #[trigger] cell_ok(self@, rule@, ro as int, co as int, j),
            decreases rhs.len() - i,
        {
            proof {
                lemma_pos_bounds(s, i as int);
            }
            let p = rhs[i];
            if p == '\n' {
                r = r + 1;
                c = co;
            } else if p == ' ' {
                c = c + 1;
            } else if horizontal && c - co >= rule.cm as i64 {
                c = c + 1;
            } else if !horizontal && r - ro >= rule.rm as i64 {
                proof {
                    assert forall|j: int| i <= j < s.len() implies #[trigger] cell_ok(
                        self@,
                        rule@,
                        ro as int,
                        co as int,
                        j,
                    ) by {
                        lemma_row_monotone(s, i as int, j);
                    }
                }
                return true;
            } else {
                let mut req = p;
                let mut ctx = '#';
                if r > 0 && r < self.rows as i64 && c >= 0 && c < self.cols as i64 {
                    assert(self@.current[r as int] == self.current@[r as int]@);
                    assert(self@.current[r as int].len() == self.cols);
                    ctx = self.current[r as usize][c as usize].c;
                    if ctx == ' ' {
                        ctx = '~';
                    }
                }
                if req == '@' {
                    req = rule.lhs;
                }
                if p == '&' {
                    req = rule.ctx;
                }
                if req == ' ' {
                    req = '~';
                }
                assert(ctx == ctx_at(self@, r as int, c as int));
                assert(req == required(rule@, p));
                if (req != '!' && req != '%' && req != ctx) || (req == '!' && ctx == rule.ctx) || (p
                    == '%' && ctx != rule.ctx_rep && ctx != rule.ctx) {
                    assert(!cell_ok(self@, rule@, ro as int, co as int, i as int));
                    return false;
                }
                c = c + 1;
            }
            i = i + 1;
        }
        true
    }

    /// Applies `rule` with its template's top-left corner at `(ro, co)` and returns an event
    /// for each cell it committed, in template order.
    fn apply_rule(&mut self, nts: &CharSet, ro: i64, co: i64, rule: &Rule) -> (ret: Vec<
        TerminalEvent,
    >)
        requires
            old(self)@.wf(),
            rule.rhs_all@.len() <= i32::MAX,
            offset_ok(ro, co),
        ensures
            final(self)@.wf(),
            apply_spec(old(self)@, chars_in(*nts), rule@, ro as int, co as int) == (Frame {
                grid: final(self)@,
                events: events_view(ret@),
            }),
    {
        let rhs = chars_of(rule.rhs_all.as_str());
        let ghost s = rule.rhs_all@;
        let ghost nset = chars_in(*nts);
        let ghost f0 = Frame { grid: self@, events: Seq::empty() };
        let mut r: i64 = ro;
        let mut c: i64 = co;
        let mut ret: Vec<TerminalEvent> = Vec::new();
        let horizontal = rule.cq > rule.co;
        let mut i: usize = 0;
        assert(events_view(ret@) =~= Seq::<EventView>::empty());
        while i < rhs.len()
            invariant
                self@.wf(),
                rhs@ == s,
                s == rule.rhs_all@,
                s.len() <= i32::MAX,
                nset == chars_in(*nts),
                offset_ok(ro, co),
                horizontal == is_horizontal(rule@),
                i <= rhs.len(),
                r == ro + pos_of(s, i as int).0,
                c == co + pos_of(s, i as int).1,
                apply_upto(f0, nset, rule@, ro as int, co as int, i as int) == (Frame {
                    grid: self@,
                    events: events_view(ret@),
                }),
            decreases rhs.len() - i,
        {
            proof {
                lemma_pos_bounds(s, i as int);
            }
            let ghost g = self@;
            let ghost evs = events_view(ret@);
            let p = rhs[i];
            if p == '\n' {
                r = r + 1;
                c = co;
            } else {
                let skip = if horizontal {
                    c - co <= rule.cm as i64
                } else {
                    r - ro <= rule.rm as i64
                };
                if !skip {
                    let mut rep = p;
                    if rep == '@' {
                        rep = rule.rep;
                    }
                    if rep == '&' {
                        rep = rule.ctx_rep;
                    }
                    assert(rep == out_char(rule@, p));
                    if rep != ' ' && r > 0 && r < self.rows as i64 && c >= 0 && c < self.cols as i64 {
                        let ru = r as usize;
                        let cu = c as usize;
                        assert(self@.memory[r as int] == self.memory@[r as int]@);
                        assert(self@.memory[r as int].len() == self.cols);
                        let m = self.memory[ru][cu];
                        let rep1 = rep;
                        if rep == '~' {
                            rep = ' ';
                        }
                        let mut back = rule.back;
                        if rule.back > 7 {
                            back = m.back;
                        }
                        let mut d = GridCell { c: rep, fore: rule.fore, back, z_ord: rule.z_ord };
                        if rep == '$' {
                            d = m;
                        }
                        if d.c == EMPTY_GLYPH {
                            d = GridCell { c: ' ', fore: rule.fore, back, z_ord: BASE_Z };
                        }
                        assert(d == written_cell(g, rule@, r as int, c as int, rep1));
                        if rule.z_ord >= m.z_ord {
                            let ev = TerminalEvent {
                                row: ru,
                                col: cu,
                                s: char_string(d.c),
                                fore: d.fore,
                                back: d.back,
                            };
                            ret.push(ev);
                            let nt = nts.contains(d.c);
                            let saved = if nt {
                                GridCell { back: d.back, ..m }
                            } else {
                                d
                            };
                            assert(self@.current[r as int] == self.current@[r as int]@);
                            assert(self@.active[r as int] == self.active@[r as int]@);
                            set_at(&mut self.current, ru, cu, d);
                            set_at(&mut self.memory, ru, cu, saved);
                            set_at(&mut self.active, ru, cu, if nt { Some(d.c) } else { None });
                            assert(events_view(ret@) =~= evs.push(ev@));
                            assert(self@ == commit(g, nset, r as int, c as int, d));
                        }
                    }
                }
                c = c + 1;
            }
            i = i + 1;
        }
        ret
    }
}

// ----- stepping -----

/// Whether a rule is eligible under a step key: its key is that key or the wildcard `?`.
pub open spec fn key_ok(rule: RuleView, key: char) -> bool {
    rule.key == key || rule.key == '?'
}

/// Whether a rule rewriting `ch` is eligible under `key` and applies with its first anchor
/// on `(r, c)`.
pub open spec fn fits(g: GridView, rule: RuleView, key: char, r: int, c: int, ch: char) -> bool {
    rule.lhs == ch && key_ok(rule, key) && applicable(g, rule, r - rule.ro, c - rule.co)
}

/// Candidates at `(r, c)` for nonterminal `ch` among the first `k` rules, in rule order:
/// (row, column, rule index).
pub open spec fn cands_rules(
    g: GridView,
    rules: Seq<RuleView>,
    key: char,
    r: int,
    c: int,
    ch: char,
    k: int,
) -> Seq<(usize, usize, usize)>
    decreases k,
{
    if k <= 0 {
        Seq::empty()
    } else {
        let prev = cands_rules(g, rules, key, r, c, ch, k - 1);
        if fits(g, rules[k - 1], key, r, c, ch) {
            prev.push((r as usize, c as usize, (k - 1) as usize))
        } else {
            prev
        }
    }
}

/// Candidates at one position: none unless the index lists a nonterminal there.
pub open spec fn cands_cell(g: GridView, rules: Seq<RuleView>, key: char, r: int, c: int) -> Seq<
    (usize, usize, usize),
> {
    match g.active[r][c] {
        Some(ch) => cands_rules(g, rules, key, r, c, ch, rules.len() as int),
        None => Seq::empty(),
    }
}

/// Candidates in the first `c` positions of row `r`.
pub open spec fn cands_row(g: GridView, rules: Seq<RuleView>, key: char, r: int, c: int) -> Seq<
    (usize, usize, usize),
>
    decreases c,
{
    if c <= 0 {
        Seq::empty()
    } else {
        cands_row(g, rules, key, r, c - 1) + cands_cell(g, rules, key, r, c - 1)
    }
}

/// Candidates in the first `r` rows.
pub open spec fn cands_rows(g: GridView, rules: Seq<RuleView>, key: char, r: int) -> Seq<
    (usize, usize, usize),
>
    decreases r,
{
    if r <= 0 {
        Seq::empty()
    } else {
        cands_rows(g, rules, key, r - 1) + cands_row(g, rules, key, r - 1, g.cols)
    }
}

/// The nonterminals that some rule eligible under `key` rewrites.
pub open spec fn eligible_set(rules: Seq<RuleView>, key: char) -> Set<char> {
    Set::new(
        |ch: char| exists|j: int| 0 <= j < rules.len() && rules[j].lhs == ch && key_ok(rules[j], key),
    )
}

/// A nonterminal that no eligible rule rewrites has no candidate.
proof fn lemma_ineligible_no_cands(
    g: GridView,
    rules: Seq<RuleView>,
    key: char,
    r: int,
    c: int,
    ch: char,
    k: int,
)
    requires
        k <= rules.len(),
        !eligible_set(rules, key).contains(ch),
    ensures
        cands_rules(g, rules, key, r, c, ch, k) == Seq::<(usize, usize, usize)>::empty(),
    decreases k,
{
    if k > 0 {
        lemma_ineligible_no_cands(g, rules, key, r, c, ch, k - 1);
        if fits(g, rules[k - 1], key, r, c, ch) {
            assert(eligible_set(rules, key).contains(ch));
        }
    }
}

/// Every (position, rule) pair that may fire under `key`: positions in row-major order,
/// and at each the rules for its nonterminal in the order they were added.
pub open spec fn candidates(g: GridView, rules: Seq<RuleView>, key: char) -> Seq<(usize, usize, usize)> {
    cands_rows(g, rules, key, g.rows)
}

pub open spec fn weights_of(rules: Seq<RuleView>, cands: Seq<(usize, usize, usize)>) -> Seq<i32> {
    cands.map_values(|t: (usize, usize, usize)| rules[t.2 as int].weight)
}

/// What a step reports.
pub struct DerivationResult {
    pub terminal_events: Vec<TerminalEvent>,
    pub score_delta: i32,
    pub errors_delta: i32,
    pub dbg_rule: String,
    pub sound_alias: char,
}

pub struct ResultView {
    pub events: Seq<EventView>,
    pub score_delta: i32,
    pub errors_delta: i32,
    pub dbg_rule: Seq<char>,
    pub sound_alias: char,
}

impl View for DerivationResult {
    type V = ResultView;

    open spec fn view(&self) -> ResultView {
        ResultView {
            events: events_view(self.terminal_events@),
            score_delta: self.score_delta,
            errors_delta: self.errors_delta,
            dbg_rule: self.dbg_rule@,
            sound_alias: self.sound_alias,
        }
    }
}

/// The result of a step that did nothing.
pub open spec fn noop_result() -> ResultView {
    ResultView {
        events: Seq::empty(),
        score_delta: 0,
        errors_delta: 0,
        dbg_rule: Seq::empty(),
        sound_alias: ' ',
    }
}

/// The sound alias by which a rule asks the driver to switch to another program.
pub const SWITCH_PROGRAM: char = '>';

impl DerivationResult {
    /// The program to switch to, where the rule that fired asks for a switch: the last
    /// space-separated word of its header.
    pub fn program_switch(&self) -> (r: Option<String>)
        ensures
            self.sound_alias == SWITCH_PROGRAM ==> (r matches Some(p) && p@ == last_token(self.dbg_rule@)),
            self.sound_alias != SWITCH_PROGRAM ==> r is None,
    {
        if self.sound_alias == SWITCH_PROGRAM {
            Some(last_word(self.dbg_rule.as_str()))
        } else {
            None
        }
    }
}

impl Default for DerivationResult {
    fn default() -> (r: DerivationResult)
        ensures
            r@ == noop_result(),
    {
        let r = DerivationResult {
            terminal_events: Vec::new(),
            score_delta: 0,
            errors_delta: 0,
            dbg_rule: String::new(),
            sound_alias: ' ',
        };
        assert(r@.events =~= Seq::<EventView>::empty());
        r
    }
}

/// The grid and result of a step under `key` with random number `draw`: among the
/// candidates, one is chosen by weight from the draw; its rule is applied with its third
/// anchor on the candidate's position. Without a candidate of positive weight the grid
/// stays as it is and the result is the no-op one.
pub open spec fn step_spec(gr: GrammarView, g: GridView, key: char, draw: u64) -> (GridView, ResultView) {
    let cands = candidates(g, gr.rules, key);
    let ws = weights_of(gr.rules, cands);
    let t = total(ws);
    if t == 0 {
        (g, noop_result())
    } else {
        let cd = cands[pick(ws, draw as int % t)];
        let rule = gr.rules[cd.2 as int];
        let f = apply_spec(g, gr.nonterminals, rule, cd.0 - rule.rq, cd.1 - rule.cq);
        (
            f.grid,
            ResultView {
                events: f.events,
                score_delta: rule.reward,
                errors_delta: 0,
                dbg_rule: rule.lhs_all,
                sound_alias: rule.sound,
            },
        )
    }
}

// ----- seeding -----

/// The column of a seed with horizontal class `lr`, with `d` as the random number.
pub open spec fn seed_col(cols: int, lr: char, d: u64) -> int {
    if lr == 'l' {
        0
    } else if lr == 'r' {
        cols - 1
    } else if lr == 'c' {
        cols / 2
    } else if lr == 'R' {
        2 * ((cols - 1) / 2)
    } else if lr == 'C' {
        2 * ((cols / 2) / 2)
    } else if lr == 'X' {
        2 * ((d as int % cols) / 2)
    } else {
        d as int % cols
    }
}

/// The row of a seed with vertical class `ul`, with `d` as the random number.
pub open spec fn seed_row(rows: int, ul: char, d: u64) -> int {
    if ul == 'u' {
        1
    } else if ul == 'l' {
        rows - 1
    } else if ul == 'c' {
        rows / 2
    } else if ul == 'L' {
        2 * ((rows - 2) / 2)
    } else if ul == 'C' {
        2 * ((rows / 2 - 1) / 2)
    } else if ul == 'X' {
        2 * ((d as int % (rows - 1)) / 2)
    } else {
        d as int % (rows - 1) + 1
    }
}

/// A seed glyph as `start` writes it: white on black, at the base z-order.
pub open spec fn seed_cell(c: char) -> GridCell {
    GridCell { c, fore: 7, back: 0, z_ord: BASE_Z }
}

/// The grid and events after placing the first `n` seeds, each with its pair of random
/// numbers (for the column, then the row).
pub open spec fn start_upto(g: GridView, seeds: Seq<Start>, draws: Seq<(u64, u64)>, n: int) -> Frame
    decreases n,
{
    if n <= 0 {
        Frame { grid: g, events: Seq::empty() }
    } else {
        let prev = start_upto(g, seeds, draws, n - 1);
        let sd = seeds[n - 1];
        let row = seed_row(g.rows, sd.ul, draws[n - 1].1);
        let col = seed_col(g.cols, sd.lr, draws[n - 1].0);
        let pg = prev.grid;
        Frame {
            grid: GridView {
                current: pg.current.update(row, pg.current[row].update(col, seed_cell(sd.c))),
                active: pg.active.update(row, pg.active[row].update(col, Some(sd.c))),
                ..pg
            },
            events: prev.events.push(
                EventView { row: row as usize, col: col as usize, s: seq![sd.c], fore: 7, back: 0 },
            ),
        }
    }
}

/// A grid of the given size holding blanks in both layers, with an empty index.
pub open spec fn blank_grid(rows: int, cols: int) -> GridView {
    GridView {
        rows,
        cols,
        current: Seq::new(rows as nat, |r: int| Seq::new(cols as nat, |c: int| blank_cell())),
        memory: Seq::new(rows as nat, |r: int| Seq::new(cols as nat, |c: int| blank_cell())),
        active: Seq::new(rows as nat, |r: int| Seq::new(cols as nat, |c: int| None::<char>)),
    }
}

/// Where a seed goes: (row, column).
pub fn place_seed(rows: usize, cols: usize, seed: &Start, draw_col: u64, draw_row: u64) -> (r: (
    usize,
    usize,
))
    requires
        2 <= rows <= i32::MAX,
        1 <= cols <= i32::MAX,
    ensures
        r.0 as int == seed_row(rows as int, seed.ul, draw_row),
        r.1 as int == seed_col(cols as int, seed.lr, draw_col),
        r.0 < rows,
        r.1 < cols,
        seed.ul != 'L' && seed.ul != 'C' && seed.ul != 'X' ==> r.0 >= 1,
{
    let col: usize = match seed.lr {
        'l' => 0,
        'r' => cols - 1,
        'c' => cols / 2,
        'R' => 2 * ((cols - 1) / 2),
        'C' => 2 * ((cols / 2) / 2),
        'X' => 2 * (((draw_col % (cols as u64)) as usize) / 2),
        _ => (draw_col % (cols as u64)) as usize,
    };
    let row: usize = match seed.ul {
        'u' => 1,
        'l' => rows - 1,
        'c' => rows / 2,
        'L' => 2 * ((rows - 2) / 2),
        'C' => 2 * ((rows / 2 - 1) / 2),
        'X' => 2 * (((draw_row % ((rows - 1) as u64)) as usize) / 2),
        _ => (draw_row % ((rows - 1) as u64)) as usize + 1,
    };
    (row, col)
}

/// A grid of `rows` rows of `cols` copies of `v`.
fn filled<T: Copy>(rows: usize, cols: usize, v: T) -> (g: Vec<Vec<T>>)
    ensures
        rows_of(g@) == Seq::new(rows as nat, |r: int| Seq::new(cols as nat, |c: int| v)),
{
    let mut g: Vec<Vec<T>> = Vec::new();
    let mut r: usize = 0;
    while r < rows
        invariant
            r <= rows,
            rows_of(g@) == Seq::new(r as nat, |i: int| Seq::new(cols as nat, |c: int| v)),
        decreases rows - r,
    {
        let mut row: Vec<T> = Vec::new();
        let mut c: usize = 0;
        while c < cols
            invariant
                c <= cols,
                row@ == Seq::new(c as nat, |i: int| v),
            decreases cols - c,
        {
            row.push(v);
            c = c + 1;
            assert(row@ =~= Seq::new(c as nat, |i: int| v));
        }
        let ghost before = rows_of(g@);
        g.push(row);
        r = r + 1;
        assert(rows_of(g@) =~= before.push(Seq::new(cols as nat, |c: int| v)));
        assert(rows_of(g@) =~= Seq::new(r as nat, |i: int| Seq::new(cols as nat, |c: int| v)));
    }
    g
}

/// A grammar being derived on a grid.
pub struct Derivation {
    pub grammar: Grammar2D,
    pub grid: Grid,
}

impl Derivation {
    /// A derivation of `grammar` on a blank grid of `rows` by `cols`.
    pub fn new(grammar: Grammar2D, rows: usize, cols: usize) -> (d: Derivation)
        requires
            grammar.wf(),
            rows <= i32::MAX,
            cols <= i32::MAX,
        ensures
            d.wf(),
            d.grammar == grammar,
            d.board() == blank_grid(rows as int, cols as int),
            !d.grammar@.nonterminals.contains(' ') ==> d.board().index_exact(d.grammar@.nonterminals),
    {
        let blank = GridCell { c: ' ', fore: 7, back: 0, z_ord: BASE_Z };
        let grid = Grid {
            rows,
            cols,
            current: filled(rows, cols, blank),
            memory: filled(rows, cols, blank),
            active: filled(rows, cols, None),
        };
        assert(grid@ =~= blank_grid(rows as int, cols as int));
        proof {
            if !grammar@.nonterminals.contains(' ') {
                lemma_blank_index_exact(rows as int, cols as int, grammar@.nonterminals);
            }
        }
        Derivation { grammar, grid }
    }

    /// Places every seed, each with its pair of random numbers (for the column, then the
    /// row), and returns one event per seed, in seed order.
    pub fn start_with(&mut self, draws: &Vec<(u64, u64)>) -> (events: Vec<TerminalEvent>)
        requires
            old(self).wf(),
            old(self).board().rows >= 2,
            old(self).board().cols >= 1,
            draws.len() == old(self).grammar.seeds.len(),
        ensures
            final(self).wf(),
            final(self).grammar == old(self).grammar,
            start_upto(old(self).board(), old(self).grammar@.seeds, draws@, draws@.len() as int)
                == (Frame { grid: final(self).board(), events: events_view(events@) }),
            old(self).board().index_exact(old(self).grammar@.nonterminals) && (forall|i: int|
                0 <= i < old(self).grammar@.seeds.len() ==> old(self).grammar@.nonterminals.contains(
                    #[trigger] old(self).grammar@.seeds[i].c,
                )) ==> final(self).board().index_exact(final(self).grammar@.nonterminals),
    {
        let ghost g0 = self.board();
        proof {
            let nts = self.grammar@.nonterminals;
            let seeds = self.grammar@.seeds;
            if g0.index_exact(nts) && (forall|i: int| 0 <= i < seeds.len() ==> nts.contains(#[trigger] seeds[i].c)) {
                lemma_start_index_exact(g0, seeds, draws@, draws@.len() as int, nts);
            }
        }
        let mut events: Vec<TerminalEvent> = Vec::new();
        let mut i: usize = 0;
        assert(events_view(events@) =~= Seq::<EventView>::empty());
        while i < draws.len()
            invariant
                self.wf(),
                self.grammar == old(self).grammar,
                draws.len() == self.grammar.seeds.len(),
                g0.rows >= 2,
                g0.cols >= 1,
                self.board().rows == g0.rows,
                self.board().cols == g0.cols,
                i <= draws.len(),
                start_upto(g0, self.grammar@.seeds, draws@, i as int) == (Frame {
                    grid: self.board(),
                    events: events_view(events@),
                }),
            decreases draws.len() - i,
        {
            let ghost g = self.board();
            let ghost evs = events_view(events@);
            let seed = self.grammar.seeds[i];
            let (row, col) = place_seed(self.grid.rows, self.grid.cols, &seed, draws[i].0, draws[i].1);
            assert(self.grid@.current[row as int] == self.grid.current@[row as int]@);
            assert(self.grid@.active[row as int] == self.grid.active@[row as int]@);
            set_at(&mut self.grid.active, row, col, Some(seed.c));
            set_at(&mut self.grid.current, row, col, GridCell { c: seed.c, fore: 7, back: 0, z_ord: BASE_Z });
            let ev = TerminalEvent { row, col, s: char_string(seed.c), fore: 7, back: 0 };
            events.push(ev);
            assert(events_view(events@) =~= evs.push(ev@));
            assert(self.grammar@.seeds[i as int] == seed);
            assert(self.board() == GridView {
                current: g.current.update(row as int, g.current[row as int].update(col as int, seed_cell(seed.c))),
                active: g.active.update(row as int, g.active[row as int].update(col as int, Some(seed.c))),
                ..g
            });
            i = i + 1;
        }
        events
    }

    /// Places every seed, drawing the random numbers that placement uses.
    pub fn start(&mut self) -> (events: Vec<TerminalEvent>)
        requires
            old(self).wf(),
            old(self).board().rows >= 2,
            old(self).board().cols >= 1,
        ensures
            final(self).wf(),
            final(self).grammar == old(self).grammar,
            exists|ds: Seq<(u64, u64)>|
                ds.len() == old(self).grammar.seeds.len() && start_upto(
                    old(self).board(),
                    old(self).grammar@.seeds,
                    ds,
                    ds.len() as int,
                ) == (Frame { grid: final(self).board(), events: events_view(events@) }),
    {
        let mut draws: Vec<(u64, u64)> = Vec::new();
        let mut i: usize = 0;
        while i < self.grammar.seeds.len()
            invariant
                i <= self.grammar.seeds.len(),
                draws.len() == i,
            decreases self.grammar.seeds.len() - i,
        {
            let dc = random_draw();
            let dr = random_draw();
            draws.push((dc, dr));
            i = i + 1;
        }
        self.start_with(&draws)
    }

    /// One rewrite attempt under `key`, drawing the random number that selection uses.
    pub fn step(&mut self, key: char) -> (res: DerivationResult)
        requires
            old(self).wf(),
        ensures
            final(self).wf(),
            final(self).grammar == old(self).grammar,
            exists|d: u64|
                (final(self).board(), res@) == step_spec(old(self).grammar@, old(self).board(), key, d),
            old(self).board().index_exact(old(self).grammar@.nonterminals) ==> final(self).board().index_exact(
                final(self).grammar@.nonterminals,
            ),
            same_top_row(final(self).board(), old(self).board()),
            below_top(res@.events),
    {
        let d = random_draw();
        self.step_with(key, d)
    }

    /// Number of rows of the grid.
    pub fn rows(&self) -> (r: usize)
        ensures
            r == self.board().rows,
    {
        self.grid.rows
    }

    /// Number of columns of the grid.
    pub fn cols(&self) -> (r: usize)
        ensures
            r == self.board().cols,
    {
        self.grid.cols
    }

    /// The visible cell at `(r, c)`, if the position is in the grid.
    pub fn current_cell(&self, r: usize, c: usize) -> (res: Option<GridCell>)
        requires
            self.wf(),
        ensures
            res == (if self.board().in_grid(r as int, c as int) {
                Some(self.board().current[r as int][c as int])
            } else {
                None
            }),
    {
        if r < self.grid.rows && c < self.grid.cols {
            assert(self.grid@.current[r as int] == self.grid.current@[r as int]@);
            Some(self.grid.current[r][c])
        } else {
            None
        }
    }

    /// The memory cell at `(r, c)`, if the position is in the grid.
    pub fn memory_cell(&self, r: usize, c: usize) -> (res: Option<GridCell>)
        requires
            self.wf(),
        ensures
            res == (if self.board().in_grid(r as int, c as int) {
                Some(self.board().memory[r as int][c as int])
            } else {
                None
            }),
    {
        if r < self.grid.rows && c < self.grid.cols {
            assert(self.grid@.memory[r as int] == self.grid.memory@[r as int]@);
            Some(self.grid.memory[r][c])
        } else {
            None
        }
    }

    /// The nonterminal that the index lists at `(r, c)`, if any.
    pub fn active_at(&self, r: usize, c: usize) -> (res: Option<char>)
        requires
            self.wf(),
        ensures
            res == (if self.board().in_grid(r as int, c as int) {
                self.board().active[r as int][c as int]
            } else {
                None
            }),
    {
        if r < self.grid.rows && c < self.grid.cols {
            assert(self.grid@.active[r as int] == self.grid.active@[r as int]@);
            self.grid.active[r][c]
        } else {
            None
        }
    }
    /// The grid, its layers and its index.
    pub closed spec fn board(&self) -> GridView {
        self.grid@
    }

    pub open spec fn wf(&self) -> bool {
        self.grammar.wf() && self.board().wf()
    }

    /// The nonterminals that some rule eligible under `key` rewrites.
    fn eligible_nonterminals(&self, key: char) -> (r: CharSet)
        requires
            self.wf(),
        ensures
            chars_in(r) == eligible_set(self.grammar@.rules, key),
    {
        let ghost rules = self.grammar@.rules;
        let mut set = CharSet::new();
        let mut k: usize = 0;
        while k < self.grammar.rules.len()
            invariant
                rules == self.grammar@.rules,
                k <= rules.len(),
                chars_in(set) == eligible_set(rules.take(k as int), key),
            decreases rules.len() - k,
        {
            let rule = &self.grammar.rules[k];
            assert(rules[k as int] == rule@);
            let ghost before = chars_in(set);
            if rule.key == key || rule.key == '?' {
                set.insert(rule.lhs);
            }
            k = k + 1;
            assert(chars_in(set) =~= eligible_set(rules.take(k as int), key)) by {
                let t = rules.take(k as int);
                assert forall|ch: char| chars_in(set).contains(ch) implies eligible_set(t, key).contains(ch) by {
                    if ch == rule.lhs && key_ok(rule@, key) {
                        assert(t[k - 1] == rule@);
                    } else {
                        let pt = rules.take(k - 1);
                        let j = choose|j: int| 0 <= j < pt.len() && #[trigger] pt[j].lhs == ch && key_ok(pt[j], key);
                        assert(t[j] == pt[j]);
                    }
                }
                assert forall|ch: char| eligible_set(t, key).contains(ch) implies chars_in(set).contains(ch) by {
                    let j = choose|j: int| 0 <= j < t.len() && #[trigger] t[j].lhs == ch && key_ok(t[j], key);
                    if j < k - 1 {
                        assert(rules.take(k - 1)[j] == t[j]);
                    }
                }
            }
        }
        assert(rules.take(k as int) =~= rules);
        set
    }

    /// Every (position, rule) pair that may fire under `key`.
    fn applicable_rules(&self, key: char, eligible: &CharSet) -> (out: Vec<(usize, usize, usize)>)
        requires
            self.wf(),
            chars_in(*eligible) == eligible_set(self.grammar@.rules, key),
        ensures
            out@ == candidates(self.board(), self.grammar@.rules, key),
    {
        let ghost g = self.grid@;
        let ghost rules = self.grammar@.rules;
        let mut out: Vec<(usize, usize, usize)> = Vec::new();
        let mut r: usize = 0;
        while r < self.grid.rows
            invariant
                self.wf(),
                g == self.grid@,
                rules == self.grammar@.rules,
                chars_in(*eligible) == eligible_set(rules, key),
                r <= g.rows,
                out@ == cands_rows(g, rules, key, r as int),
            decreases g.rows - r,
        {
            let mut c: usize = 0;
            while c < self.grid.cols
                invariant
                    self.wf(),
                    g == self.grid@,
                    rules == self.grammar@.rules,
                    chars_in(*eligible) == eligible_set(rules, key),
                    r < g.rows,
                    c <= g.cols,
                    out@ == cands_rows(g, rules, key, r as int) + cands_row(g, rules, key, r as int, c as int),
                decreases g.cols - c,
            {
                let ghost before = out@;
                assert(g.active[r as int] == self.grid.active@[r as int]@);
                assert(g.active[r as int].len() == g.cols);
                match self.grid.active[r][c] {
                    Some(ch) => if !eligible.contains(ch) {
                        proof {
                            lemma_ineligible_no_cands(g, rules, key, r as int, c as int, ch, rules.len() as int);
                        }
                        assert(out@ =~= before + cands_rules(g, rules, key, r as int, c as int, ch, rules.len() as int));
                    } else {
                        let mut k: usize = 0;
                        while k < self.grammar.rules.len()
                            invariant
                                self.wf(),
                                g == self.grid@,
                                rules == self.grammar@.rules,
                                r < g.rows,
                                c < g.cols,
                                k <= rules.len(),
                                g.active[r as int][c as int] == Some(ch),
                                out@ == before + cands_rules(g, rules, key, r as int, c as int, ch, k as int),
                            decreases rules.len() - k,
                        {
                            let rule = &self.grammar.rules[k];
                            assert(rules[k as int] == rule@);
                            assert(rule@.rhs_all.len() <= i32::MAX);
                            if rule.lhs == ch && (rule.key == key || rule.key == '?')
                                && self.grid.is_rule_applicable(
                                r as i64 - rule.ro as i64,
                                c as i64 - rule.co as i64,
                                rule,
                            ) {
                                out.push((r, c, k));
                            }
                            k = k + 1;
                            assert(out@ =~= before + cands_rules(g, rules, key, r as int, c as int, ch, k as int));
                        }
                    },
                    None => {},
                }
                assert(out@ =~= cands_rows(g, rules, key, r as int) + cands_row(g, rules, key, r as int, c + 1));
                c = c + 1;
            }
            assert(out@ =~= cands_rows(g, rules, key, r + 1));
            r = r + 1;
        }
        out
    }

    /// One rewrite attempt under `key`, with `draw` as the random number that selection
    /// uses.
    pub fn step_with(&mut self, key: char, draw: u64) -> (res: DerivationResult)
        requires
            old(self).wf(),
        ensures
            final(self).wf(),
            final(self).grammar == old(self).grammar,
            (final(self).board(), res@) == step_spec(old(self).grammar@, old(self).board(), key, draw),
            old(self).board().index_exact(old(self).grammar@.nonterminals) ==> final(self).board().index_exact(
                final(self).grammar@.nonterminals,
            ),
            same_top_row(final(self).board(), old(self).board()),
            below_top(res@.events),
    {
        proof {
            lemma_step_keeps(self.grammar@, self.board(), key, draw);
        }
        let eligible = self.eligible_nonterminals(key);
        let cands = self.applicable_rules(key, &eligible);
        let mut weights: Vec<i32> = Vec::new();
        let mut i: usize = 0;
        while i < cands.len()
            invariant
                self.wf(),
                cands@ == candidates(self.board(), self.grammar@.rules, key),
                i <= cands.len(),
                weights@ == weights_of(self.grammar@.rules, cands@.take(i as int)),
            decreases cands.len() - i,
        {
            proof {
                lemma_candidate_bounds(self.board(), self.grammar@.rules, key, i as int);
            }
            weights.push(self.grammar.rules[cands[i].2].weight);
            i = i + 1;
            assert(weights@ =~= weights_of(self.grammar@.rules, cands@.take(i as int)));
        }
        assert(cands@.take(i as int) =~= cands@);
        proof {
            lemma_total_bounds(weights@);
        }
        let ghost g0 = self.board();
        match choose_weighted(&weights, draw) {
            None => DerivationResult::default(),
            Some(j) => {
                proof {
                    lemma_candidate_bounds(self.board(), self.grammar@.rules, key, j as int);
                }
                let (row, col, k) = cands[j];
                let rule = &self.grammar.rules[k];
                assert(rule@.rhs_all.len() <= i32::MAX);
                let events = self.grid.apply_rule(
                    &self.grammar.nonterminals,
                    row as i64 - rule.rq as i64,
                    col as i64 - rule.cq as i64,
                    rule,
                );
                let res = DerivationResult {
                    terminal_events: events,
                    score_delta: rule.reward,
                    errors_delta: 0,
                    dbg_rule: rule.lhs_all.clone(),
                    sound_alias: rule.sound,
                };
                proof {
                    lemma_pick(weights@, draw as int % total(weights@));
                }
                res
            },
        }
    }
}

pub open spec fn cand_in(g: GridView, rules: Seq<RuleView>, t: (usize, usize, usize)) -> bool {
    t.0 < g.rows && t.1 < g.cols && t.2 < rules.len()
}

pub open spec fn all_in(g: GridView, rules: Seq<RuleView>, s: Seq<(usize, usize, usize)>) -> bool {
    forall|i: int| 0 <= i < s.len() ==> #[trigger] cand_in(g, rules, s[i])
}

proof fn lemma_all_in_concat(
    g: GridView,
    rules: Seq<RuleView>,
    a: Seq<(usize, usize, usize)>,
    b: Seq<(usize, usize, usize)>,
)
    requires
        all_in(g, rules, a),
        all_in(g, rules, b),
    ensures
        all_in(g, rules, a + b),
{
    assert forall|i: int| 0 <= i < (a + b).len() implies #[trigger] cand_in(g, rules, (a + b)[i]) by {
        if i < a.len() {
            assert((a + b)[i] == a[i]);
        } else {
            assert((a + b)[i] == b[i - a.len()]);
        }
    }
}

proof fn lemma_cands_rules_in(
    g: GridView,
    rules: Seq<RuleView>,
    key: char,
    r: int,
    c: int,
    ch: char,
    k: int,
)
    requires
        0 <= r < g.rows,
        0 <= c < g.cols,
        k <= rules.len(),
    ensures
        all_in(g, rules, cands_rules(g, rules, key, r, c, ch, k)),
    decreases k,
{
    if k > 0 {
        lemma_cands_rules_in(g, rules, key, r, c, ch, k - 1);
        let prev = cands_rules(g, rules, key, r, c, ch, k - 1);
        assert(all_in(g, rules, prev.push((r as usize, c as usize, (k - 1) as usize)))) by {
            assert forall|i: int| 0 <= i < prev.len() + 1 implies #[trigger] cand_in(
                g,
                rules,
                prev.push((r as usize, c as usize, (k - 1) as usize))[i],
            ) by {
                if i < prev.len() {
                    assert(prev.push((r as usize, c as usize, (k - 1) as usize))[i] == prev[i]);
                }
            }
        }
    }
}

proof fn lemma_cands_row_in(g: GridView, rules: Seq<RuleView>, key: char, r: int, c: int)
    requires
        0 <= r < g.rows,
        c <= g.cols,
    ensures
        all_in(g, rules, cands_row(g, rules, key, r, c)),
    decreases c,
{
    if c > 0 {
        lemma_cands_row_in(g, rules, key, r, c - 1);
        match g.active[r][c - 1] {
            Some(ch) => lemma_cands_rules_in(g, rules, key, r, c - 1, ch, rules.len() as int),
            None => {},
        }
        lemma_all_in_concat(
            g,
            rules,
            cands_row(g, rules, key, r, c - 1),
            cands_cell(g, rules, key, r, c - 1),
        );
    }
}

proof fn lemma_cands_rows_in(g: GridView, rules: Seq<RuleView>, key: char, r: int)
    requires
        r <= g.rows,
        g.cols >= 0,
    ensures
        all_in(g, rules, cands_rows(g, rules, key, r)),
    decreases r,
{
    if r > 0 {
        lemma_cands_rows_in(g, rules, key, r - 1);
        lemma_cands_row_in(g, rules, key, r - 1, g.cols);
        lemma_all_in_concat(
            g,
            rules,
            cands_rows(g, rules, key, r - 1),
            cands_row(g, rules, key, r - 1, g.cols),
        );
    }
}

/// Every candidate names a position of the grid and a rule of the grammar.
pub proof fn lemma_candidate_bounds(g: GridView, rules: Seq<RuleView>, key: char, i: int)
    requires
        g.wf(),
        0 <= i < candidates(g, rules, key).len(),
    ensures
        candidates(g, rules, key)[i].0 < g.rows,
        candidates(g, rules, key)[i].1 < g.cols,
        candidates(g, rules, key)[i].2 < rules.len(),
{
    lemma_cands_rows_in(g, rules, key, g.rows);
    assert(cand_in(g, rules, candidates(g, rules, key)[i]));
}

} // verus!
