use vstd::prelude::*;

use crate::derivation::{
    apply_spec, apply_upto, blank_grid, cands_row, cands_rows, cands_rules, candidates,
    commit, commits, key_ok, noop_result, rewritten, seed_col, seed_row, start_upto,
    step_spec, weights_of,
    written_cell, Frame, GridCell, GridView, EMPTY_GLYPH,
};
use crate::grammar::{load_spec, pos_of, GrammarView, RuleView, Start};
use crate::selection::total;
use crate::terminal::EventView;

verus! {

/// Every event lies below the top row.
pub open spec fn below_top(events: Seq<EventView>) -> bool {
    forall|k: int| 0 <= k < events.len() ==> #[trigger] events[k].row >= 1
}

/// The top row of both layers and of the index is the same in two grids.
pub open spec fn same_top_row(a: GridView, b: GridView) -> bool {
    a.current[0] == b.current[0] && a.memory[0] == b.memory[0] && a.active[0] == b.active[0]
}

proof fn lemma_commit(g: GridView, nts: Set<char>, r: int, c: int, d: GridCell)
    requires
        g.wf(),
        0 < r < g.rows,
        0 <= c < g.cols,
    ensures
        commit(g, nts, r, c, d).wf(),
        commit(g, nts, r, c, d).rows == g.rows,
        commit(g, nts, r, c, d).cols == g.cols,
        same_top_row(commit(g, nts, r, c, d), g),
        g.index_exact(nts) ==> commit(g, nts, r, c, d).index_exact(nts),
{
    let h = commit(g, nts, r, c, d);
    assert forall|i: int| 0 <= i < h.rows implies #[trigger] h.current[i].len() == h.cols by {
        if i != r {
            assert(h.current[i] == g.current[i]);
        }
    }
    assert forall|i: int| 0 <= i < h.rows implies #[trigger] h.memory[i].len() == h.cols by {
        if i != r {
            assert(h.memory[i] == g.memory[i]);
        }
    }
    assert forall|i: int| 0 <= i < h.rows implies #[trigger] h.active[i].len() == h.cols by {
        if i != r {
            assert(h.active[i] == g.active[i]);
        }
    }
    if g.index_exact(nts) {
        assert forall|i: int, j: int| #![trigger h.active[i][j]] h.in_grid(i, j) implies h.active[i][j] == (
        if nts.contains(h.current[i][j].c) {
            Some(h.current[i][j].c)
        } else {
            None
        }) by {
            if i != r || j != c {
                assert(h.active[i][j] == g.active[i][j]);
                assert(h.current[i][j] == g.current[i][j]);
            }
        }
    }
}

/// What applying a rule keeps: the grid's shape, its top row, an exact index, and events
/// below the top row.
pub proof fn lemma_apply_upto(f0: Frame, nts: Set<char>, rule: RuleView, r0: int, c0: int, n: int)
    requires
        f0.grid.wf(),
        0 <= n,
    ensures
        apply_upto(f0, nts, rule, r0, c0, n).grid.wf(),
        apply_upto(f0, nts, rule, r0, c0, n).grid.rows == f0.grid.rows,
        apply_upto(f0, nts, rule, r0, c0, n).grid.cols == f0.grid.cols,
        same_top_row(apply_upto(f0, nts, rule, r0, c0, n).grid, f0.grid),
        f0.grid.index_exact(nts) ==> apply_upto(f0, nts, rule, r0, c0, n).grid.index_exact(nts),
        below_top(f0.events) ==> below_top(apply_upto(f0, nts, rule, r0, c0, n).events),
    decreases n,
{
    if n > 0 {
        lemma_apply_upto(f0, nts, rule, r0, c0, n - 1);
        let prev = apply_upto(f0, nts, rule, r0, c0, n - 1);
        let o = pos_of(rule.rhs_all, n - 1);
        let r = r0 + o.0;
        let c = c0 + o.1;
        let rep1 = crate::derivation::out_char(rule, rule.rhs_all[n - 1]);
        if rewritten(rule, n - 1) && commits(prev.grid, rule, r, c, rep1) {
            let d = written_cell(prev.grid, rule, r, c, rep1);
            lemma_commit(prev.grid, nts, r, c, d);
            let f = apply_upto(f0, nts, rule, r0, c0, n);
            if below_top(f0.events) {
                assert forall|k: int| 0 <= k < f.events.len() implies #[trigger] f.events[k].row >= 1 by {
                    if k < prev.events.len() {
                        assert(f.events[k] == prev.events[k]);
                    }
                }
            }
        }
    }
}

/// A step keeps the grid's shape and its top row, keeps an exact index exact, and emits
/// no event on the top row.
pub proof fn lemma_step_keeps(gr: GrammarView, g: GridView, key: char, draw: u64)
    requires
        g.wf(),
        forall|i: int| 0 <= i < gr.rules.len() ==> #[trigger] gr.rules[i].rhs_all.len() <= i32::MAX,
    ensures
        step_spec(gr, g, key, draw).0.wf(),
        step_spec(gr, g, key, draw).0.rows == g.rows,
        step_spec(gr, g, key, draw).0.cols == g.cols,
        same_top_row(step_spec(gr, g, key, draw).0, g),
        g.index_exact(gr.nonterminals) ==> step_spec(gr, g, key, draw).0.index_exact(gr.nonterminals),
        below_top(step_spec(gr, g, key, draw).1.events),
{
    let cands = candidates(g, gr.rules, key);
    let ws = weights_of(gr.rules, cands);
    if total(ws) != 0 {
        let cd = cands[crate::selection::pick(ws, draw as int % total(ws))];
        let rule = gr.rules[cd.2 as int];
        let f0 = Frame { grid: g, events: Seq::empty() };
        lemma_apply_upto(f0, gr.nonterminals, rule, cd.0 - rule.rq, cd.1 - rule.cq, rule.rhs_all.len() as int);
    }
}

/// At every cell a rule commits, the visible z-order is at least the memory's, provided
/// that a blank is no nonterminal.
pub proof fn lemma_commit_z_order(g: GridView, nts: Set<char>, rule: RuleView, r: int, c: int, rep1: char)
    requires
        g.wf(),
        commits(g, rule, r, c, rep1),
        !nts.contains(' '),
    ensures
        commit(g, nts, r, c, written_cell(g, rule, r, c, rep1)).current[r][c].z_ord >= commit(
            g,
            nts,
            r,
            c,
            written_cell(g, rule, r, c, rep1),
        ).memory[r][c].z_ord,
{
}

/// The index of a blank grid is exact when a blank is no nonterminal.
pub proof fn lemma_blank_index_exact(rows: int, cols: int, nts: Set<char>)
    requires
        rows >= 0,
        cols >= 0,
        !nts.contains(' '),
    ensures
        blank_grid(rows, cols).index_exact(nts),
{
}

/// Placing seeds keeps an exact index exact when every seed glyph is a nonterminal.
pub proof fn lemma_start_index_exact(g: GridView, seeds: Seq<Start>, draws: Seq<(u64, u64)>, n: int, nts: Set<char>)
    requires
        g.wf(),
        g.rows >= 2,
        g.cols >= 1,
        0 <= n <= seeds.len(),
        n <= draws.len(),
        g.index_exact(nts),
        forall|i: int| 0 <= i < seeds.len() ==> nts.contains(#[trigger] seeds[i].c),
    ensures
        start_upto(g, seeds, draws, n).grid.wf(),
        start_upto(g, seeds, draws, n).grid.rows == g.rows,
        start_upto(g, seeds, draws, n).grid.cols == g.cols,
        start_upto(g, seeds, draws, n).grid.index_exact(nts),
    decreases n,
{
    if n > 0 {
        lemma_start_index_exact(g, seeds, draws, n - 1, nts);
        let pg = start_upto(g, seeds, draws, n - 1).grid;
        let sd = seeds[n - 1];
        let row = seed_row(g.rows, sd.ul, draws[n - 1].1);
        let col = seed_col(g.cols, sd.lr, draws[n - 1].0);
        lemma_seed_in_grid(g.rows, g.cols, sd, draws[n - 1].0, draws[n - 1].1);
        let h = start_upto(g, seeds, draws, n).grid;
        assert(nts.contains(sd.c));
        assert forall|i: int| 0 <= i < h.rows implies #[trigger] h.current[i].len() == h.cols by {
            if i != row {
                assert(h.current[i] == pg.current[i]);
            }
        }
        assert forall|i: int| 0 <= i < h.rows implies #[trigger] h.memory[i].len() == h.cols by {
            assert(h.memory[i] == pg.memory[i]);
        }
        assert forall|i: int| 0 <= i < h.rows implies #[trigger] h.active[i].len() == h.cols by {
            if i != row {
                assert(h.active[i] == pg.active[i]);
            }
        }
        assert forall|i: int, j: int| #![trigger h.active[i][j]] h.in_grid(i, j) implies h.active[i][j] == (
        if nts.contains(h.current[i][j].c) {
            Some(h.current[i][j].c)
        } else {
            None
        }) by {
            if i != row || j != col {
                assert(h.active[i][j] == pg.active[i][j]);
                assert(h.current[i][j] == pg.current[i][j]);
            }
        }
    }
}

/// A seed lands in the grid; outside the classes `L`, `C` and `X` it lands below the top
/// row.
pub proof fn lemma_seed_in_grid(rows: int, cols: int, sd: Start, dc: u64, dr: u64)
    requires
        rows >= 2,
        cols >= 1,
    ensures
        0 <= seed_row(rows, sd.ul, dr) < rows,
        0 <= seed_col(cols, sd.lr, dc) < cols,
        sd.ul != 'L' && sd.ul != 'C' && sd.ul != 'X' ==> seed_row(rows, sd.ul, dr) >= 1,
{
}

proof fn lemma_no_key_cands_rules(g: GridView, rules: Seq<RuleView>, key: char, r: int, c: int, ch: char, k: int)
    requires
        k <= rules.len(),
        forall|i: int| 0 <= i < rules.len() ==> !key_ok(#[trigger] rules[i], key),
    ensures
        cands_rules(g, rules, key, r, c, ch, k) == Seq::<(usize, usize, usize)>::empty(),
    decreases k,
{
    if k > 0 {
        lemma_no_key_cands_rules(g, rules, key, r, c, ch, k - 1);
        assert(!key_ok(rules[k - 1], key));
    }
}

proof fn lemma_no_key_cands_row(g: GridView, rules: Seq<RuleView>, key: char, r: int, c: int)
    requires
        forall|i: int| 0 <= i < rules.len() ==> !key_ok(#[trigger] rules[i], key),
    ensures
        cands_row(g, rules, key, r, c) == Seq::<(usize, usize, usize)>::empty(),
    decreases c,
{
    if c > 0 {
        lemma_no_key_cands_row(g, rules, key, r, c - 1);
        match g.active[r][c - 1] {
            Some(ch) => lemma_no_key_cands_rules(g, rules, key, r, c - 1, ch, rules.len() as int),
            None => {},
        }
        assert(cands_row(g, rules, key, r, c) =~= Seq::<(usize, usize, usize)>::empty());
    }
}

proof fn lemma_no_key_cands_rows(g: GridView, rules: Seq<RuleView>, key: char, r: int)
    requires
        forall|i: int| 0 <= i < rules.len() ==> !key_ok(#[trigger] rules[i], key),
    ensures
        cands_rows(g, rules, key, r) == Seq::<(usize, usize, usize)>::empty(),
    decreases r,
{
    if r > 0 {
        lemma_no_key_cands_rows(g, rules, key, r - 1);
        lemma_no_key_cands_row(g, rules, key, r - 1, g.cols);
        assert(cands_rows(g, rules, key, r) =~= Seq::<(usize, usize, usize)>::empty());
    }
}

/// A step under a key that no rule declares, and no rule leaves open with `?`, changes
/// nothing and reports nothing.
pub proof fn lemma_unknown_key_noop(gr: GrammarView, g: GridView, key: char, draw: u64)
    requires
        forall|i: int| 0 <= i < gr.rules.len() ==> !key_ok(#[trigger] gr.rules[i], key),
    ensures
        step_spec(gr, g, key, draw) == (g, noop_result()),
{
    lemma_no_key_cands_rows(g, gr.rules, key, g.rows);
    let ws = weights_of(gr.rules, candidates(g, gr.rules, key));
    assert(ws =~= Seq::<i32>::empty());
    assert(total(ws) == 0);
}

/// The same grammar, grid, key and random number give the same grid and result.
pub proof fn lemma_step_deterministic(gr: GrammarView, g1: GridView, g2: GridView, key: char, draw: u64)
    requires
        g1 == g2,
    ensures
        step_spec(gr, g1, key, draw) == step_spec(gr, g2, key, draw),
{
}

/// Loading the same lines into equal grammars gives equal rules, in the same order, and
/// the same seeds in the same order.
pub proof fn lemma_load_deterministic(g1: GrammarView, g2: GrammarView, lines: Seq<Seq<char>>)
    requires
        g1 == g2,
    ensures
        load_spec(g1, lines).rules == load_spec(g2, lines).rules,
        load_spec(g1, lines).seeds == load_spec(g2, lines).seeds,
{
}

/// A rule whose template is the three anchors `@@@`, that rewrites its nonterminal into
/// itself: the match is the first anchor, the rewrite writes the replacement at the third.
pub open spec fn identity_rule(rule: RuleView) -> bool {
    &&& rule.rhs_all == seq!['@', '@', '@']
    &&& rule.ro == 0 && rule.co == 0
    &&& rule.rm == 0 && rule.cm == 1
    &&& rule.rq == 0 && rule.cq == 2
    &&& rule.rep == rule.lhs
    &&& rule.lhs != '&' && rule.lhs != '~' && rule.lhs != '$' && rule.lhs != ' ' && rule.lhs
        != EMPTY_GLYPH
}

/// Applied with its third anchor on a cell that holds its nonterminal, an identity rule
/// changes no visible glyph and emits at most one event.
pub proof fn lemma_identity_rewrite(g: GridView, nts: Set<char>, rule: RuleView, r: int, c: int)
    requires
        g.wf(),
        identity_rule(rule),
        g.in_grid(r, c),
        g.current[r][c].c == rule.lhs,
    ensures
        apply_spec(g, nts, rule, r, c - 2).grid.wf(),
        forall|i: int, j: int|
            #![trigger apply_spec(g, nts, rule, r, c - 2).grid.current[i][j]]
            g.in_grid(i, j) ==> apply_spec(g, nts, rule, r, c - 2).grid.current[i][j].c
                == g.current[i][j].c,
        apply_spec(g, nts, rule, r, c - 2).events.len() <= 1,
{
    let s = rule.rhs_all;
    let f0 = Frame { grid: g, events: Seq::empty() };
    assert(s[0] == '@' && s[1] == '@' && s[2] == '@');
    assert(pos_of(s, 0) == (0int, 0int));
    assert(pos_of(s, 1) == (0int, 1int));
    assert(pos_of(s, 2) == (0int, 2int));
    assert(!rewritten(rule, 0));
    assert(!rewritten(rule, 1));
    assert(apply_upto(f0, nts, rule, r, c - 2, 0) == f0);
    assert(apply_upto(f0, nts, rule, r, c - 2, 1) == f0);
    assert(apply_upto(f0, nts, rule, r, c - 2, 2) == f0);
    let f = apply_upto(f0, nts, rule, r, c - 2, 3);
    lemma_apply_upto(f0, nts, rule, r, c - 2, 3);
    let rep1 = crate::derivation::out_char(rule, s[2]);
    assert(rep1 == rule.lhs);
    if commits(g, rule, r, c, rep1) {
        let d = written_cell(g, rule, r, c, rep1);
        assert(d.c == rule.lhs);
        assert forall|i: int, j: int| #![trigger f.grid.current[i][j]] g.in_grid(i, j) implies f.grid.current[i][j].c
            == g.current[i][j].c by {
            if i == r && j == c {
                assert(f.grid.current[i][j] == d);
            } else {
                assert(f.grid.current[i][j] == g.current[i][j]);
            }
        }
    }
}

} // verus!
