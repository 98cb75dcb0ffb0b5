use grammar2d::derivation::{place_seed, Derivation, DerivationResult};
use grammar2d::grammar::{Grammar2D, Start};
use rand::{Rng, SeedableRng};

fn grammar(lines: &[&str]) -> Grammar2D {
    let mut g = Grammar2D::default();
    let v: Vec<String> = lines.iter().map(|s| s.to_string()).collect();
    g.load(&v);
    g
}

fn started(lines: &[&str], rows: usize, cols: usize) -> (Derivation, usize) {
    let mut d = Derivation::new(grammar(lines), rows, cols);
    let n = d.start().len();
    (d, n)
}

fn glyph(d: &Derivation, r: usize, c: usize) -> char {
    d.current_cell(r, c).unwrap().c
}

fn is_noop(res: &DerivationResult) -> bool {
    res.terminal_events.is_empty()
        && res.score_delta == 0
        && res.errors_delta == 0
        && res.dbg_rule.is_empty()
        && res.sound_alias == ' '
}

fn snapshot(d: &Derivation) -> Vec<(char, u8, u8, u8, char, u8, Option<char>)> {
    let mut out = Vec::new();
    for r in 0..d.rows() {
        for c in 0..d.cols() {
            let a = d.current_cell(r, c).unwrap();
            let m = d.memory_cell(r, c).unwrap();
            out.push((a.c, a.fore, a.back, a.z_ord, m.c, m.z_ord, d.active_at(r, c)));
        }
    }
    out
}

fn index_is_exact(d: &Derivation) -> bool {
    for r in 0..d.rows() {
        for c in 0..d.cols() {
            let g = glyph(d, r, c);
            let expected = if d.grammar.nonterminals.contains(g) { Some(g) } else { None };
            if d.active_at(r, c) != expected {
                return false;
            }
        }
    }
    true
}

#[test]
fn seed_placement_at_center() {
    let (d, n) = started(&["^Xcc"], 4, 4);
    assert_eq!(glyph(&d, 2, 2), 'X');
    assert_eq!(n, 1);
}

#[test]
fn identity_rewrite_leaves_glyph() {
    let (mut d, _) = started(&["^Acc", "=sATA", "@@@"], 4, 4);
    let res = d.step('T');
    assert!(res.terminal_events.len() <= 1);
    assert_eq!(glyph(&d, 2, 2), 'A');
    assert_eq!(d.active_at(2, 2), Some('A'));
}

#[test]
fn terminal_replacement() {
    let (mut d, _) = started(&["^Acc", "=sATX", "@@@"], 4, 4);
    let res = d.step('T');
    assert_eq!(glyph(&d, 2, 2), 'X');
    assert_eq!(d.active_at(2, 2), None);
    assert_eq!(res.terminal_events.len(), 1);
    let e = &res.terminal_events[0];
    assert_eq!((e.row, e.col, e.s.as_str()), (2, 2, "X"));
    assert_eq!((e.fore, e.back), (7, 0));
    assert_eq!(res.dbg_rule, "sATX");
    assert_eq!(res.sound_alias, 's');
    let m = d.memory_cell(2, 2).unwrap();
    assert_eq!(m.c, 'X');
}

#[test]
fn negated_context_blocks_equal_neighbor() {
    let lines = ["^Acc", "^Azz", "=sATX70A", "!@!@@"];
    let mut d = Derivation::new(grammar(&lines), 4, 4);
    d.start_with(&vec![(0, 0), (1, 1)]);
    assert_eq!(glyph(&d, 2, 1), 'A');
    let before = snapshot(&d);
    for draw in 0..8u64 {
        let res = d.step_with('T', draw);
        assert!(is_noop(&res));
    }
    assert_eq!(snapshot(&d), before);
}

#[test]
fn negated_context_fires_on_other_neighbor() {
    let lines = ["^Acc", "^Bzz", "=sATX70A", "!@!@@"];
    let mut d = Derivation::new(grammar(&lines), 4, 4);
    d.start_with(&vec![(0, 0), (1, 1)]);
    assert_eq!(glyph(&d, 2, 1), 'B');
    let res = d.step_with('T', 0);
    assert_eq!(res.terminal_events.len(), 1);
    assert_eq!(glyph(&d, 2, 2), 'X');
    assert_eq!(d.current_cell(2, 2).unwrap().back, 0);
}

#[test]
fn weighted_selection_over_ten_thousand_steps() {
    let lines = ["^Acc", "=sATX78? a 0 1", "=sATY78? a 0 3", "@@@"];
    let g = grammar(&lines);
    let mut rng = rand::rngs::StdRng::seed_from_u64(7);
    let mut base = Derivation::new(g, 4, 4);
    base.start_with(&vec![(0, 0)]);
    let mut x = 0;
    let mut y = 0;
    for _ in 0..10_000 {
        let mut d = Derivation::new(grammar(&lines), 4, 4);
        d.start_with(&vec![(0, 0)]);
        d.step_with('T', rng.gen::<u64>());
        match glyph(&d, 2, 2) {
            'X' => x += 1,
            'Y' => y += 1,
            other => panic!("unexpected {}", other),
        }
    }
    assert!((2300..=2700).contains(&x), "{} {}", x, y);
    assert!((7300..=7700).contains(&y), "{} {}", x, y);
}

#[test]
fn program_switch_result() {
    let (mut d, _) = started(&["^Acc", "=>ATX78? a 0 1 next.cfg", "@@@"], 4, 4);
    let res = d.step('T');
    assert_eq!(res.sound_alias, '>');
    assert_eq!(res.dbg_rule.split(' ').last(), Some("next.cfg"));
    assert_eq!(res.program_switch(), Some("next.cfg".to_string()));
}

#[test]
fn unknown_key_is_noop() {
    let (mut d, _) = started(&["^Acc", "=sATX", "@@@"], 4, 4);
    let before = snapshot(&d);
    let res = d.step('Q');
    assert!(is_noop(&res));
    assert_eq!(snapshot(&d), before);
}

#[test]
fn wildcard_key_fires_under_any_key() {
    let (mut d, _) = started(&["^Acc", "=sA?X", "@@@"], 4, 4);
    let res = d.step('M');
    assert_eq!(res.terminal_events.len(), 1);
    assert_eq!(glyph(&d, 2, 2), 'X');
}

#[test]
fn same_draw_same_result() {
    let lines = ["^Acc", "^Bul", "=sATX78? a 0 1", "=sATY78? a 0 3", "@@@", "=tBTZ", "@@@"];
    let mut a = Derivation::new(grammar(&lines), 6, 6);
    let mut b = Derivation::new(grammar(&lines), 6, 6);
    a.start_with(&vec![(0, 0), (0, 0)]);
    b.start_with(&vec![(0, 0), (0, 0)]);
    for draw in [5u64, 2, 9, 0] {
        let ra = a.step_with('T', draw);
        let rb = b.step_with('T', draw);
        assert_eq!(ra.terminal_events, rb.terminal_events);
        assert_eq!(ra.dbg_rule, rb.dbg_rule);
        assert_eq!(snapshot(&a), snapshot(&b));
    }
}

#[test]
fn top_row_is_never_written_or_reported() {
    // A vertical rule whose rewrite writes one row above the nonterminal.
    let lines = ["^Auc", "=sATB", "@", "@", "Z", "@"];
    let (mut d, _) = started(&lines, 4, 4);
    assert_eq!(glyph(&d, 1, 2), 'A');
    let top: Vec<char> = (0..4).map(|c| glyph(&d, 0, c)).collect();
    let res = d.step('T');
    assert_eq!(res.terminal_events.len(), 1);
    assert!(res.terminal_events.iter().all(|e| e.row >= 1));
    assert_eq!(glyph(&d, 1, 2), 'B');
    let after: Vec<char> = (0..4).map(|c| glyph(&d, 0, c)).collect();
    assert_eq!(top, after);
}

#[test]
fn index_stays_exact_through_steps() {
    let lines = ["^Acc", "=sATB", "@@@", "=sBTA", "@@@", "=sBTC", "@@@"];
    let (mut d, _) = started(&lines, 4, 4);
    assert!(index_is_exact(&d));
    for draw in 0..20u64 {
        d.step_with('T', draw);
        assert!(index_is_exact(&d));
    }
}

#[test]
fn rewritten_cell_keeps_z_order_above_memory() {
    let lines = ["^Acc", "=sATB78? c", "@@@"];
    let (mut d, _) = started(&lines, 4, 4);
    let res = d.step('T');
    assert_eq!(res.terminal_events.len(), 1);
    let cur = d.current_cell(2, 2).unwrap();
    let mem = d.memory_cell(2, 2).unwrap();
    assert_eq!(cur.z_ord, b'c');
    assert!(cur.z_ord >= mem.z_ord);
}

#[test]
fn lower_z_order_does_not_overwrite() {
    let lines = ["^Acc", "=sATB78? c", "@@@W", "=sBTB78? a", "@@@Q"];
    let (mut d, _) = started(&lines, 4, 4);
    let first = d.step('T');
    assert_eq!(first.terminal_events.len(), 2);
    assert_eq!(glyph(&d, 2, 3), 'W');
    assert_eq!(d.memory_cell(2, 3).unwrap().z_ord, b'c');
    let second = d.step('T');
    assert_eq!(second.terminal_events.len(), 1);
    assert_eq!((second.terminal_events[0].row, second.terminal_events[0].col), (2, 2));
    assert_eq!(glyph(&d, 2, 3), 'W');
    assert_eq!(d.active_at(2, 3), None);
}

#[test]
fn transparent_background_comes_from_memory() {
    let lines = ["^Acc", "=sATB34", "@@@", "=sBTC7", "@@@"];
    let (mut d, _) = started(&lines, 4, 4);
    d.step('T');
    assert_eq!(d.current_cell(2, 2).unwrap().back, 4);
    d.step('T');
    let cell = d.current_cell(2, 2).unwrap();
    assert_eq!((cell.c, cell.fore, cell.back), ('C', 7, 4));
}

#[test]
fn restore_marker_brings_back_memory() {
    let lines = ["^Acc", "=sATB25", "@@@", "=sBT$", "@@@"];
    let (mut d, _) = started(&lines, 4, 4);
    d.step('T');
    let mem = d.memory_cell(2, 2).unwrap();
    let res = d.step('T');
    assert_eq!(res.terminal_events.len(), 1);
    assert_eq!(d.current_cell(2, 2).unwrap(), mem);
}

#[test]
fn seed_rows_and_columns_follow_their_classes() {
    let s = |ul: char, lr: char| Start { ul, lr, c: 'A' };
    assert_eq!(place_seed(10, 8, &s('u', 'l'), 0, 0), (1, 0));
    assert_eq!(place_seed(10, 8, &s('l', 'r'), 0, 0), (9, 7));
    assert_eq!(place_seed(10, 8, &s('c', 'c'), 0, 0), (5, 4));
    assert_eq!(place_seed(10, 8, &s('L', 'R'), 0, 0), (8, 6));
    assert_eq!(place_seed(10, 8, &s('C', 'C'), 0, 0), (4, 4));
    assert_eq!(place_seed(10, 8, &s('X', 'X'), 7, 7), (6, 6));
    assert_eq!(place_seed(10, 8, &s('z', 'z'), 13, 13), (5, 5));
}

#[test]
fn unrecognized_classes_stay_in_range() {
    let s = Start { ul: '?', lr: '!', c: 'A' };
    for d in 0..100u64 {
        let (r, c) = place_seed(7, 5, &s, d, d * 31 + 3);
        assert!((1..7).contains(&r));
        assert!(c < 5);
    }
}
