use grammar2d::derivation::{Derivation, DerivationResult};
use grammar2d::grammar::Grammar2D;
use grammar2d::terminal::{TerminalEvent, BLACK, WHITE};

#[test]
fn clear_event_is_the_reset_sentinel() {
    let e = TerminalEvent::clear();
    assert_eq!(e.row, usize::MAX);
    assert_eq!(e.col, usize::MAX);
    assert_eq!(e.s, " ");
    assert!(e.is_clear());
    assert!(!TerminalEvent::mvaddch(0, 0, 'x').is_clear());
}

#[test]
fn mvaddch_and_attron_events() {
    let e = TerminalEvent::mvaddch(3, 4, 'q');
    assert_eq!((e.row, e.col, e.s.as_str(), e.fore, e.back), (3, 4, "q", WHITE, BLACK));
    let a = TerminalEvent::attron(2, 5);
    assert_eq!((a.row, a.col, a.s.as_str(), a.fore, a.back), (0, 0, " ", 2, 5));
}

#[test]
fn default_result_is_noop() {
    let r = DerivationResult::default();
    assert!(r.terminal_events.is_empty());
    assert_eq!(r.score_delta, 0);
    assert_eq!(r.errors_delta, 0);
    assert_eq!(r.dbg_rule, "");
    assert_eq!(r.sound_alias, ' ');
    assert_eq!(r.program_switch(), None);
}

#[test]
fn new_grid_is_blank() {
    let d = Derivation::new(Grammar2D::default(), 3, 5);
    assert_eq!((d.rows(), d.cols()), (3, 5));
    for r in 0..3 {
        for c in 0..5 {
            let cell = d.current_cell(r, c).unwrap();
            assert_eq!((cell.c, cell.fore, cell.back, cell.z_ord), (' ', 7, 0, b'a'));
            assert_eq!(d.memory_cell(r, c).unwrap(), cell);
            assert_eq!(d.active_at(r, c), None);
        }
    }
    assert_eq!(d.current_cell(3, 0), None);
    assert_eq!(d.memory_cell(0, 5), None);
}
