use vstd::prelude::*;

use crate::text::char_string;

verus! {

/// Palette index of black.
pub const BLACK: u8 = 0;

/// Palette index of white.
pub const WHITE: u8 = 7;

/// A text to draw at a cell of the display, with foreground and background palette
/// indices (0 black, 1 red, 2 green, 3 yellow, 4 blue, 5 magenta, 6 cyan, 7 white).
#[derive(Clone, Debug, PartialEq)]
pub struct TerminalEvent {
    pub row: usize,
    pub col: usize,
    pub s: String,
    pub fore: u8,
    pub back: u8,
}

pub struct EventView {
    pub row: usize,
    pub col: usize,
    pub s: Seq<char>,
    pub fore: u8,
    pub back: u8,
}

impl View for TerminalEvent {
    type V = EventView;

    open spec fn view(&self) -> EventView {
        EventView { row: self.row, col: self.col, s: self.s@, fore: self.fore, back: self.back }
    }
}

pub open spec fn events_view(es: Seq<TerminalEvent>) -> Seq<EventView> {
    es.map_values(|e: TerminalEvent| e@)
}

impl TerminalEvent {
    /// A blank at the top-left cell in the given colours.
    pub fn attron(fore: u8, back: u8) -> (r: TerminalEvent)
        ensures
            r@ == (EventView { row: 0, col: 0, s: seq![' '], fore, back }),
    {
        TerminalEvent { row: 0, col: 0, s: char_string(' '), fore, back }
    }

    /// One character at a cell, white on black.
    pub fn mvaddch(row: usize, col: usize, c: char) -> (r: TerminalEvent)
        ensures
            r@ == (EventView { row, col, s: seq![c], fore: WHITE, back: BLACK }),
    {
        TerminalEvent { row, col, s: char_string(c), fore: WHITE, back: BLACK }
    }

    /// The signal to reset the display: a blank at row and column `usize::MAX`.
    pub fn clear() -> (r: TerminalEvent)
        ensures
            r@ == (EventView {
                row: usize::MAX,
                col: usize::MAX,
                s: seq![' '],
                fore: WHITE,
                back: BLACK,
            }),
    {
        TerminalEvent {
            row: usize::MAX,
            col: usize::MAX,
            s: char_string(' '),
            fore: WHITE,
            back: BLACK,
        }
    }

    /// Whether this is the signal to reset the display.
    pub fn is_clear(&self) -> (r: bool)
        ensures
            r == (self.row == usize::MAX && self.col == usize::MAX),
    {
        self.row == usize::MAX && self.col == usize::MAX
    }
}

} // verus!
