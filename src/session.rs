use vstd::prelude::*;

use crate::text::{chars_of, decimal_text, int_text, push_all, push_spaces, spaces, string_of};

verus! {

/// How many derivation steps one fast tick runs.
pub const NUM_DERIVATIONS_PER_TICK: u8 = 1;

/// Whether the derivation runs on its own or waits.
#[derive(Clone, Copy, Debug, PartialEq, Eq, Hash)]
pub enum AppState {
    Paused,
    Running,
}

impl AppState {
    /// The other state.
    pub fn toggled(self) -> (r: AppState)
        ensures
            r == (match self {
                AppState::Paused => AppState::Running,
                AppState::Running => AppState::Paused,
            }),
    {
        match self {
            AppState::Paused => AppState::Running,
            AppState::Running => AppState::Paused,
        }
    }
}

/// What the driver does with a key that reached it.
#[derive(Clone, Copy, Debug, PartialEq, Eq)]
pub enum KeyAction {
    /// Switch between paused and running, and read no more keys this tick.
    TogglePause,
    /// Run `repeats` derivation steps under the key, counting one unit of time first
    /// where `counts_time` holds.
    Derive { repeats: u8, counts_time: bool },
}

/// The space bar pauses and resumes; the slow tick `B` counts time; the fast tick `T` runs
/// its number of steps; any other key runs one step.
pub fn key_action(c: char) -> (r: KeyAction)
    ensures
        r == (if c == ' ' {
            KeyAction::TogglePause
        } else if c == 'B' {
            KeyAction::Derive { repeats: 1, counts_time: true }
        } else if c == 'T' {
            KeyAction::Derive { repeats: NUM_DERIVATIONS_PER_TICK, counts_time: false }
        } else {
            KeyAction::Derive { repeats: 1, counts_time: false }
        }),
{
    if c == ' ' {
        KeyAction::TogglePause
    } else if c == 'B' {
        KeyAction::Derive { repeats: 1, counts_time: true }
    } else if c == 'T' {
        KeyAction::Derive { repeats: NUM_DERIVATIONS_PER_TICK, counts_time: false }
    } else {
        KeyAction::Derive { repeats: 1, counts_time: false }
    }
}

/// `x` held to the range of `i64`.
pub open spec fn clamp_i64(x: int) -> i64 {
    if x > i64::MAX {
        i64::MAX
    } else if x < i64::MIN {
        i64::MIN
    } else {
        x as i64
    }
}

fn add_clamped(a: i64, b: i64) -> (r: i64)
    ensures
        r == clamp_i64(a + b),
{
    if b > 0 && a > i64::MAX - b {
        i64::MAX
    } else if b < 0 && a < i64::MIN - b {
        i64::MIN
    } else {
        a + b
    }
}

/// The running totals that the status line shows.
#[derive(Clone, Copy, Debug, PartialEq, Eq)]
pub struct RewardAccumulator {
    pub score: i64,
    pub time: i64,
    pub errors: i64,
}

impl RewardAccumulator {
    /// All totals at zero.
    pub fn new() -> (r: RewardAccumulator)
        ensures
            r == (RewardAccumulator { score: 0, time: 0, errors: 0 }),
    {
        RewardAccumulator { score: 0, time: 0, errors: 0 }
    }

    /// Counts one unit of time.
    pub fn count_time(&mut self)
        ensures
            *final(self) == (RewardAccumulator { time: clamp_i64(old(self).time + 1), ..*old(self) }),
    {
        self.time = add_clamped(self.time, 1);
    }

    /// Adds a step's score and errors to the totals.
    pub fn record(&mut self, score_delta: i32, errors_delta: i32)
        ensures
            *final(self) == (RewardAccumulator {
                score: clamp_i64(old(self).score + score_delta),
                errors: clamp_i64(old(self).errors + errors_delta),
                ..*old(self)
            }),
    {
        self.score = add_clamped(self.score, score_delta as i64);
        self.errors = add_clamped(self.errors, errors_delta as i64);
    }

    /// `Score: <score> Time: <time> Errors: <errors>`.
    pub fn message(&self) -> (r: String)
        ensures
            r@ == score_message(*self),
    {
        let mut v: Vec<char> = Vec::new();
        push_all(&mut v, &chars_of("Score: "));
        push_all(&mut v, &chars_of(decimal_text(self.score).as_str()));
        push_all(&mut v, &chars_of(" Time: "));
        push_all(&mut v, &chars_of(decimal_text(self.time).as_str()));
        push_all(&mut v, &chars_of(" Errors: "));
        push_all(&mut v, &chars_of(decimal_text(self.errors).as_str()));
        assert(v@ =~= score_message(*self));
        string_of(&v)
    }
}

pub open spec fn score_message(a: RewardAccumulator) -> Seq<char> {
    "Score: "@ + int_text(a.score as int) + " Time: "@ + int_text(a.time as int) + " Errors: "@
        + int_text(a.errors as int)
}

/// The line shown on the top row while paused: a space, the help text, and spaces up to
/// the last column where the help is shorter than the row.
pub fn help_line(help: &str, cols: usize) -> (r: String)
    ensures
        r@ == seq![' '] + help@ + spaces(
            if cols > help@.len() {
                cols - 1 - help@.len()
            } else {
                0
            },
        ),
{
    let h = chars_of(help);
    let mut v: Vec<char> = Vec::new();
    v.push(' ');
    push_all(&mut v, &h);
    let pad: usize = if cols > h.len() {
        cols - 1 - h.len()
    } else {
        0
    };
    push_spaces(&mut v, pad);
    assert(v@ =~= seq![' '] + help@ + spaces(pad as int));
    string_of(&v)
}

/// The status line shown on the top row after a step: the totals on the left, the rule
/// that fired on the right, spaces between (none where the row is too short), with one
/// space at each end.
pub fn status_line(msg_left: &str, dbg_rule: &str, cols: usize) -> (r: String)
    ensures
        r@ == seq![' '] + msg_left@ + spaces(
            if cols >= 2 + msg_left@.len() + dbg_rule@.len() {
                cols - 2 - msg_left@.len() - dbg_rule@.len()
            } else {
                0
            },
        ) + dbg_rule@ + seq![' '],
{
    let l = chars_of(msg_left);
    let d = chars_of(dbg_rule);
    let mut v: Vec<char> = Vec::new();
    v.push(' ');
    push_all(&mut v, &l);
    let pad: usize = if cols >= 2 && cols - 2 >= l.len() && cols - 2 - l.len() >= d.len() {
        cols - 2 - l.len() - d.len()
    } else {
        0
    };
    push_spaces(&mut v, pad);
    push_all(&mut v, &d);
    v.push(' ');
    assert(v@ =~= seq![' '] + msg_left@ + spaces(pad as int) + dbg_rule@ + seq![' ']);
    string_of(&v)
}

} // verus!
