//! Playback state for the simulation loop: running/paused/stopped status and
//! the inter-generation delay, adjusted by keyboard events. The loop itself
//! lives with the caller, which merges keyboard events and timer expiries
//! into one stream and hands each to [`Playback`] in arrival order.

use crate::board::advance_grid;
use crate::board::row_chars;
use crate::board::step;
use crate::board::Board;
use crate::board::Rules;
use vstd::arithmetic::div_mod::lemma_div_is_ordered;
use vstd::arithmetic::div_mod::lemma_div_multiples_vanish;
use vstd::arithmetic::div_mod::lemma_hoist_over_denominator;
use vstd::prelude::*;

verus! {

/// A decoded key, as the terminal collaborator hands it over.
#[derive(Clone, Copy, PartialEq, Eq, Structural, Debug)]
pub enum KeyInput {
    Escape,
    Left,
    Right,
    Character(char),
    Other,
}

/// The loop's state: ticking, paused (ticks are no-ops), or finished.
#[derive(Clone, Copy, PartialEq, Eq, Structural, Debug)]
pub enum Status {
    Running,
    Paused,
    Stopped,
}

/// Playback bookkeeping, distinct from the simulated grid: the status flag
/// and the delay in milliseconds between two generations.
#[derive(Clone, Copy, PartialEq, Eq, Structural, Debug)]
pub struct Playback {
    pub status: Status,
    pub delay_ms: u64,
}

/// The delay never reaches zero.
pub open spec fn playback_wf(p: Playback) -> bool {
    p.delay_ms >= 1
}

/// A speed-down key multiplies the delay by 5/4 (slower), saturating only
/// where the product would not fit.
pub open spec fn slower_delay(d: u64) -> u64 {
    if d <= u64::MAX / 5 {
        ((5 * d) / 4) as u64
    } else {
        d
    }
}

/// A speed-up key multiplies the delay by 3/4 (faster), never dropping
/// below one millisecond.
pub open spec fn faster_delay(d: u64) -> u64 {
    if (3 * d) / 4 >= 1 {
        ((3 * d) / 4) as u64
    } else {
        1
    }
}

pub open spec fn toggled(s: Status) -> Status {
    match s {
        Status::Running => Status::Paused,
        Status::Paused => Status::Running,
        Status::Stopped => Status::Stopped,
    }
}

/// How one key changes the playback state: Escape and 'q' stop, Left slows,
/// Right speeds up, the space bar toggles pause, anything else is ignored.
pub open spec fn key_update(p: Playback, key: KeyInput) -> Playback {
    match key {
        KeyInput::Escape => Playback { status: Status::Stopped, ..p },
        KeyInput::Left => Playback { delay_ms: slower_delay(p.delay_ms), ..p },
        KeyInput::Right => Playback { delay_ms: faster_delay(p.delay_ms), ..p },
        KeyInput::Character(ch) => if ch == 'q' {
            Playback { status: Status::Stopped, ..p }
        } else if ch == ' ' {
            Playback { status: toggled(p.status), ..p }
        } else {
            p
        },
        KeyInput::Other => p,
    }
}

/// What the grid is after one timer expiry: advanced once when running,
/// untouched otherwise.
pub open spec fn tick_grid(
    p: Playback,
    rules: Rules,
    g: Seq<Seq<bool>>,
    maxw: Option<usize>,
    maxh: Option<usize>,
) -> Seq<Seq<bool>> {
    if p.status == Status::Running {
        advance_grid(rules, g, maxw, maxh)
    } else {
        g
    }
}

/// What the status is after one timer expiry: a running loop stops when the
/// advance finds a fixed point; nothing else changes.
pub open spec fn tick_status(p: Playback, rules: Rules, g: Seq<Seq<bool>>) -> Status {
    if p.status == Status::Running && step(rules, g) == g {
        Status::Stopped
    } else {
        p.status
    }
}

impl Playback {
    /// The loop starts running, with the caller-supplied delay.
    pub fn new(delay_ms: u64) -> (r: Playback)
        requires
            delay_ms >= 1,
        ensures
            playback_wf(r),
            r.status == Status::Running,
            r.delay_ms == delay_ms,
    {
        Playback { status: Status::Running, delay_ms }
    }

    pub fn is_stopped(&self) -> (r: bool)
        ensures
            r == (self.status == Status::Stopped),
    {
        match self.status {
            Status::Stopped => true,
            _ => false,
        }
    }

    pub fn is_running(&self) -> (r: bool)
        ensures
            r == (self.status == Status::Running),
    {
        match self.status {
            Status::Running => true,
            _ => false,
        }
    }

    pub fn current_delay(&self) -> (r: u64)
        ensures
            r == self.delay_ms,
    {
        self.delay_ms
    }

    /// Applies one keyboard event; only the playback state changes, never
    /// the grid.
    pub fn on_key(&mut self, key: KeyInput)
        requires
            playback_wf(*old(self)),
        ensures
            playback_wf(*final(self)),
            *final(self) == key_update(*old(self), key),
    {
        match key {
            KeyInput::Escape => {
                self.status = Status::Stopped;
            },
            KeyInput::Left => {
                self.delay_ms = slower(self.delay_ms);
            },
            KeyInput::Right => {
                self.delay_ms = faster(self.delay_ms);
            },
            KeyInput::Character(ch) => {
                if ch == 'q' {
                    self.status = Status::Stopped;
                } else if ch == ' ' {
                    self.status = match self.status {
                        Status::Running => Status::Paused,
                        Status::Paused => Status::Running,
                        Status::Stopped => Status::Stopped,
                    };
                }
            },
            KeyInput::Other => {},
        }
        proof {
            lemma_speed_keys(*old(self));
        }
    }

    /// One timer expiry. When running, the current grid is rendered, the
    /// board advances one generation, and a fixed point stops the loop; when
    /// paused or stopped the expiry is a no-op and nothing is rendered.
    /// Delay changes never take effect here, only on the caller's next
    /// rescheduling.
    pub fn tick(&mut self, board: &mut Board) -> (rendered: Option<Vec<String>>)
        requires
            playback_wf(*old(self)),
            old(board).wf(),
        ensures
            playback_wf(*final(self)),
            final(board).wf(),
            final(self).delay_ms == old(self).delay_ms,
            final(self).status == tick_status(
                *old(self),
                old(board).rule_set(),
                old(board).grid(),
            ),
            final(board).rule_set() == old(board).rule_set(),
            final(board).width_bound() == old(board).width_bound(),
            final(board).height_bound() == old(board).height_bound(),
            final(board).grid() == tick_grid(
                *old(self),
                old(board).rule_set(),
                old(board).grid(),
                old(board).width_bound(),
                old(board).height_bound(),
            ),
            old(self).status != Status::Running ==> *final(board) == *old(board) && *final(self)
                == *old(self) && rendered is None,
            old(self).status == Status::Running ==> (rendered matches Some(lines)
                && lines@.len() == old(board).grid().len() && (forall|i: int|
                0 <= i < lines@.len() ==> (#[trigger] lines@[i])@ == row_chars(
                    old(board).grid()[i],
                ))),
    {
        match self.status {
            Status::Running => {
                let lines = board.lines();
                let changed = board.next();
                if !changed {
                    self.status = Status::Stopped;
                }
                Some(lines)
            },
            _ => None,
        }
    }
}

/// Exec computation of the 5/4 slow-down.
fn slower(d: u64) -> (r: u64)
    ensures
        r == slower_delay(d),
{
    if d <= u64::MAX / 5 {
        (d * 5) / 4
    } else {
        d
    }
}

/// Exec computation of the 3/4 speed-up, clamped to stay at least one.
fn faster(d: u64) -> (r: u64)
    ensures
        r == faster_delay(d),
{
    let v = (d / 4) * 3 + ((d % 4) * 3) / 4;
    proof {
        lemma_hoist_over_denominator(3 * (d as int % 4), 3 * (d as int / 4), 4);
        assert(3 * (d as int % 4) + (3 * (d as int / 4)) * 4 == 3 * d) by {
            assert(d as int % 4 + 4 * (d as int / 4) == d);
        }
        assert(v == (3 * d) / 4);
    }
    if v >= 1 {
        v
    } else {
        1
    }
}

/// Law: the speed keys always move the delay in the expected direction —
/// down-key never below the current delay, up-key never above it — and the
/// delay never becomes zero. Away from saturation and from the
/// one-millisecond floor (a delay of at least 4 ms that stays within range
/// when slowed) both moves are strict.
pub proof fn lemma_speed_keys(p: Playback)
    requires
        playback_wf(p),
    ensures
        key_update(p, KeyInput::Left).delay_ms >= p.delay_ms,
        key_update(p, KeyInput::Right).delay_ms <= p.delay_ms,
        key_update(p, KeyInput::Left).delay_ms >= 1,
        key_update(p, KeyInput::Right).delay_ms >= 1,
        key_update(p, KeyInput::Left).status == p.status,
        key_update(p, KeyInput::Right).status == p.status,
        4 <= p.delay_ms <= u64::MAX / 5 ==> key_update(p, KeyInput::Left).delay_ms > p.delay_ms,
        4 <= p.delay_ms ==> key_update(p, KeyInput::Right).delay_ms < p.delay_ms,
{
    let d = p.delay_ms as int;
    lemma_div_multiples_vanish(d, 4);
    lemma_div_is_ordered(4 * d, 5 * d, 4);
    lemma_div_is_ordered(3 * d, 4 * d, 4);
    if 4 <= d {
        lemma_div_multiples_vanish(d + 1, 4);
        lemma_div_is_ordered(4 * (d + 1), 5 * d, 4);
        lemma_div_multiples_vanish(d - 1, 4);
        lemma_div_is_ordered(3 * d, 4 * (d - 1), 4);
    }
}

/// Law: while paused, timer expiries leave the grid and the playback state
/// untouched, however many arrive; one pause toggle brings the loop back to
/// running, and the very next expiry advances the grid exactly once.
pub proof fn lemma_pause_suppresses_advance(
    p: Playback,
    rules: Rules,
    g: Seq<Seq<bool>>,
    maxw: Option<usize>,
    maxh: Option<usize>,
)
    requires
        p.status == Status::Paused,
    ensures
        tick_grid(p, rules, g, maxw, maxh) == g,
        tick_status(p, rules, g) == p.status,
        key_update(p, KeyInput::Character(' ')).status == Status::Running,
        tick_grid(key_update(p, KeyInput::Character(' ')), rules, g, maxw, maxh) == advance_grid(
            rules,
            g,
            maxw,
            maxh,
        ),
{
}

} // verus!
