//! Movement input handling: the delayed auto-shift (DAS) timer that turns
//! raw per-tick key state into a debounced, auto-repeating directional
//! command, and the per-tick movement and rotation steps for the active
//! pair.
//!
//! DAS pattern: the first press moves instantly; holding the key does
//! nothing until `start_delay` has elapsed, after which one command is
//! emitted every `repeat_delay`.

use vstd::prelude::*;
use crate::board::Board;
use crate::board::spec_move_left_pair;
use crate::board::spec_move_right_pair;
use crate::fall::Fall;
use crate::fall::FallState;
use crate::fall::MAX_TICK_MS;
use crate::grid::GridPosition;
use crate::piece::Pair;
use crate::piece::second_col_delta;
use crate::piece::second_row_delta;
use crate::piece::turned_clockwise;

verus! {

/// Largest configurable DAS delay, in milliseconds.
pub const MAX_DELAY_MS: i64 = 86_400_000;

/// A lateral movement direction.
#[derive(Clone, Copy, Debug, PartialEq, Eq, Structural)]
pub enum Direction {
    Left,
    Right,
}

/// The delayed auto-shift timer: which directional key is latched, the
/// time since it was first pressed, and the time since the last accepted
/// repeat, against the two configured thresholds.
#[derive(Clone, Copy, Debug, PartialEq, Eq, Structural)]
pub struct DASTimer {
    pub start_timer: i64,
    pub repeat_timer: i64,
    pub repeat_delay: i64,
    pub start_delay: i64,
    pub key_pressed: Option<Direction>,
}

impl DASTimer {
    /// Delays within configuration limits, accumulators in their working
    /// ranges.
    pub open spec fn wf(self) -> bool {
        &&& 0 <= self.start_delay <= MAX_DELAY_MS
        &&& 0 <= self.repeat_delay <= MAX_DELAY_MS
        &&& 0 <= self.start_timer <= self.start_delay + MAX_TICK_MS
        &&& 0 <= self.repeat_timer <= self.repeat_delay + MAX_TICK_MS
    }

    /// A fresh timer: nothing latched, both accumulators at zero.
    pub fn new(repeat_delay: i64, start_delay: i64) -> (t: DASTimer)
        requires
            0 <= repeat_delay <= MAX_DELAY_MS,
            0 <= start_delay <= MAX_DELAY_MS,
        ensures
            t.repeat_delay == repeat_delay,
            t.start_delay == start_delay,
            t.start_timer == 0,
            t.repeat_timer == 0,
            t.key_pressed is None,
            t.wf(),
    {
        DASTimer {
            repeat_delay,
            start_delay,
            start_timer: 0,
            repeat_timer: 0,
            key_pressed: None,
        }
    }

    /// Drop the latch and zero both accumulators.
    fn reset(&mut self)
        ensures
            final(self).start_timer == 0,
            final(self).repeat_timer == 0,
            final(self).key_pressed is None,
            final(self).start_delay == old(self).start_delay,
            final(self).repeat_delay == old(self).repeat_delay,
    {
        self.start_timer = 0;
        self.repeat_timer = 0;
        self.key_pressed = None;
    }

    /// Feed one tick of raw key state into the timer; the result is the
    /// directional command to apply this tick, if any. The timer's next
    /// state is exactly `das_next` and the command exactly `das_command`.
    pub fn update(&mut self, new_key: Option<Direction>, delta_ms: i64) -> (cmd: Option<
        Direction,
    >)
        requires
            old(self).wf(),
            0 <= delta_ms <= MAX_TICK_MS,
        ensures
            *final(self) == das_next(*old(self), new_key, delta_ms),
            cmd == das_command(*old(self), new_key, delta_ms),
            final(self).wf(),
            final(self).start_delay == old(self).start_delay,
            final(self).repeat_delay == old(self).repeat_delay,
    {
        match (self.key_pressed, new_key) {
            (None, None) => None,
            (Some(_), None) => {
                self.reset();
                None
            },
            (Some(key1), Some(key2)) => {
                if key1 == key2 {
                    if self.can_repeat(delta_ms) {
                        Some(key1)
                    } else {
                        None
                    }
                } else {
                    self.start_timer = 0;
                    self.repeat_timer = 0;
                    self.key_pressed = Some(key2);
                    Some(key2)
                }
            },
            (None, Some(key)) => {
                self.key_pressed = Some(key);
                Some(key)
            },
        }
    }

    /// Advance the hold-time accumulators for a continuously held key and
    /// say whether a repeat command falls due this tick.
    fn can_repeat(&mut self, delta_ms: i64) -> (repeat: bool)
        requires
            old(self).wf(),
            0 <= delta_ms <= MAX_TICK_MS,
        ensures
            final(self).key_pressed == old(self).key_pressed,
            final(self).start_delay == old(self).start_delay,
            final(self).repeat_delay == old(self).repeat_delay,
            final(self).wf(),
            ({
                if old(self).start_timer > old(self).start_delay {
                    if old(self).repeat_timer + delta_ms > old(self).repeat_delay {
                        &&& repeat
                        &&& final(self).repeat_timer == 0
                        &&& final(self).start_timer == old(self).start_timer
                    } else {
                        &&& !repeat
                        &&& final(self).repeat_timer == old(self).repeat_timer + delta_ms
                        &&& final(self).start_timer == old(self).start_timer
                    }
                } else {
                    &&& !repeat
                    &&& final(self).start_timer == old(self).start_timer + delta_ms
                    &&& final(self).repeat_timer == old(self).repeat_timer
                }
            }),
    {
        if self.start_timer > self.start_delay {
            self.repeat_timer = self.repeat_timer + delta_ms;
            if self.repeat_timer > self.repeat_delay {
                self.repeat_timer = 0;
                true
            } else {
                false
            }
        } else {
            self.start_timer = self.start_timer + delta_ms;
            false
        }
    }
}

/// The command the DAS timer emits for one tick of raw key state.
///
/// No key latched and none pressed: nothing. A key released: nothing (the
/// timer resets). The latched key still held: a repeat only once the hold
/// has outlasted `start_delay` and the time since the last repeat exceeds
/// `repeat_delay`. A different key than the latched one, or a first press:
/// one instant command.
pub open spec fn das_command(t: DASTimer, new_key: Option<Direction>, dt: i64) -> Option<
    Direction,
> {
    match (t.key_pressed, new_key) {
        (None, None) => None,
        (Some(_), None) => None,
        (Some(key1), Some(key2)) => {
            if key1 == key2 {
                if t.start_timer > t.start_delay && t.repeat_timer + dt > t.repeat_delay {
                    Some(key1)
                } else {
                    None
                }
            } else {
                Some(key2)
            }
        },
        (None, Some(key)) => Some(key),
    }
}

/// The DAS timer's state after one tick of raw key state.
///
/// Release clears the latch and both accumulators. Holding the latched key
/// accumulates into `start_timer` until it exceeds `start_delay`, then into
/// `repeat_timer`, which zeroes again on each emitted repeat; `start_timer`
/// is kept. Latching a new key zeroes both accumulators: nothing carries
/// over from the previous key.
pub open spec fn das_next(t: DASTimer, new_key: Option<Direction>, dt: i64) -> DASTimer {
    match (t.key_pressed, new_key) {
        (None, None) => t,
        (Some(_), None) => DASTimer { start_timer: 0, repeat_timer: 0, key_pressed: None, ..t },
        (Some(key1), Some(key2)) => {
            if key1 == key2 {
                if t.start_timer > t.start_delay {
                    if t.repeat_timer + dt > t.repeat_delay {
                        DASTimer { repeat_timer: 0, ..t }
                    } else {
                        DASTimer { repeat_timer: (t.repeat_timer + dt) as i64, ..t }
                    }
                } else {
                    DASTimer { start_timer: (t.start_timer + dt) as i64, ..t }
                }
            } else {
                DASTimer {
                    start_timer: 0,
                    repeat_timer: 0,
                    key_pressed: Some(key2),
                    ..t
                }
            }
        },
        (None, Some(key)) => DASTimer { key_pressed: Some(key), ..t },
    }
}

/// The raw key state the simulation consumes in one tick.
#[derive(Clone, Copy, Debug, PartialEq, Eq, Structural)]
pub struct InputState {
    pub left: bool,
    pub right: bool,
    pub down: bool,
    pub rotate_released: bool,
}

impl InputState {
    /// The directional key this tick feeds into the DAS timer; a
    /// simultaneous left and right resolves to right.
    pub open spec fn spec_direction(self) -> Option<Direction> {
        if self.right {
            Some(Direction::Right)
        } else if self.left {
            Some(Direction::Left)
        } else {
            None
        }
    }
}

/// The fall state after the soft-drop input is taken into account:
/// `Normal` becomes `Fast` while the key is held, `Fast` drops back to
/// `Normal` on release, `Stopped` stays.
pub open spec fn spec_soft_drop(state: FallState, down: bool) -> FallState {
    match (state, down) {
        (FallState::Normal, true) => FallState::Fast,
        (FallState::Fast, false) => FallState::Normal,
        _ => state,
    }
}

/// One tick of lateral movement and soft drop for the active pair: the raw
/// key state runs through the DAS timer, the resulting command (if any)
/// shifts the pair against the board's occupancy, and the soft-drop key
/// switches the fall state.
pub fn move_pair_step(
    board: &Board,
    pair: Pair,
    timer: &mut DASTimer,
    fall: &mut Fall,
    world: &mut (i64, i64),
    position: &mut GridPosition,
    input: InputState,
    delta_ms: i64,
)
    requires
        board.wf(),
        old(timer).wf(),
        0 <= delta_ms <= MAX_TICK_MS,
        i64::MIN < old(position).row < i64::MAX,
        i64::MIN + 1 < old(position).col < i64::MAX - 1,
        i64::MIN + crate::board::MAX_CELL_SIZE <= old(world).0
            <= i64::MAX - crate::board::MAX_CELL_SIZE,
    ensures
        *final(timer) == das_next(*old(timer), input.spec_direction(), delta_ms),
        final(timer).wf(),
        ({
            let cmd = das_command(*old(timer), input.spec_direction(), delta_ms);
            match cmd {
                Some(Direction::Right) => (*final(world), *final(position))
                    == spec_move_right_pair(*board, pair, *old(world), *old(position)),
                Some(Direction::Left) => (*final(world), *final(position))
                    == spec_move_left_pair(*board, pair, *old(world), *old(position)),
                None => *final(world) == *old(world) && *final(position) == *old(position),
            }
        }),
        final(fall).velocity == old(fall).velocity,
        final(fall).state == spec_soft_drop(old(fall).state, input.down),
{
    let key_timer = if input.right {
        timer.update(Some(Direction::Right), delta_ms)
    } else if input.left {
        timer.update(Some(Direction::Left), delta_ms)
    } else {
        timer.update(None, delta_ms)
    };

    match key_timer {
        Some(Direction::Right) => {
            board.move_right_pair(pair, world, position);
        },
        Some(Direction::Left) => {
            board.move_left_pair(pair, world, position);
        },
        None => (),
    }

    match (fall.state, input.down) {
        (FallState::Normal, true) => {
            fall.state = FallState::Fast;
        },
        (FallState::Fast, false) => {
            fall.state = FallState::Normal;
        },
        _ => (),
    }
}

/// One tick of rotation for the active pair, applied on the rotate key's
/// release edge: the pair turns clockwise exactly when the cell its second
/// piece would occupy under the new orientation is empty; otherwise the
/// request is silently dropped and the orientation is left unchanged. The
/// pair's reference position is never touched by rotation.
pub fn rotate_pair_step(
    board: &Board,
    pair: &mut Pair,
    position: GridPosition,
    rotate_released: bool,
)
    requires
        board.wf(),
        i64::MIN < position.row < i64::MAX,
        i64::MIN < position.col < i64::MAX,
    ensures
        ({
            let turned = turned_clockwise(old(pair).orientation);
            if rotate_released && board.spec_empty(
                position.row + second_row_delta(turned),
                position.col + second_col_delta(turned),
            ) {
                final(pair).orientation == turned
            } else {
                *final(pair) == *old(pair)
            }
        }),
{
    if rotate_released && board.can_turn_clockwise(*pair, position) {
        *pair = pair.turn_clockwise();
    }
}

} // verus!
