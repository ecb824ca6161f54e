//! Time management: the soft and hard time limits of a search, from the clock
//! parameters of a `go` command, and the depth and node limits.
use crate::score::MAX_DEPTH;
use crate::types::Side;
use std::time::{Duration, Instant};
use vstd::prelude::*;

verus! {

/// `std::time::Instant`, a reading of the monotonic clock.
#[verifier::external_type_specification]
#[verifier::external_body]
pub struct ExInstant(Instant);

/// `Instant::now`: the current reading of the clock.
#[verifier::external_body]
fn instant_now() -> (r: Instant) {
    Instant::now()
}

/// `Instant::elapsed`: the time passed since `start`.
#[verifier::external_body]
fn instant_elapsed(start: &Instant) -> (r: Duration) {
    start.elapsed()
}

/// `Duration::as_nanos`: a span in whole nanoseconds.
#[verifier::external_body]
fn duration_as_nanos(d: &Duration) -> (r: u128) {
    d.as_nanos()
}

/// Nanoseconds per millisecond.
pub const NANOS_PER_MILLI: u128 = 1_000_000;

/// The limits of a search, as given by a `go` command (times in milliseconds).
#[derive(Clone, Copy, Debug)]
pub struct GoParameters {
    /// Time left on Red's clock.
    pub wtime: Option<u64>,
    /// Time left on Black's clock.
    pub btime: Option<u64>,
    /// Red's increment per move.
    pub winc: Option<u64>,
    /// Black's increment per move.
    pub binc: Option<u64>,
    /// Moves until the next time control (never 0).
    pub movestogo: Option<u32>,
    /// Exact time to spend on the move.
    pub movetime: Option<u64>,
    /// Maximum search depth.
    pub depth: Option<u32>,
    /// Maximum number of nodes.
    pub nodes: Option<u64>,
    /// Search until told to stop.
    pub infinite: bool,
}

impl Default for GoParameters {
    /// No limit at all.
    fn default() -> (r: GoParameters)
        ensures
            r.wtime is None && r.btime is None && r.winc is None && r.binc is None,
            r.movestogo is None && r.movetime is None && r.depth is None && r.nodes is None,
            !r.infinite,
    {
        GoParameters {
            wtime: None,
            btime: None,
            winc: None,
            binc: None,
            movestogo: None,
            movetime: None,
            depth: None,
            nodes: None,
            infinite: false,
        }
    }
}

/// The safety margin kept off a fixed move time: 15 ms, in nanoseconds.
pub const TIME_OVERHEAD: u128 = 15_000_000;

/// The share of the remaining time allowed at most: one eighth.
pub const HARD_BOUND: u128 = 8;

/// The share of the remaining time aimed at: one fortieth.
pub const SOFT_BOUND: u128 = 40;

/// `a - b`, or 0 when `b` exceeds `a`.
pub open spec fn sat_sub(a: int, b: int) -> int {
    if a >= b {
        a - b
    } else {
        0
    }
}

/// The soft and hard time limits, in nanoseconds, for side `side` under `limits`:
/// none for an infinite search; a fixed move time less the overhead, and the move
/// time; the time left divided among the moves to go plus the increment, less the
/// overhead, and that time; otherwise a fortieth and an eighth of the time left
/// plus the increment. Without a clock there is no limit.
pub open spec fn time_limits(limits: GoParameters, side: Side) -> (Option<int>, Option<int>) {
    let time_left = if side == Side::Red {
        limits.wtime
    } else {
        limits.btime
    };
    let inc = if side == Side::Red {
        limits.winc
    } else {
        limits.binc
    };
    let inc_ns = match inc {
        Some(i) => i * NANOS_PER_MILLI,
        None => 0,
    };
    if limits.infinite {
        (None, None)
    } else if limits.movetime is Some {
        let mt = limits.movetime->0 * NANOS_PER_MILLI;
        (Some(sat_sub(mt, TIME_OVERHEAD as int)), Some(mt))
    } else if time_left is Some {
        let t = time_left->0 * NANOS_PER_MILLI;
        if limits.movestogo is Some {
            let per_move = t / (limits.movestogo->0 as int) + inc_ns;
            (Some(sat_sub(per_move, TIME_OVERHEAD as int)), Some(per_move))
        } else {
            let total = t + inc_ns;
            (Some(total / (SOFT_BOUND as int)), Some(total / (HARD_BOUND as int)))
        }
    } else {
        (None, None)
    }
}

/// Each side budgets from its own clock: without an infinite search, a move time
/// or a number of moves to go, a side with time left `t` ms and increment `i` ms
/// (0 when none) gets a hard limit of (t + i) ms / 8 and a soft limit of
/// (t + i) ms / 40, in nanoseconds, and no limit without a clock of its own; the
/// other side's time and increment play no part.
pub proof fn lemma_own_clock(limits: GoParameters, other: GoParameters, side: Side)
    requires
        !limits.infinite,
        limits.movetime is None,
        limits.movestogo is None,
        other.infinite == limits.infinite,
        other.movetime == limits.movetime,
        other.movestogo == limits.movestogo,
        side == Side::Red ==> other.wtime == limits.wtime && other.winc == limits.winc,
        side == Side::Black ==> other.btime == limits.btime && other.binc == limits.binc,
    ensures
        ({
            let own_time = if side == Side::Red {
                limits.wtime
            } else {
                limits.btime
            };
            let own_inc = if side == Side::Red {
                limits.winc
            } else {
                limits.binc
            };
            let i = match own_inc {
                Some(x) => x as int,
                None => 0int,
            };
            match own_time {
                Some(t) => time_limits(limits, side) == (
                    Some((t as int * 1_000_000 + i * 1_000_000) / 40),
                    Some((t as int * 1_000_000 + i * 1_000_000) / 8),
                ),
                None => time_limits(limits, side) == (None::<int>, None::<int>),
            }
        }),
        time_limits(other, side) == time_limits(limits, side),
{
}

/// An infinite search has no time limit; otherwise a move time of `mt` ms gives a
/// hard limit of `mt` ms and a soft limit 15 ms shorter (never below 0), in
/// nanoseconds, whatever the clocks say.
pub proof fn lemma_move_time(limits: GoParameters, side: Side)
    ensures
        limits.infinite ==> time_limits(limits, side) == (None::<int>, None::<int>),
        !limits.infinite && limits.movetime is Some ==> time_limits(limits, side) == (
            Some(if limits.movetime->0 as int * 1_000_000 >= 15_000_000 {
                limits.movetime->0 as int * 1_000_000 - 15_000_000
            } else {
                0
            }),
            Some(limits.movetime->0 as int * 1_000_000),
        ),
{
}

/// The time, depth and node limits of a search, and when it started.
pub struct TimeManager {
    /// Stop deepening once this much time (in nanoseconds) has passed.
    soft_time_limit: Option<u128>,
    /// Abort the search once this much time (in nanoseconds) has passed.
    hard_time_limit: Option<u128>,
    /// The maximum depth.
    max_depth: i8,
    /// When the search started.
    start_time: Instant,
    /// The maximum number of nodes.
    max_nodes: u64,
}

impl TimeManager {
    /// The soft limit in nanoseconds.
    pub closed spec fn soft_spec(&self) -> Option<int> {
        match self.soft_time_limit {
            Some(s) => Some(s as int),
            None => None,
        }
    }

    /// The hard limit in nanoseconds.
    pub closed spec fn hard_spec(&self) -> Option<int> {
        match self.hard_time_limit {
            Some(h) => Some(h as int),
            None => None,
        }
    }

    /// The maximum depth.
    pub closed spec fn max_depth_spec(&self) -> i8 {
        self.max_depth
    }

    /// The maximum number of nodes.
    pub closed spec fn max_nodes_spec(&self) -> u64 {
        self.max_nodes
    }

    /// The limits of a search by side `side` under `limits`, started now (see
    /// [`time_limits`]); the depth defaults to [`MAX_DEPTH`] and is capped at 127,
    /// the nodes default to `u64::MAX`.
    pub fn new(limits: &GoParameters, side: Side) -> (r: TimeManager)
        requires
            limits.movestogo != Some(0u32),
        ensures
            (r.soft_spec(), r.hard_spec()) == time_limits(*limits, side),
            r.max_depth_spec() == (match limits.depth {
                Some(d) => if d > 127 {
                    127
                } else {
                    d as int
                },
                None => MAX_DEPTH as int,
            }),
            r.max_nodes_spec() == (match limits.nodes {
                Some(n) => n,
                None => u64::MAX,
            }),
    {
        let (time_left, inc) = match side {
            Side::Red => (limits.wtime, limits.winc),
            Side::Black => (limits.btime, limits.binc),
        };
        let inc_ns: u128 = match inc {
            Some(i) => i as u128 * NANOS_PER_MILLI,
            None => 0,
        };
        let (soft, hard): (Option<u128>, Option<u128>) = if limits.infinite {
            (None, None)
        } else if let Some(movetime) = limits.movetime {
            let mt = movetime as u128 * NANOS_PER_MILLI;
            (Some(mt.saturating_sub(TIME_OVERHEAD)), Some(mt))
        } else if let Some(time) = time_left {
            let t = time as u128 * NANOS_PER_MILLI;
            if let Some(movestogo) = limits.movestogo {
                let per_move = t / (movestogo as u128) + inc_ns;
                (Some(per_move.saturating_sub(TIME_OVERHEAD)), Some(per_move))
            } else {
                let total = t + inc_ns;
                (Some(total / SOFT_BOUND), Some(total / HARD_BOUND))
            }
        } else {
            (None, None)
        };
        let max_depth: i8 = match limits.depth {
            Some(d) => if d > 127 {
                127
            } else {
                d as i8
            },
            None => MAX_DEPTH as i8,
        };
        let max_nodes = match limits.nodes {
            Some(n) => n,
            None => u64::MAX,
        };
        TimeManager {
            soft_time_limit: soft,
            hard_time_limit: hard,
            max_depth,
            start_time: instant_now(),
            max_nodes,
        }
    }

    /// Whether `elapsed` nanoseconds reach the hard limit.
    pub fn hard_bound_reached_at(&self, elapsed: u128) -> (r: bool)
        ensures
            r == (self.hard_spec() matches Some(h) && elapsed >= h),
    {
        match self.hard_time_limit {
            Some(h) => elapsed >= h,
            None => false,
        }
    }

    /// Whether `elapsed` nanoseconds reach the soft limit.
    pub fn soft_bound_reached_at(&self, elapsed: u128) -> (r: bool)
        ensures
            r == (self.soft_spec() matches Some(s) && elapsed >= s),
    {
        match self.soft_time_limit {
            Some(s) => elapsed >= s,
            None => false,
        }
    }

    /// Whether the time passed since the start reaches the hard limit (never
    /// without one).
    pub fn is_hard_bound_reached(&self) -> (r: bool)
        ensures
            self.hard_spec() is None ==> !r,
    {
        if self.hard_time_limit.is_none() {
            return false;
        }
        let elapsed = self.executed_time();
        self.hard_bound_reached_at(elapsed)
    }

    /// Whether the time passed since the start reaches the soft limit (never
    /// without one).
    pub fn is_soft_bound_reached(&self) -> (r: bool)
        ensures
            self.soft_spec() is None ==> !r,
    {
        if self.soft_time_limit.is_none() {
            return false;
        }
        let elapsed = self.executed_time();
        self.soft_bound_reached_at(elapsed)
    }

    /// The maximum depth.
    pub fn max_depth(&self) -> (r: i8)
        ensures
            r == self.max_depth_spec(),
    {
        self.max_depth
    }

    /// The maximum number of nodes.
    pub fn max_nodes(&self) -> (r: u64)
        ensures
            r == self.max_nodes_spec(),
    {
        self.max_nodes
    }

    /// The time passed since the start, in nanoseconds.
    pub fn executed_time(&self) -> (r: u128) {
        let d = instant_elapsed(&self.start_time);
        duration_as_nanos(&d)
    }
}

} // verus!
