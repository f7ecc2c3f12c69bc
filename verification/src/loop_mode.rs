//! Playback policies: how a track's elapsed time maps onto its own timeline.

use crate::duration::{as_nanos, duration_nanos, from_nanos, duration_new};
use std::time::Duration;
use vstd::arithmetic::div_mod::{
    lemma_fundamental_div_mod, lemma_fundamental_div_mod_converse, lemma_mod_pos_bound,
    lemma_small_mod,
};
use vstd::prelude::*;

verus! {

/// Playback policy governing how a track cycles or terminates.
#[derive(Copy, Clone, Debug, Default, PartialEq, Eq, Structural)]
pub enum LoopMode {
    /// Play from the start again each time the track ends.
    #[default]
    LoopForever,
    /// Play once and hold the end.
    Once,
    /// Play this many times, then hold the end.
    Count(usize),
    /// Play forwards, then backwards, and again.
    PingPong,
    /// Play this many legs, alternately forwards and backwards, then hold where
    /// the last leg ended.
    PingPongCount(usize),
}

/// Where, `elapsed` nanoseconds into playback, a track of `total` nanoseconds
/// is on its own timeline.
pub open spec fn local_time(mode: LoopMode, elapsed: nat, total: nat) -> nat {
    if total == 0 {
        0
    } else {
        match mode {
            LoopMode::Once => if elapsed <= total {
                elapsed
            } else {
                total
            },
            LoopMode::LoopForever => elapsed % total,
            LoopMode::Count(count) => if count == 0 {
                0
            } else if elapsed >= count * total {
                total
            } else {
                elapsed % total
            },
            LoopMode::PingPong => {
                let cycle = 2 * total;
                let tau = elapsed % cycle;
                if tau <= total {
                    tau
                } else {
                    (cycle - tau) as nat
                }
            },
            LoopMode::PingPongCount(count) => if count == 0 {
                0
            } else {
                let leg = elapsed / total;
                if leg >= count {
                    if count % 2 == 0 {
                        0
                    } else {
                        total
                    }
                } else if leg % 2 == 0 {
                    elapsed % total
                } else {
                    (total - elapsed % total) as nat
                }
            },
        }
    }
}

proof fn lemma_count_boundary(elapsed: nat, total: nat, count: nat)
    requires
        total > 0,
    ensures
        (elapsed >= count * total) == (elapsed / total >= count),
{
    assert((elapsed >= count * total) == (elapsed / total >= count)) by (nonlinear_arith)
        requires
            total > 0,
    ;
}

impl LoopMode {
    /// Local track time, in nanoseconds, for `elapsed` nanoseconds of playback
    /// of a track `total` nanoseconds long.
    pub fn map_nanos(&self, elapsed: u128, total: u128) -> (local: u128)
        requires
            total <= u128::MAX / 2,
        ensures
            local == local_time(*self, elapsed as nat, total as nat),
    {
        if total == 0 {
            return 0;
        }
        match *self {
            LoopMode::Once => if elapsed <= total {
                elapsed
            } else {
                total
            },
            LoopMode::LoopForever => elapsed % total,
            LoopMode::Count(count) => {
                proof {
                    lemma_count_boundary(elapsed as nat, total as nat, count as nat);
                }
                if count == 0 {
                    0
                } else if elapsed / total >= count as u128 {
                    total
                } else {
                    elapsed % total
                }
            },
            LoopMode::PingPong => {
                let cycle = 2 * total;
                let tau = elapsed % cycle;
                if tau <= total {
                    tau
                } else {
                    cycle - tau
                }
            },
            LoopMode::PingPongCount(count) => {
                if count == 0 {
                    0
                } else {
                    let leg = elapsed / total;
                    let rem = elapsed % total;
                    if leg >= count as u128 {
                        if count % 2 == 0 {
                            0
                        } else {
                            total
                        }
                    } else if leg % 2 == 0 {
                        rem
                    } else {
                        total - rem
                    }
                }
            },
        }
    }

    /// Transforms raw elapsed playback duration into local track time within
    /// `[0, total_duration]`.
    pub fn map_time(&self, elapsed: Duration, total_duration: Duration) -> (local: Duration)
        ensures
            duration_nanos(local) == local_time(
                *self,
                duration_nanos(elapsed),
                duration_nanos(total_duration),
            ),
    {
        let total = as_nanos(&total_duration);
        if total == 0 {
            return duration_new(0, 0);
        }
        let local = self.map_nanos(as_nanos(&elapsed), total);
        proof {
            lemma_local_time_within_track(*self, duration_nanos(elapsed), total as nat);
        }
        from_nanos(local)
    }
}

/// Local time never leaves the track: it is always between its start and its
/// end.
pub proof fn lemma_local_time_within_track(mode: LoopMode, elapsed: nat, total: nat)
    ensures
        local_time(mode, elapsed, total) <= total,
{
    if total > 0 {
        match mode {
            LoopMode::PingPongCount(count) => {
                if count > 0 && (elapsed / total) < count && (elapsed / total) % 2 != 0 {
                    assert(elapsed % total < total);
                }
            },
            _ => {},
        }
    }
}

/// Playing once follows elapsed time until the end, then holds the end.
pub proof fn lemma_once_holds_the_end(elapsed: nat, total: nat)
    ensures
        elapsed <= total ==> local_time(LoopMode::Once, elapsed, total) == elapsed,
        elapsed >= total ==> local_time(LoopMode::Once, elapsed, total) == total,
{
}

/// Looping forever follows elapsed time through the first pass, and repeats
/// with the track's length as its period.
pub proof fn lemma_loop_forever_repeats(elapsed: nat, total: nat)
    requires
        total > 0,
    ensures
        elapsed < total ==> local_time(LoopMode::LoopForever, elapsed, total) == elapsed,
        local_time(LoopMode::LoopForever, elapsed + total, total) == local_time(
            LoopMode::LoopForever,
            elapsed,
            total,
        ),
{
    assert((elapsed + total) % total == elapsed % total) by (nonlinear_arith)
        requires
            total > 0,
    ;
    if elapsed < total {
        lemma_small_mod(elapsed, total);
    }
}

/// A counted loop plays like an endless one until its count runs out, and then
/// holds the end.
pub proof fn lemma_count_stops_at_the_end(count: nat, elapsed: nat, total: nat)
    requires
        total > 0,
        count > 0,
        count <= usize::MAX,
    ensures
        elapsed < count * total ==> local_time(LoopMode::Count(count as usize), elapsed, total)
            == local_time(LoopMode::LoopForever, elapsed, total),
        elapsed >= count * total ==> local_time(LoopMode::Count(count as usize), elapsed, total)
            == total,
{
}

/// Ping-pong goes out and comes back: it repeats every two lengths of the
/// track, and the way back mirrors the way out.
pub proof fn lemma_ping_pong_mirrors(elapsed: nat, total: nat)
    requires
        total > 0,
    ensures
        local_time(LoopMode::PingPong, elapsed + 2 * total, total) == local_time(
            LoopMode::PingPong,
            elapsed,
            total,
        ),
        elapsed <= 2 * total ==> local_time(LoopMode::PingPong, (2 * total - elapsed) as nat, total)
            == local_time(LoopMode::PingPong, elapsed, total),
{
    let cycle = 2 * total;
    assert((elapsed + cycle) % cycle == elapsed % cycle) by (nonlinear_arith)
        requires
            cycle > 0,
    ;
    if elapsed <= cycle {
        let back = (cycle - elapsed) as nat;
        if elapsed == 0 {
            assert(back % cycle == 0) by (nonlinear_arith)
                requires
                    back == cycle,
                    cycle > 0,
            ;
        } else if elapsed == cycle {
            assert(elapsed % cycle == 0) by (nonlinear_arith)
                requires
                    elapsed == cycle,
                    cycle > 0,
            ;
        } else {
            assert(back % cycle == back) by (nonlinear_arith)
                requires
                    0 < back < cycle,
            ;
            assert(elapsed % cycle == elapsed) by (nonlinear_arith)
                requires
                    0 < elapsed < cycle,
            ;
        }
    }
}

/// A counted ping-pong plays like an endless one until its count runs out, and
/// then holds where its last leg ended: the start after an even number of legs,
/// the end after an odd number.
pub proof fn lemma_ping_pong_count_stops(count: nat, elapsed: nat, total: nat)
    requires
        total > 0,
        count > 0,
        count <= usize::MAX,
    ensures
        elapsed < count * total ==> local_time(
            LoopMode::PingPongCount(count as usize),
            elapsed,
            total,
        ) == local_time(LoopMode::PingPong, elapsed, total),
        elapsed >= count * total ==> local_time(
            LoopMode::PingPongCount(count as usize),
            elapsed,
            total,
        ) == if count % 2 == 0 {
            0
        } else {
            total
        },
{
    lemma_count_boundary(elapsed, total, count);
    let leg = elapsed / total;
    let rem = elapsed % total;
    let cycle = 2 * total;
    lemma_fundamental_div_mod(elapsed as int, total as int);
    lemma_fundamental_div_mod(leg as int, 2);
    lemma_mod_pos_bound(elapsed as int, total as int);
    let half = leg / 2;
    let side = leg % 2;
    assert(elapsed == half * cycle + (side * total + rem)) by (nonlinear_arith)
        requires
            elapsed == total * leg + rem,
            leg == 2 * half + side,
            cycle == 2 * total,
    ;
    assert(side * total + rem < cycle) by (nonlinear_arith)
        requires
            side < 2,
            rem < total,
            cycle == 2 * total,
    ;
    lemma_fundamental_div_mod_converse(
        elapsed as int,
        cycle as int,
        half as int,
        (side * total + rem) as int,
    );
    if side == 0 {
        assert(side * total == 0) by (nonlinear_arith)
            requires
                side == 0,
        ;
    } else {
        assert(side == 1);
        assert(side * total == total) by (nonlinear_arith)
            requires
                side == 1,
        ;
    }
}

} // verus!
