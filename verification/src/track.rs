//! The timeline of a track: its segments laid end to end, each as long as its
//! duration says.

use crate::duration::{as_nanos, duration_nanos, from_nanos, max_duration_nanos};
use crate::loop_mode::{
    lemma_local_time_within_track, lemma_loop_forever_repeats, lemma_once_holds_the_end, local_time,
    LoopMode,
};
use vstd::arithmetic::div_mod::lemma_small_mod;
use std::time::Duration;
use vstd::prelude::*;

verus! {

/// How long a run of segments lasts, end to end, in nanoseconds.
pub open spec fn total_nanos(durations: Seq<Duration>) -> nat
    decreases durations.len(),
{
    if durations.len() == 0 {
        0
    } else {
        total_nanos(durations.drop_last()) + duration_nanos(durations.last())
    }
}

/// Where segment `index` starts: how long the segments before it last.
pub open spec fn start_of(durations: Seq<Duration>, index: int) -> nat {
    total_nanos(durations.take(index))
}

proof fn lemma_total_take_step(durations: Seq<Duration>, index: int)
    requires
        0 <= index < durations.len(),
    ensures
        total_nanos(durations.take(index + 1)) == total_nanos(durations.take(index))
            + duration_nanos(durations[index]),
{
    assert(durations.take(index + 1).drop_last() =~= durations.take(index));
}

/// A run of segments lasts at least as long as any run of its first segments.
proof fn lemma_total_take_monotone(durations: Seq<Duration>, i: int, j: int)
    requires
        0 <= i <= j <= durations.len(),
    ensures
        total_nanos(durations.take(i)) <= total_nanos(durations.take(j)),
    decreases j - i,
{
    if i < j {
        lemma_total_take_monotone(durations, i, j - 1);
        lemma_total_take_step(durations, j - 1);
    }
}

/// How long the segments last together, or `None` if that is longer than a
/// `Duration` can hold.
pub fn checked_total_duration(durations: &[Duration]) -> (total: Option<Duration>)
    ensures
        total is None <==> total_nanos(durations@) > max_duration_nanos(),
        total matches Some(t) ==> duration_nanos(t) == total_nanos(durations@),
{
    let mut sum: u128 = 0;
    let mut i: usize = 0;
    assert(durations@.take(0) =~= Seq::<Duration>::empty());
    while i < durations.len()
        invariant
            i <= durations@.len(),
            sum == total_nanos(durations@.take(i as int)),
            sum <= max_duration_nanos(),
        decreases durations@.len() - i,
    {
        let next = as_nanos(&durations[i]);
        proof {
            lemma_total_take_step(durations@, i as int);
        }
        if next > max_duration_nanos_exec() - sum {
            proof {
                lemma_total_take_monotone(durations@, i + 1, durations@.len() as int);
                assert(durations@.take(durations@.len() as int) =~= durations@);
            }
            return None;
        }
        sum = sum + next;
        i = i + 1;
    }
    assert(durations@.take(durations@.len() as int) =~= durations@);
    Some(from_nanos(sum))
}

/// The longest duration, in nanoseconds.
fn max_duration_nanos_exec() -> (n: u128)
    ensures
        n == max_duration_nanos(),
{
    (u64::MAX as u128) * 1_000_000_000 + 999_999_999
}

/// The segment playing `elapsed` into the timeline, and how far into that
/// segment it is; `None` once every segment has finished.
pub fn segment_at(durations: &[Duration], elapsed: Duration) -> (found: Option<(usize, Duration)>)
    requires
        total_nanos(durations@) <= max_duration_nanos(),
    ensures
        found is None <==> duration_nanos(elapsed) >= total_nanos(durations@),
        found matches Some((index, local)) ==> {
            &&& index < durations@.len()
            &&& start_of(durations@, index as int) <= duration_nanos(elapsed) < start_of(
                durations@,
                index + 1,
            )
            &&& duration_nanos(local) + start_of(durations@, index as int) == duration_nanos(
                elapsed,
            )
        },
{
    let t = as_nanos(&elapsed);
    let mut accumulated: u128 = 0;
    let mut i: usize = 0;
    assert(durations@.take(0) =~= Seq::<Duration>::empty());
    while i < durations.len()
        invariant
            i <= durations@.len(),
            total_nanos(durations@) <= max_duration_nanos(),
            t == duration_nanos(elapsed),
            accumulated == start_of(durations@, i as int),
            accumulated <= t,
        decreases durations@.len() - i,
    {
        proof {
            lemma_total_take_step(durations@, i as int);
            lemma_total_take_monotone(durations@, i + 1, durations@.len() as int);
            assert(durations@.take(durations@.len() as int) =~= durations@);
        }
        let next = accumulated + as_nanos(&durations[i]);
        if t < next {
            return Some((i, from_nanos(t - accumulated)));
        }
        accumulated = next;
        i = i + 1;
    }
    assert(durations@.take(durations@.len() as int) =~= durations@);
    None
}

/// How far into its playback a track is, `elapsed` into the clock when it was
/// started `offset` in: nothing before it starts.
pub open spec fn played_nanos(offset: Duration, elapsed: Duration) -> nat {
    if duration_nanos(elapsed) > duration_nanos(offset) {
        (duration_nanos(elapsed) - duration_nanos(offset)) as nat
    } else {
        0
    }
}

/// Where on its own timeline a track of these segments is, played under
/// `mode` and started `offset` into the clock, when the clock reads `elapsed`.
pub open spec fn timeline_nanos(
    durations: Seq<Duration>,
    mode: LoopMode,
    offset: Duration,
    elapsed: Duration,
) -> nat {
    local_time(mode, played_nanos(offset, elapsed), total_nanos(durations))
}

/// The segment a track samples when the clock reads `elapsed`, and how far
/// into it: the track starts `offset` into the clock, maps its playback onto
/// its own timeline by `mode`, and finds the segment playing there. `None`
/// when the timeline stands at the very end, where every segment has
/// finished and the track holds its last value.
pub fn locate(durations: &[Duration], mode: LoopMode, offset: Duration, elapsed: Duration) -> (found:
    Option<(usize, Duration)>)
    requires
        total_nanos(durations@) <= max_duration_nanos(),
    ensures
        found is None <==> timeline_nanos(durations@, mode, offset, elapsed) >= total_nanos(
            durations@,
        ),
        found is None ==> timeline_nanos(durations@, mode, offset, elapsed) == total_nanos(
            durations@,
        ),
        found matches Some((index, local)) ==> {
            &&& index < durations@.len()
            &&& start_of(durations@, index as int) <= timeline_nanos(
                durations@,
                mode,
                offset,
                elapsed,
            ) < start_of(durations@, index + 1)
            &&& duration_nanos(local) + start_of(durations@, index as int) == timeline_nanos(
                durations@,
                mode,
                offset,
                elapsed,
            )
        },
{
    let now = as_nanos(&elapsed);
    let start = as_nanos(&offset);
    let played = if now > start {
        from_nanos(now - start)
    } else {
        from_nanos(0)
    };
    let total = match checked_total_duration(durations) {
        Some(total) => total,
        None => from_nanos(0),
    };
    proof {
        lemma_local_time_within_track(
            mode,
            played_nanos(offset, elapsed),
            total_nanos(durations@),
        );
    }
    let local = mode.map_time(played, total);
    segment_at(durations, local)
}

/// A track's place on its timeline depends only on how long it has been
/// playing: two clocks that have run equally far past their start offsets, or
/// that have both not yet reached them, find it at the same place.
pub proof fn lemma_timeline_follows_time_played(
    durations: Seq<Duration>,
    mode: LoopMode,
    offset1: Duration,
    elapsed1: Duration,
    offset2: Duration,
    elapsed2: Duration,
)
    requires
        ({
            ||| (duration_nanos(elapsed1) >= duration_nanos(offset1) && duration_nanos(elapsed2)
                >= duration_nanos(offset2) && duration_nanos(elapsed1) - duration_nanos(offset1)
                == duration_nanos(elapsed2) - duration_nanos(offset2))
            ||| (duration_nanos(elapsed1) <= duration_nanos(offset1) && duration_nanos(elapsed2)
                <= duration_nanos(offset2))
        }),
    ensures
        timeline_nanos(durations, mode, offset1, elapsed1) == timeline_nanos(
            durations,
            mode,
            offset2,
            elapsed2,
        ),
{
}

/// Until the clock reaches a track's start offset, the track sits at the
/// start of its timeline, whatever its playback policy.
pub proof fn lemma_timeline_waits_for_its_offset(
    durations: Seq<Duration>,
    mode: LoopMode,
    offset: Duration,
    elapsed: Duration,
)
    requires
        duration_nanos(elapsed) <= duration_nanos(offset),
    ensures
        timeline_nanos(durations, mode, offset, elapsed) == 0,
{
    let total = total_nanos(durations);
    if total > 0 {
        lemma_small_mod(0, total);
        lemma_small_mod(0, 2 * total);
        assert(played_nanos(offset, elapsed) == 0);
        match mode {
            LoopMode::Count(count) => {
                if count > 0 {
                    assert(count * total > 0) by (nonlinear_arith)
                        requires
                            count > 0,
                            total > 0,
                    ;
                }
            },
            LoopMode::PingPongCount(count) => {
                assert(0nat / total == 0) by (nonlinear_arith)
                    requires
                        total > 0,
                ;
            },
            _ => {},
        }
    }
}

/// Through its first pass, a track is exactly as far into its timeline as the
/// clock is past its start offset, under every playback policy that plays at
/// all (a count of zero plays nothing).
pub proof fn lemma_timeline_first_pass(
    durations: Seq<Duration>,
    mode: LoopMode,
    offset: Duration,
    elapsed: Duration,
)
    requires
        duration_nanos(offset) <= duration_nanos(elapsed),
        duration_nanos(elapsed) - duration_nanos(offset) < total_nanos(durations),
        mode != LoopMode::Count(0),
        mode != LoopMode::PingPongCount(0),
    ensures
        timeline_nanos(durations, mode, offset, elapsed) == duration_nanos(elapsed)
            - duration_nanos(offset),
{
    let total = total_nanos(durations);
    let played = (duration_nanos(elapsed) - duration_nanos(offset)) as nat;
    lemma_small_mod(played, total);
    lemma_small_mod(played, 2 * total);
    match mode {
        LoopMode::Count(count) => {
            assert(played < count * total) by (nonlinear_arith)
                requires
                    played < total,
                    count >= 1,
            ;
        },
        LoopMode::PingPongCount(count) => {
            assert(played / total == 0) by (nonlinear_arith)
                requires
                    played < total,
            ;
        },
        _ => {},
    }
}

/// A track played once has finished, and holds its end, as soon as the clock
/// is a whole track's length past its start offset.
pub proof fn lemma_once_finishes_a_length_after_its_offset(
    durations: Seq<Duration>,
    offset: Duration,
    elapsed: Duration,
)
    requires
        duration_nanos(elapsed) >= duration_nanos(offset) + total_nanos(durations),
    ensures
        timeline_nanos(durations, LoopMode::Once, offset, elapsed) == total_nanos(durations),
{
    let played = (duration_nanos(elapsed) - duration_nanos(offset)) as nat;
    lemma_once_holds_the_end(played, total_nanos(durations));
}

/// A looping track comes back to the same place every track's length of
/// playing after its start offset.
pub proof fn lemma_loop_repeats_after_its_offset(
    durations: Seq<Duration>,
    offset1: Duration,
    elapsed1: Duration,
    offset2: Duration,
    elapsed2: Duration,
)
    requires
        total_nanos(durations) > 0,
        duration_nanos(elapsed1) >= duration_nanos(offset1),
        duration_nanos(elapsed2) >= duration_nanos(offset2),
        duration_nanos(elapsed2) - duration_nanos(offset2) == duration_nanos(elapsed1)
            - duration_nanos(offset1) + total_nanos(durations),
    ensures
        timeline_nanos(durations, LoopMode::LoopForever, offset2, elapsed2) == timeline_nanos(
            durations,
            LoopMode::LoopForever,
            offset1,
            elapsed1,
        ),
{
    let played = (duration_nanos(elapsed1) - duration_nanos(offset1)) as nat;
    lemma_loop_forever_repeats(played, total_nanos(durations));
}

} // verus!
