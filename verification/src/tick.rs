//! Change ticks: wrapping 32-bit stamps, and what "newer" means for them.
use bevy::ecs::change_detection::Tick;
use vstd::prelude::*;

verus! {

/// The age past which a tick no longer tells anything.
pub const MAX_CHANGE_AGE: u32 = 3258167296;

/// How long before `now` the tick `t` was taken, on the wrapping tick circle.
pub open spec fn age(t: u32, now: u32) -> int {
    (now - t) % 0x1_0000_0000
}

/// `age`, cut off at the age past which ticks are not told apart.
pub open spec fn capped_age(t: u32, now: u32) -> int {
    if age(t, now) < MAX_CHANGE_AGE {
        age(t, now)
    } else {
        MAX_CHANGE_AGE as int
    }
}

/// Was `t` taken after `last_run`, seen from `this_run`?
pub open spec fn newer(t: u32, last_run: u32, this_run: u32) -> bool {
    capped_age(t, this_run) < capped_age(last_run, this_run)
}

/// The added and changed stamps of one component or resource.
pub type Ticks = (u32, u32);

pub open spec fn added_since(t: Ticks, last_run: u32, this_run: u32) -> bool {
    newer(t.0, last_run, this_run)
}

pub open spec fn changed_since(t: Ticks, last_run: u32, this_run: u32) -> bool {
    newer(t.1, last_run, this_run)
}

/// Bevy's `MAX_CHANGE_AGE`. Claims that it is the number this module writes
/// down under the same name.
#[verifier::external_body]
fn max_change_age() -> (r: u32)
    ensures
        r == MAX_CHANGE_AGE,
{
    bevy::ecs::change_detection::MAX_CHANGE_AGE
}

/// Bevy's `Tick::is_newer_than`. Claims that it compares the two ages, each
/// taken on the wrapping circle and cut off at `MAX_CHANGE_AGE`.
#[verifier::external_body]
pub(crate) fn is_newer_than(tick: u32, last_run: u32, this_run: u32) -> (r: bool)
    ensures
        r == newer(tick, last_run, this_run),
{
    Tick::new(tick).is_newer_than(Tick::new(last_run), Tick::new(this_run))
}

/// The tick that stands for `t` once ages are cut off: `t` itself while it is
/// young enough, else the tick exactly `MAX_CHANGE_AGE` before `this_run`.
pub open spec fn clamped(t: u32, this_run: u32) -> u32 {
    if age(t, this_run) > MAX_CHANGE_AGE {
        ((this_run - MAX_CHANGE_AGE) % 0x1_0000_0000) as u32
    } else {
        t
    }
}

/// Keep a stored tick within `MAX_CHANGE_AGE` of the present, so that a
/// session of many days cannot make an old tick read as new.
pub fn clamp_tick(tick: &mut u32, this_run: u32)
    ensures
        *final(tick) == clamped(*old(tick), this_run),
{
    let max: u32 = max_change_age();
    if this_run.wrapping_sub(*tick) > max {
        *tick = this_run.wrapping_sub(max);
    }
}

/// Of two stamps the one taken later is newer, as long as it is not older than
/// ticks can tell. Ages are counted back from the present, round the circle of
/// all ticks.
pub proof fn later_stamps_are_newer(now: u32, a: int, b: int, t: u32, last_run: u32)
    requires
        0 <= a < 0x1_0000_0000,
        0 <= b < 0x1_0000_0000,
        t == now - a || t == now - a + 0x1_0000_0000,
        last_run == now - b || last_run == now - b + 0x1_0000_0000,
    ensures
        newer(t, last_run, now) <==> a < b && a < 3258167296,
{
}

/// After clamping a tick is never older than `MAX_CHANGE_AGE`.
pub proof fn clamped_tick_is_young(t: u32, this_run: u32)
    ensures
        age(clamped(t, this_run), this_run) <= MAX_CHANGE_AGE,
{
}

/// Clamping twice at the same moment is clamping once.
pub proof fn clamping_is_idempotent(t: u32, this_run: u32)
    ensures
        clamped(clamped(t, this_run), this_run) == clamped(t, this_run),
{
}

/// Clamping never changes an answer: neither a clamped stamp nor a clamped
/// `last_run` wakes anything that the tick itself would not have woken, nor
/// does it hide anything.
pub proof fn clamping_changes_no_answer(t: u32, last_run: u32, this_run: u32)
    ensures
        newer(clamped(t, this_run), last_run, this_run) == newer(t, last_run, this_run),
        newer(t, clamped(last_run, this_run), this_run) == newer(t, last_run, this_run),
{
}

/// An answer of "not newer" stands as time goes on: while neither tick grows
/// older than the circle is long, no stamp turns new by ageing.
pub proof fn old_ticks_stay_old(t: u32, last_run: u32, now: u32, later: u32)
    requires
        !newer(t, last_run, now),
        age(t, now) + age(now, later) < 0x1_0000_0000,
        age(last_run, now) + age(now, later) < 0x1_0000_0000,
    ensures
        !newer(t, last_run, later),
{
}

/// A stamp taken at `this_run` is new to every reactor that last ran at
/// another tick, and to none that ran at that very tick.
pub proof fn a_stamp_of_now_is_new(last_run: u32, this_run: u32)
    ensures
        newer(this_run, last_run, this_run) == (last_run != this_run),
{
}

} // verus!
