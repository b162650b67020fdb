//! What the calendar and the clock do, told by the time that passes.
use vstd::prelude::*;

use crate::sim::season::{Clock, ColonyStats, Season, SpeedKeys};

verus! {

/// A season lasts until its time is up, and then the other one comes. A drought
/// opens a new cycle and lasts eight seconds longer than the one before, up to
/// fifty-five; a wet season lasts four seconds less than the one before, down
/// to sixty.
pub proof fn seasons_turn_when_their_time_is_up(season: Season, dt: u32)
    requires
        season.cycle < u32::MAX,
    ensures
        ({
            let after = season.advanced(dt);
            if season.remaining > dt {
                &&& after.drought == season.drought
                &&& after.cycle == season.cycle
                &&& after.remaining == season.remaining - dt
            } else if season.drought {
                &&& !after.drought
                &&& after.cycle == season.cycle
                &&& season.cycle <= 7 ==> after.remaining == 90_000_000 - season.cycle * 4_000_000
                &&& season.cycle > 7 ==> after.remaining == 60_000_000
            } else {
                &&& after.drought
                &&& after.cycle == season.cycle + 1
                &&& after.cycle <= 4 ==> after.remaining == 20_000_000 + after.cycle * 8_000_000
                &&& after.cycle > 4 ==> after.remaining == 55_000_000
            }
        }),
{
}

/// A day is over after half a minute, and the time beyond it belongs to the
/// next.
pub proof fn days_last_half_a_minute(season: Season, dt: u32)
    requires
        season.day < u32::MAX,
        season.day_timer <= u64::MAX - dt,
    ensures
        ({
            let after = season.advanced(dt);
            if season.day_timer + dt < 30_000_000 {
                after.day == season.day && after.day_timer == season.day_timer + dt
            } else {
                after.day == season.day + 1 && after.day_timer + 30_000_000 == season.day_timer + dt
            }
        }),
{
}

/// Moments add up: as long as the season does not turn in the first of them,
/// and no more than one day dawns, two moments one after another are as one of
/// the time of both.
pub proof fn moments_add_up(season: Season, a: u32, b: u32)
    requires
        season.cycle < u32::MAX,
        season.day < u32::MAX,
        season.remaining > a,
        a + b <= u32::MAX,
        season.day_timer + a + b < 60_000_000,
    ensures
        season.advanced(a).advanced(b) == season.advanced((a + b) as u32),
{
}

/// A forecast is due every five seconds; the count then begins anew.
pub proof fn forecasts_come_every_five_seconds(accumulated: u64, tick: u32, dt: u32)
    requires
        accumulated <= u64::MAX - dt,
    ensures
        ({
            let (time, count) = crate::sim::season::forecast_counted(accumulated, tick, dt);
            &&& accumulated + dt < 5_000_000 ==> time == accumulated + dt && count == tick
            &&& accumulated + dt >= 5_000_000 ==> time == 0 && count != tick && (count == tick + 1
                || count == 0)
            &&& accumulated + dt >= 5_000_000 && tick < u32::MAX ==> count == tick + 1
        }),
{
}

/// A colony has fallen when nobody is left of it, and one that never had anyone
/// cannot fall. The record shows whether it ever had, and the most it had.
pub proof fn the_record_is_kept(stats: ColonyStats, count: u32, later: u32)
    ensures
        stats.fallen(count) <==> stats.started && count == 0,
        stats.kept(count).started <==> stats.started || count > 0,
        stats.kept(count).peak >= stats.peak,
        count > 0 ==> stats.kept(count).peak >= count,
        stats.kept(count).peak == stats.peak || stats.kept(count).peak == count,
        count > 0 ==> stats.kept(count).fallen(0),
        stats.kept(0) == stats,
        stats.kept(count).kept(later).peak == stats.kept(later).kept(count).peak,
{
}

/// A digit sets the clock running, once, twice or four times as fast as real
/// time; the highest digit wins. Without one, space stops the clock or lets it
/// run on, and twice over leaves it as it was. Without any key it stays.
pub proof fn keys_set_the_clock(clock: Clock, keys: SpeedKeys)
    ensures
        keys.one || keys.two || keys.three ==> !clock.keyed(keys).paused && clock.keyed(keys).speed
            == if keys.three {
            4int
        } else if keys.two {
            2
        } else {
            1
        },
        !(keys.one || keys.two || keys.three) ==> {
            &&& clock.keyed(keys).speed == clock.speed
            &&& clock.keyed(keys).paused == (clock.paused != keys.space)
            &&& clock.keyed(keys).keyed(keys) == clock
        },
{
}

} // verus!
