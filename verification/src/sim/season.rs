//! The calendar: wet seasons and droughts, days, the clock's speed, and the
//! end of a colony.
use vstd::prelude::*;

verus! {

/// The length of a day, in microseconds.
pub const DAY_LENGTH: u64 = 30_000_000;

/// The forecast is made anew this often, in microseconds.
pub const FORECAST_EVERY: u64 = 5_000_000;

/// The season, and how far it is.
#[derive(Clone, Copy, PartialEq, Eq, Structural, Debug)]
pub struct Season {
    pub drought: bool,
    /// Microseconds left of the season.
    pub remaining: u64,
    pub day: u32,
    /// How many droughts have come; each is longer than the one before.
    pub cycle: u32,
    /// Microseconds of the day that have passed.
    pub day_timer: u64,
}

/// Seconds that the drought of a cycle lasts.
pub open spec fn drought_secs(cycle: int) -> int {
    if 20 + 8 * cycle > 55 {
        55
    } else {
        20 + 8 * cycle
    }
}

/// Seconds that the wet season of a cycle lasts.
pub open spec fn wet_secs(cycle: int) -> int {
    if 90 - 4 * cycle < 60 {
        60
    } else {
        90 - 4 * cycle
    }
}

impl Season {
    /// Seconds that the drought of a cycle lasts: each bites harder.
    pub fn drought_length(cycle: u32) -> (r: u32)
        ensures
            r == drought_secs(cycle as int),
    {
        if cycle >= 5 {
            55
        } else {
            20 + 8 * cycle
        }
    }

    /// Seconds that the wet season of a cycle lasts.
    pub fn wet_length(cycle: u32) -> (r: u32)
        ensures
            r == wet_secs(cycle as int),
    {
        if cycle >= 8 {
            60
        } else {
            90 - 4 * cycle
        }
    }

    /// Seconds that the next drought will last, which is what the forecast
    /// runs through.
    pub fn next_drought_length(&self) -> (r: u32)
        ensures
            r == drought_secs(
                self.cycle + if self.drought {
                    0int
                } else {
                    1
                },
            ),
    {
        if self.drought || self.cycle == u32::MAX {
            Season::drought_length(self.cycle)
        } else {
            Season::drought_length(self.cycle + 1)
        }
    }

    /// The first wet season of a colony.
    pub fn new() -> (r: Season)
        ensures
            r == (Season {
                drought: false,
                remaining: 90_000_000,
                day: 1,
                cycle: 0,
                day_timer: 0,
            }),
    {
        Season { drought: false, remaining: 90_000_000, day: 1, cycle: 0, day_timer: 0 }
    }

    /// The season after `dt` microseconds.
    pub open spec fn advanced(self, dt: u32) -> Season {
        let turns = self.remaining <= dt;
        let drought = if turns {
            !self.drought
        } else {
            self.drought
        };
        let cycle = if turns && drought {
            self.cycle + 1
        } else {
            self.cycle as int
        };
        let dawn = self.day_timer + dt >= DAY_LENGTH;
        Season {
            drought,
            remaining: if !turns {
                (self.remaining - dt) as u64
            } else if drought {
                (drought_secs(cycle) * 1_000_000) as u64
            } else {
                (wet_secs(cycle) * 1_000_000) as u64
            },
            day: (self.day + if dawn {
                1int
            } else {
                0
            }) as u32,
            cycle: cycle as u32,
            day_timer: (self.day_timer + dt - if dawn {
                DAY_LENGTH as int
            } else {
                0
            }) as u64,
        }
    }
}

/// Let `dt` microseconds pass.
pub fn advance_season(season: &mut Season, dt: u32)
    requires
        old(season).cycle < u32::MAX,
        old(season).day < u32::MAX,
        old(season).day_timer <= u64::MAX - dt,
    ensures
        *final(season) == old(season).advanced(dt),
{
    if season.remaining <= dt as u64 {
        season.drought = !season.drought;
        if season.drought {
            season.cycle = season.cycle + 1;
            season.remaining = Season::drought_length(season.cycle) as u64 * 1_000_000;
        } else {
            season.remaining = Season::wet_length(season.cycle) as u64 * 1_000_000;
        }
    } else {
        season.remaining = season.remaining - dt as u64;
    }
    season.day_timer = season.day_timer + dt as u64;
    if season.day_timer >= DAY_LENGTH {
        season.day_timer = season.day_timer - DAY_LENGTH;
        season.day = season.day + 1;
    }
}

/// The time since the last forecast after `dt` more, and the tick of the
/// forecast, which moves when one is due.
pub open spec fn forecast_counted(accumulated: u64, tick: u32, dt: u32) -> (u64, u32) {
    if accumulated + dt < FORECAST_EVERY {
        ((accumulated + dt) as u64, tick)
    } else if tick == u32::MAX {
        (0, 0)
    } else {
        (0, (tick + 1) as u32)
    }
}

/// Count towards the next forecast; the tick moves when one is due.
pub fn bump_forecast_tick(accumulated: &mut u64, tick: &mut u32, dt: u32)
    requires
        *old(accumulated) <= u64::MAX - dt,
    ensures
        (*final(accumulated), *final(tick)) == forecast_counted(
            *old(accumulated),
            *old(tick),
            dt,
        ),
        ({
            let due = *old(accumulated) + dt >= FORECAST_EVERY;
            &&& *final(accumulated) == if due {
                0
            } else {
                *old(accumulated) + dt
            }
            &&& *final(tick) == if due {
                if *old(tick) == u32::MAX {
                    0
                } else {
                    *old(tick) + 1
                }
            } else {
                *old(tick) as int
            }
        }),
{
    *accumulated = *accumulated + dt as u64;
    if *accumulated >= FORECAST_EVERY {
        *accumulated = 0;
        *tick = if *tick == u32::MAX {
            0
        } else {
            *tick + 1
        };
    }
}

/// Droughts escalate and wet seasons shrink, up to their limits.
pub proof fn droughts_escalate(a: int, b: int)
    requires
        0 <= a <= b,
    ensures
        drought_secs(a) <= drought_secs(b) <= 55,
        60 <= wet_secs(b) <= wet_secs(a),
        a < b && a <= 4 ==> drought_secs(a) < drought_secs(b),
        a < b && a <= 7 ==> wet_secs(b) < wet_secs(a),
{
}

/// Each drought is announced: what is told to be the length of the next
/// drought is the length that it has when it comes.
pub proof fn the_next_drought_is_the_announced_one(season: Season, dt: u32)
    requires
        !season.drought,
        season.remaining <= dt,
        season.cycle < u32::MAX,
    ensures
        season.advanced(dt).drought,
        season.advanced(dt).remaining == drought_secs(season.cycle + 1) * 1_000_000,
{
}

/// How many beavers there are, and how many have a home.
#[derive(Clone, Copy, PartialEq, Eq, Structural, Debug)]
pub struct Population {
    pub count: u32,
    pub cap: u32,
}

/// The lifetime of a colony: whether it ever lived, and how large it grew.
#[derive(Clone, Copy, PartialEq, Eq, Structural, Debug)]
pub struct ColonyStats {
    pub started: bool,
    pub peak: u32,
}

impl ColonyStats {
    /// The record once the colony has been seen with so many beavers.
    pub open spec fn kept(self, count: u32) -> ColonyStats {
        if count == 0 {
            self
        } else if self.peak >= count {
            ColonyStats { started: true, peak: self.peak }
        } else {
            ColonyStats { started: true, peak: count }
        }
    }

    /// Has a colony with this record fallen, if it has so many beavers?
    pub open spec fn fallen(self, count: u32) -> bool {
        self.started && count == 0
    }
}

/// Keep the record. A colony that had beavers and has none has fallen: then
/// the answer is `true`, the clock stops and the game is over.
pub fn check_colony_fell(population: &Population, stats: &mut ColonyStats) -> (fell: bool)
    ensures
        fell == old(stats).fallen(population.count),
        *final(stats) == old(stats).kept(population.count),
        fell == (population.count == 0 && old(stats).started),
        *final(stats) == if population.count > 0 {
            ColonyStats {
                started: true,
                peak: if old(stats).peak >= population.count {
                    old(stats).peak
                } else {
                    population.count
                },
            }
        } else {
            *old(stats)
        },
{
    if population.count > 0 {
        stats.started = true;
        if stats.peak < population.count {
            stats.peak = population.count;
        }
        false
    } else {
        stats.started
    }
}

/// The game's clock: does it run, and how many times as fast as real time?
#[derive(Clone, Copy, PartialEq, Eq, Structural, Debug)]
pub struct Clock {
    pub paused: bool,
    pub speed: u32,
}

/// The keys that were just pressed, as far as the clock goes by them.
#[derive(Clone, Copy, PartialEq, Eq, Structural, Debug)]
pub struct SpeedKeys {
    pub space: bool,
    pub one: bool,
    pub two: bool,
    pub three: bool,
}

impl Clock {
    /// The clock after these keys. Space toggles the pause; a digit sets the
    /// speed and lets the clock run, the last digit winning.
    pub open spec fn keyed(self, keys: SpeedKeys) -> Clock {
        if keys.three {
            Clock { paused: false, speed: 4 }
        } else if keys.two {
            Clock { paused: false, speed: 2 }
        } else if keys.one {
            Clock { paused: false, speed: 1 }
        } else if keys.space {
            Clock { paused: !self.paused, speed: self.speed }
        } else {
            self
        }
    }
}

/// Space pauses, digits set the speed. While the menu is open the keys do
/// nothing: they must not let the colony run behind a screen that says it is
/// paused.
pub fn game_speed_hotkeys(menu_open: bool, keys: SpeedKeys, clock: &mut Clock)
    ensures
        *final(clock) == if menu_open {
            *old(clock)
        } else {
            old(clock).keyed(keys)
        },
{
    if menu_open {
        return;
    }
    if keys.space {
        clock.paused = !clock.paused;
    }
    if keys.one {
        clock.speed = 1;
        clock.paused = false;
    }
    if keys.two {
        clock.speed = 2;
        clock.paused = false;
    }
    if keys.three {
        clock.speed = 4;
        clock.paused = false;
    }
}

} // verus!
