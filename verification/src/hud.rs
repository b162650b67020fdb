//! What the player reads on the screen.
use vstd::prelude::*;
use vstd::string::StringExecFns;

use crate::async_value::AsyncValue;
use crate::interact::Tool;
use crate::sim::buildings::{def, BuildingKind, UnderConstruction};
use crate::sim::season::{ColonyStats, Population, Season};
use crate::sim::stock::Stockpile;
use crate::text::{push_number, push_signed};

verus! {

/// Whole units in so many halves, rounded down.
pub open spec fn units(halves: i64) -> int {
    halves as int / 2
}

fn units_of(halves: i64) -> (r: i64)
    ensures
        r == units(halves),
{
    if halves >= 0 {
        halves / 2
    } else if halves == i64::MIN {
        -0x4000_0000_0000_0000
    } else {
        -((-halves) / 2 + (-halves) % 2)
    }
}

/// What is in store.
pub fn stock_text(stock: &Stockpile) -> (r: String)
    ensures
        r@ == "Logs "@ + crate::text::signed(units(stock.logs)) + "    Food "@
            + crate::text::signed(units(stock.food)) + "    Water "@ + crate::text::signed(
            units(stock.water),
        ),
{
    let mut r = "Logs ".to_owned();
    push_signed(&mut r, units_of(stock.logs));
    r.append("    Food ");
    push_signed(&mut r, units_of(stock.food));
    r.append("    Water ");
    push_signed(&mut r, units_of(stock.water));
    r
}

/// How many beavers there are, and how many have a home.
pub fn population_text(population: &Population) -> (r: String)
    ensures
        r@ == "Beavers "@ + crate::text::decimal(population.count as nat) + "/"@
            + crate::text::decimal(population.cap as nat),
{
    let mut r = "Beavers ".to_owned();
    push_number(&mut r, population.count as u64);
    r.append("/");
    push_number(&mut r, population.cap as u64);
    r
}

/// Seconds, rounded up, as far as they can be counted.
pub open spec fn seconds(micros: u64) -> u32 {
    let s = (micros + 999_999) / 1_000_000;
    if s > u32::MAX {
        u32::MAX
    } else {
        s as u32
    }
}

/// What the calendar shows; it is drawn anew only when this changes, though
/// time passes at every frame.
pub fn calendar_key(season: &Season) -> (r: (u32, bool, u32))
    ensures
        r == (season.day, season.drought, seconds(season.remaining)),
{
    let whole: u64 = season.remaining / 1_000_000;
    let s: u64 = if season.remaining % 1_000_000 > 0 {
        whole + 1
    } else {
        whole
    };
    let s: u32 = if s > u32::MAX as u64 {
        u32::MAX
    } else {
        s as u32
    };
    (season.day, season.drought, s)
}

/// The calendar: the day, the season, and how much is left of it.
pub open spec fn calendar(key: (u32, bool, u32)) -> Seq<char> {
    if key.1 {
        "Day "@ + crate::text::decimal(key.0 as nat) + "  ·  DROUGHT  "@ + crate::text::decimal(
            key.2 as nat,
        ) + "s left"@
    } else {
        "Day "@ + crate::text::decimal(key.0 as nat) + "  ·  Wet season  "@ + crate::text::decimal(
            key.2 as nat,
        ) + "s"@
    }
}

/// The calendar of a season.
pub fn season_text(season: &Season) -> (r: String)
    ensures
        r@ == calendar((season.day, season.drought, seconds(season.remaining))),
{
    let key = calendar_key(season);
    let mut r = "Day ".to_owned();
    push_number(&mut r, key.0 as u64);
    if key.1 {
        r.append("  ·  DROUGHT  ");
    } else {
        r.append("  ·  Wet season  ");
    }
    push_number(&mut r, key.2 as u64);
    if key.1 {
        r.append("s left");
    } else {
        r.append("s");
    }
    r
}

/// How grave a forecast is.
#[derive(Clone, Copy, PartialEq, Eq, Structural, Debug)]
pub enum Outlook {
    Unknown,
    Good,
    Fair,
    Poor,
}

/// The outlook for so many millionths of the water.
pub open spec fn outlook(retention: Option<u32>) -> Outlook {
    match retention {
        None => Outlook::Unknown,
        Some(r) => if r > 500_000 {
            Outlook::Good
        } else if r > 200_000 {
            Outlook::Fair
        } else {
            Outlook::Poor
        },
    }
}

/// Millionths as a percentage, rounded, halves up.
pub open spec fn percent(millionths: u32) -> int {
    (millionths + 5_000) / 10_000
}

/// The drought forecast, given in millionths of the water that survive.
pub fn forecast_text(value: &AsyncValue<u32>) -> (r: (String, Outlook))
    ensures
        r.1 == outlook(value.content()),
        r.0@ == match value.content() {
            None => "Forecast …"@,
            Some(f) => "Drought forecast: "@ + crate::text::decimal(percent(f) as nat)
                + "% water survives"@,
        },
{
    match value {
        AsyncValue::Pending => ("Forecast …".to_owned(), Outlook::Unknown),
        AsyncValue::Ready(f) => {
            let f: u32 = *f;
            let mut r = "Drought forecast: ".to_owned();
            push_number(&mut r, (f as u64 + 5_000) / 10_000);
            r.append("% water survives");
            let look = if f > 500_000 {
                Outlook::Good
            } else if f > 200_000 {
                Outlook::Fair
            } else {
                Outlook::Poor
            };
            (r, look)
        },
    }
}

/// What the player is warned of.
#[derive(Clone, Copy, PartialEq, Eq, Structural, Debug)]
pub enum Warning {
    Drought,
    NoFood,
    NoWater,
    HousingFull,
    Starving,
}

impl Warning {
    pub open spec fn number(self) -> u64 {
        match self {
            Warning::Drought => 1,
            Warning::NoFood => 2,
            Warning::NoWater => 3,
            Warning::HousingFull => 4,
            Warning::Starving => 5,
        }
    }

    /// The key under which the warning is listed.
    pub fn key(&self) -> (r: u64)
        ensures
            r == self.number(),
    {
        match self {
            Warning::Drought => 1,
            Warning::NoFood => 2,
            Warning::NoWater => 3,
            Warning::HousingFull => 4,
            Warning::Starving => 5,
        }
    }

    pub open spec fn words(self) -> Seq<char> {
        match self {
            Warning::Drought => "Drought — the river has stopped, water is evaporating"@,
            Warning::NoFood => "No food!"@,
            Warning::NoWater => "No drinking water!"@,
            Warning::HousingFull => "Housing is full — build a lodge"@,
            Warning::Starving => "Beavers are starving!"@,
        }
    }

    pub fn text(&self) -> (r: &'static str)
        ensures
            r@ == self.words(),
    {
        match self {
            Warning::Drought => "Drought — the river has stopped, water is evaporating",
            Warning::NoFood => "No food!",
            Warning::NoWater => "No drinking water!",
            Warning::HousingFull => "Housing is full — build a lodge",
            Warning::Starving => "Beavers are starving!",
        }
    }
}

/// The warning, if there is reason for it.
pub open spec fn if_so(reason: bool, w: Warning) -> Seq<Warning> {
    if reason {
        seq![w]
    } else {
        seq![]
    }
}

/// All that there is reason to warn of.
pub open spec fn due_warnings(
    season: Season,
    stock: Stockpile,
    pop: Population,
    starving: u32,
) -> Seq<Warning> {
    if_so(season.drought, Warning::Drought) + if_so(
        stock.food < 2 && pop.count > 0,
        Warning::NoFood,
    ) + if_so(stock.water < 2 && pop.count > 0, Warning::NoWater) + if_so(
        pop.count >= pop.cap,
        Warning::HousingFull,
    ) + if_so(starving > 0, Warning::Starving)
}

fn warn_if(list: &mut Vec<Warning>, reason: bool, w: Warning)
    ensures
        final(list)@ == old(list)@ + if_so(reason, w),
{
    if reason {
        list.push(w);
    }
    assert(list@ =~= old(list)@ + if_so(reason, w));
}

pub fn warnings(
    season: &Season,
    stock: &Stockpile,
    population: &Population,
    starving: u32,
) -> (r: Vec<Warning>)
    ensures
        r@ == due_warnings(*season, *stock, *population, starving),
{
    let mut r: Vec<Warning> = Vec::new();
    warn_if(&mut r, season.drought, Warning::Drought);
    warn_if(&mut r, stock.food < 2 && population.count > 0, Warning::NoFood);
    warn_if(&mut r, stock.water < 2 && population.count > 0, Warning::NoWater);
    warn_if(&mut r, population.count >= population.cap, Warning::HousingFull);
    warn_if(&mut r, starving > 0, Warning::Starving);
    assert(r@ =~= due_warnings(*season, *stock, *population, starving));
    r
}

/// No two warnings of a list have the same key, so that each keeps its own
/// place on the screen.
pub proof fn warnings_have_their_own_keys(
    season: Season,
    stock: Stockpile,
    pop: Population,
    starving: u32,
    i: int,
    j: int,
)
    requires
        0 <= i < j < due_warnings(season, stock, pop, starving).len(),
    ensures
        due_warnings(season, stock, pop, starving)[i].number() < due_warnings(
            season,
            stock,
            pop,
            starving,
        )[j].number(),
{
    let a = if_so(season.drought, Warning::Drought);
    let b = if_so(stock.food < 2 && pop.count > 0, Warning::NoFood);
    let c = if_so(stock.water < 2 && pop.count > 0, Warning::NoWater);
    let d = if_so(pop.count >= pop.cap, Warning::HousingFull);
    let e = if_so(starving > 0, Warning::Starving);
    assert(due_warnings(season, stock, pop, starving) =~= a + b + c + d + e);
}

/// How a button of the build menu looks.
#[derive(Clone, Copy, PartialEq, Eq, Structural, Debug)]
pub enum ButtonLook {
    Active,
    Affordable,
    TooDear,
}

/// The look of the button for a kind of building: whether it is the tool in
/// hand, and else whether it can be paid.
pub fn button_look(tool: Tool, stock: &Stockpile, kind: BuildingKind) -> (r: ButtonLook)
    ensures
        r == if tool == Tool::Build(kind) {
            ButtonLook::Active
        } else if stock.logs >= kind.cost() {
            ButtonLook::Affordable
        } else {
            ButtonLook::TooDear
        },
{
    let d = def(kind);
    if tool == Tool::Build(kind) {
        ButtonLook::Active
    } else if stock.logs >= d.cost_logs {
        ButtonLook::Affordable
    } else {
        ButtonLook::TooDear
    }
}

/// What the button says of the cost.
pub fn cost_text(kind: BuildingKind) -> (r: String)
    ensures
        r@ == crate::text::signed(units(kind.cost())) + " logs"@,
{
    let d = def(kind);
    let mut r = String::new();
    push_signed(&mut r, units_of(d.cost_logs));
    r.append(" logs");
    r
}

/// How far the building is, in percent; one that is not done is shown short of
/// a hundred.
pub open spec fn progress(site: UnderConstruction) -> int {
    if site.required == 0 {
        if site.done == 0 {
            0
        } else {
            99
        }
    } else if site.done * 100 / (site.required as int) > 99 {
        99
    } else {
        site.done * 100 / (site.required as int)
    }
}

pub fn progress_of(site: &UnderConstruction) -> (r: u32)
    ensures
        r == progress(*site),
        r <= 99,
{
    if site.required == 0 {
        return if site.done == 0 {
            0
        } else {
            99
        };
    }
    let p: u128 = site.done as u128 * 100 / site.required as u128;
    assert(p == site.done * 100 / (site.required as int));
    if p > 99 {
        99
    } else {
        p as u32
    }
}

/// What is said of a building's state.
pub fn status_text(site: Option<UnderConstruction>) -> (r: String)
    ensures
        r@ == match site {
            Some(s) => "Under construction — "@ + crate::text::decimal(progress(s) as nat) + "%"@,
            None => "Operational"@,
        },
{
    match site {
        Some(s) => {
            let mut r = "Under construction — ".to_owned();
            push_number(&mut r, progress_of(&s) as u64);
            r.append("%");
            r
        },
        None => "Operational".to_owned(),
    }
}

/// The line under the menu's title.
pub fn menu_text(day: u32, beavers: u32) -> (r: String)
    ensures
        r@ == "Day "@ + crate::text::decimal(day as nat) + " · "@ + crate::text::decimal(
            beavers as nat,
        ) + " beavers"@,
{
    let mut r = "Day ".to_owned();
    push_number(&mut r, day as u64);
    r.append(" · ");
    push_number(&mut r, beavers as u64);
    r.append(" beavers");
    r
}

/// The droughts that an epitaph counts: those that have come, and one less if
/// none is on.
pub open spec fn droughts_endured(season: Season) -> nat {
    if season.drought {
        season.cycle as nat
    } else if season.cycle == 0 {
        0
    } else {
        (season.cycle - 1) as nat
    }
}

/// What is said of a colony that fell.
pub fn epitaph(season: &Season, stats: &ColonyStats) -> (r: String)
    ensures
        r@ == "The colony fell on day "@ + crate::text::decimal(season.day as nat) + " — "@
            + crate::text::decimal(stats.peak as nat) + " beavers at its height, "@
            + crate::text::decimal(droughts_endured(*season)) + " droughts endured"@,
{
    let endured: u32 = if season.drought {
        season.cycle
    } else if season.cycle == 0 {
        0
    } else {
        season.cycle - 1
    };
    let mut r = "The colony fell on day ".to_owned();
    push_number(&mut r, season.day as u64);
    r.append(" — ");
    push_number(&mut r, stats.peak as u64);
    r.append(" beavers at its height, ");
    push_number(&mut r, endured as u64);
    r.append(" droughts endured");
    r
}

} // verus!
