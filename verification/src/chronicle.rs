//! The chronicle of the colony: a line for every day, written at dawn.
use vstd::prelude::*;
use vstd::string::StringExecFns;

use crate::sim::season::{Population, Season};
use crate::sim::stock::Stockpile;
use crate::text::{push_number, push_signed};

verus! {

/// How many of the last lines are shown.
pub const SHOWN: usize = 3;

/// The lines written so far.
pub struct Chronicle(pub Vec<String>);

/// The texts of the lines.
pub open spec fn texts(lines: Seq<String>) -> Seq<Seq<char>> {
    Seq::new(lines.len(), |i: int| lines[i]@)
}

impl View for Chronicle {
    type V = Seq<Seq<char>>;

    open spec fn view(&self) -> Seq<Seq<char>> {
        texts(self.0@)
    }
}

/// Whole units in so many halves, without the fraction.
pub open spec fn whole(halves: i64) -> int {
    if halves >= 0 {
        halves as int / 2
    } else {
        -((-halves) / 2)
    }
}

fn whole_of(halves: i64) -> (r: i64)
    ensures
        r == whole(halves),
{
    if halves >= 0 {
        halves / 2
    } else if halves == i64::MIN {
        -0x4000_0000_0000_0000
    } else {
        -((-halves) / 2)
    }
}

/// Millionths as a percentage, rounded; a half goes to the even number.
pub open spec fn rounded_percent(millionths: u32) -> int {
    let low = millionths as int / 10_000;
    let rest = millionths as int % 10_000;
    if rest > 5_000 || (rest == 5_000 && low % 2 == 1) {
        low + 1
    } else {
        low
    }
}

/// How the season is told of: the drought, or else what the forecast says.
pub open spec fn season_words(drought: bool, forecast: Option<u32>) -> Seq<char> {
    if drought {
        " · enduring drought"@
    } else {
        match forecast {
            Some(f) => " · drought outlook "@ + crate::text::decimal(rounded_percent(f) as nat)
                + "%"@,
            None => seq![],
        }
    }
}

/// The line for a day.
pub fn day_line(
    day: u32,
    population: &Population,
    stock: &Stockpile,
    season: &Season,
    forecast: Option<u32>,
) -> (r: String)
    ensures
        r@ == "Day "@ + crate::text::decimal(day as nat) + ": "@ + crate::text::decimal(
            population.count as nat,
        ) + " beavers · "@ + crate::text::signed(whole(stock.logs)) + " logs · "@
            + crate::text::signed(whole(stock.food)) + " food"@ + season_words(
            season.drought,
            forecast,
        ),
{
    let mut r = "Day ".to_owned();
    push_number(&mut r, day as u64);
    r.append(": ");
    push_number(&mut r, population.count as u64);
    r.append(" beavers · ");
    push_signed(&mut r, whole_of(stock.logs));
    r.append(" logs · ");
    push_signed(&mut r, whole_of(stock.food));
    r.append(" food");
    let ghost before = r@;
    if season.drought {
        r.append(" · enduring drought");
    } else if let Some(f) = forecast {
        r.append(" · drought outlook ");
        let low: u32 = f / 10_000;
        let rest: u32 = f % 10_000;
        if rest > 5_000 || (rest == 5_000 && low % 2 == 1) {
            push_number(&mut r, low as u64 + 1);
        } else {
            push_number(&mut r, low as u64);
        }
        r.append("%");
    }
    assert(r@ =~= before + season_words(season.drought, forecast));
    r
}

/// Is a line due? One is at the dawn of every day but the first. `last` is the
/// day that was seen last.
pub fn feed_days(day: u32, last: &mut u32) -> (r: Option<u32>)
    ensures
        *final(last) == day,
        r == if day != *old(last) && day > 1 {
            Some(day)
        } else {
            None
        },
{
    if day != *last {
        *last = day;
        if day > 1 {
            return Some(day);
        }
    }
    None
}

/// Lines one below the other.
pub open spec fn joined(lines: Seq<Seq<char>>) -> Seq<char>
    decreases lines.len(),
{
    if lines.len() == 0 {
        seq![]
    } else if lines.len() == 1 {
        lines[0]
    } else {
        joined(lines.drop_last()) + "\n"@ + lines.last()
    }
}

/// The last lines, as many as are shown.
pub open spec fn last_lines(lines: Seq<Seq<char>>) -> Seq<Seq<char>> {
    if lines.len() > SHOWN {
        lines.skip(lines.len() - SHOWN)
    } else {
        lines
    }
}

impl Chronicle {
    /// Nothing is written yet.
    pub fn new() -> (r: Chronicle)
        ensures
            r@ == Seq::<Seq<char>>::empty(),
    {
        let r = Chronicle(Vec::new());
        assert(r@ =~= Seq::<Seq<char>>::empty());
        r
    }

    /// Write a line.
    pub fn write(&mut self, line: String)
        ensures
            final(self)@ == old(self)@.push(line@),
    {
        self.0.push(line);
        assert(self@ =~= old(self)@.push(line@));
    }

    /// Begin anew.
    pub fn clear(&mut self)
        ensures
            final(self)@ == Seq::<Seq<char>>::empty(),
    {
        self.0.clear();
        assert(self@ =~= Seq::<Seq<char>>::empty());
    }

    /// What is shown: the last lines.
    pub fn recent(&self) -> (r: String)
        ensures
            r@ == joined(last_lines(self@)),
    {
        let n: usize = self.0.len();
        let start: usize = if n > SHOWN {
            n - SHOWN
        } else {
            0
        };
        let mut r = String::new();
        let mut i: usize = start;
        let ghost shown = last_lines(self@);
        proof {
            assert(shown.take(0) =~= seq![]);
            assert(r@ =~= joined(shown.take(0)));
        }
        while i < n
            invariant
                n == self.0@.len(),
                start <= i <= n,
                start == if n > SHOWN {
                    n - SHOWN
                } else {
                    0
                },
                shown == last_lines(self@),
                r@ == joined(shown.take(i - start)),
            decreases n - i,
        {
            let ghost k = i - start;
            proof {
                assert(shown.take(k + 1).drop_last() =~= shown.take(k));
                assert(shown.take(k + 1).last() == self.0@[i as int]@);
            }
            if i > start {
                r.append("\n");
            } else {
                assert(shown.take(0) =~= seq![]);
            }
            r.append(self.0[i].as_str());
            proof {
                if k == 0 {
                    assert(r@ =~= shown.take(1)[0]);
                }
            }
            i += 1;
        }
        assert(shown.take(n - start) =~= shown);
        r
    }
}

/// What was written last is shown, below the two lines before it.
pub proof fn the_last_line_is_shown(lines: Seq<Seq<char>>, line: Seq<char>)
    ensures
        last_lines(lines.push(line)) == if lines.len() < SHOWN {
            lines.push(line)
        } else {
            seq![lines[lines.len() - 2], lines[lines.len() - 1], line]
        },
{
    if lines.len() >= SHOWN {
        assert(last_lines(lines.push(line)) =~= seq![
            lines[lines.len() - 2],
            lines[lines.len() - 1],
            line,
        ]);
    }
}

} // verus!
