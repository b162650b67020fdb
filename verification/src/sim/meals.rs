//! What beavers need, and what it costs the stores, told by counting.
use vstd::prelude::*;

use crate::sim::beavers::{Beaver, BeaverRow, NeedEvent, Needs};
use crate::sim::stock::Stockpile;

verus! {

/// The beavers once all have been seen to, each in its turn.
pub open spec fn seen_to(start: Needs, rows: Seq<BeaverRow>, dt: u32) -> Seq<BeaverRow> {
    Seq::new(
        rows.len(),
        |i: int|
            BeaverRow {
                beaver: rows[i].beaver.lived(start.met_upto(rows, dt, i as nat).stock, dt),
                ..rows[i]
            },
    )
}

/// Meals are paid for, store by store: what is missing from the water store
/// after the first `n` beavers have been seen to is two halves for each of them
/// whose thirst was due and is gone, and from the food store two for each whose
/// hunger was due and is gone. No other store is touched.
pub proof fn meals_are_paid_for(start: Needs, rows: Seq<BeaverRow>, dt: u32, n: nat)
    requires
        crate::sim::beavers::all_alive(rows),
        n <= rows.len(),
    ensures
        ({
            let after = seen_to(start, rows, dt);
            let end = start.met_upto(rows, dt, n);
            let drank = Seq::new(n, |k: int| k).filter(
                |k: int| rows[k].beaver.thirst + dt >= 30_000_000 && after[k].beaver.thirst == 0,
            );
            let ate = Seq::new(n, |k: int| k).filter(
                |k: int| rows[k].beaver.hunger + dt >= 35_000_000 && after[k].beaver.hunger == 0,
            );
            &&& start.stock.water - end.stock.water == 2 * drank.len()
            &&& start.stock.food - end.stock.food == 2 * ate.len()
            &&& end.stock.logs == start.stock.logs
            &&& start.stock.water >= 0 ==> end.stock.water >= 0
            &&& start.stock.food >= 0 ==> end.stock.food >= 0
        }),
    decreases n,
{
    reveal(Seq::filter);
    if n > 0 {
        let m = (n - 1) as nat;
        meals_are_paid_for(start, rows, dt, m);
        let all = Seq::new(n, |k: int| k);
        assert(all.drop_last() =~= Seq::new(m, |k: int| k));
        assert(all.last() == n - 1);
        assert(rows[n - 1].beaver.wf());
    }
}

/// A need that is not due grows by the time that passes. One that is due, after
/// half a minute for thirst and thirty-five seconds for hunger, is gone if the
/// store has a unit for it, and else stays due.
pub proof fn needs_grow_until_they_are_met(beaver: Beaver, stock: Stockpile, dt: u32)
    requires
        beaver.wf(),
    ensures
        ({
            let after = beaver.lived(stock, dt);
            &&& after.state == beaver.state
            &&& beaver.hunger + dt < 35_000_000 ==> after.hunger == beaver.hunger + dt
            &&& beaver.hunger + dt >= 35_000_000 && stock.food >= 2 ==> after.hunger == 0
            &&& beaver.hunger + dt >= 35_000_000 && stock.food < 2 ==> after.hunger == 35_000_000
            &&& beaver.thirst + dt < 30_000_000 ==> after.thirst == beaver.thirst + dt
            &&& beaver.thirst + dt >= 30_000_000 && stock.water >= 2 ==> after.thirst == 0
            &&& beaver.thirst + dt >= 30_000_000 && stock.water < 2 ==> after.thirst == 30_000_000
        }),
{
}

/// A beaver that lacks food or water that is due starves for the time that
/// passes, and dies once that is more than forty-five seconds; one that lacks
/// nothing starves no longer.
pub proof fn want_kills_after_its_time(beaver: Beaver, stock: Stockpile, dt: u32)
    requires
        beaver.wf(),
    ensures
        ({
            let lacks = (beaver.hunger + dt >= 35_000_000 && stock.food < 2) || (beaver.thirst + dt
                >= 30_000_000 && stock.water < 2);
            &&& beaver.lived(stock, dt).starving == if lacks {
                beaver.starving + dt
            } else {
                0
            }
            &&& beaver.dies(stock, dt) <==> lacks && beaver.starving + dt > 45_000_000
        }),
{
}

/// Of each beaver it is told when want begins, when it ends and when it kills,
/// after all that was told before; and those in want are counted up and down
/// with it.
pub proof fn wants_are_told(needs: Needs, row: BeaverRow, dt: u32)
    requires
        row.beaver.wf(),
        needs.starving < u32::MAX,
        row.beaver.starving > 0 ==> needs.starving > 0,
    ensures
        ({
            let b = row.beaver;
            let lacks = (b.hunger + dt >= 35_000_000 && needs.stock.food < 2) || (b.thirst + dt
                >= 30_000_000 && needs.stock.water < 2);
            let begins = lacks && b.starving == 0;
            let ends = !lacks && b.starving > 0;
            let kills = lacks && b.starving + dt > 45_000_000;
            let after = needs.met(row, dt);
            &&& after.events == needs.events + (if begins {
                seq![NeedEvent::Starves(row.id)]
            } else {
                Seq::empty()
            }) + (if kills {
                seq![NeedEvent::Dies(row.id)]
            } else {
                Seq::empty()
            }) + (if ends {
                seq![NeedEvent::Recovers(row.id)]
            } else {
                Seq::empty()
            })
            &&& after.starving == needs.starving + (if begins {
                1int
            } else {
                0
            }) - (if kills {
                1int
            } else {
                0
            }) - (if ends {
                1int
            } else {
                0
            })
        }),
{
    let b = row.beaver;
    let after = needs.met(row, dt);
    let none = Seq::<NeedEvent>::empty();
    let lacks = (b.hunger + dt >= 35_000_000 && needs.stock.food < 2) || (b.thirst + dt
        >= 30_000_000 && needs.stock.water < 2);
    let begins = lacks && b.starving == 0;
    let ends = !lacks && b.starving > 0;
    let kills = lacks && b.starving + dt > 45_000_000;
    assert(after.events =~= needs.events + (if begins {
        seq![NeedEvent::Starves(row.id)]
    } else {
        none
    }) + (if kills {
        seq![NeedEvent::Dies(row.id)]
    } else {
        none
    }) + (if ends {
        seq![NeedEvent::Recovers(row.id)]
    } else {
        none
    }));
}

/// Beavers are seen to one after another, each from what those before it have
/// left in the stores.
pub proof fn beavers_are_seen_to_in_turn(start: Needs, rows: Seq<BeaverRow>, dt: u32, n: nat)
    ensures
        start.met_upto(rows, dt, 0) == start,
        start.met_upto(rows, dt, (n + 1) as nat) == start.met_upto(rows, dt, n).met(
            rows[n as int],
            dt,
        ),
{
}

} // verus!
