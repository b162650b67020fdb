//! How buildings post their jobs, one after another.
use vstd::prelude::*;

use crate::sim::beavers::JobRow;
use crate::sim::buildings::BuildingRow;
use crate::sim::map::MapView;
use crate::sim::trees::TreeRow;

verus! {

/// Buildings post one after another; each takes the next number from the end of
/// those that are free, and no building is touched but the one that posts.
pub proof fn buildings_post_in_turn(
    map: MapView,
    trees: Seq<TreeRow>,
    alive: Seq<u64>,
    rows: Seq<BuildingRow>,
    fresh: Seq<u64>,
    dt: u32,
    n: nat,
    now: Seq<BuildingRow>,
    posts: Seq<JobRow>,
    row: BuildingRow,
    post: Option<JobRow>,
)
    requires
        n < rows.len(),
        (now, posts) == crate::sim::production::posted_upto(
            map,
            trees,
            alive,
            rows,
            fresh,
            dt,
            n,
        ),
        (row, post) == crate::sim::production::worked(
            map,
            trees,
            alive,
            rows[n as int],
            dt,
            fresh[fresh.len() - 1 - posts.len()],
        ),
    ensures
        n == 0 ==> now == rows && posts.len() == 0,
        crate::sim::production::posted_upto(map, trees, alive, rows, fresh, dt, (n + 1) as nat).0
            == now.update(n as int, row),
        crate::sim::production::posted_upto(map, trees, alive, rows, fresh, dt, (n + 1) as nat).1
            == match post {
            Some(job) => posts.push(job),
            None => posts,
        },
{
}

} // verus!
