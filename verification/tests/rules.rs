//! The rules of the colony, one by one, with exact values.
use beaver_builds::sim::beavers::{
    initial_colony, needs, spawn_beaver, validate_jobs, Beaver, BeaverRow, BeaverState,
    ComputedPath, Job, JobKind, JobRow, NeedEvent,
};
use beaver_builds::sim::buildings::{
    demolish, place_building, placement_error, Building, BuildingKind, BuildingRow,
    UnderConstruction, WorkCycle,
};
use beaver_builds::sim::buildings::BuildingKind::{
    CarrotFarm, Dam, Forester, Lodge, Lumberjack, WaterPump,
};
use beaver_builds::sim::claims::{claim_jobs, distance_squared, walk_grid, RouteRequest};
use beaver_builds::sim::crossing::plan_dam_crossing;
use beaver_builds::sim::demo::{choose_demo_building, line_between, DemoGovernor};
use beaver_builds::sim::governor::{choose_building, govern, settle_for, Governor};
use beaver_builds::sim::map::{Pos, TileMap, TilePos};
use beaver_builds::sim::pathfind::{find_path, WalkGrid, BLOCKED, GRASS_COST, PATH_COST};
use beaver_builds::sim::production::{
    find_mature_tree, find_plant_spot, find_tree, lodge_spawning, post_production_jobs,
    tiles_in_radius, update_population,
};
use beaver_builds::sim::season::{
    advance_season, bump_forecast_tick, check_colony_fell, ColonyStats, Population, Season,
};
use beaver_builds::sim::sites::{colony_anchor, count_kind, count_sites, find_spot, first_kind};
use beaver_builds::sim::stock::{add_to, take_from, Stockpile};
use beaver_builds::sim::trees::{
    grow_trees, scatter_initial_trees, spawn_tree, Tree, TreeRow, MATURE,
};
use beaver_builds::sim::walking::{find_job, move_beavers, square_root};
use beaver_builds::sim::water::{
    flow_water, forecast_drought_retention, step_water, update_irrigation,
};
use beaver_builds::sim::work::{work_jobs, WorkEvent};
use beaver_builds::tick::{clamp_tick, MAX_CHANGE_AGE};

fn at(x: u32, y: u32) -> TilePos {
    TilePos { x, y }
}

fn flat(width: u32, height: u32, river: i32) -> TileMap {
    let levels = vec![1; (width * height) as usize];
    let middles = vec![river; width as usize];
    TileMap::generate_seeded(width, height, &levels, &middles)
}

fn built(id: u64, kind: BuildingKind, tile: TilePos) -> BuildingRow {
    BuildingRow {
        id,
        building: Building { kind, tile },
        construction: None,
        cycle: WorkCycle { cooldown: 0, job: None },
    }
}

fn job(id: u64, kind: JobKind, tile: TilePos, work: u64) -> JobRow {
    JobRow { id, job: Job { kind, tile, work, claimed_by: None } }
}

fn tree(id: u64, tile: TilePos, growth: u64) -> TreeRow {
    TreeRow { id, tree: Tree { tile, growth } }
}

#[test]
fn ticks_are_kept_within_the_greatest_age() {
    let mut young = 100;
    clamp_tick(&mut young, 100 + MAX_CHANGE_AGE);
    assert_eq!(young, 100);
    let mut old = 99;
    clamp_tick(&mut old, 100 + MAX_CHANGE_AGE);
    assert_eq!(old, 100);
    // Ages wrap round.
    let mut late = u32::MAX;
    clamp_tick(&mut late, 5);
    assert_eq!(late, u32::MAX);
}

#[test]
fn stores_do_not_wrap() {
    assert_eq!(add_to(i64::MAX, 1), i64::MAX);
    assert_eq!(take_from(i64::MIN, 1), i64::MIN);
    assert_eq!((add_to(3, 4), take_from(3, 4)), (7, -1));
}

#[test]
fn maps_are_carved_by_the_river() {
    let map = flat(5, 6, 3);
    assert_eq!(map.ground[map.idx(2, 1)], 1);
    for y in 2..=4 {
        assert!(map.is_river_bed(2, y));
    }
    assert!(map.has_water(2, 2) && map.has_water(2, 3) && !map.has_water(2, 4));
    assert!(map.source[map.idx(0, 2)] && map.source[map.idx(0, 3)]);
    assert!(!map.source[map.idx(0, 4)] && !map.source[map.idx(1, 2)]);
    assert!(map.drain[map.idx(4, 3)] && !map.drain[map.idx(4, 4)]);
    assert!(map.is_free_land(0, 0) && !map.is_free_land(0, 4));
    assert!(map.adjacent_to_water(1, 1) && map.adjacent_to_water(1, 4));
    assert!(!map.adjacent_to_water(1, 5));
    assert_eq!(map.wet_neighbor(1, 1), Some(at(1, 2)));
    assert_eq!(map.neighbors4(0, 0), vec![at(1, 0), at(0, 1)]);
    assert_eq!(map.neighbors4(1, 1), vec![at(2, 1), at(0, 1), at(1, 2), at(1, 0)]);
    assert!(map.in_bounds(0, 0) && !map.in_bounds(-1, 0) && !map.in_bounds(5, 0));
}

#[test]
fn rivers_stay_on_the_map() {
    let map = flat(3, 3, -5);
    assert!(map.is_river_bed(1, 0));
    assert!(!map.is_river_bed(1, 1));
    let map = flat(3, 3, 50);
    assert!(map.is_river_bed(1, 2));
}

#[test]
fn tiles_have_their_places_in_the_world() {
    let map = flat(5, 6, 3);
    assert_eq!(map.tile_center(0, 0), Pos { x: -2_000_000, y: 500_000, z: -2_500_000 });
    assert_eq!(map.tile_at(Pos { x: -2_500_000, y: 0, z: -3_000_000 }), Some(at(0, 0)));
    assert_eq!(map.tile_at(Pos { x: -2_500_001, y: 0, z: 0 }), None);
    assert_eq!(map.tile_at(map.tile_center(3, 4)), Some(at(3, 4)));
    assert_eq!(map.tile_at(Pos { x: 2_500_000, y: 0, z: 0 }), None);
}

#[test]
fn water_levels_out() {
    // Two tiles on level ground.
    let ground = vec![0, 0];
    let no = vec![false, false];
    let mut water = vec![1_000_000, 0];
    step_water(&ground, &no, &no, None, &mut water, 2, 1, 62_500, 0);
    assert_eq!(water, vec![875_000, 125_000]);
    // A dam keeps what stands lower than it.
    let dam = vec![false, true];
    let mut water = vec![1_000_000, 0];
    step_water(&ground, &dam, &no, None, &mut water, 2, 1, 62_500, 0);
    assert_eq!(water, vec![1_000_000, 0]);
    // A source fills up to its height; a drain and the sun take.
    let mut water = vec![900_000, 0];
    step_water(&ground, &dam, &no, Some(&vec![true, false]), &mut water, 2, 1, 62_500, 0);
    assert_eq!(water, vec![1_087_500, 0]);
    let mut water = vec![1_500_000];
    let yes = vec![true];
    step_water(&vec![0], &vec![false], &vec![false], Some(&yes), &mut water, 1, 1, 62_500, 0);
    assert_eq!(water, vec![1_600_000]);
    let mut water = vec![1_000_000];
    step_water(&vec![0], &vec![false], &vec![true], None, &mut water, 1, 1, 62_500, 0);
    assert_eq!(water, vec![900_000]);
    let mut water = vec![1_000];
    step_water(&vec![0], &vec![false], &vec![false], None, &mut water, 1, 1, 62_500, 20_000);
    assert_eq!(water, vec![0]);
}

#[test]
fn droughts_stop_the_river() {
    let mut wet = flat(6, 5, 2);
    let mut dry = flat(6, 5, 2);
    for _ in 0..200 {
        flow_water(&mut wet, false, 62_500);
        flow_water(&mut dry, true, 62_500);
    }
    let sum = |m: &TileMap| m.water.iter().sum::<u64>();
    assert!(sum(&dry) < sum(&wet));
    assert!(sum(&dry) < 6_000_000);
}

#[test]
fn water_irrigates_five_steps_around() {
    let mut map = flat(3, 12, 0);
    // The channel is the first row alone, for rows above it are cut off.
    map.water[4] = 0;
    update_irrigation(&mut map);
    assert!(map.irrigated[map.idx(0, 5)]);
    assert!(!map.irrigated[map.idx(0, 6)]);
    // Puddles do not count.
    for w in map.water.iter_mut() {
        *w = 50_000;
    }
    update_irrigation(&mut map);
    assert!(map.irrigated.iter().all(|i| !i));
}

fn grid(width: u32, height: u32, cost: Vec<u32>) -> WalkGrid {
    WalkGrid { width, height, cost }
}

#[test]
fn routes_bend_towards_paths() {
    let g = GRASS_COST;
    let p = PATH_COST;
    // The straight way is three tiles of grass, the way round four of path.
    let cost = vec![g, g, g, g, p, p, p, p];
    let route = find_path(&grid(4, 2, cost), at(0, 0), at(3, 0)).unwrap();
    assert_eq!(route, vec![at(0, 1), at(1, 1), at(2, 1), at(3, 1), at(3, 0)]);
    let straight = find_path(&grid(4, 2, vec![g; 8]), at(0, 0), at(3, 0)).unwrap();
    assert_eq!(straight, vec![at(1, 0), at(2, 0), at(3, 0)]);
}

#[test]
fn routes_go_round_what_blocks_them() {
    let g = GRASS_COST;
    let b = BLOCKED;
    let cost = vec![g, b, g, g, b, g, g, g, g];
    let route = find_path(&grid(3, 3, cost), at(0, 0), at(2, 0)).unwrap();
    assert_eq!(route.len(), 6);
    let walled = vec![g, b, g, g, b, g, g, b, g];
    assert!(find_path(&grid(3, 3, walled.clone()), at(0, 0), at(2, 0)).is_none());
    // The goal itself can be entered, and one is where one is.
    assert_eq!(find_path(&grid(3, 3, walled.clone()), at(0, 0), at(1, 0)), Some(vec![at(1, 0)]));
    assert_eq!(find_path(&grid(3, 3, walled), at(2, 2), at(2, 2)), Some(vec![]));
}

#[test]
fn walking_costs_go_by_what_is_there() {
    let mut map = flat(4, 4, 0);
    let i = map.idx(3, 3);
    map.tree[i] = Some(7);
    map.water[5] = 350_000;
    map.water[6] = 350_001;
    let mut site = built(3, BuildingKind::Path, at(2, 2));
    site.construction = Some(UnderConstruction { done: 0, required: 1 });
    let rows = vec![
        built(1, BuildingKind::Path, at(0, 2)),
        built(2, BuildingKind::Lodge, at(1, 2)),
        site,
    ];
    let g = walk_grid(&map, &rows);
    assert_eq!(g.cost[5], GRASS_COST);
    assert_eq!(g.cost[6], BLOCKED);
    assert_eq!(g.cost[15], BLOCKED);
    assert_eq!((g.cost[8], g.cost[9], g.cost[10]), (PATH_COST, BLOCKED, GRASS_COST));
}

#[test]
fn seasons_turn() {
    let mut s = Season::new();
    s.remaining = 10;
    advance_season(&mut s, 9);
    assert_eq!((s.drought, s.remaining), (false, 1));
    advance_season(&mut s, 1);
    assert_eq!((s.drought, s.remaining, s.cycle), (true, 28_000_000, 1));
    s.remaining = 1;
    s.day_timer = 29_999_999;
    advance_season(&mut s, 2);
    assert_eq!((s.drought, s.remaining, s.cycle), (false, 86_000_000, 1));
    assert_eq!((s.day, s.day_timer), (2, 1));
    assert_eq!((Season::drought_length(9), Season::wet_length(9)), (55, 60));
    let (mut acc, mut tick) = (4_999_999, u32::MAX);
    bump_forecast_tick(&mut acc, &mut tick, 1);
    assert_eq!((acc, tick), (0, 0));
    bump_forecast_tick(&mut acc, &mut tick, 1);
    assert_eq!((acc, tick), (1, 0));
}

#[test]
fn colonies_fall_once_they_have_lived() {
    let mut stats = ColonyStats { started: false, peak: 0 };
    let none = Population { count: 0, cap: 0 };
    assert!(!check_colony_fell(&none, &mut stats));
    assert!(!check_colony_fell(&Population { count: 5, cap: 8 }, &mut stats));
    assert!(!check_colony_fell(&Population { count: 2, cap: 8 }, &mut stats));
    assert_eq!(stats, ColonyStats { started: true, peak: 5 });
    assert!(check_colony_fell(&none, &mut stats));
}

#[test]
fn trees_grow_faster_by_the_water() {
    let mut map = flat(4, 4, 0);
    map.irrigated[12] = true;
    let mut trees = vec![tree(1, at(0, 3), 0), tree(2, at(1, 3), 0), tree(3, at(2, 3), MATURE - 1)];
    grow_trees(&map, &mut trees, 1_000_000);
    assert_eq!(trees[0].tree.growth, 20_000_000);
    assert_eq!(trees[1].tree.growth, 7_000_000);
    assert_eq!(trees[2].tree.growth, MATURE);
    assert!(trees[2].tree.is_mature() && !trees[0].tree.is_mature());
    assert_eq!(MATURE, 70 * 20_000_000);
}

#[test]
fn trees_are_scattered_alike_every_time() {
    let map = flat(48, 48, 24);
    let trees = scatter_initial_trees(&map);
    assert_eq!(trees, scatter_initial_trees(&map));
    for t in &trees {
        let (x, y) = (t.tile.x, t.tile.y);
        let hash = ((x.wrapping_mul(2654435761) ^ y.wrapping_mul(40503)) >> 3) % 100;
        assert!(hash < 18);
        assert_eq!(t.growth, 560_000_000 + 140_000_000 * (hash as u64 % 7));
        assert!(map.is_free_land(x, y));
    }
    assert!(trees.len() > 100);
    let mut map = map;
    let row = spawn_tree(&mut map, trees[0].tile, trees[0].growth, 77);
    assert_eq!(row, TreeRow { id: 77, tree: trees[0] });
    assert!(!map.is_free_land(trees[0].tile.x, trees[0].tile.y));
}

#[test]
fn building_and_demolishing_undo_each_other() {
    let mut map = flat(6, 6, 3);
    let mut stock = Stockpile::initial();
    let tile = at(2, 3);
    assert_eq!(placement_error(&map, BuildingKind::Dam, tile), None);
    let (row, job) = place_building(&mut map, &mut stock, BuildingKind::Dam, tile, 8, 9);
    assert_eq!(stock.logs, 48);
    assert!(map.dam[map.idx(2, 3)]);
    assert_eq!(row.construction, Some(UnderConstruction { done: 0, required: 5_000_000 }));
    assert_eq!(job.job.kind, JobKind::Build(8));
    assert_eq!(placement_error(&map, BuildingKind::Path, tile), Some("occupied"));
    demolish(&mut map, &mut stock, &row.building);
    assert_eq!(stock.logs, 54);
    assert!(!map.dam[map.idx(2, 3)] && map.building[map.idx(2, 3)].is_none());
}

#[test]
fn buildings_look_around_themselves() {
    let mut map = flat(20, 20, 0);
    assert_eq!(
        tiles_in_radius(&map, at(0, 10), 1),
        vec![at(0, 9), at(0, 10), at(1, 10), at(0, 11)]
    );
    assert_eq!(tiles_in_radius(&map, at(0, 10), 1001).len(), 400);
    let trees = vec![tree(5, at(10, 12), MATURE), tree(6, at(10, 9), 1), tree(7, at(9, 12), MATURE)];
    for t in &trees {
        spawn_tree(&mut map, t.tree.tile, t.tree.growth, t.id);
    }
    // Row by row, and only mature ones.
    assert_eq!(find_mature_tree(&map, at(10, 10), 6, &trees), Some((7, at(9, 12))));
    assert_eq!(find_mature_tree(&map, at(10, 10), 1, &trees), None);
    assert_eq!(find_tree(&trees, 6), Some(trees[1].tree));
    assert_eq!(find_tree(&trees, 60), None);
    assert_eq!(find_plant_spot(&map, at(10, 10), 5), Some(at(10, 5)));
}

#[test]
fn buildings_post_one_job_at_a_time() {
    let mut map = flat(20, 20, 10);
    let i = map.idx(5, 5);
    map.irrigated[i] = true;
    let mut rows = vec![
        built(1, BuildingKind::WaterPump, at(4, 8)),
        built(2, BuildingKind::CarrotFarm, at(5, 5)),
        built(3, BuildingKind::CarrotFarm, at(6, 5)),
        built(4, BuildingKind::Forester, at(10, 3)),
        built(5, BuildingKind::Lumberjack, at(15, 3)),
    ];
    let trees = vec![tree(90, at(15, 4), MATURE)];
    spawn_tree(&mut map, at(15, 4), MATURE, 90);
    let mut fresh = vec![21, 22, 23, 24, 25];
    let posts = post_production_jobs(&map, &trees, &vec![], &mut rows, &mut fresh, 62_500);
    let seen: Vec<(u64, JobKind, u64)> =
        posts.iter().map(|p| (p.id, p.job.kind, p.job.work)).collect();
    assert_eq!(
        seen,
        vec![
            (25, JobKind::Pump(1), 3_000_000),
            (24, JobKind::Farm(2), 5_000_000),
            (23, JobKind::Plant(at(6, 0)), 3_000_000),
            (22, JobKind::Chop(90), 4_000_000),
        ]
    );
    assert_eq!(fresh, vec![21]);
    assert_eq!(rows[0].cycle, WorkCycle { cooldown: 2_000_000, job: Some(25) });
    assert_eq!(rows[2].cycle, WorkCycle { cooldown: 1_500_000, job: None });
    // While its job stands a building waits; afterwards its pause runs down.
    let mut fresh = vec![31, 32, 33, 34, 35];
    let posts = post_production_jobs(&map, &trees, &vec![25], &mut rows, &mut fresh, 500_000);
    assert!(posts.is_empty());
    assert_eq!(rows[0].cycle, WorkCycle { cooldown: 2_000_000, job: Some(25) });
    assert_eq!(rows[1].cycle, WorkCycle { cooldown: 1_500_000, job: None });
}

#[test]
fn births_are_paid_in_food_and_water() {
    let map = flat(10, 10, 0);
    let mut rows = vec![
        built(1, BuildingKind::Lodge, at(4, 4)),
        built(2, BuildingKind::Lodge, at(5, 5)),
        built(3, BuildingKind::WaterPump, at(6, 6)),
    ];
    let mut stock = Stockpile { logs: 0, food: 11, water: 24 };
    let pop = Population { count: 3, cap: 13 };
    let born = lodge_spawning(&map, &pop, &mut stock, &mut rows, 62_500);
    // There is food for one of them.
    assert_eq!(born, vec![map.tile_center(4, 4)]);
    assert_eq!((stock.food, stock.water), (5, 18));
    assert_eq!(rows[0].cycle.cooldown, 25_000_000);
    assert_eq!(rows[1].cycle.cooldown, 25_000_000);
    assert_eq!(rows[2].cycle.cooldown, 0);
    let mut full = Stockpile { logs: 0, food: 99, water: 99 };
    rows[0].cycle.cooldown = 0;
    let none = lodge_spawning(&map, &Population { count: 13, cap: 13 }, &mut full, &mut rows, 1);
    assert!(none.is_empty());
    let mut pop = Population { count: 0, cap: 0 };
    assert!(update_population(&mut pop, 4, &rows));
    assert_eq!(pop, Population { count: 4, cap: 13 });
    assert!(!update_population(&mut pop, 4, &rows));
}

#[test]
fn nests_come_due_beside_the_posting_of_jobs() {
    let map = flat(10, 10, 0);
    let mut rows = vec![built(1, BuildingKind::Lodge, at(4, 4))];
    let mut stock = Stockpile { logs: 0, food: 99, water: 99 };
    let pop = Population { count: 3, cap: 8 };
    // Posting counts the pause of a lodge too, and looks again a little later.
    let mut fresh = vec![7];
    post_production_jobs(&map, &vec![], &vec![], &mut rows, &mut fresh, 62_500);
    assert_eq!(rows[0].cycle, WorkCycle { cooldown: 1_500_000, job: None });
    rows[0].cycle.cooldown = 0;
    let mut births = Vec::new();
    for step in 0..500 {
        let born = lodge_spawning(&map, &pop, &mut stock, &mut rows, 62_500);
        post_production_jobs(&map, &vec![], &vec![], &mut rows, &mut fresh, 62_500);
        if !born.is_empty() {
            births.push(step);
        }
    }
    // Two count the pause of twenty-five seconds down.
    assert_eq!(births, vec![0, 200, 400]);
}

#[test]
fn colonies_begin_with_three_beavers() {
    let map = flat(20, 20, 2);
    let places = initial_colony(&map);
    let middle = map.tile_center(10, 10);
    assert_eq!(places.len(), 3);
    assert_eq!(places[0], Pos { x: middle.x - 300_000, ..middle });
}

#[test]
fn jobs_without_an_aim_are_dropped() {
    let mut map = flat(6, 6, 0);
    spawn_tree(&mut map, at(3, 3), 0, 40);
    let mut jobs = vec![
        job(1, JobKind::Build(10), at(1, 3), 1),
        job(2, JobKind::Chop(40), at(3, 3), 1),
        job(3, JobKind::Pump(99), at(1, 3), 1),
        job(4, JobKind::Plant(at(3, 3)), at(3, 3), 1),
        job(5, JobKind::Plant(at(4, 4)), at(4, 4), 1),
    ];
    let dropped = validate_jobs(&map, &vec![10, 40], &mut jobs);
    assert_eq!(jobs.iter().map(|j| j.id).collect::<Vec<_>>(), vec![1, 2, 5]);
    assert_eq!(dropped.iter().map(|j| j.id).collect::<Vec<_>>(), vec![3, 4]);
}

#[test]
fn building_comes_before_other_work() {
    let map = flat(20, 20, 0);
    let mut beavers = vec![
        spawn_beaver(1, map.tile_center(5, 5)),
        spawn_beaver(2, map.tile_center(5, 6)),
        spawn_beaver(3, map.tile_center(5, 7)),
    ];
    let mut jobs = vec![
        job(11, JobKind::Farm(50), at(6, 5), 1),
        job(12, JobKind::Farm(51), at(5, 5), 1),
        job(13, JobKind::Build(52), at(15, 15), 1),
    ];
    let requests = claim_jobs(&map, &mut beavers, &mut jobs);
    assert_eq!(beavers[0].beaver.state, BeaverState::Goto(13));
    assert_eq!(beavers[1].beaver.state, BeaverState::Goto(12));
    assert_eq!(beavers[2].beaver.state, BeaverState::Goto(11));
    assert_eq!(jobs[2].job.claimed_by, Some(1));
    assert_eq!(
        requests[0],
        RouteRequest { beaver: 1, job: 13, start: at(5, 5), goal: at(15, 15) }
    );
    assert!(claim_jobs(&map, &mut beavers, &mut jobs).is_empty());
    let a = Pos { x: 0, y: 0, z: 0 };
    assert_eq!(distance_squared(a, Pos { x: 3, y: 4, z: 12 }), 169);
}

fn walker(map: &TileMap, from: TilePos, job: u64) -> BeaverRow {
    let mut row = spawn_beaver(1, map.tile_center(from.x, from.y));
    row.beaver.state = BeaverState::Goto(job);
    row
}

#[test]
fn beavers_walk_at_their_pace() {
    let mut map = flat(20, 20, 0);
    let jobs = vec![job(11, JobKind::Farm(50), at(9, 5), 1)];
    let mut beavers = vec![walker(&map, at(5, 5), 11)];
    let mut routes = vec![None];
    let start = beavers[0].pos;
    move_beavers(&map, &jobs, &vec![], &mut beavers, &mut routes, 1_000_000);
    assert_eq!(beavers[0].pos, Pos { x: start.x + 2_600_000, ..start });
    // On a finished path it is nearly twice as fast.
    let rows = vec![built(50, BuildingKind::Path, at(5, 5))];
    map.building[105] = Some(50);
    let mut beavers = vec![walker(&map, at(5, 5), 11)];
    move_beavers(&map, &jobs, &rows, &mut beavers, &mut routes, 500_000);
    assert_eq!(beavers[0].pos.x, start.x + 2_340_000);
}

#[test]
fn beavers_follow_routes_that_lead_to_their_job() {
    let map = flat(20, 20, 0);
    let jobs = vec![job(11, JobKind::Farm(50), at(7, 5), 1)];
    let way = || Some(vec![at(5, 6), at(6, 6), at(7, 6), at(7, 5)]);
    let start = map.tile_center(5, 5);
    let step = |route: Option<ComputedPath>| {
        let mut beavers = vec![walker(&map, at(5, 5), 11)];
        let mut routes = vec![route];
        move_beavers(&map, &jobs, &vec![], &mut beavers, &mut routes, 100_000);
        beavers[0].pos
    };
    let along = step(Some(ComputedPath { job: 11, tiles: way() }));
    assert_eq!(along, Pos { z: start.z + 260_000, ..start });
    // One for another job, or none at all, leaves the straight line.
    let straight = Pos { x: start.x + 260_000, ..start };
    assert_eq!(step(Some(ComputedPath { job: 12, tiles: way() })), straight);
    assert_eq!(step(Some(ComputedPath { job: 11, tiles: None })), straight);
    assert_eq!(step(None), straight);
}

#[test]
fn beavers_arrive_and_lose_their_way() {
    let map = flat(20, 20, 0);
    let jobs = vec![job(11, JobKind::Farm(50), at(5, 5), 1)];
    let mut beavers = vec![walker(&map, at(5, 5), 11), walker(&map, at(5, 5), 12)];
    beavers[0].pos.x += 249_999;
    let mut routes = vec![None, None];
    move_beavers(&map, &jobs, &vec![], &mut beavers, &mut routes, 1);
    assert_eq!(beavers[0].beaver.state, BeaverState::Work(11));
    assert_eq!(beavers[1].beaver.state, BeaverState::Idle);
    assert_eq!(find_job(&jobs, 11), Some(0));
    assert_eq!(find_job(&jobs, 12), None);
    assert_eq!((square_root(0), square_root(15), square_root(16)), (0, 3, 4));
}

fn worker(job: u64) -> BeaverRow {
    let mut row = spawn_beaver(job, Pos { x: 0, y: 0, z: 0 });
    row.beaver.state = BeaverState::Work(job);
    row
}

#[test]
fn finished_work_has_its_effect() {
    let mut map = flat(10, 10, 5);
    let trees = vec![tree(70, at(2, 2), MATURE)];
    spawn_tree(&mut map, at(2, 2), MATURE, 70);
    let mut stock = Stockpile { logs: 0, food: 0, water: 0 };
    let mut jobs = vec![
        job(1, JobKind::Build(60), at(1, 1), 62_500),
        job(2, JobKind::Chop(70), at(2, 2), 62_500),
        job(3, JobKind::Chop(70), at(2, 2), 1),
        job(4, JobKind::Pump(61), at(4, 3), 1),
        job(5, JobKind::Farm(62), at(5, 2), 1),
        job(6, JobKind::Plant(at(8, 8)), at(8, 8), 1),
        job(7, JobKind::Build(63), at(1, 2), 62_501),
    ];
    let mut beavers: Vec<BeaverRow> = (1..=8).map(worker).collect();
    let mut fresh: Vec<u64> = (100..110).collect();
    let events =
        work_jobs(&mut map, &mut stock, &mut beavers, &mut jobs, &trees, &mut fresh, 62_500);
    assert_eq!(
        events,
        vec![
            WorkEvent::Progress(60, 62_500),
            WorkEvent::Built(60),
            WorkEvent::Done(1),
            WorkEvent::Felled(70),
            WorkEvent::Done(2),
            WorkEvent::Done(3),
            WorkEvent::Done(4),
            WorkEvent::Done(5),
            WorkEvent::Planted(tree(109, at(8, 8), 0)),
            WorkEvent::Done(6),
            WorkEvent::Progress(63, 62_500),
        ]
    );
    // A tree pays once; the pump takes its water out of the world.
    assert_eq!(stock, Stockpile { logs: 6, food: 4, water: 4 });
    assert_eq!(map.water[map.idx(4, 4)], 850_000);
    assert_eq!(map.tree[map.idx(2, 2)], None);
    assert_eq!(map.tree[map.idx(8, 8)], Some(109));
    assert_eq!(jobs[6].job.work, 1);
    assert_eq!(beavers[6].beaver.state, BeaverState::Work(7));
    // The eighth was at work on a job that is gone.
    assert_eq!(beavers[7].beaver.state, BeaverState::Idle);
}

#[test]
fn beavers_eat_drink_starve_and_recover() {
    let full = Beaver { state: BeaverState::Idle, hunger: 34_999_999, thirst: 0, starving: 0 };
    let row = |id, beaver| BeaverRow { id, beaver, pos: Pos { x: 0, y: 0, z: 0 } };
    let mut rows = vec![row(1, full), row(2, full)];
    let mut stock = Stockpile { logs: 0, food: 3, water: 0 };
    let mut starving = 0;
    // One meal, for the first of them.
    let events = needs(&mut stock, &mut starving, &mut rows, 1);
    assert_eq!(events, vec![NeedEvent::Starves(2)]);
    assert_eq!((stock.food, starving), (1, 1));
    assert_eq!(rows[0].beaver.hunger, 0);
    assert_eq!((rows[1].beaver.hunger, rows[1].beaver.starving), (35_000_000, 1));
    stock.food = 2;
    let events = needs(&mut stock, &mut starving, &mut rows, 1);
    assert_eq!(events, vec![NeedEvent::Recovers(2)]);
    assert_eq!((starving, rows[1].beaver.starving), (0, 0));

    let last = Beaver { hunger: 35_000_000, starving: 45_000_000, ..full };
    let mut rows = vec![row(3, last)];
    let mut starving = 1;
    let events = needs(&mut stock, &mut starving, &mut rows, 1);
    assert_eq!(events, vec![NeedEvent::Dies(3)]);
    assert_eq!(starving, 0);
    // To eat is not to drink.
    let parched = Beaver { hunger: 0, thirst: 29_999_999, ..full };
    let mut rows = vec![row(4, parched)];
    let mut stock = Stockpile { logs: 0, food: 9, water: 1 };
    let events = needs(&mut stock, &mut starving, &mut rows, 1);
    assert_eq!(events, vec![NeedEvent::Starves(4)]);
}

fn rows_of(kinds: &[BuildingKind]) -> Vec<BuildingRow> {
    kinds.iter().enumerate().map(|(i, k)| built(i as u64 + 1, *k, at(i as u32, 0))).collect()
}

#[test]
fn sites_are_counted() {
    let mut rows = rows_of(&[BuildingKind::Dam, BuildingKind::Lodge, BuildingKind::Dam]);
    rows[2].construction = Some(UnderConstruction { done: 0, required: 1 });
    assert_eq!(count_kind(&rows, BuildingKind::Dam), 2);
    assert_eq!(count_sites(&rows), 1);
    assert_eq!(first_kind(&rows, BuildingKind::Dam), Some(at(0, 0)));
    assert_eq!(first_kind(&rows, BuildingKind::Path), None);
    let map = flat(10, 8, 2);
    assert_eq!(colony_anchor(&map, &rows), at(1, 0));
    assert_eq!(colony_anchor(&map, &vec![]), at(5, 4));
}

#[test]
fn spots_suit_what_is_built() {
    let mut map = flat(16, 16, 2);
    let trees = vec![tree(5, at(3, 12), MATURE), tree(6, at(10, 10), 0)];
    let anchor = at(8, 8);
    assert_eq!(find_spot(&map, BuildingKind::Lodge, anchor, &trees, None), Some(at(8, 8)));
    // Lumberjacks want mature trees within five tiles.
    assert_eq!(find_spot(&map, BuildingKind::Lumberjack, anchor, &trees, None), Some(at(7, 9)));
    assert_eq!(find_spot(&map, BuildingKind::Lumberjack, anchor, &vec![], None), None);
    // Farms want green land, pumps the shore.
    assert_eq!(find_spot(&map, BuildingKind::CarrotFarm, anchor, &trees, None), None);
    map.irrigated[16 * 15] = true;
    assert_eq!(find_spot(&map, BuildingKind::CarrotFarm, anchor, &trees, None), Some(at(0, 15)));
    assert_eq!(find_spot(&map, BuildingKind::WaterPump, anchor, &trees, None), Some(at(8, 0)));
    assert_eq!(
        find_spot(&map, BuildingKind::Lodge, anchor, &trees, Some(at(1, 14))),
        Some(at(1, 14))
    );
}

#[test]
fn dams_close_the_river_at_a_distance() {
    let map = flat(24, 12, 6);
    // The carved bed is three tiles wide, and a dam may stand in all of it.
    assert_eq!(
        plan_dam_crossing(&map, at(12, 2), &vec![]),
        vec![at(16, 5), at(16, 6), at(16, 7)]
    );
    // A wall near by is kept away from: the next one is six columns off.
    assert_eq!(
        plan_dam_crossing(&map, at(12, 2), &vec![at(16, 5)]),
        vec![at(22, 5), at(22, 6), at(22, 7)]
    );
    assert!(plan_dam_crossing(&map, at(12, 2), &vec![at(16, 5), at(22, 5)]).is_empty());
    // One dam in the column makes the rest of it a shorter wall.
    let mut part = flat(24, 12, 6);
    let i = part.idx(18, 5);
    part.building[i] = Some(1);
    assert_eq!(plan_dam_crossing(&part, at(12, 2), &vec![]), vec![at(18, 6), at(18, 7)]);
    // With a gap it is no wall.
    let mut gap = flat(24, 12, 6);
    let i = gap.idx(16, 6);
    gap.building[i] = Some(1);
    assert_eq!(
        plan_dam_crossing(&gap, at(12, 2), &vec![]),
        vec![at(17, 5), at(17, 6), at(17, 7)]
    );
    assert!(plan_dam_crossing(&flat(8, 12, 6), at(4, 2), &vec![]).is_empty());
}

#[test]
fn the_narrowest_crossing_downstream_is_planned() {
    // Farther off, but shorter by two tiles.
    let mut map = flat(24, 12, 6);
    for y in [5, 6] {
        let i = map.idx(21, y);
        map.building[i] = Some(1);
    }
    assert_eq!(plan_dam_crossing(&map, at(12, 2), &vec![]), vec![at(21, 7)]);
    // As short, but nearer.
    for y in [6, 7] {
        let i = map.idx(19, y);
        map.building[i] = Some(1);
    }
    assert_eq!(plan_dam_crossing(&map, at(12, 2), &vec![]), vec![at(19, 5)]);
    assert_eq!(plan_dam_crossing(&map, at(12, 2), &vec![at(14, 5)]), vec![at(21, 7)]);
    // Upstream none is looked for.
    assert!(plan_dam_crossing(&map, at(20, 2), &vec![]).is_empty());
}

#[test]
fn walls_come_nearest_tile_first() {
    let map = flat(24, 12, 6);
    assert_eq!(
        plan_dam_crossing(&map, at(12, 11), &vec![]),
        vec![at(16, 7), at(16, 6), at(16, 5)]
    );
    assert_eq!(
        plan_dam_crossing(&map, at(12, 6), &vec![]),
        vec![at(16, 6), at(16, 5), at(16, 7)]
    );
}

fn stock(logs: i64, food: i64, water: i64) -> Stockpile {
    Stockpile { logs: 2 * logs, food: 2 * food, water: 2 * water }
}

#[test]
fn survival_comes_first() {
    let pop = Population { count: 6, cap: 8 };
    let pick = |kinds: &[BuildingKind], s: Stockpile, pop: Population, trees: usize| {
        choose_building(&s, &pop, &rows_of(kinds), trees)
    };
    let calm = stock(27, 99, 99);
    assert_eq!(pick(&[], calm, pop, 300), Some(Lumberjack));
    assert_eq!(pick(&[Lumberjack], calm, pop, 300), Some(WaterPump));
    assert_eq!(pick(&[Lumberjack, WaterPump], calm, pop, 300), Some(CarrotFarm));
    let trio = [Lumberjack, WaterPump, CarrotFarm];
    assert_eq!(pick(&trio, calm, pop, 300), Some(Forester));
    let four = [Lumberjack, WaterPump, CarrotFarm, Forester];
    assert_eq!(pick(&four, stock(27, 99, 13), pop, 300), Some(WaterPump));
    assert_eq!(pick(&four, stock(27, 13, 99), pop, 300), Some(CarrotFarm));
    assert_eq!(pick(&four, stock(24, 99, 99), pop, 300), Some(Lumberjack));
    assert_eq!(pick(&four, calm, pop, 239), Some(Forester));
    assert_eq!(pick(&four, calm, pop, 240), None);
    let full = Population { count: 8, cap: 8 };
    assert_eq!(pick(&four, calm, full, 240), None);
    let walled = [Lumberjack, WaterPump, CarrotFarm, Forester, Dam, Dam];
    assert_eq!(pick(&walled, calm, full, 240), Some(Lodge));
    assert_eq!(pick(&walled, stock(36, 99, 99), pop, 240), Some(Lodge));
    assert_eq!(pick(&four, stock(36, 99, 99), pop, 240), Some(WaterPump));
    let pumps = [Lumberjack, WaterPump, CarrotFarm, Forester, WaterPump];
    assert_eq!(pick(&pumps, stock(29, 99, 99), pop, 240), Some(CarrotFarm));

    assert_eq!(settle_for(&stock(20, 0, 0), &rows_of(&trio), Lodge), Some(Lodge));
    assert_eq!(settle_for(&stock(19, 0, 0), &rows_of(&trio), Lodge), Some(Lumberjack));
    assert_eq!(settle_for(&stock(4, 0, 0), &rows_of(&trio), Lodge), None);
    let three = rows_of(&[Lumberjack, Lumberjack, Lumberjack]);
    assert_eq!(settle_for(&stock(19, 0, 0), &three, Lodge), None);
}

#[test]
fn the_governor_builds_and_lays_roads() {
    let mut map = flat(24, 24, 19);
    let trees = vec![tree(5, at(18, 12), MATURE)];
    spawn_tree(&mut map, at(18, 12), MATURE, 5);
    let mut stock = Stockpile::initial();
    let pop = Population { count: 3, cap: 3 };
    let mut governor = Governor::new();
    let mut fresh: Vec<u64> = (1..=8).collect();
    let mut rows: Vec<BuildingRow> = Vec::new();
    let placed =
        govern(&mut governor, &mut map, &mut stock, &pop, &rows, &trees, &mut fresh, 62_500);
    assert_eq!(placed.len(), 1);
    let tile = placed[0].0.building.tile;
    assert_eq!(placed[0].0.building.kind, BuildingKind::Lumberjack);
    assert_eq!(tile, at(13, 12));
    assert_eq!((placed[0].0.id, placed[0].1.id), (8, 7));
    assert_eq!(governor.last_built, Some(tile));
    assert_eq!(governor.cooldown, 2_000_000);
    assert_eq!(stock.logs, 50);
    // The middle of the map is next to it, so there is nothing to pave.
    assert!(governor.road.is_empty());
    rows.push(placed[0].0);
    let none = govern(&mut governor, &mut map, &mut stock, &pop, &rows, &trees, &mut fresh, 1);
    assert!(none.is_empty());
    assert_eq!(governor.cooldown, 1_999_999);
    // At the next beat a pump, for which a dam is in mind, and a road to it.
    let placed =
        govern(&mut governor, &mut map, &mut stock, &pop, &rows, &trees, &mut fresh, 2_000_000);
    assert_eq!(placed[0].0.building.kind, BuildingKind::WaterPump);
    assert_eq!(governor.dam_project, vec![at(16, 18), at(16, 19), at(16, 20)]);
    // It looks half way to the dam, at (14, 15).
    assert_eq!(placed[0].0.building.tile, at(14, 17));
    assert_eq!(governor.road.len(), 6);
    assert_eq!(governor.road[5], at(12, 13));
    rows.push(placed[0].0);
    // Two crews are busy: nothing but the road grows.
    let placed =
        govern(&mut governor, &mut map, &mut stock, &pop, &rows, &trees, &mut vec![1, 2, 3, 4], 2_000_000);
    assert_eq!(placed.len(), 1);
    assert_eq!(placed[0].0.building.kind, BuildingKind::Path);
    assert_eq!(placed[0].0.building.tile, at(12, 13));
    assert_eq!(governor.road.len(), 5);
}

#[test]
fn the_governor_walls_the_river_off() {
    let mut map = flat(24, 24, 4);
    let mut stock = Stockpile::initial();
    let pop = Population { count: 3, cap: 3 };
    let rows = vec![
        built(1, BuildingKind::Lumberjack, at(1, 20)),
        built(2, BuildingKind::WaterPump, at(2, 20)),
        built(3, BuildingKind::CarrotFarm, at(3, 20)),
    ];
    let mut governor = Governor::new();
    let beat = |governor: &mut Governor, map: &mut TileMap, stock: &mut Stockpile| {
        let mut fresh = vec![50, 51, 52, 53];
        govern(governor, map, stock, &pop, &rows, &vec![], &mut fresh, 2_000_000)
    };
    let placed = beat(&mut governor, &mut map, &mut stock);
    assert_eq!(placed[0].0.building, Building { kind: BuildingKind::Dam, tile: at(16, 3) });
    assert_eq!(governor.dam_project, vec![at(16, 5), at(16, 4)]);
    // A tile that is blocked ends the project.
    let i = map.idx(16, 4);
    map.building[i] = Some(9);
    let placed = beat(&mut governor, &mut map, &mut stock);
    assert!(placed.is_empty());
    assert!(governor.dam_project.is_empty());
}

#[test]
fn demonstrations_watch_the_forecast() {
    let pop = Population { count: 3, cap: 8 };
    let pick = |kinds: &[BuildingKind], s: Stockpile, retention| {
        choose_demo_building(&s, &pop, &rows_of(kinds), 199, retention)
    };
    let trio = [Lumberjack, WaterPump, CarrotFarm];
    assert_eq!(pick(&[], stock(30, 20, 20), None), Some(Lumberjack));
    assert_eq!(pick(&trio, stock(30, 20, 9), None), Some(WaterPump));
    assert_eq!(pick(&trio, stock(30, 9, 20), None), Some(CarrotFarm));
    assert_eq!(pick(&trio, stock(24, 20, 20), None), Some(Lumberjack));
    assert_eq!(pick(&trio, stock(30, 20, 20), Some(399_999)), Some(Dam));
    assert_eq!(pick(&trio, stock(30, 20, 20), Some(400_000)), Some(Forester));
    let dams = [Lumberjack, WaterPump, CarrotFarm, Dam, Dam, Forester];
    assert_eq!(pick(&dams, stock(30, 20, 20), Some(0)), None);
    let full = Population { count: 8, cap: 8 };
    let s = stock(30, 20, 20);
    assert_eq!(choose_demo_building(&s, &full, &rows_of(&trio), 0, None), Some(Lodge));
}

#[test]
fn demonstrations_pave_when_they_are_idle() {
    let mut map = flat(24, 24, 4);
    let rows = vec![
        built(1, BuildingKind::Lumberjack, at(1, 20)),
        built(2, BuildingKind::WaterPump, at(2, 20)),
        built(3, BuildingKind::CarrotFarm, at(3, 20)),
        built(4, BuildingKind::Forester, at(4, 20)),
    ];
    let pop = Population { count: 3, cap: 8 };
    let mut stock = Stockpile { logs: 60, food: 99, water: 99 };
    let mut governor = DemoGovernor::new();
    governor.road = vec![at(5, 10), at(6, 10), at(7, 10)];
    let i = map.idx(7, 10);
    map.building[i] = Some(9);
    let mut beat = |governor: &mut DemoGovernor, stock: &mut Stockpile| {
        governor.cooldown = 0;
        let mut fresh = vec![50, 51];
        governor.govern(&mut map, stock, &pop, &rows, &vec![], None, &mut fresh, 62_500)
    };
    // The first tile is taken, so the next is paved, and one at a beat.
    let placed = beat(&mut governor, &mut stock);
    assert_eq!(placed[0].0.building, Building { kind: BuildingKind::Path, tile: at(6, 10) });
    assert_eq!(governor.road, vec![at(5, 10)]);
    assert_eq!(governor.cooldown, 3_500_000);
    // Without logs for it the road waits. (The lumberjack keeps it from more.)
    stock.logs = 1;
    let waits = vec![
        built(1, BuildingKind::Lumberjack, at(1, 20)),
        built(2, BuildingKind::Lumberjack, at(2, 20)),
    ];
    assert_eq!(count_kind(&waits, BuildingKind::Lumberjack), 2);
    assert!(beat(&mut governor, &mut stock).is_empty());
    assert_eq!(governor.road, vec![at(5, 10)]);
}

#[test]
fn demonstrations_lay_straight_roads() {
    let mut map = flat(24, 24, 4);
    let trees = vec![tree(5, at(19, 13), MATURE)];
    let pop = Population { count: 3, cap: 8 };
    let mut stock = Stockpile::initial();
    let mut governor = DemoGovernor::new();
    let mut fresh = vec![50, 51];
    let placed =
        governor.govern(&mut map, &mut stock, &pop, &vec![], &trees, None, &mut fresh, 62_500);
    assert_eq!(placed[0].0.building.kind, BuildingKind::Lumberjack);
    let tile = placed[0].0.building.tile;
    assert_eq!(governor.road, line_between(at(12, 12), tile));
}

#[test]
fn lines_step_along_the_longer_side() {
    assert_eq!(
        line_between(at(0, 0), at(3, 1)),
        vec![at(3, 0), at(2, 0), at(1, 0)]
    );
    assert!(line_between(at(2, 2), at(2, 2)).is_empty());
    assert!(line_between(at(2, 2), at(2, 3)).is_empty());
    assert_eq!(line_between(at(2, 5), at(2, 2)), vec![at(2, 3), at(2, 4)]);
}

#[test]
fn long_steps_are_told_too() {
    let mut map = flat(4, 4, 2);
    flow_water(&mut map, true, 1_000_000);
    // A tile gives no more than a quarter of its water, here to the dry bed beside
    // it. All of it evaporates, and the river runs off where it leaves.
    assert_eq!(map.water[4..8], [980_000, 980_000, 980_000, 0]);
    assert_eq!(map.water[8..12], [730_000, 730_000, 730_000, 0]);
    assert_eq!(map.water[12..16], [230_000; 4]);
}

#[test]
fn forecasts_count_whole_steps() {
    let retention = |drought| {
        let none = vec![false; 2];
        let water = vec![1_000_000; 2];
        forecast_drought_retention(&vec![0; 2], &none, &none, water, 2, 1, drought)
    };
    assert_eq!(retention(62_499), 1_000_000);
    assert_eq!(retention(62_500), 998_750);
    assert_eq!(retention(124_999), 998_750);
    assert_eq!(retention(125_000), 997_500);
}

#[test]
fn routes_for_other_jobs_are_kept() {
    let map = flat(12, 12, 0);
    let jobs = vec![JobRow {
        id: 4,
        job: Job { kind: JobKind::Farm(9), tile: at(8, 8), work: 1, claimed_by: Some(1) },
    }];
    let mut walker = spawn_beaver(1, map.tile_center(2, 8));
    walker.beaver.state = BeaverState::Goto(4);
    let mut beavers = vec![walker];
    let mut routes = vec![Some(ComputedPath { job: 5, tiles: Some(vec![at(2, 8), at(2, 9)]) })];
    move_beavers(&map, &jobs, &vec![], &mut beavers, &mut routes, 100_000);
    let kept = routes[0].as_ref().unwrap();
    assert_eq!((kept.job, kept.tiles.as_ref().unwrap().len()), (5, 2));
    // One for the job loses what has been reached.
    routes[0] = Some(ComputedPath { job: 4, tiles: Some(vec![at(2, 8), at(2, 9)]) });
    beavers[0].pos = map.tile_center(2, 8);
    move_beavers(&map, &jobs, &vec![], &mut beavers, &mut routes, 100_000);
    assert_eq!(routes[0].as_ref().unwrap().tiles, Some(vec![at(2, 9)]));
}
