//! Whole colonies, run headless in fixed steps of a sixteenth of a second.
use beaver_builds::menu::{menu_closed, MenuState};
use beaver_builds::sim::beavers::{
    initial_colony, BeaverState, ComputedPath, Job, JobKind, JobRow, NeedEvent, HUNGER_FULL,
    STARVE_LIMIT,
};
use beaver_builds::sim::buildings::{
    demolish, place_building, placement_error, BuildingKind, UnderConstruction,
};
use beaver_builds::sim::claims::walk_grid;
use beaver_builds::sim::colony::Colony;
use beaver_builds::sim::governor::{govern, Governor};
use beaver_builds::sim::map::{TileMap, TilePos};
use beaver_builds::sim::pathfind::find_path;
use beaver_builds::sim::production::BIRTH_FOOD;
use beaver_builds::sim::season::{
    advance_season, check_colony_fell, game_speed_hotkeys, Clock, ColonyStats, Population, Season,
    SpeedKeys,
};
use beaver_builds::sim::stock::{Stockpile, UNIT};
use beaver_builds::sim::trees::{scatter_initial_trees, Tree, TreeRow};
use beaver_builds::sim::water::{
    flow_water, forecast_drought_retention, step_water, update_irrigation,
};

fn noise(x: f32, y: f32) -> f32 {
    let (xi, yi) = (x.floor(), y.floor());
    let (xf, yf) = (x - xi, y - yi);
    let s = |a: f32, b: f32| {
        let h = (a * 127.1 + b * 311.7).sin() * 43758.547;
        h - h.floor()
    };
    let (a, b, c, d) = (s(xi, yi), s(xi + 1.0, yi), s(xi, yi + 1.0), s(xi + 1.0, yi + 1.0));
    let (u, v) = (xf * xf * (3.0 - 2.0 * xf), yf * yf * (3.0 - 2.0 * yf));
    (a + (b - a) * u + (c - a) * v + (a - b - c + d) * u * v) * 2.0 - 1.0
}

fn generate(width: u32, height: u32) -> TileMap {
    let mut levels = Vec::new();
    for y in 0..height {
        for x in 0..width {
            let h = 1.0
                + 1.6 * noise(x as f32 * 0.09, y as f32 * 0.09)
                + 0.8 * noise(x as f32 * 0.23 + 31.0, y as f32 * 0.23 + 17.0);
            levels.push(h.round().clamp(1.0, 4.0) as i32);
        }
    }
    let mut middles = Vec::new();
    for x in 0..width {
        let middle = height as f32 / 2.0 + (x as f32 * 0.18).sin() * (height as f32 * 0.14);
        middles.push(middle as i32);
    }
    TileMap::generate_seeded(width, height, &levels, &middles)
}

fn tiles(map: &TileMap) -> Vec<TilePos> {
    let mut all = Vec::new();
    for y in 0..map.height {
        for x in 0..map.width {
            all.push(TilePos { x, y });
        }
    }
    all
}

fn squared(a: TilePos, b: TilePos) -> i64 {
    let (dx, dy) = (a.x as i64 - b.x as i64, a.y as i64 - b.y as i64);
    dx * dx + dy * dy
}

const FIXED: u32 = 62_500;
const FRAME: u32 = 62_000;

struct Game {
    map: TileMap,
    stock: Stockpile,
    season: Season,
    population: Population,
    stats: ColonyStats,
    colony: Colony,
    starving: u32,
    next: u64,
    owed: u32,
    over: bool,
    governor: Option<Governor>,
}

impl Game {
    fn new() -> Game {
        let mut g = Game {
            map: generate(48, 48),
            stock: Stockpile::initial(),
            season: Season::new(),
            population: Population { count: 0, cap: 0 },
            stats: ColonyStats { started: false, peak: 0 },
            colony: Colony::new(),
            starving: 0,
            next: 1,
            owed: 0,
            over: false,
            governor: None,
        };
        for tree in scatter_initial_trees(&g.map) {
            let id = g.id();
            g.colony.plant(&mut g.map, tree, id);
        }
        for pos in initial_colony(&g.map) {
            let id = g.id();
            g.colony.welcome(&g.map, pos, id);
        }
        g
    }

    fn id(&mut self) -> u64 {
        self.next += 1;
        self.next
    }

    fn pool(&mut self, n: usize) -> Vec<u64> {
        (0..n).map(|_| self.id()).collect()
    }

    fn place(&mut self, kind: BuildingKind, tile: TilePos) -> u64 {
        let (id, job) = (self.id(), self.id());
        let (row, job) = place_building(&mut self.map, &mut self.stock, kind, tile, id, job);
        self.colony.settle(&self.map, row, job);
        id
    }

    /// One frame, which runs as many fixed steps as are due.
    fn update(&mut self) {
        self.owed += FRAME;
        while self.owed >= FIXED {
            self.owed -= FIXED;
            self.step();
        }
        let mut fresh = self.pool(4);
        if let Some(governor) = &mut self.governor {
            let placed = govern(
                governor,
                &mut self.map,
                &mut self.stock,
                &self.population,
                &self.colony.buildings,
                &self.colony.trees,
                &mut fresh,
                FRAME,
            );
            for (row, job) in placed {
                self.colony.settle(&self.map, row, job);
            }
        }
        self.over |= check_colony_fell(&self.population, &mut self.stats);
    }

    fn step(&mut self) {
        advance_season(&mut self.season, FIXED);
        flow_water(&mut self.map, self.season.drought, FIXED);
        update_irrigation(&mut self.map);
        self.colony.grow(&self.map, FIXED);

        let mut fresh = self.pool(self.colony.buildings.len());
        let born = self.colony.produce(
            &self.map,
            &mut self.stock,
            &self.population,
            &mut fresh,
            FIXED,
        );
        for pos in born {
            let id = self.id();
            self.colony.welcome(&self.map, pos, id);
        }
        self.colony.census(&mut self.population);

        for request in self.colony.send_out(&self.map) {
            let grid = walk_grid(&self.map, &self.colony.buildings);
            let tiles = find_path(&grid, request.start, request.goal);
            let path = ComputedPath { job: request.job, tiles };
            self.colony.deliver(&self.map, request.beaver, path);
        }
        self.colony.walk(&self.map, FIXED);
        let mut fresh = self.pool(self.colony.beavers.len());
        self.colony.work(&mut self.map, &mut self.stock, &mut fresh, FIXED);
        self.colony.feed(&self.map, &mut self.stock, &mut self.starving, FIXED);
        assert!(self.stock.logs >= 0 && self.stock.food >= 0 && self.stock.water >= 0);
        let hungry = self.colony.beavers.iter().filter(|row| row.beaver.starving > 0);
        assert_eq!(hungry.count(), self.starving as usize);
    }

    /// The trees and buildings of the map are those of the colony.
    fn agrees(&self) -> bool {
        let map = &self.map;
        let trees = &self.colony.trees;
        let buildings = &self.colony.buildings;
        let at = |t: TilePos| map.idx(t.x, t.y);
        let dams = buildings.iter().filter(|row| row.building.kind == BuildingKind::Dam);
        trees.iter().all(|row| map.tree[at(row.tree.tile)] == Some(row.id))
            && map.tree.iter().flatten().count() == trees.len()
            && buildings.iter().all(|row| map.building[at(row.building.tile)] == Some(row.id))
            && map.building.iter().flatten().count() == buildings.len()
            && map.dam.iter().filter(|dam| **dam).count() == dams.count()
    }
}

#[test]
fn placement_rules() {
    let map = generate(24, 24);
    let riverbed = *tiles(&map)
        .iter()
        .find(|t| map.is_river_bed(t.x, t.y))
        .expect("generated map has a river");
    let dry_far = *tiles(&map)
        .iter()
        .find(|t| {
            map.is_free_land(t.x, t.y)
                && !map.adjacent_to_water(t.x, t.y)
                && !map.irrigated[map.idx(t.x, t.y)]
        })
        .expect("some dry land exists");
    let shore = *tiles(&map)
        .iter()
        .find(|t| map.is_free_land(t.x, t.y) && map.adjacent_to_water(t.x, t.y))
        .expect("some shore exists");

    assert!(placement_error(&map, BuildingKind::Dam, riverbed).is_none());
    assert!(placement_error(&map, BuildingKind::Dam, dry_far).is_some());
    assert!(placement_error(&map, BuildingKind::Lodge, riverbed).is_some());
    assert!(placement_error(&map, BuildingKind::Lodge, dry_far).is_none());
    assert!(placement_error(&map, BuildingKind::WaterPump, dry_far).is_some());
    assert!(placement_error(&map, BuildingKind::WaterPump, shore).is_none());
}

#[test]
fn droughts_escalate() {
    assert!(Season::drought_length(2) > Season::drought_length(1));
    assert!(Season::wet_length(3) < Season::wet_length(0));
    let fresh = Season::new();
    assert_eq!(fresh.next_drought_length(), Season::drought_length(1));
}

/// Lodges raise beavers, and every birth is paid for in food and water.
#[test]
fn lodges_raise_beavers_and_births_cost_resources() {
    let mut c = Game::new();
    c.update();
    c.stock.food = 40 * UNIT;
    c.stock.water = 40 * UNIT;
    let center = TilePos { x: c.map.width / 2, y: c.map.height / 2 };
    let spot = *tiles(&c.map)
        .iter()
        .filter(|t| c.map.is_free_land(t.x, t.y))
        .min_by_key(|t| squared(**t, center))
        .unwrap();
    let lodge = c.place(BuildingKind::Lodge, spot);
    for row in c.colony.buildings.iter_mut().filter(|r| r.id == lodge) {
        row.construction = None;
    }
    for _ in 0..700 {
        c.update();
    }
    let population = c.population.count;
    assert!(population > 3, "the lodge must have raised beavers (population {population})");
    let food = c.stock.food;
    assert!(
        food < 40 * UNIT - BIRTH_FOOD,
        "births (and appetites) must consume food: {food}"
    );
}

/// A colony that had beavers and lost them all is game over.
#[test]
fn colony_collapse_triggers_game_over() {
    let mut c = Game::new();
    for _ in 0..5 {
        c.update();
    }
    assert!(c.stats.started);
    assert!(!c.colony.beavers.is_empty());
    c.colony.beavers.clear();
    c.colony.routes.clear();
    for _ in 0..5 {
        c.update();
    }
    assert!(c.over, "losing every beaver must end the game");
}

/// Speed hotkeys must not pierce the pause menu.
#[test]
fn speed_hotkeys_do_not_pierce_the_pause_menu() {
    let mut clock = Clock { paused: false, speed: 1 };
    let mut menu = MenuState::new();
    menu.open_menu(&mut clock);
    let two = SpeedKeys { space: false, one: false, two: true, three: false };
    game_speed_hotkeys(!menu_closed(Some(&menu)), two, &mut clock);
    assert!(
        clock.paused,
        "a speed hotkey pressed while the menu is open must not unpause"
    );
    menu.dismiss_menu();
    game_speed_hotkeys(!menu_closed(Some(&menu)), two, &mut clock);
    assert!(!clock.paused, "with the menu closed, speed hotkeys apply");
    assert_eq!(clock.speed, 2);
    // Without a menu there is nothing in the way.
    assert!(menu_closed(None));
}

/// Construction finishes, trees are chopped, and logs come in.
#[test]
fn economy_runs_headless() {
    let mut c = Game::new();
    c.update();
    let center = TilePos { x: c.map.width / 2, y: c.map.height / 2 };
    let mut mature: Vec<TilePos> =
        c.colony.trees.iter().filter(|t| t.tree.is_mature()).map(|t| t.tree.tile).collect();
    assert!(!mature.is_empty(), "initial scatter has mature trees");
    mature.sort_by_key(|t| squared(*t, center));
    let mut spot = None;
    'search: for tree in &mature {
        for dy in -4i32..=4 {
            for dx in -4i32..=4 {
                let (x, y) = (tree.x as i32 + dx, tree.y as i32 + dy);
                if c.map.in_bounds(x, y) && c.map.is_free_land(x as u32, y as u32) {
                    spot = Some(TilePos { x: x as u32, y: y as u32 });
                    break 'search;
                }
            }
        }
    }
    let spot = spot.expect("free land near a mature tree");
    let trees_before = c.colony.trees.len();
    c.place(BuildingKind::Lumberjack, spot);
    let logs_after_placement = c.stock.logs;

    for _ in 0..900 {
        c.update();
    }

    assert_eq!(
        c.colony.buildings.iter().filter(|b| b.construction.is_some()).count(),
        0,
        "construction must finish"
    );
    let trees_after = c.colony.trees.len();
    assert!(
        trees_after < trees_before,
        "beavers must have chopped trees ({trees_before} -> {trees_after})"
    );
    assert!(c.stock.logs > logs_after_placement, "chopping must yield logs");
    assert!(c.agrees());
}

/// The governor keeps its colony alive, and growing, through the first
/// droughts.
#[test]
fn intro_governor_survives_and_keeps_building() {
    let mut c = Game::new();
    c.governor = Some(Governor::new());
    c.update();
    let steps_per_day = 483;
    for _ in 0..8 * steps_per_day {
        c.update();
    }
    let mid = c.colony.buildings.len();
    assert!(c.population.count > 0, "demo colony alive at day 8");
    for _ in 0..8 * steps_per_day {
        c.update();
    }
    let end = c.colony.buildings.len();
    let population = c.population.count;
    assert!(population > 0, "the demo colony must outlive the first droughts");
    assert!(end > mid, "the governor keeps building ({mid} -> {end} buildings)");
    assert!(c.agrees());
}

#[test]
fn step_conserves_water_without_sinks() {
    let (w, h) = (6u32, 4u32);
    let n = (w * h) as usize;
    let ground: Vec<i32> = (0..n).map(|i| ((i * 7) % 3) as i32).collect();
    let mut water: Vec<u64> = (0..n).map(|i| ((i * 13) % 5) as u64 * 300_000).collect();
    let before: u64 = water.iter().sum();
    let no = vec![false; n];
    for _ in 0..50 {
        step_water(&ground, &no, &no, None, &mut water, w, h, FIXED, 0);
    }
    let after: u64 = water.iter().sum();
    assert_eq!(before, after, "no sources/drains/evaporation: {before} -> {after}");
}

/// A dam in the channel improves the drought forecast.
#[test]
fn dams_improve_drought_retention() {
    let (w, h) = (10u32, 3u32);
    let n = (w * h) as usize;
    let mut ground = vec![1i32; n];
    let mut water = vec![0u64; n];
    let mut drain = vec![false; n];
    for x in 0..w {
        let i = (w + x) as usize;
        ground[i] = 0;
        water[i] = 1_000_000;
    }
    drain[(w + w - 1) as usize] = true;

    let no_dam = vec![false; n];
    let without = forecast_drought_retention(&ground, &no_dam, &drain, water.clone(), w, h, 30_000_000);
    let mut dam = vec![false; n];
    dam[(w + w - 3) as usize] = true;
    let with = forecast_drought_retention(&ground, &dam, &drain, water, w, h, 30_000_000);
    assert!(
        with > without + 50_000,
        "dam must retain noticeably more water: {without} -> {with}"
    );
    assert!((0..=1_000_000).contains(&with) && (0..=1_000_000).contains(&without));
}

/// A fallen tree, a planted one and a finished building show in the colony.
#[test]
fn work_changes_the_colony() {
    let mut g = Game::new();
    let felled = g.colony.trees[0];
    let count = g.colony.trees.len();
    let spot = *tiles(&g.map).iter().find(|t| g.map.is_free_land(t.x, t.y)).unwrap();
    let other = *tiles(&g.map).iter().rfind(|t| g.map.is_free_land(t.x, t.y)).unwrap();
    let lodge = g.place(BuildingKind::Path, spot);
    let jobs = [
        (JobKind::Build(lodge), spot, 800_000),
        (JobKind::Chop(felled.id), felled.tree.tile, 1),
        (JobKind::Plant(other), other, 1),
    ];
    g.colony.jobs.clear();
    for (i, (kind, tile, work)) in jobs.into_iter().enumerate() {
        let id = 9_000 + i as u64;
        let beaver = g.colony.beavers[i].id;
        let job = Job { kind, tile, work, claimed_by: Some(beaver) };
        g.colony.jobs.push(JobRow { id, job });
        g.colony.beavers[i].beaver.state = BeaverState::Work(id);
    }
    let mut fresh = vec![7_001, 7_002, 7_003];
    g.colony.work(&mut g.map, &mut g.stock, &mut fresh, 500_000);
    let site = g.colony.buildings[0].construction;
    assert_eq!(site, Some(UnderConstruction { done: 500_000, required: 800_000 }));
    assert!(g.colony.trees.iter().all(|row| row.id != felled.id));
    let sapling = TreeRow { id: 7_003, tree: Tree { tile: other, growth: 0 } };
    assert_eq!(g.colony.trees.last(), Some(&sapling));
    assert_eq!(g.colony.trees.len(), count);
    assert_eq!(g.colony.jobs.len(), 1);
    g.colony.work(&mut g.map, &mut g.stock, &mut fresh.clone(), 500_000);
    assert_eq!(g.colony.buildings[0].construction, None);
    assert!(g.colony.jobs.is_empty());
    assert!(g.agrees());
    let building = g.colony.buildings[0].building;
    demolish(&mut g.map, &mut g.stock, &building);
    g.colony.raze(&g.map, lodge);
    assert!(g.colony.buildings.is_empty() && g.agrees());
}

/// The dead leave the colony, and their routes with them.
#[test]
fn the_dead_leave_the_colony() {
    let mut g = Game::new();
    let ids: Vec<u64> = g.colony.beavers.iter().map(|row| row.id).collect();
    g.stock = Stockpile { logs: 0, food: 0, water: 0 };
    g.colony.beavers[1].beaver.hunger = HUNGER_FULL;
    g.colony.beavers[1].beaver.starving = STARVE_LIMIT;
    g.starving = 1;
    let path = ComputedPath { job: 5, tiles: None };
    g.colony.deliver(&g.map, ids[2], path);
    let events = g.colony.feed(&g.map, &mut g.stock, &mut g.starving, FIXED);
    assert_eq!(events, vec![NeedEvent::Dies(ids[1])]);
    assert_eq!(g.starving, 0);
    let left: Vec<u64> = g.colony.beavers.iter().map(|row| row.id).collect();
    assert_eq!(left, vec![ids[0], ids[2]]);
    assert!(g.colony.routes[0].is_none());
    assert_eq!(g.colony.routes[1].as_ref().map(|path| path.job), Some(5));
}

/// A beaver with a new job has no route yet, and one whose job is gone is idle.
#[test]
fn jobs_come_and_go() {
    let mut g = Game::new();
    let spot = *tiles(&g.map).iter().find(|t| g.map.is_free_land(t.x, t.y)).unwrap();
    let path = g.place(BuildingKind::Path, spot);
    let requests = g.colony.send_out(&g.map);
    assert_eq!(requests.len(), 1);
    assert_eq!(requests[0].goal, spot);
    let walker = g.colony.beavers.iter().position(|row| row.id == requests[0].beaver).unwrap();
    assert_eq!(g.colony.beavers[walker].beaver.state, BeaverState::Goto(requests[0].job));
    assert!(g.colony.send_out(&g.map).is_empty());
    g.colony.raze(&g.map, path);
    g.colony.send_out(&g.map);
    assert!(g.colony.jobs.is_empty());
    g.colony.walk(&g.map, FIXED);
    assert_eq!(g.colony.beavers[walker].beaver.state, BeaverState::Idle);
}
