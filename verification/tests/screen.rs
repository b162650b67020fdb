//! What the player reads and does: texts, clicks, the menu, the chronicle.
use beaver_builds::async_value::AsyncValue;
use beaver_builds::chronicle::{day_line, feed_days, Chronicle};
use beaver_builds::cinema::{point_of_interest, Cinematic};
use beaver_builds::hud::{
    button_look, calendar_key, cost_text, epitaph, forecast_text, menu_text, population_text,
    progress_of, season_text, status_text, stock_text, warnings, ButtonLook, Outlook, Warning,
};
use beaver_builds::interact::{
    building_root, expire_notice, handle_click, placement_preview, track_hover, Notice, Outcome,
    PointerButton, Target, Tool,
};
use beaver_builds::look::{
    grass_shade, ground_shade, tree_look, water_shows, Shade, TileStates,
};
use beaver_builds::menu::{handle_escape, press, Escaped, Leads, MenuButton, MenuState};
use beaver_builds::model::{
    beaver_parts, building_parts, building_size, preview_middle, scaffold, site_log, terrain,
    tree_parts, tree_scale, water_box, Hue, Part, Shape, Turn,
};
use beaver_builds::session::{
    autobuild, starts, AppState, DemoWatch, Session, StartInput,
};
use beaver_builds::sim::buildings::{
    building_defs, def, Building, BuildingKind, BuildingRow, UnderConstruction, WorkCycle,
};
use beaver_builds::sim::colony::Colony;
use beaver_builds::sim::map::{TileMap, TilePos};
use beaver_builds::sim::season::{Clock, ColonyStats, Population, Season};
use beaver_builds::sim::stock::Stockpile;
use beaver_builds::sim::trees::{Tree, MATURE};
use beaver_builds::text::{push_number, push_signed};
use bevy::ecs::component::{Component, Mutable, StorageType};
use bevy::ecs::hierarchy::ChildOf;
use bevy::ecs::world::World;

fn at(x: u32, y: u32) -> TilePos {
    TilePos { x, y }
}

/// Flat land with a river along one row.
fn flat(width: u32, height: u32, river: i32) -> TileMap {
    let levels = vec![1; (width * height) as usize];
    let middles = vec![river; width as usize];
    TileMap::generate_seeded(width, height, &levels, &middles)
}

#[test]
fn numbers_are_written_in_figures() {
    let mut s = String::new();
    push_number(&mut s, 0);
    push_number(&mut s, 1_234_567_890);
    push_signed(&mut s, -42);
    push_signed(&mut s, i64::MIN);
    assert_eq!(s, "01234567890-42-9223372036854775808");
}

#[test]
fn stores_are_shown_in_whole_units() {
    let stock = Stockpile { logs: 61, food: 24, water: -1 };
    assert_eq!(stock_text(&stock), "Logs 30    Food 12    Water -1");
    assert_eq!(population_text(&Population { count: 4, cap: 8 }), "Beavers 4/8");
    assert_eq!(cost_text(BuildingKind::Lodge), "20 logs");
    assert_eq!(cost_text(BuildingKind::Path), "1 logs");
}

#[test]
fn the_calendar_counts_down_in_seconds() {
    let mut season = Season::new();
    assert_eq!(season_text(&season), "Day 1  ·  Wet season  90s");
    season.remaining = 20_000_001;
    season.drought = true;
    season.day = 4;
    assert_eq!(season_text(&season), "Day 4  ·  DROUGHT  21s left");
    let key = calendar_key(&season);
    season.remaining -= 1;
    assert_ne!(calendar_key(&season), key);
    season.remaining -= 999_999;
    assert_eq!(calendar_key(&season), (4, true, 20));
}

#[test]
fn the_forecast_is_a_percentage() {
    assert_eq!(
        forecast_text(&AsyncValue::Pending),
        ("Forecast …".to_string(), Outlook::Unknown)
    );
    assert_eq!(
        forecast_text(&AsyncValue::Ready(625_000)),
        ("Drought forecast: 63% water survives".to_string(), Outlook::Good)
    );
    assert_eq!(forecast_text(&AsyncValue::Ready(500_000)).1, Outlook::Fair);
    assert_eq!(forecast_text(&AsyncValue::Ready(200_000)).1, Outlook::Poor);
}

#[test]
fn every_warning_has_its_reason() {
    let mut season = Season::new();
    let full = Stockpile { logs: 60, food: 24, water: 24 };
    let housed = Population { count: 3, cap: 8 };
    assert!(warnings(&season, &full, &housed, 0).is_empty());
    season.drought = true;
    let empty = Stockpile { logs: 0, food: 1, water: 1 };
    let crowded = Population { count: 8, cap: 8 };
    let all = warnings(&season, &empty, &crowded, 2);
    let keys: Vec<u64> = all.iter().map(|w| w.key()).collect();
    assert_eq!(keys, vec![1, 2, 3, 4, 5]);
    assert_eq!(all[0].text(), "Drought — the river has stopped, water is evaporating");
    assert_eq!(all[4], Warning::Starving);
    // Nobody goes hungry in an empty colony, but it is full.
    let nobody = Population { count: 0, cap: 0 };
    season.drought = false;
    assert_eq!(warnings(&season, &empty, &nobody, 0), vec![Warning::HousingFull]);
}

#[test]
fn buttons_show_the_tool_before_the_price() {
    let poor = Stockpile { logs: 39, food: 0, water: 0 };
    let rich = Stockpile { logs: 40, food: 0, water: 0 };
    let lodge = BuildingKind::Lodge;
    assert_eq!(button_look(Tool::Select, &poor, lodge), ButtonLook::TooDear);
    assert_eq!(button_look(Tool::Select, &rich, lodge), ButtonLook::Affordable);
    assert_eq!(button_look(Tool::Build(lodge), &poor, lodge), ButtonLook::Active);
    assert_eq!(
        button_look(Tool::Build(BuildingKind::Dam), &rich, lodge),
        ButtonLook::Affordable
    );
}

#[test]
fn unfinished_buildings_stay_short_of_a_hundred() {
    let site = |done, required| UnderConstruction { done, required };
    assert_eq!(progress_of(&site(0, 3_000_000)), 0);
    assert_eq!(progress_of(&site(1_000_000, 3_000_000)), 33);
    assert_eq!(progress_of(&site(3_000_000, 3_000_000)), 99);
    assert_eq!(progress_of(&site(u64::MAX, 1)), 99);
    assert_eq!(progress_of(&site(0, 0)), 0);
    assert_eq!(status_text(Some(site(1, 2))), "Under construction — 50%");
    assert_eq!(status_text(None), "Operational");
}

#[test]
fn colonies_are_remembered() {
    let mut season = Season::new();
    season.day = 7;
    season.cycle = 2;
    let stats = ColonyStats { started: true, peak: 11 };
    assert_eq!(
        epitaph(&season, &stats),
        "The colony fell on day 7 — 11 beavers at its height, 1 droughts endured"
    );
    season.drought = true;
    assert_eq!(
        epitaph(&season, &stats),
        "The colony fell on day 7 — 11 beavers at its height, 2 droughts endured"
    );
    assert_eq!(menu_text(7, 11), "Day 7 · 11 beavers");
}

#[test]
fn the_chronicle_shows_its_last_three_lines() {
    let mut season = Season::new();
    let stock = Stockpile { logs: 61, food: 7, water: 0 };
    let pop = Population { count: 5, cap: 8 };
    assert_eq!(
        day_line(2, &pop, &stock, &season, Some(125_000)),
        "Day 2: 5 beavers · 30 logs · 3 food · drought outlook 12%"
    );
    assert_eq!(
        day_line(2, &pop, &stock, &season, Some(135_000)),
        "Day 2: 5 beavers · 30 logs · 3 food · drought outlook 14%"
    );
    assert_eq!(day_line(2, &pop, &stock, &season, None), "Day 2: 5 beavers · 30 logs · 3 food");
    season.drought = true;
    assert_eq!(
        day_line(3, &pop, &stock, &season, Some(1)),
        "Day 3: 5 beavers · 30 logs · 3 food · enduring drought"
    );

    let mut chronicle = Chronicle::new();
    assert_eq!(chronicle.recent(), "");
    for line in ["a", "b", "c", "d"] {
        chronicle.write(line.to_string());
    }
    assert_eq!(chronicle.recent(), "b\nc\nd");
    chronicle.clear();
    chronicle.write("e".to_string());
    assert_eq!(chronicle.recent(), "e");
}

#[test]
fn days_are_told_once_from_the_second_on() {
    let mut last = 0;
    assert_eq!(feed_days(1, &mut last), None);
    assert_eq!(feed_days(2, &mut last), Some(2));
    assert_eq!(feed_days(2, &mut last), None);
    assert_eq!(feed_days(3, &mut last), Some(3));
}

struct Hand {
    map: TileMap,
    stock: Stockpile,
    tool: Tool,
    selected: Option<u64>,
    notice: Notice,
}

impl Hand {
    fn new(tool: Tool) -> Hand {
        Hand {
            map: flat(12, 12, 6),
            stock: Stockpile::initial(),
            tool,
            selected: None,
            notice: Notice::new(),
        }
    }

    fn click(&mut self, button: PointerButton, target: Target) -> Outcome {
        handle_click(
            true,
            button,
            target,
            &mut self.map,
            &mut self.stock,
            &mut self.tool,
            &mut self.selected,
            &mut self.notice,
            1_000_000,
            500,
            501,
        )
    }
}

#[test]
fn clicks_place_buildings() {
    let mut hand = Hand::new(Tool::Build(BuildingKind::Lumberjack));
    let preview = placement_preview(hand.tool, Some(at(2, 2)), &hand.map, &hand.stock);
    assert_eq!(preview, Some((BuildingKind::Lumberjack, at(2, 2), true)));
    let r = hand.click(PointerButton::Primary, Target::Tile(at(2, 2)));
    assert!(r.consumed);
    let (row, job) = r.placed.unwrap();
    assert_eq!(row.building, Building { kind: BuildingKind::Lumberjack, tile: at(2, 2) });
    assert_eq!((row.id, job.id), (500, 501));
    assert_eq!(hand.stock.logs, 50);
    assert_eq!(hand.map.building[hand.map.idx(2, 2)], Some(500));
    assert_eq!(hand.selected, None);
}

#[test]
fn clicks_that_are_refused_say_why() {
    let mut hand = Hand::new(Tool::Build(BuildingKind::Lodge));
    hand.stock.logs = 39;
    let r = hand.click(PointerButton::Primary, Target::Tile(at(2, 2)));
    assert!(r.consumed && r.placed.is_none());
    assert_eq!(hand.notice.message.as_deref(), Some("Can't build here: not enough logs"));
    assert_eq!(hand.notice.expires, 3_200_000);
    assert_eq!(hand.stock.logs, 39);

    let reasons = [
        (BuildingKind::Lodge, at(3, 6), "Can't build here: needs free land"),
        (BuildingKind::Dam, at(2, 2), "Can't build here: must be built in the river bed"),
        (BuildingKind::WaterPump, at(2, 2), "Can't build here: must stand next to water"),
    ];
    for (kind, tile, message) in reasons {
        let mut hand = Hand::new(Tool::Build(kind));
        assert!(!placement_preview(hand.tool, Some(tile), &hand.map, &hand.stock).unwrap().2);
        hand.click(PointerButton::Primary, Target::Tile(tile));
        assert_eq!(hand.notice.message.as_deref(), Some(message));
    }
    let mut hand = Hand::new(Tool::Build(BuildingKind::Path));
    hand.click(PointerButton::Primary, Target::Tile(at(2, 2)));
    hand.click(PointerButton::Primary, Target::Tile(at(2, 2)));
    assert_eq!(hand.notice.message.as_deref(), Some("Can't build here: occupied"));
}

#[test]
fn clicks_on_buildings_select_or_demolish_once() {
    let lodge = Building { kind: BuildingKind::Lodge, tile: at(2, 2) };
    let mut hand = Hand::new(Tool::Build(BuildingKind::Lodge));
    hand.click(PointerButton::Primary, Target::Tile(at(2, 2)));
    assert_eq!(hand.stock.logs, 20);
    let r = hand.click(PointerButton::Primary, Target::Building(500, lodge));
    assert!(r.consumed);
    assert_eq!(hand.selected, Some(500));
    hand.tool = Tool::Demolish;
    let r = hand.click(PointerButton::Primary, Target::Building(500, lodge));
    assert_eq!((r.consumed, r.demolished), (true, Some(500)));
    assert_eq!(hand.selected, None);
    assert_eq!(hand.stock.logs, 40);
    assert_eq!(hand.map.building[hand.map.idx(2, 2)], None);
}

#[test]
fn other_clicks_put_things_away() {
    let mut hand = Hand::new(Tool::Demolish);
    hand.selected = Some(9);
    let r = hand.click(PointerButton::Primary, Target::Elsewhere);
    assert!(!r.consumed);
    assert_eq!((hand.tool, hand.selected), (Tool::Demolish, Some(9)));
    hand.click(PointerButton::Middle, Target::Tile(at(1, 1)));
    assert_eq!(hand.selected, Some(9));
    let r = hand.click(PointerButton::Primary, Target::Tile(at(1, 1)));
    assert!(r.consumed);
    assert_eq!(hand.selected, None);
    hand.selected = Some(9);
    let r = hand.click(PointerButton::Secondary, Target::Tile(at(1, 1)));
    assert!(!r.consumed);
    assert_eq!((hand.tool, hand.selected), (Tool::Select, None));
    assert_eq!(placement_preview(hand.tool, Some(at(1, 1)), &hand.map, &hand.stock), None);
}

#[test]
fn notices_go_when_their_time_is_over() {
    let mut notice = Notice::new();
    assert!(!expire_notice(10, &mut notice));
    notice.say_starved(1_000_000);
    assert_eq!(notice.message.as_deref(), Some("A beaver has starved"));
    assert!(!expire_notice(3_500_000, &mut notice));
    assert!(expire_notice(3_500_001, &mut notice));
    assert_eq!(notice.message, None);
}

#[test]
fn hovering_is_tracked_in_play_only() {
    let mut hover = None;
    assert!(!track_hover(false, Some(at(1, 1)), &mut hover));
    assert!(track_hover(true, Some(at(1, 1)), &mut hover));
    assert!(!track_hover(true, Some(at(1, 1)), &mut hover));
    assert!(!track_hover(true, None, &mut hover));
    assert_eq!(hover, Some(at(1, 1)));
}

struct IsBuilding;

impl Component for IsBuilding {
    const STORAGE_TYPE: StorageType = StorageType::Table;
    type Mutability = Mutable;
}

#[test]
fn parts_belong_to_the_building_above_them() {
    let mut world = World::new();
    let building = world.register_component::<IsBuilding>().index();
    let root = world.spawn(IsBuilding).id();
    let middle = world.spawn(ChildOf(root)).id();
    let part = world.spawn(ChildOf(middle)).id();
    let loose = world.spawn_empty().id();
    let found = |e: bevy::ecs::entity::Entity| building_root(&world, e.to_bits(), building);
    assert_eq!(found(part), Some(root.to_bits()));
    assert_eq!(found(root), Some(root.to_bits()));
    assert_eq!(found(loose), None);
}

#[test]
fn escape_backs_out_one_layer_at_a_time() {
    let mut menu = MenuState::new();
    let mut clock = Clock { paused: false, speed: 2 };
    let mut tool = Tool::Demolish;
    let mut selected = Some(4);
    let mut escape = || handle_escape(&mut menu, &mut clock, &mut tool, &mut selected);
    assert_eq!(escape(), Escaped::Cancelled);
    assert_eq!(escape(), Escaped::Opened);
    assert_eq!(escape(), Escaped::Closed);
    assert_eq!((tool, selected), (Tool::Select, None));
    assert_eq!(clock, Clock { paused: false, speed: 2 });
    assert!(!menu.open);

    // A game that the player had paused stays paused.
    clock.paused = true;
    handle_escape(&mut menu, &mut clock, &mut tool, &mut selected);
    handle_escape(&mut menu, &mut clock, &mut tool, &mut selected);
    assert!(clock.paused && !menu.open);
}

#[test]
fn menu_buttons_lead_where_they_say() {
    let stopped = Clock { paused: true, speed: 1 };
    let open = MenuState { open: true, was_paused: false };
    let pressed = |button, menu: MenuState| {
        let (mut menu, mut clock) = (menu, stopped);
        let leads = press(button, &mut menu, &mut clock);
        (leads, menu.open, clock.paused)
    };
    assert_eq!(pressed(MenuButton::Resume, open), (Leads::Nowhere, false, false));
    let was_paused = MenuState { open: true, was_paused: true };
    assert_eq!(pressed(MenuButton::Resume, was_paused), (Leads::Nowhere, false, true));
    assert_eq!(
        pressed(MenuButton::Restart, open),
        (Leads::To(AppState::Playing), false, true)
    );
    assert_eq!(
        pressed(MenuButton::QuitToTitle, was_paused),
        (Leads::To(AppState::Intro), false, false)
    );
    assert_eq!(pressed(MenuButton::QuitToDesktop, open), (Leads::Out, true, true));
}

#[test]
fn games_start_at_a_word_or_in_time() {
    let no = StartInput { click: false, space: false, enter: false };
    assert!(!starts(no, 10, None));
    assert!(!starts(no, 10, Some(10)));
    assert!(starts(no, 11, Some(10)));
    assert!(starts(StartInput { enter: true, ..no }, 0, None));
    assert!(starts(StartInput { click: true, ..no }, 0, None));
    assert!(starts(StartInput { space: true, ..no }, 0, None));
}

#[test]
fn sessions_begin_anew() {
    let mut session = Session {
        stock: Stockpile { logs: 1, food: 2, water: 3 },
        season: Season { drought: true, remaining: 1, day: 9, cycle: 4, day_timer: 7 },
        population: Population { count: 4, cap: 5 },
        starving: 2,
        stats: ColonyStats { started: true, peak: 6 },
        tool: Tool::Demolish,
        selected: Some(3),
        hover: Some(at(1, 2)),
        clock: Clock { paused: true, speed: 4 },
    };
    let before = session;
    let map = flat(8, 8, 6);
    let mut colony = Colony::new();
    colony.welcome(&map, map.tile_center(1, 1), 7);
    let mut chronicle = Chronicle::new();
    chronicle.write("Day 2".to_string());
    assert_eq!(session.reset(&mut colony, &mut chronicle, false), vec![7]);
    assert!(colony.beavers.is_empty() && colony.routes.is_empty());
    assert_eq!(chronicle.recent(), "");
    assert_eq!(session.starving, 0);
    assert_eq!(session.stock, Stockpile { logs: 60, food: 24, water: 24 });
    assert_eq!(session.season, Season::new());
    assert_eq!(session.population, Population { count: 0, cap: 0 });
    assert_eq!(session.stats, ColonyStats { started: false, peak: 0 });
    assert_eq!((session.tool, session.selected, session.hover), (Tool::Select, None, None));
    assert_eq!(session.clock, Clock { paused: false, speed: 1 });
    let mut fast = before;
    fast.reset(&mut colony, &mut chronicle, true);
    assert_eq!(fast.clock, Clock { paused: false, speed: 4 });
}

#[test]
fn fallen_demonstrations_begin_anew_once() {
    let mut watch = DemoWatch { alive: false, fallen_for: 0 };
    // Nothing has lived yet, so nothing has fallen.
    for _ in 0..100 {
        assert!(!watch.restart_demo_if_fallen(0, 1_000_000));
    }
    assert!(!watch.restart_demo_if_fallen(3, 1_000_000));
    for _ in 0..5 {
        assert!(!watch.restart_demo_if_fallen(0, 1_000_000));
    }
    assert!(watch.restart_demo_if_fallen(0, 1_000_000));
    assert!(!watch.restart_demo_if_fallen(0, 6_000_000));
}

#[test]
fn the_showcase_builds_one_of_each() {
    let mut map = flat(20, 20, 10);
    let mut stock = Stockpile::initial();
    let mut selected = None;
    let mut fresh: Vec<u64> = (1..=18).collect();
    let placed = autobuild(&mut map, &mut stock, &mut selected, &mut fresh);
    let kinds: Vec<BuildingKind> = placed.iter().map(|(row, _)| row.building.kind).collect();
    assert_eq!(
        kinds,
        vec![
            BuildingKind::Lodge,
            BuildingKind::WaterPump,
            BuildingKind::CarrotFarm,
            BuildingKind::Lumberjack,
            BuildingKind::Forester,
            BuildingKind::Dam,
            BuildingKind::Path,
            BuildingKind::Path,
            BuildingKind::Path,
        ]
    );
    assert_eq!(selected, Some(18));
    assert_eq!((placed[0].0.id, placed[0].1.id), (18, 17));
    assert!(fresh.is_empty());
    // 130 logs, less 20 + 12 + 10 + 5 + 8 + 6 + 1 + 1 + 1.
    assert_eq!(stock.logs, 2 * (130 - 64));
    assert_eq!(placed[5].0.building.tile, at(10, 10));
}

#[test]
fn definitions_are_listed_in_menu_order() {
    let defs = building_defs();
    assert_eq!(defs.len(), 7);
    assert_eq!(defs[3].name, "Lumberjack flag");
    for d in &defs {
        assert_eq!(def(d.kind).description, d.description);
    }
    assert_eq!(def(BuildingKind::WaterPump).cost_logs, 24);
}

#[test]
fn shots_change_every_nine_seconds() {
    let mut cine = Cinematic::new();
    assert!(!cine.advance(9_999));
    assert!(cine.advance(1));
    assert_eq!(cine, Cinematic { t: 0, duration: 9_000_000, shot: 1 });
    assert!(!cine.advance(8_999_999));
    assert!(cine.advance(1));
    cine.advance(9_000_000);
    assert!(cine.is_wide());
    cine.advance(9_000_000);
    assert!(!cine.is_wide());
}

#[test]
fn shots_look_at_what_there_is() {
    let map = flat(12, 12, 6);
    let middle = at(6, 6);
    let dam = BuildingRow {
        id: 1,
        building: Building { kind: BuildingKind::Dam, tile: at(3, 6) },
        construction: None,
        cycle: WorkCycle { cooldown: 0, job: None },
    };
    let none: Vec<BuildingRow> = Vec::new();
    assert_eq!(point_of_interest(&map, 0, None, &none), middle);
    assert_eq!(point_of_interest(&map, 4, Some(at(1, 2)), &none), at(1, 2));
    assert_eq!(point_of_interest(&map, 1, Some(at(1, 2)), &none), middle);
    assert_eq!(point_of_interest(&map, 5, None, &vec![dam]), at(3, 6));
    assert_eq!(point_of_interest(&map, 2, None, &vec![dam]), at(0, 5));
    assert_eq!(point_of_interest(&map, 3, Some(at(1, 2)), &vec![dam]), middle);
}

#[test]
fn tiles_are_drawn_anew_when_it_matters() {
    let mut map = flat(4, 4, 2);
    let mut states = TileStates::new(16);
    let (water, ground) = states.mirror_tile_state(&map);
    // Two rows of channel hold a level of water.
    assert_eq!(water, vec![4, 5, 6, 7, 8, 9, 10, 11]);
    assert!(ground.is_empty());
    assert_eq!(states.mirror_tile_state(&map), (vec![], vec![]));
    map.water[4] -= 10_000;
    map.water[5] -= 10_001;
    map.irrigated[3] = true;
    assert_eq!(states.mirror_tile_state(&map), (vec![5], vec![3]));
    assert_eq!(states.depth[4], 1_000_000);
    map.water[4] = 5_000;
    states.mirror_tile_state(&map);
    map.water[4] = 0;
    assert_eq!(states.mirror_tile_state(&map).0, vec![4]);
    assert!(!water_shows(20_000) && water_shows(20_001));
}

#[test]
fn ground_is_chequered() {
    assert_eq!(grass_shade(true, at(2, 2)), Shade::Grass);
    assert_eq!(grass_shade(true, at(2, 3)), Shade::GrassAlt);
    assert_eq!(grass_shade(false, at(2, 2)), Shade::Dry);
    assert_eq!(grass_shade(false, at(2, 3)), Shade::DryAlt);
    assert_eq!(ground_shade(0, at(2, 3)), Shade::RiverBed);
    assert_eq!(ground_shade(2, at(2, 3)), Shade::GrassAlt);
    assert_eq!(ground_shade(1, at(2, 2)), Shade::Grass);
}

#[test]
fn trees_differ() {
    let look = tree_look(at(10, 20));
    // The hash is 10 * 31 + 20 * 17.
    assert_eq!((look.turn, look.size, look.leaf), (650 % 628, 88 + 650 % 25, 330 % 3));
    let far = tree_look(at(200_000_000, 0));
    assert_eq!(far.turn, 200_000_000u32.wrapping_mul(31) % 628);
}

#[test]
fn menu_buttons_stand_in_a_column() {
    let titles: Vec<&str> = MenuButton::column().iter().map(|b| b.title()).collect();
    assert_eq!(titles, vec!["Resume", "Restart", "Quit to title", "Quit to desktop"]);
}

fn part(shape: Shape, hue: Hue, at: (i64, i64, i64), size: (i64, i64, i64), turn: Turn) -> Part {
    Part { shape, hue, x: at.0, y: at.1, z: at.2, wide: size.0, high: size.1, deep: size.2, turn }
}

const KINDS: [BuildingKind; 7] = [
    BuildingKind::Lodge,
    BuildingKind::WaterPump,
    BuildingKind::CarrotFarm,
    BuildingKind::Lumberjack,
    BuildingKind::Forester,
    BuildingKind::Dam,
    BuildingKind::Path,
];

#[test]
fn buildings_are_made_of_parts() {
    let counts: Vec<usize> = KINDS.iter().map(|k| building_parts(*k).len()).collect();
    assert_eq!(counts, vec![3, 4, 7, 4, 5, 5, 3]);
    assert_eq!(
        building_parts(BuildingKind::Lodge)[1],
        part(
            Shape::Cube,
            Hue::WoodDark,
            (0, 460_000, 0),
            (580_000, 580_000, 950_000),
            Turn::Ridge
        )
    );
    let farm = building_parts(BuildingKind::CarrotFarm);
    let carrot = |x, y, z| {
        let size = (160_000, 130_000, 160_000);
        part(Shape::Sphere, Hue::CarrotTop, (x, y, z), size, Turn::Upright)
    };
    assert_eq!(farm[1], carrot(-280_000, 130_000, -220_000));
    assert_eq!(farm[2], carrot(-280_000, 150_000, 220_000));
    assert_eq!(farm[3], carrot(0, 170_000, -220_000));
    assert_eq!(farm[4], carrot(0, 130_000, 220_000));
    assert_eq!(farm[5], carrot(280_000, 150_000, -220_000));
    assert_eq!(farm[6], carrot(280_000, 170_000, 220_000));
}

#[test]
fn buildings_keep_to_their_tile() {
    for kind in KINDS {
        for p in building_parts(kind) {
            let reach = if p.turn == Turn::Lying { p.high } else { p.deep };
            assert!(2 * p.x.abs() + p.wide <= 1_000_000);
            assert!(2 * p.z.abs() + reach <= 1_000_000);
        }
    }
}

#[test]
fn scaffolds_grow_with_the_work() {
    let kind = BuildingKind::Lodge;
    assert_eq!(building_size(kind), (900_000, 800_000, 900_000));
    let at_work = |done| scaffold(kind, Some(UnderConstruction { done, required: 8_000_000 }));
    let frame = |high| {
        let size = (720_000, high, 720_000);
        part(Shape::Cube, Hue::Scaffold, (0, high / 2, 0), size, Turn::Upright)
    };
    assert_eq!(at_work(0), frame(50_000));
    assert_eq!(at_work(400_000), frame(50_000));
    assert_eq!(at_work(2_000_000), frame(200_000));
    assert_eq!(at_work(9_000_000), frame(800_000));
    assert_eq!(scaffold(kind, None), frame(800_000));
    assert_eq!(
        site_log(),
        part(
            Shape::Cylinder,
            Hue::Wood,
            (380_000, 60_000, 300_000),
            (120_000, 450_000, 120_000),
            Turn::Lying
        )
    );
}

#[test]
fn trees_and_beavers_are_made_of_parts() {
    let tree = tree_parts(at(1, 0));
    assert_eq!(tree.len(), 3);
    assert_eq!((tree[1].hue, tree[1].y), (Hue::Leaf(1), 580_000));
    // The hash of the tile is 31.
    let of = |growth| tree_scale(&Tree { tile: at(1, 0), growth });
    assert_eq!(of(0), 250_000 * 94 / 100);
    assert_eq!(of(MATURE), 940_000);
    assert_eq!(of(MATURE / 2), 625_000 * 94 / 100);
    assert_eq!(beaver_parts(false)[0].hue, Hue::Fur);
    let starving = beaver_parts(true);
    assert_eq!((starving[0].hue, starving[1].hue, starving[2].hue), (
        Hue::FurStarving,
        Hue::FurStarving,
        Hue::FurDark,
    ));
    assert_eq!(starving[2].z, -260_000);
}

#[test]
fn the_ground_stands_in_blocks() {
    let map = flat(4, 4, 2);
    let blocks = terrain(&map);
    assert_eq!(blocks.len(), 16);
    let bank = blocks[1];
    assert_eq!((bank.tile, bank.shade, bank.grassy), (at(1, 0), Shade::GrassAlt, true));
    assert_eq!((bank.ground, bank.height), (1, 500_000));
    assert_eq!((bank.x, bank.z), (-500_000, -1_500_000));
    let bed = blocks[9];
    assert_eq!((bed.tile, bed.shade, bed.grassy), (at(1, 2), Shade::RiverBed, false));
    assert_eq!((bed.ground, bed.height), (0, 120_000));
    assert_eq!(water_box(0, 1_000_000), (250_000, 500_000));
    assert_eq!(water_box(2, 400_000), (1_100_000, 200_000));
    assert_eq!(water_box(1, 0), (500_000, 1_000));
}

#[test]
fn previews_stand_on_the_ground() {
    let map = flat(4, 4, 2);
    let foot = map.tile_center(1, 0);
    let middle = preview_middle(&map, BuildingKind::Lodge, at(1, 0));
    assert_eq!((middle.x, middle.y, middle.z), (foot.x, foot.y + 400_000, foot.z));
}
