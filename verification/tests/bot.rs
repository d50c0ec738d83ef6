use openra::ai::Bot;
use openra::world_view::{ActorInfo, ActorKind, GameOrder, PlayerInfo, WorldView};

const ME: u32 = 1;
const ENEMY: u32 = 2;

fn actor(id: u32, owner: u32, kind: ActorKind, t: &str, x: i32, y: i32) -> ActorInfo {
    ActorInfo { id, owner, kind, actor_type: t.to_string(), location: (x, y), idle: true }
}

fn player(id: u32, cash: i32) -> PlayerInfo {
    PlayerInfo {
        id,
        cash,
        power_provided: 100,
        power_drained: 0,
        building_in_production: false,
        unit_in_production: false,
        completed_buildings: vec![],
        enemy_location: None,
    }
}

fn costs(list: &[(&str, i32)]) -> Vec<(String, i32)> {
    list.iter().map(|(t, c)| (t.to_string(), *c)).collect()
}

fn world(actors: Vec<ActorInfo>, players: Vec<PlayerInfo>) -> WorldView {
    WorldView {
        actors,
        players,
        building_costs: costs(&[("powr", 300), ("proc", 1400), ("tent", 400), ("weap", 2000), ("dome", 1000)]),
        unit_costs: costs(&[("e1", 100), ("e3", 300), ("harv", 1400), ("1tnk", 700)]),
        map_width: 64,
        map_height: 64,
        buildable: vec![true; 64 * 64],
    }
}

fn run(bot: &mut Bot, w: &WorldView, ticks: usize) -> Vec<GameOrder> {
    let mut all = Vec::new();
    for _ in 0..ticks {
        all.extend(bot.tick(w));
    }
    all
}

fn named<'a>(orders: &'a [GameOrder], name: &str) -> Vec<&'a GameOrder> {
    orders.iter().filter(|o| o.order_string == name).collect()
}

#[test]
fn deploys_the_mcv() {
    let w = world(vec![actor(5, ME, ActorKind::Mcv, "mcv", 10, 10)], vec![player(ME, 0)]);
    let mut bot = Bot::new(ME);
    assert_eq!(bot.player_id, ME);
    let orders = run(&mut bot, &w, 21);
    let deploys = named(&orders, "DeployTransform");
    assert_eq!(deploys.len(), 1);
    assert_eq!(deploys[0].subject_id, Some(5));
    assert_eq!(deploys[0].target_string, None);
    assert_eq!(deploys[0].extra_data, None);
}

#[test]
fn no_mcv_means_no_deploy() {
    let w = world(vec![actor(5, ENEMY, ActorKind::Mcv, "mcv", 10, 10)], vec![player(ME, 0)]);
    let mut bot = Bot::new(ME);
    let orders = run(&mut bot, &w, 60);
    assert!(named(&orders, "DeployTransform").is_empty());
}

#[test]
fn queues_a_refinery_first() {
    let w = world(vec![actor(3, ME, ActorKind::Building, "fact", 10, 10)], vec![player(ME, 5000)]);
    let mut bot = Bot::new(ME);
    let orders = run(&mut bot, &w, 130);
    let starts = named(&orders, "StartProduction");
    assert!(!starts.is_empty());
    assert_eq!(starts[0].subject_id, Some(ME));
    assert_eq!(starts[0].target_string.as_deref(), Some("proc"));
}

#[test]
fn queues_power_when_short() {
    let mut me = player(ME, 5000);
    me.power_provided = 10;
    me.power_drained = 50;
    let w = world(vec![actor(3, ME, ActorKind::Building, "fact", 10, 10)], vec![me]);
    let mut bot = Bot::new(ME);
    let orders = run(&mut bot, &w, 130);
    let starts = named(&orders, "StartProduction");
    assert_eq!(starts[0].target_string.as_deref(), Some("powr"));
}

#[test]
fn nothing_without_a_construction_yard() {
    let w = world(vec![actor(3, ME, ActorKind::Building, "tent", 10, 10)], vec![player(ME, 400)]);
    let mut bot = Bot::new(ME);
    let orders = run(&mut bot, &w, 300);
    assert!(orders.is_empty());
}

#[test]
fn places_completed_buildings_around_the_base() {
    let mut me = player(ME, 0);
    me.completed_buildings = vec!["powr".to_string()];
    let w = world(vec![actor(3, ME, ActorKind::Building, "fact", 10, 10)], vec![me]);
    let mut bot = Bot::new(ME);
    let orders = bot.tick(&w);
    let places = named(&orders, "PlaceBuilding");
    assert_eq!(places.len(), 1);
    assert_eq!(places[0].subject_id, Some(ME));
    assert_eq!(places[0].target_string.as_deref(), Some("powr,13,10"));
}

#[test]
fn placement_skips_blocked_sites() {
    let mut me = player(ME, 0);
    me.completed_buildings = vec!["powr".to_string()];
    let mut w = world(vec![actor(3, ME, ActorKind::Building, "fact", -2, 10)], vec![me]);
    // Offset (3, 0) puts the building at (1, 10); block that cell. The next offsets
    // (0, 3), (-3, 0) and (0, -3) lie off the map; (3, 3) gives (1, 13).
    w.buildable[10 * 64 + 1] = false;
    let mut bot = Bot::new(ME);
    let orders = bot.tick(&w);
    let places = named(&orders, "PlaceBuilding");
    assert_eq!(places[0].target_string.as_deref(), Some("powr,1,13"));
}

#[test]
fn builds_the_most_wanted_unit() {
    let w = world(
        vec![
            actor(3, ME, ActorKind::Building, "tent", 10, 10),
            actor(4, ME, ActorKind::Building, "weap", 20, 10),
        ],
        vec![player(ME, 5000)],
    );
    let mut bot = Bot::new(ME);
    let orders = run(&mut bot, &w, 31);
    let units: Vec<_> = named(&orders, "StartProduction")
        .into_iter()
        .filter(|o| o.target_string.as_deref() != Some("proc") && o.target_string.as_deref() != Some("powr"))
        .collect();
    assert_eq!(units.len(), 1);
    // With no units yet the largest target share, infantry "e1", comes first.
    assert_eq!(units[0].target_string.as_deref(), Some("e1"));
}

#[test]
fn no_units_when_poor() {
    let w = world(vec![actor(3, ME, ActorKind::Building, "tent", 10, 10)], vec![player(ME, 499)]);
    let mut bot = Bot::new(ME);
    assert!(run(&mut bot, &w, 100).is_empty());
}

#[test]
fn squad_attacks_the_enemy() {
    let mut actors = vec![];
    for i in 0..8 {
        actors.push(actor(10 + i, ME, ActorKind::Infantry, "e1", 5, 5));
    }
    actors.push(actor(30, ME, ActorKind::Vehicle, "harv", 6, 6));
    let mut me = player(ME, 0);
    me.enemy_location = Some((50, 60));
    let w = world(actors, vec![me]);
    let mut bot = Bot::new(ME);
    let orders = run(&mut bot, &w, 160);
    let attacks = named(&orders, "AttackMove");
    assert!(!attacks.is_empty());
    for a in &attacks {
        assert_eq!(a.target_string.as_deref(), Some("50,60"));
        let id = a.subject_id.unwrap();
        assert!((10..18).contains(&id));
    }
}

#[test]
fn too_few_units_do_not_attack() {
    let actors = vec![actor(10, ME, ActorKind::Infantry, "e1", 5, 5), actor(11, ME, ActorKind::Infantry, "e1", 5, 5)];
    let mut me = player(ME, 0);
    me.enemy_location = Some((50, 60));
    let w = world(actors, vec![me]);
    let mut bot = Bot::new(ME);
    assert!(named(&run(&mut bot, &w, 400), "AttackMove").is_empty());
}

#[test]
fn bots_are_deterministic() {
    let w = world(
        vec![
            actor(3, ME, ActorKind::Building, "fact", 10, 10),
            actor(4, ME, ActorKind::Building, "tent", 14, 10),
            actor(5, ME, ActorKind::Infantry, "e1", 12, 12),
        ],
        vec![player(ME, 3000)],
    );
    let mut a = Bot::new(ME);
    let mut b = Bot::new(ME);
    for _ in 0..300 {
        let x = a.tick(&w);
        let y = b.tick(&w);
        assert_eq!(x.len(), y.len());
        for (o, p) in x.iter().zip(y.iter()) {
            assert_eq!(o.order_string, p.order_string);
            assert_eq!(o.subject_id, p.subject_id);
            assert_eq!(o.target_string, p.target_string);
        }
    }
}

#[test]
fn world_queries() {
    let mut w = world(
        vec![
            actor(3, ME, ActorKind::Building, "fact", 10, 10),
            actor(4, ENEMY, ActorKind::Building, "fact", 40, 40),
            actor(5, ME, ActorKind::Infantry, "e1", 12, 12),
        ],
        vec![player(ME, 1234)],
    );
    w.actors[2].idle = false;
    assert_eq!(w.actor_ids_for_player(ME), vec![3, 5]);
    assert_eq!(w.actor_kind(5), Some(ActorKind::Infantry));
    assert_eq!(w.actor_kind(99), None);
    assert_eq!(w.actor_type(4).as_deref(), Some("fact"));
    assert!(!w.is_actor_idle(5));
    assert!(w.is_actor_idle(3));
    assert!(!w.is_actor_idle(99));
    assert_eq!(w.player_building_types(ME), vec!["fact".to_string()]);
    assert_eq!(w.player_cash(ME), 1234);
    assert_eq!(w.player_cash(ENEMY), 0);
    assert_eq!(w.building_cost("tent"), 400);
    assert_eq!(w.building_cost("nope"), 0);
    assert_eq!(w.unit_cost("e3"), 300);
    assert_eq!(w.find_building_location(ENEMY, "fact"), Some((40, 40)));
    assert_eq!(w.find_building_location(ME, "tent"), None);
    assert!(w.can_place_building(62, 62, 2, 2));
    assert!(!w.can_place_building(63, 62, 2, 2));
    assert!(!w.can_place_building(-1, 0, 2, 2));
}

#[test]
fn each_unit_gets_one_attack_order_per_tick() {
    let mut actors = vec![];
    for i in 0..9 {
        actors.push(actor(10 + i, ME, ActorKind::Infantry, "e1", 5, 5));
    }
    let mut me = player(ME, 0);
    me.enemy_location = Some((40, 41));
    let w = world(actors, vec![me]);
    let mut bot = Bot::new(ME);
    let mut attacked_ticks = 0;
    for _ in 0..400 {
        let orders = bot.tick(&w);
        let mut ids: Vec<u32> = named(&orders, "AttackMove").iter().map(|o| o.subject_id.unwrap()).collect();
        if !ids.is_empty() {
            attacked_ticks += 1;
        }
        let n = ids.len();
        ids.sort();
        ids.dedup();
        assert_eq!(ids.len(), n);
    }
    assert!(attacked_ticks > 0);
}

/// The ticks (counted from 0) on which `bot` issues an order satisfying `pick`.
fn ticks_with(bot: &mut Bot, w: &WorldView, ticks: usize, pick: &dyn Fn(&GameOrder) -> bool) -> Vec<usize> {
    let mut at = Vec::new();
    for t in 0..ticks {
        if bot.tick(w).iter().any(|o| pick(o)) {
            at.push(t);
        }
    }
    at
}

#[test]
fn deploys_are_at_least_20_ticks_apart() {
    // The MCV never turns into a construction yard, so the bot keeps trying.
    let w = world(vec![actor(5, ME, ActorKind::Mcv, "mcv", 10, 10)], vec![player(ME, 0)]);
    let mut bot = Bot::new(ME);
    let at = ticks_with(&mut bot, &w, 200, &|o| o.order_string == "DeployTransform");
    assert!(at.len() >= 5);
    for pair in at.windows(2) {
        assert_eq!(pair[1] - pair[0], 20);
    }
}

#[test]
fn unit_production_is_at_least_30_ticks_apart() {
    let units = ["e1", "e2", "e3", "e4", "e7", "dog", "shok", "harv", "apc", "jeep", "arty", "v2rl", "1tnk", "2tnk", "3tnk", "4tnk", "ttnk"];
    let w = world(
        vec![
            actor(3, ME, ActorKind::Building, "fact", 10, 10),
            actor(4, ME, ActorKind::Building, "tent", 14, 10),
        ],
        vec![player(ME, 5000)],
    );
    let mut bot = Bot::new(ME);
    let at = ticks_with(&mut bot, &w, 300, &|o| {
        o.order_string == "StartProduction" && units.contains(&o.target_string.as_deref().unwrap_or(""))
    });
    assert!(at.len() >= 5);
    for pair in at.windows(2) {
        assert!(pair[1] - pair[0] >= 30);
    }
}
