//! The skirmish bot: every tick it reads the world and issues orders, through
//! the modules of the game's modular bot: MCV manager (deploy the MCV), base
//! builder (queue and place buildings), unit builder (queue units to keep the
//! army's mix near target fractions) and squad manager (gather idle units and
//! attack the enemy). It draws from its own seeded random generator, so its
//! behavior is deterministic.

use vstd::prelude::*;
use vstd::string::StringExecFns;
use crate::rng::{MersenneTwister, RngState, lemma_draw_bounds, seeded, spec_next_range};
use crate::strs::str_eq;
use crate::text::{decimal_int, push_decimal_i32};
use crate::world_view::{
    ActorInfo, ActorKind, GameOrder, OrderValue, WorldView, building_types, cost_of, find_building, owned_ids,
    spec_actor_kind, spec_actor_type, spec_building_in_production, spec_can_place_building,
    spec_completed_buildings, spec_enemy_location, spec_is_actor_idle, spec_player_cash,
    spec_player_power, spec_unit_in_production,
};

verus! {

// ---------------------------------------------------------------------------
// Configuration (the "normal" bot profile)
// ---------------------------------------------------------------------------

/// Building types the base builder weighs, with their fractions (higher is more wanted), in order.
pub open spec fn building_fractions() -> Seq<(Seq<char>, i32)> {
    seq![
        ("powr"@, 1i32), ("proc"@, 1i32), ("tent"@, 3i32), ("barr"@, 3i32),
        ("weap"@, 4i32), ("pbox"@, 9i32), ("gun"@, 9i32), ("ftur"@, 10i32),
        ("tsla"@, 5i32), ("gap"@, 2i32), ("fix"@, 1i32), ("agun"@, 5i32),
        ("sam"@, 1i32), ("atek"@, 1i32), ("stek"@, 1i32), ("dome"@, 1i32),
        ("hpad"@, 1i32), ("spen"@, 1i32), ("syrd"@, 1i32), ("mslo"@, 1i32),
    ]
}

/// Most buildings of a type the base builder keeps.
pub open spec fn building_limit(t: Seq<char>) -> i32 {
    if t == "barr"@ { 7 }
    else if t == "tent"@ { 7 }
    else if t == "dome"@ { 1 }
    else if t == "weap"@ { 4 }
    else if t == "spen"@ { 1 }
    else if t == "syrd"@ { 1 }
    else if t == "hpad"@ { 4 }
    else if t == "afld"@ { 4 }
    else if t == "atek"@ { 1 }
    else if t == "stek"@ { 1 }
    else if t == "fix"@ { 1 }
    else { i32::MAX }
}

/// Tick before which the base builder does not build a type.
pub open spec fn building_delay(t: Seq<char>) -> i32 {
    if t == "dome"@ { 6000 }
    else if t == "fix"@ { 3000 }
    else if t == "pbox"@ { 1500 }
    else if t == "gun"@ { 2000 }
    else if t == "ftur"@ { 1500 }
    else if t == "tsla"@ { 2800 }
    else if t == "kenn"@ { 7000 }
    else if t == "spen"@ { 6000 }
    else if t == "syrd"@ { 6000 }
    else if t == "atek"@ { 9000 }
    else if t == "stek"@ { 9000 }
    else { 0 }
}

/// Unit types the unit builder weighs, with their target fractions, in order.
pub open spec fn unit_fractions() -> Seq<(Seq<char>, i32)> {
    seq![
        ("e1"@, 65i32), ("e2"@, 15i32), ("e3"@, 30i32), ("e4"@, 15i32),
        ("e7"@, 1i32), ("dog"@, 15i32), ("shok"@, 15i32), ("harv"@, 15i32),
        ("apc"@, 30i32), ("jeep"@, 20i32), ("arty"@, 15i32), ("v2rl"@, 40i32),
        ("1tnk"@, 40i32), ("2tnk"@, 50i32), ("3tnk"@, 50i32), ("4tnk"@, 25i32),
        ("ttnk"@, 25i32),
    ]
}

/// Most units of a type the unit builder keeps.
pub open spec fn unit_limit(t: Seq<char>) -> i32 {
    if t == "dog"@ { 4 }
    else if t == "harv"@ { 8 }
    else if t == "jeep"@ { 4 }
    else { i32::MAX }
}

/// Cells, relative to the base, tried in turn when placing a building.
pub open spec fn placement_offsets() -> Seq<(i32, i32)> {
    seq![
        (3i32, 0i32), (0i32, 3i32), (-3i32, 0i32), (0i32, -3i32),
        (3i32, 3i32), (-3i32, 3i32), (3i32, -3i32), (-3i32, -3i32),
        (6i32, 0i32), (0i32, 6i32), (-6i32, 0i32), (0i32, -6i32),
        (6i32, 3i32), (3i32, 6i32), (-3i32, 6i32), (-6i32, 3i32),
        (6i32, -3i32), (3i32, -6i32), (-3i32, -6i32), (-6i32, -3i32),
        (9i32, 0i32), (0i32, 9i32), (-9i32, 0i32), (0i32, -9i32),
    ]
}

fn building_fractions_table() -> (r: [(&'static str, i32); 20])
    ensures
        forall|i: int| 0 <= i < 20 ==> (#[trigger] r@[i]).0@ == building_fractions()[i].0 && r@[i].1
            == building_fractions()[i].1,
{
    let r = [
        ("powr", 1i32), ("proc", 1i32), ("tent", 3i32), ("barr", 3i32),
        ("weap", 4i32), ("pbox", 9i32), ("gun", 9i32), ("ftur", 10i32),
        ("tsla", 5i32), ("gap", 2i32), ("fix", 1i32), ("agun", 5i32),
        ("sam", 1i32), ("atek", 1i32), ("stek", 1i32), ("dome", 1i32),
        ("hpad", 1i32), ("spen", 1i32), ("syrd", 1i32), ("mslo", 1i32),
    ];
    r
}

fn unit_fractions_table() -> (r: [(&'static str, i32); 17])
    ensures
        forall|i: int| 0 <= i < 17 ==> (#[trigger] r@[i]).0@ == unit_fractions()[i].0 && r@[i].1
            == unit_fractions()[i].1,
{
    let r = [
        ("e1", 65i32), ("e2", 15i32), ("e3", 30i32), ("e4", 15i32),
        ("e7", 1i32), ("dog", 15i32), ("shok", 15i32), ("harv", 15i32),
        ("apc", 30i32), ("jeep", 20i32), ("arty", 15i32), ("v2rl", 40i32),
        ("1tnk", 40i32), ("2tnk", 50i32), ("3tnk", 50i32), ("4tnk", 25i32),
        ("ttnk", 25i32),
    ];
    r
}

fn placement_offsets_table() -> (r: [(i32, i32); 24])
    ensures
        r@ == placement_offsets(),
{
    let r = [
        (3i32, 0i32), (0i32, 3i32), (-3i32, 0i32), (0i32, -3i32),
        (3i32, 3i32), (-3i32, 3i32), (3i32, -3i32), (-3i32, -3i32),
        (6i32, 0i32), (0i32, 6i32), (-6i32, 0i32), (0i32, -6i32),
        (6i32, 3i32), (3i32, 6i32), (-3i32, 6i32), (-6i32, 3i32),
        (6i32, -3i32), (3i32, -6i32), (-3i32, -6i32), (-6i32, -3i32),
        (9i32, 0i32), (0i32, 9i32), (-9i32, 0i32), (0i32, -9i32),
    ];
    assert(r@ =~= placement_offsets());
    r
}

fn building_limit_of(t: &str) -> (r: i32)
    ensures
        r == building_limit(t@),
{
    if str_eq(t, "barr") { 7 }
    else if str_eq(t, "tent") { 7 }
    else if str_eq(t, "dome") { 1 }
    else if str_eq(t, "weap") { 4 }
    else if str_eq(t, "spen") { 1 }
    else if str_eq(t, "syrd") { 1 }
    else if str_eq(t, "hpad") { 4 }
    else if str_eq(t, "afld") { 4 }
    else if str_eq(t, "atek") { 1 }
    else if str_eq(t, "stek") { 1 }
    else if str_eq(t, "fix") { 1 }
    else { i32::MAX }
}

fn building_delay_of(t: &str) -> (r: i32)
    ensures
        r == building_delay(t@),
{
    if str_eq(t, "dome") { 6000 }
    else if str_eq(t, "fix") { 3000 }
    else if str_eq(t, "pbox") { 1500 }
    else if str_eq(t, "gun") { 2000 }
    else if str_eq(t, "ftur") { 1500 }
    else if str_eq(t, "tsla") { 2800 }
    else if str_eq(t, "kenn") { 7000 }
    else if str_eq(t, "spen") { 6000 }
    else if str_eq(t, "syrd") { 6000 }
    else if str_eq(t, "atek") { 9000 }
    else if str_eq(t, "stek") { 9000 }
    else { 0 }
}

fn unit_limit_of(t: &str) -> (r: i32)
    ensures
        r == unit_limit(t@),
{
    if str_eq(t, "dog") { 4 }
    else if str_eq(t, "harv") { 8 }
    else if str_eq(t, "jeep") { 4 }
    else { i32::MAX }
}


// ---------------------------------------------------------------------------
// Bot state
// ---------------------------------------------------------------------------

/// The bot's state as a value.
pub struct BotState {
    pub player_id: u32,
    pub rng: RngState,
    pub ticks: u32,
    pub mcv_scan_interval: i32,
    pub mcv_deployed: bool,
    pub building_wait_ticks: i32,
    pub pending_buildings: Seq<Seq<char>>,
    pub place_offset: i32,
    pub unit_feedback_ticks: i32,
    pub waiting_units: Seq<u32>,
    pub assign_roles_ticks: i32,
    pub attack_force_ticks: i32,
    pub rush_ticks: i32,
    pub squad_target: Option<(i32, i32)>,
    pub squad_units: Seq<u32>,
}

/// AI state for one bot player.
#[derive(Debug)]
pub struct Bot {
    /// The player actor ID this bot controls.
    pub player_id: u32,
    /// Local random generator, seeded with a fixed value.
    rng: MersenneTwister,
    /// Bot ticks so far.
    ticks: u32,
    /// Ticks until the next look for an MCV to deploy.
    mcv_scan_interval: i32,
    mcv_deployed: bool,
    /// Ticks until the next building production check.
    building_wait_ticks: i32,
    /// Buildings completed but not yet placed.
    pending_buildings: Vec<String>,
    /// Where the search for a building site starts among the placement offsets.
    place_offset: i32,
    /// Ticks until the next unit production check.
    unit_feedback_ticks: i32,
    /// Units waiting to be assigned to a squad.
    waiting_units: Vec<u32>,
    /// Ticks until the next role assignment.
    assign_roles_ticks: i32,
    /// Ticks until the next attack force check.
    attack_force_ticks: i32,
    /// Ticks until the next rush check.
    rush_ticks: i32,
    /// Target of the active squad.
    squad_target: Option<(i32, i32)>,
    /// Units in the active attack squad.
    squad_units: Vec<u32>,
}

impl View for Bot {
    type V = BotState;

    closed spec fn view(&self) -> BotState {
        BotState {
            player_id: self.player_id,
            rng: self.rng@,
            ticks: self.ticks,
            mcv_scan_interval: self.mcv_scan_interval,
            mcv_deployed: self.mcv_deployed,
            building_wait_ticks: self.building_wait_ticks,
            pending_buildings: self.pending_buildings@.map_values(|b: String| b@),
            place_offset: self.place_offset,
            unit_feedback_ticks: self.unit_feedback_ticks,
            waiting_units: self.waiting_units@,
            assign_roles_ticks: self.assign_roles_ticks,
            attack_force_ticks: self.attack_force_ticks,
            rush_ticks: self.rush_ticks,
            squad_target: self.squad_target,
            squad_units: self.squad_units@,
        }
    }
}

/// The state of a new bot for `player_id`: its generator seeded with 42, then six draws
/// for the initial countdowns of the MCV scan (0..20), role assignment (0..50),
/// attack force check (0..75), rush check (0..600), building check (0..125) and unit
/// check (0..30), in that order.
pub open spec fn spec_new_bot(player_id: u32) -> BotState {
    let (r1, mcv_scan) = spec_next_range(seeded(42), 0, 20);
    let (r2, assign_roles) = spec_next_range(r1, 0, 50);
    let (r3, attack_force) = spec_next_range(r2, 0, 75);
    let (r4, rush) = spec_next_range(r3, 0, 600);
    let (r5, building_wait) = spec_next_range(r4, 0, 125);
    let (r6, unit_feedback) = spec_next_range(r5, 0, 30);
    BotState {
        player_id,
        rng: r6,
        ticks: 0,
        mcv_scan_interval: mcv_scan,
        mcv_deployed: false,
        building_wait_ticks: building_wait,
        pending_buildings: Seq::empty(),
        place_offset: 0,
        unit_feedback_ticks: unit_feedback,
        waiting_units: Seq::empty(),
        assign_roles_ticks: assign_roles,
        attack_force_ticks: attack_force,
        rush_ticks: rush,
        squad_target: None,
        squad_units: Seq::empty(),
    }
}

// ---------------------------------------------------------------------------
// Orders and world facts
// ---------------------------------------------------------------------------

/// The orders as values.
pub open spec fn order_values(orders: Seq<GameOrder>) -> Seq<OrderValue> {
    orders.map_values(|o: GameOrder| o@)
}

/// Deploy the MCV `id` into a construction yard.
pub open spec fn deploy_order(id: u32) -> OrderValue {
    ("DeployTransform"@, Some(id), None, None)
}

/// Player `p` starts producing `item`.
pub open spec fn start_production_order(p: u32, item: Seq<char>) -> OrderValue {
    ("StartProduction"@, Some(p), Some(item), None)
}

/// Player `p` places a building of type `t` at cell `(x, y)`.
pub open spec fn place_order(p: u32, t: Seq<char>, x: i32, y: i32) -> OrderValue {
    ("PlaceBuilding"@, Some(p), Some(t + ","@ + decimal_int(x as int) + ","@ + decimal_int(y as int)), None)
}

/// Unit `id` attack-moves to cell `(x, y)`.
pub open spec fn attack_order(id: u32, x: i32, y: i32) -> OrderValue {
    ("AttackMove"@, Some(id), Some(decimal_int(x as int) + ","@ + decimal_int(y as int)), None)
}

/// Whether player `p` owns a building of type `t`.
pub open spec fn spec_has_building(w: WorldView, p: u32, t: Seq<char>) -> bool {
    building_types(w.actors@, p).contains(t)
}

// ---------------------------------------------------------------------------
// MCV manager
// ---------------------------------------------------------------------------

/// The first of `ids` whose actor is an MCV.
pub open spec fn first_mcv(w: WorldView, ids: Seq<u32>) -> Option<u32>
    decreases ids.len(),
{
    if ids.len() == 0 {
        None
    } else if spec_actor_kind(w, ids[0]) == Some(ActorKind::Mcv) {
        Some(ids[0])
    } else {
        first_mcv(w, ids.drop_first())
    }
}

/// One tick of the MCV manager: once every 20 ticks, until the bot has a construction
/// yard, deploy the bot's first MCV.
pub open spec fn mcv_step(s: BotState, w: WorldView) -> (BotState, Seq<OrderValue>) {
    let p = s.player_id;
    if s.mcv_deployed && spec_has_building(w, p, "fact"@) {
        (s, Seq::empty())
    } else if s.mcv_scan_interval - 1 > 0 {
        (BotState { mcv_scan_interval: (s.mcv_scan_interval - 1) as i32, ..s }, Seq::empty())
    } else {
        let s1 = BotState { mcv_scan_interval: 20, ..s };
        match first_mcv(w, owned_ids(w.actors@, p)) {
            Some(id) => (BotState { mcv_deployed: true, ..s1 }, seq![deploy_order(id)]),
            None => if spec_has_building(w, p, "fact"@) {
                (BotState { mcv_deployed: true, ..s1 }, Seq::empty())
            } else {
                (s1, Seq::empty())
            },
        }
    }
}

fn new_order(name: &str, subject_id: Option<u32>, target_string: Option<String>) -> (o: GameOrder)
    ensures
        o@ == (name@, subject_id, match target_string {
            Some(t) => Some(t@),
            None => None,
        }, None::<u32>),
{
    GameOrder { order_string: String::from_str(name), subject_id, target_string, extra_data: None }
}

fn find_first_mcv(world: &WorldView, ids: &Vec<u32>) -> (r: Option<u32>)
    ensures
        r == first_mcv(*world, ids@),
{
    let n = ids.len();
    assert(ids@.subrange(0, n as int) =~= ids@);
    for k in 0..n
        invariant
            n == ids@.len(),
            first_mcv(*world, ids@) == first_mcv(*world, ids@.subrange(k as int, n as int)),
    {
        let ghost rest = ids@.subrange(k as int, n as int);
        assert(rest[0] == ids@[k as int]);
        match world.actor_kind(ids[k]) {
            Some(ActorKind::Mcv) => {
                return Some(ids[k]);
            },
            _ => {},
        }
        assert(rest.drop_first() =~= ids@.subrange(k + 1, n as int));
    }
    None
}

fn contains_str(list: &Vec<String>, t: &str) -> (r: bool)
    ensures
        r == list@.map_values(|s: String| s@).contains(t@),
{
    let ghost vals = list@.map_values(|s: String| s@);
    for k in 0..list.len()
        invariant
            vals == list@.map_values(|s: String| s@),
            forall|j: int| 0 <= j < k ==> vals[j] != t@,
    {
        if str_eq(list[k].as_str(), t) {
            assert(vals[k as int] == t@);
            return true;
        }
    }
    false
}

// ---------------------------------------------------------------------------
// Base builder: placing finished buildings
// ---------------------------------------------------------------------------

/// The bounds the bot's 32-bit arithmetic needs of player `p`'s own forces: each
/// building type weighed by its fraction (the essentials aside) and each weighed unit
/// type owned at most `i32::MAX / 100` times, so that its percentage can be computed;
/// the weighed units at most `i32::MAX` in all; and power figures whose difference fits.
pub open spec fn world_fits(w: WorldView, p: u32) -> bool {
    &&& forall|i: int|
        0 <= i < 20 && !is_essential_building(#[trigger] building_fractions()[i].0) ==> count_of(
            building_types(w.actors@, p),
            building_fractions()[i].0,
        ) <= 21_474_836
    &&& forall|j: int|
        0 <= j < 17 ==> unit_count(w, owned_ids(w.actors@, p), #[trigger] unit_fractions()[j].0) <= 21_474_836
    &&& total_unit_count(w, owned_ids(w.actors@, p), 17) <= i32::MAX
    &&& i32::MIN <= spec_player_power(w, p).0 - spec_player_power(w, p).1 <= i32::MAX
}

/// The bot's base lies far enough from the 32-bit limits for the placement offsets.
pub open spec fn base_fits(w: WorldView, p: u32) -> bool {
    base_location(w, p) matches Some(l) ==> location_fits(l)
}

/// A cell from which every placement offset stays in the 32-bit range.
pub open spec fn location_fits(l: (i32, i32)) -> bool {
    i32::MIN + 9 <= l.0 <= i32::MAX - 9 && i32::MIN + 9 <= l.1 <= i32::MAX - 9
}

/// The cell of `p`'s first building whose type comes first in `types`.
pub open spec fn first_building_location(w: WorldView, p: u32, types: Seq<Seq<char>>) -> Option<(i32, i32)>
    decreases types.len(),
{
    if types.len() == 0 {
        None
    } else {
        match find_building(w.actors@, p, types[0]) {
            Some(l) => Some(l),
            None => first_building_location(w, p, types.drop_first()),
        }
    }
}

/// The bot's base: its construction yard, else its first building.
pub open spec fn base_location(w: WorldView, p: u32) -> Option<(i32, i32)> {
    match find_building(w.actors@, p, "fact"@) {
        Some(l) => Some(l),
        None => first_building_location(w, p, building_types(w.actors@, p)),
    }
}

/// The first free 2x2 site among the placement offsets around `(bx, by)`, trying them
/// in turn from offset `start + i` on, wrapping around.
pub open spec fn placement_search(w: WorldView, start: int, bx: i32, by: i32, i: nat) -> Option<(i32, i32)>
    decreases 24 - i,
{
    if i >= 24 {
        None
    } else {
        let d = placement_offsets()[(start + i) % 24];
        let px = bx + d.0;
        let py = by + d.1;
        if spec_can_place_building(w, px, py, 2, 2) {
            Some((px as i32, py as i32))
        } else {
            placement_search(w, start, bx, by, (i + 1) as nat)
        }
    }
}

/// The site for the next building, the search starting at the bot's placement offset.
pub open spec fn spec_find_placement(w: WorldView, offset: i32, bx: i32, by: i32) -> Option<(i32, i32)> {
    placement_search(w, (offset as int) % 24, bx, by, 0)
}

/// Place each of `buildings` in turn: a building with a site gets a placement order and
/// moves the placement offset on; one without a site is dropped.
pub open spec fn place_all(w: WorldView, p: u32, buildings: Seq<Seq<char>>, offset: i32, bx: i32, by: i32) -> (i32, Seq<OrderValue>)
    decreases buildings.len(),
{
    if buildings.len() == 0 {
        (offset, Seq::empty())
    } else {
        match spec_find_placement(w, offset, bx, by) {
            Some(site) => {
                let (o2, rest) = place_all(w, p, buildings.drop_first(), (offset + 1) as i32, bx, by);
                (o2, seq![place_order(p, buildings[0], site.0, site.1)] + rest)
            },
            None => place_all(w, p, buildings.drop_first(), offset, bx, by),
        }
    }
}

/// Place the pending buildings around the base; without a base they stay pending.
pub open spec fn place_step(s: BotState, w: WorldView) -> (BotState, Seq<OrderValue>) {
    match base_location(w, s.player_id) {
        None => (s, Seq::empty()),
        Some(base) => {
            let (offset, orders) = place_all(w, s.player_id, s.pending_buildings, s.place_offset, base.0, base.1);
            (BotState { pending_buildings: Seq::empty(), place_offset: offset, ..s }, orders)
        },
    }
}

proof fn lemma_place_all_offset(w: WorldView, p: u32, buildings: Seq<Seq<char>>, offset: i32, bx: i32, by: i32)
    requires
        0 <= offset,
        offset + buildings.len() <= i32::MAX,
    ensures
        offset <= place_all(w, p, buildings, offset, bx, by).0 <= offset + buildings.len(),
    decreases buildings.len(),
{
    if buildings.len() > 0 {
        lemma_place_all_offset(w, p, buildings.drop_first(), (offset + 1) as i32, bx, by);
        lemma_place_all_offset(w, p, buildings.drop_first(), offset, bx, by);
    }
}

fn place_target(t: &str, x: i32, y: i32) -> (r: String)
    ensures
        r@ == t@ + ","@ + decimal_int(x as int) + ","@ + decimal_int(y as int),
{
    let mut r = String::from_str(t);
    r.append(",");
    push_decimal_i32(&mut r, x);
    r.append(",");
    push_decimal_i32(&mut r, y);
    r
}

fn attack_target(x: i32, y: i32) -> (r: String)
    ensures
        r@ == decimal_int(x as int) + ","@ + decimal_int(y as int),
{
    let mut r = String::new();
    push_decimal_i32(&mut r, x);
    r.append(",");
    push_decimal_i32(&mut r, y);
    assert(r@ =~= decimal_int(x as int) + ","@ + decimal_int(y as int));
    r
}

// ---------------------------------------------------------------------------
// Base builder: choosing what to build
// ---------------------------------------------------------------------------

/// Whether player `p` has what building type `t` needs (a construction yard is taken for
/// granted); types the bot does not know are never buildable.
pub open spec fn meets_prerequisites(w: WorldView, p: u32, t: Seq<char>) -> bool {
    let barracks = spec_has_building(w, p, "tent"@) || spec_has_building(w, p, "barr"@);
    if t == "powr"@ || t == "apwr"@ {
        true
    } else if t == "proc"@ {
        true
    } else if t == "tent"@ || t == "barr"@ {
        true
    } else if t == "weap"@ {
        barracks
    } else if t == "pbox"@ || t == "gun"@ || t == "hbox"@ {
        barracks
    } else if t == "ftur"@ || t == "tsla"@ || t == "sam"@ || t == "agun"@ || t == "gap"@ {
        barracks
    } else if t == "dome"@ {
        barracks
    } else if t == "atek"@ || t == "stek"@ {
        spec_has_building(w, p, "dome"@)
    } else if t == "fix"@ {
        spec_has_building(w, p, "weap"@)
    } else if t == "hpad"@ || t == "afld"@ {
        spec_has_building(w, p, "dome"@)
    } else if t == "spen"@ || t == "syrd"@ {
        spec_has_building(w, p, "dome"@)
    } else if t == "mslo"@ {
        spec_has_building(w, p, "atek"@) || spec_has_building(w, p, "stek"@)
    } else {
        false
    }
}

/// How many of `list` equal `t`.
pub open spec fn count_of(list: Seq<Seq<char>>, t: Seq<char>) -> int
    decreases list.len(),
{
    if list.len() == 0 {
        0
    } else {
        count_of(list.drop_last(), t) + (if list.last() == t { 1int } else { 0int })
    }
}

/// Building types the priority rules handle before the fractions.
pub open spec fn is_essential_building(t: Seq<char>) -> bool {
    t == "proc"@ || t == "tent"@ || t == "barr"@ || t == "weap"@
}

/// The priority of building type `t` with fraction `f`, or `None` when it is not a
/// candidate: an essential type, unaffordable or unlisted, at its limit, before its
/// delay, or without its prerequisites. The priority is the fraction, scaled by 100,
/// less the percentage of the bot's buildings already of that type.
pub open spec fn building_priority(p: u32, ticks: u32, w: WorldView, cash: i32, owned: Seq<Seq<char>>, t: Seq<char>, f: i32) -> Option<int> {
    let cost = cost_of(w.building_costs@, t);
    let current = count_of(owned, t);
    let total = (owned.len() as i32) as int;
    if is_essential_building(t) {
        None
    } else if cost <= 0 || cash < cost {
        None
    } else if current >= building_limit(t) {
        None
    } else if (ticks as i32) < building_delay(t) {
        None
    } else if !meets_prerequisites(w, p, t) {
        None
    } else {
        Some(f * 100 - (if total > 0 { current * 100 / total } else { 0 }))
    }
}

/// The candidate of highest priority among the first `k` building types (the earliest
/// one on ties), with its priority.
pub open spec fn best_building(p: u32, ticks: u32, w: WorldView, cash: i32, owned: Seq<Seq<char>>, k: nat) -> (Option<Seq<char>>, int)
    decreases k,
{
    if k == 0 {
        (None, i32::MIN as int)
    } else {
        let (best, best_priority) = best_building(p, ticks, w, cash, owned, (k - 1) as nat);
        let (t, f) = building_fractions()[k - 1];
        match building_priority(p, ticks, w, cash, owned, t, f) {
            Some(pr) => if pr > best_priority {
                (Some(t), pr)
            } else {
                (best, best_priority)
            },
            None => (best, best_priority),
        }
    }
}

/// The building to queue: a first refinery, barracks, a war factory (once there are
/// barracks), a second refinery, each when affordable; otherwise the candidate of
/// highest priority.
pub open spec fn spec_choose_building(p: u32, ticks: u32, w: WorldView, cash: i32) -> Option<Seq<char>> {
    let owned = building_types(w.actors@, p);
    let refineries = count_of(owned, "proc"@) as i32;
    let has_barracks = owned.contains("tent"@) || owned.contains("barr"@);
    let has_factory = owned.contains("weap"@);
    if refineries == 0 && cash >= cost_of(w.building_costs@, "proc"@) {
        Some("proc"@)
    } else if !has_barracks && cash >= cost_of(w.building_costs@, "tent"@) {
        Some("tent"@)
    } else if has_barracks && !has_factory && cash >= cost_of(w.building_costs@, "weap"@)
        && meets_prerequisites(w, p, "weap"@) {
        Some("weap"@)
    } else if refineries < 2 && cash >= cost_of(w.building_costs@, "proc"@) {
        Some("proc"@)
    } else {
        best_building(p, ticks, w, cash, owned, 20).0
    }
}

proof fn lemma_count_of_bound(list: Seq<Seq<char>>, t: Seq<char>)
    ensures
        0 <= count_of(list, t) <= list.len(),
    decreases list.len(),
{
    if list.len() > 0 {
        lemma_count_of_bound(list.drop_last(), t);
    }
}

fn count_str(list: &Vec<String>, t: &str) -> (r: usize)
    ensures
        r == count_of(list@.map_values(|s: String| s@), t@),
{
    let ghost vals = list@.map_values(|s: String| s@);
    let mut c: usize = 0;
    for k in 0..list.len()
        invariant
            vals == list@.map_values(|s: String| s@),
            c == count_of(vals.take(k as int), t@),
            0 <= c <= k,
    {
        proof {
            assert(vals.take(k + 1).drop_last() =~= vals.take(k as int));
            assert(vals.take(k + 1).last() == list@[k as int]@);
        }
        if str_eq(list[k].as_str(), t) {
            c += 1;
        }
    }
    assert(vals.take(list@.len() as int) =~= vals);
    c
}

/// One tick of the base builder: place finished buildings; then, with a construction
/// yard, count down to the next production check. At the check, wait if something is
/// in production; otherwise queue a power plant when power is short (or missing) and
/// there are 300 credits, else the chosen building. The next check comes after 25 to 34
/// ticks when something was or is queued, else after 125 to 134.
pub open spec fn base_step(s: BotState, w: WorldView) -> (BotState, Seq<OrderValue>) {
    let p = s.player_id;
    let (s1, o1) = if s.pending_buildings.len() > 0 { place_step(s, w) } else { (s, Seq::empty()) };
    if !spec_has_building(w, p, "fact"@) {
        (s1, o1)
    } else if s1.building_wait_ticks - 1 > 0 {
        (BotState { building_wait_ticks: (s1.building_wait_ticks - 1) as i32, ..s1 }, o1)
    } else {
        let (r, v) = spec_next_range(s1.rng, 0, 10);
        if spec_building_in_production(w, p) {
            (BotState { rng: r, building_wait_ticks: (25 + v) as i32, ..s1 }, o1)
        } else {
            let cash = spec_player_cash(w, p);
            let power = spec_player_power(w, p);
            if (power.0 - power.1 < 0 || (power.0 == 0 && !spec_has_building(w, p, "powr"@))) && cash >= 300 {
                (BotState { rng: r, building_wait_ticks: (25 + v) as i32, ..s1 }, o1.push(start_production_order(p, "powr"@)))
            } else {
                match spec_choose_building(p, s1.ticks, w, cash) {
                    Some(item) => (
                        BotState { rng: r, building_wait_ticks: (25 + v) as i32, ..s1 },
                        o1.push(start_production_order(p, item)),
                    ),
                    None => (BotState { rng: r, building_wait_ticks: (125 + v) as i32, ..s1 }, o1),
                }
            }
        }
    }
}

// ---------------------------------------------------------------------------
// Unit builder
// ---------------------------------------------------------------------------

/// Whether player `p` has the production building unit type `t` needs: barracks for
/// infantry, a war factory for vehicles, a helipad or an airfield for aircraft; types the
/// bot does not know are never produced.
pub open spec fn can_produce_unit(w: WorldView, p: u32, t: Seq<char>) -> bool {
    if t == "e1"@ || t == "e2"@ || t == "e3"@ || t == "e4"@ || t == "e6"@ || t == "e7"@ || t == "shok"@
        || t == "medi"@ || t == "mech"@ || t == "dog"@ || t == "spy"@ || t == "thf"@ {
        spec_has_building(w, p, "tent"@) || spec_has_building(w, p, "barr"@)
    } else if t == "1tnk"@ || t == "2tnk"@ || t == "3tnk"@ || t == "4tnk"@ || t == "v2rl"@ || t == "arty"@
        || t == "harv"@ || t == "mcv"@ || t == "apc"@ || t == "jeep"@ || t == "mnly"@ || t == "ttnk"@
        || t == "ctnk"@ {
        spec_has_building(w, p, "weap"@)
    } else if t == "heli"@ || t == "hind"@ || t == "mh60"@ {
        spec_has_building(w, p, "hpad"@)
    } else if t == "mig"@ || t == "yak"@ {
        spec_has_building(w, p, "afld"@)
    } else {
        false
    }
}

/// Whether actor `id` is an infantry or vehicle unit of type `t`.
pub open spec fn is_unit_of_type(w: WorldView, id: u32, t: Seq<char>) -> bool {
    (spec_actor_kind(w, id) == Some(ActorKind::Infantry) || spec_actor_kind(w, id) == Some(ActorKind::Vehicle))
        && spec_actor_type(w, id) == Some(t)
}

/// How many of `ids` are units of type `t`.
pub open spec fn unit_count(w: WorldView, ids: Seq<u32>, t: Seq<char>) -> int
    decreases ids.len(),
{
    if ids.len() == 0 {
        0
    } else {
        unit_count(w, ids.drop_last(), t) + (if is_unit_of_type(w, ids.last(), t) { 1int } else { 0int })
    }
}

/// How many of `ids` are units of one of the first `k` weighed unit types.
pub open spec fn total_unit_count(w: WorldView, ids: Seq<u32>, k: nat) -> int
    decreases k,
{
    if k == 0 {
        0
    } else {
        total_unit_count(w, ids, (k - 1) as nat) + unit_count(w, ids, unit_fractions()[k - 1].0)
    }
}

/// The sum of the first `k` unit fractions.
pub open spec fn fraction_sum(k: nat) -> int
    decreases k,
{
    if k == 0 {
        0
    } else {
        fraction_sum((k - 1) as nat) + unit_fractions()[k - 1].1
    }
}

/// How far unit type `t` (fraction `f`) falls short of its share of the army, or `None`
/// when it is not a candidate: unlisted, at its limit, or without its production
/// building. The error is the type's percentage of the counted units less its target
/// percentage.
pub open spec fn unit_error(p: u32, w: WorldView, ids: Seq<u32>, total: int, t: Seq<char>, f: i32) -> Option<int> {
    let current = unit_count(w, ids, t);
    if cost_of(w.unit_costs@, t) <= 0 {
        None
    } else if current >= unit_limit(t) {
        None
    } else if !can_produce_unit(w, p, t) {
        None
    } else {
        Some((if total > 0 { current * 100 / total } else { 0 }) - f * 100 / fraction_sum(17))
    }
}

/// The candidate with the lowest error among the first `k` unit types (the earliest on
/// ties), with its error.
pub open spec fn best_unit(p: u32, w: WorldView, ids: Seq<u32>, total: int, k: nat) -> (Option<Seq<char>>, int)
    decreases k,
{
    if k == 0 {
        (None, i32::MAX as int)
    } else {
        let (best, best_error) = best_unit(p, w, ids, total, (k - 1) as nat);
        let (t, f) = unit_fractions()[k - 1];
        match unit_error(p, w, ids, total, t, f) {
            Some(e) => if e < best_error {
                (Some(t), e)
            } else {
                (best, best_error)
            },
            None => (best, best_error),
        }
    }
}

/// The unit to queue: the most under-represented candidate.
pub open spec fn spec_choose_unit(p: u32, w: WorldView) -> Option<Seq<char>> {
    let ids = owned_ids(w.actors@, p);
    best_unit(p, w, ids, total_unit_count(w, ids, 17), 17).0
}

/// One tick of the unit builder: with at least 500 credits, count down to the next check
/// (every 30 ticks); then, unless a unit is in production, queue the chosen unit.
pub open spec fn unit_step(s: BotState, w: WorldView) -> (BotState, Seq<OrderValue>) {
    let p = s.player_id;
    if spec_player_cash(w, p) < 500 {
        (s, Seq::empty())
    } else if s.unit_feedback_ticks - 1 > 0 {
        (BotState { unit_feedback_ticks: (s.unit_feedback_ticks - 1) as i32, ..s }, Seq::empty())
    } else {
        let s1 = BotState { unit_feedback_ticks: 30, ..s };
        if spec_unit_in_production(w, p) {
            (s1, Seq::empty())
        } else {
            match spec_choose_unit(p, w) {
                Some(u) => (s1, seq![start_production_order(p, u)]),
                None => (s1, Seq::empty()),
            }
        }
    }
}

proof fn lemma_unit_count_bound(w: WorldView, ids: Seq<u32>, t: Seq<char>)
    ensures
        0 <= unit_count(w, ids, t) <= ids.len(),
    decreases ids.len(),
{
    if ids.len() > 0 {
        lemma_unit_count_bound(w, ids.drop_last(), t);
    }
}

proof fn lemma_unit_count_prefix(w: WorldView, ids: Seq<u32>, k: int, t: Seq<char>)
    requires
        0 <= k <= ids.len(),
    ensures
        unit_count(w, ids.take(k), t) <= unit_count(w, ids, t),
    decreases ids.len(),
{
    if k == ids.len() {
        assert(ids.take(k) =~= ids);
    } else {
        lemma_unit_count_prefix(w, ids.drop_last(), k, t);
        assert(ids.drop_last().take(k) =~= ids.take(k));
    }
}

proof fn lemma_total_unit_count_mono(w: WorldView, ids: Seq<u32>, k: nat, m: nat)
    requires
        k <= m <= 17,
    ensures
        total_unit_count(w, ids, k) <= total_unit_count(w, ids, m),
    decreases m - k,
{
    if k < m {
        lemma_total_unit_count_mono(w, ids, k, (m - 1) as nat);
        lemma_unit_count_bound(w, ids, unit_fractions()[m - 1].0);
    }
}

// ---------------------------------------------------------------------------
// Squad manager
// ---------------------------------------------------------------------------

/// The units of `ids` that are still alive, in order.
pub open spec fn alive_units(w: WorldView, ids: Seq<u32>) -> Seq<u32>
    decreases ids.len(),
{
    if ids.len() == 0 {
        Seq::empty()
    } else {
        let r = alive_units(w, ids.drop_last());
        if spec_actor_kind(w, ids.last()) is Some {
            r.push(ids.last())
        } else {
            r
        }
    }
}

/// Whether actor `id` is a fighting unit: alive, infantry or vehicle, and not a
/// harvester, an MCV or a dog.
pub open spec fn is_fighting_unit(w: WorldView, id: u32) -> bool {
    match spec_actor_kind(w, id) {
        None => false,
        Some(k) => (k == ActorKind::Infantry || k == ActorKind::Vehicle) && !(match spec_actor_type(w, id) {
            Some(t) => t == "harv"@ || t == "mcv"@ || t == "dog"@,
            None => false,
        }),
    }
}

/// `waiting` with each of `ids`, in order, added when it is a fighting unit and neither
/// waiting already nor in the squad.
pub open spec fn gather_units(w: WorldView, ids: Seq<u32>, waiting: Seq<u32>, squad: Seq<u32>) -> Seq<u32>
    decreases ids.len(),
{
    if ids.len() == 0 {
        waiting
    } else {
        let id = ids[0];
        let next = if !waiting.contains(id) && !squad.contains(id) && is_fighting_unit(w, id) {
            waiting.push(id)
        } else {
            waiting
        };
        gather_units(w, ids.drop_first(), next, squad)
    }
}

/// Attack-move orders to `(x, y)` for the idle units of `units`, in order.
pub open spec fn attack_orders(w: WorldView, units: Seq<u32>, x: i32, y: i32) -> Seq<OrderValue>
    decreases units.len(),
{
    if units.len() == 0 {
        Seq::empty()
    } else {
        let r = attack_orders(w, units.drop_last(), x, y);
        if spec_is_actor_idle(w, units.last()) {
            r.push(attack_order(units.last(), x, y))
        } else {
            r
        }
    }
}

/// One tick of the squad manager. Dead units leave the squad and the waiting list.
/// Every 50 ticks the bot's idle fighting units join the waiting list. Every 75 ticks,
/// when at least 5 to 7 units (a random draw) wait, they all join the squad, which
/// targets the enemy. While the squad has a target and an enemy is found, its idle units
/// attack-move there; when no enemy is found the squad disbands into the waiting list.
pub open spec fn squad_step(s: BotState, w: WorldView) -> (BotState, Seq<OrderValue>) {
    let p = s.player_id;
    let squad = alive_units(w, s.squad_units);
    let waiting = alive_units(w, s.waiting_units);
    let assign = if s.assign_roles_ticks - 1 <= 0 { 50i32 } else { (s.assign_roles_ticks - 1) as i32 };
    let waiting2 = if s.assign_roles_ticks - 1 <= 0 {
        gather_units(w, owned_ids(w.actors@, p), waiting, squad)
    } else {
        waiting
    };
    let (r, v) = spec_next_range(s.rng, 0, 3);
    let check = s.attack_force_ticks - 1 <= 0;
    let form = check && (waiting2.len() as i32) >= 5 + v;
    let s3 = BotState {
        rng: if check { r } else { s.rng },
        assign_roles_ticks: assign,
        attack_force_ticks: if check { 75i32 } else { (s.attack_force_ticks - 1) as i32 },
        squad_units: if form { squad + waiting2 } else { squad },
        waiting_units: if form { Seq::empty() } else { waiting2 },
        squad_target: if form { spec_enemy_location(w, p) } else { s.squad_target },
        ..s
    };
    match s3.squad_target {
        None => (s3, Seq::empty()),
        Some(target) => if spec_enemy_location(w, p) is Some {
            (s3, attack_orders(w, s3.squad_units, target.0, target.1))
        } else {
            (
                BotState {
                    waiting_units: s3.waiting_units + s3.squad_units,
                    squad_units: Seq::empty(),
                    squad_target: None,
                    ..s3
                },
                Seq::empty(),
            )
        },
    }
}

fn contains_id(v: &Vec<u32>, id: u32) -> (r: bool)
    ensures
        r == v@.contains(id),
{
    for k in 0..v.len()
        invariant
            forall|j: int| 0 <= j < k ==> v@[j] != id,
    {
        if v[k] == id {
            assert(v@[k as int] == id);
            return true;
        }
    }
    false
}

fn retain_alive(world: &WorldView, ids: &Vec<u32>) -> (r: Vec<u32>)
    ensures
        r@ == alive_units(*world, ids@),
{
    let mut r: Vec<u32> = Vec::new();
    for k in 0..ids.len()
        invariant
            r@ == alive_units(*world, ids@.take(k as int)),
    {
        proof {
            assert(ids@.take(k + 1).drop_last() =~= ids@.take(k as int));
        }
        if world.actor_kind(ids[k]).is_some() {
            r.push(ids[k]);
        }
    }
    assert(ids@.take(ids@.len() as int) =~= ids@);
    r
}

// ---------------------------------------------------------------------------
// A bot tick
// ---------------------------------------------------------------------------

/// One bot tick: count the tick, take up the buildings whose production finished, then
/// run the MCV manager, the base builder, the unit builder and the squad manager in
/// turn; the orders are theirs, in that order.
pub open spec fn spec_tick(s: BotState, w: WorldView) -> (BotState, Seq<OrderValue>) {
    let s1 = BotState {
        ticks: (s.ticks + 1) as u32,
        pending_buildings: s.pending_buildings + spec_completed_buildings(w, s.player_id),
        ..s
    };
    let (s2, o2) = mcv_step(s1, w);
    let (s3, o3) = base_step(s2, w);
    let (s4, o4) = unit_step(s3, w);
    let (s5, o5) = squad_step(s4, w);
    (s5, o2 + o3 + o4 + o5)
}

/// What a tick needs so that no counter overflows: the tick count and the placement
/// offset have room, the world is within the bot's arithmetic bounds, and where
/// buildings wait to be placed, the base is far enough from the 32-bit limits.
pub open spec fn tick_fits(s: BotState, w: WorldView) -> bool {
    &&& s.ticks < u32::MAX
    &&& s.place_offset + s.pending_buildings.len() + spec_completed_buildings(w, s.player_id).len() <= i32::MAX
    &&& world_fits(w, s.player_id)
    &&& s.pending_buildings.len() + spec_completed_buildings(w, s.player_id).len() > 0 ==> base_fits(w, s.player_id)
}

impl Bot {
    /// The bot's state is well formed: its generator is, and its countdowns are not negative.
    pub closed spec fn wf(&self) -> bool {
        &&& self.rng.wf()
        &&& self.mcv_scan_interval >= 0
        &&& self.building_wait_ticks >= 0
        &&& self.unit_feedback_ticks >= 0
        &&& self.assign_roles_ticks >= 0
        &&& self.attack_force_ticks >= 0
        &&& self.place_offset >= 0
    }

    /// A new bot for the player actor `player_id`.
    pub fn new(player_id: u32) -> (r: Self)
        ensures
            r.wf(),
            r@ == spec_new_bot(player_id),
    {
        let mut rng = MersenneTwister::new(42);
        // Randomized initial countdowns.
        let mcv_scan = rng.next_range(0, 20);
        let assign_roles = rng.next_range(0, 50);
        let attack_force = rng.next_range(0, 75);
        let rush = rng.next_range(0, 600);
        let building_wait = rng.next_range(0, 125);
        let unit_feedback = rng.next_range(0, 30);
        let r = Bot {
            player_id,
            rng,
            ticks: 0,
            mcv_scan_interval: mcv_scan,
            mcv_deployed: false,
            building_wait_ticks: building_wait,
            pending_buildings: Vec::new(),
            place_offset: 0,
            unit_feedback_ticks: unit_feedback,
            waiting_units: Vec::new(),
            assign_roles_ticks: assign_roles,
            attack_force_ticks: attack_force,
            rush_ticks: rush,
            squad_target: None,
            squad_units: Vec::new(),
        };
        assert(r.pending_buildings@.map_values(|b: String| b@) =~= Seq::<Seq<char>>::empty());
        assert(r.waiting_units@ =~= Seq::<u32>::empty());
        assert(r.squad_units@ =~= Seq::<u32>::empty());
        r
    }

    fn has_building(&self, world: &WorldView, building_type: &str) -> (r: bool)
        ensures
            r == spec_has_building(*world, self.player_id, building_type@),
    {
        let types = world.player_building_types(self.player_id);
        contains_str(&types, building_type)
    }

    fn find_base_location(&self, world: &WorldView) -> (r: Option<(i32, i32)>)
        ensures
            r == base_location(*world, self.player_id),
    {
        match world.find_building_location(self.player_id, "fact") {
            Some(l) => Some(l),
            None => {
                let types = world.player_building_types(self.player_id);
                let ghost tv = types@.map_values(|t: String| t@);
                let n = types.len();
                assert(tv.subrange(0, n as int) =~= tv);
                for k in 0..n
                    invariant
                        n == types@.len(),
                        tv == types@.map_values(|t: String| t@),
                        tv == building_types(world.actors@, self.player_id),
                        find_building(world.actors@, self.player_id, "fact"@) is None,
                        first_building_location(*world, self.player_id, tv) == first_building_location(
                            *world,
                            self.player_id,
                            tv.subrange(k as int, n as int),
                        ),
                {
                    let ghost rest = tv.subrange(k as int, n as int);
                    assert(rest[0] == types@[k as int]@);
                    if let Some(loc) = world.find_building_location(self.player_id, types[k].as_str()) {
                        return Some(loc);
                    }
                    assert(rest.drop_first() =~= tv.subrange(k + 1, n as int));
                }
                None
            },
        }
    }

    fn find_placement(&self, world: &WorldView, base_x: i32, base_y: i32) -> (r: Option<(i32, i32)>)
        requires
            self.place_offset >= 0,
            location_fits((base_x, base_y)),
        ensures
            r == spec_find_placement(*world, self.place_offset, base_x, base_y),
    {
        let offsets = placement_offsets_table();
        let start = (self.place_offset as usize) % 24;
        let ghost st = (self.place_offset as int) % 24;
        assert(start == st);
        for i in 0..24usize
            invariant
                offsets@ == placement_offsets(),
                start == st,
                0 <= st < 24,
                location_fits((base_x, base_y)),
                spec_find_placement(*world, self.place_offset, base_x, base_y) == placement_search(
                    *world,
                    st,
                    base_x,
                    base_y,
                    i as nat,
                ),
        {
            let idx = (start + i) % 24;
            let (dx, dy) = offsets[idx];
            assert(-9 <= dx <= 9 && -9 <= dy <= 9) by {
                assert(placement_offsets()[idx as int] == (dx, dy));
            }
            let px = base_x + dx;
            let py = base_y + dy;
            if world.can_place_building(px, py, 2, 2) {
                return Some((px, py));
            }
        }
        None
    }

    fn place_pending_buildings(&mut self, world: &WorldView, orders: &mut Vec<GameOrder>)
        requires
            old(self).wf(),
            base_fits(*world, old(self).player_id),
            old(self)@.place_offset + old(self)@.pending_buildings.len() <= i32::MAX,
        ensures
            final(self).wf(),
            (final(self)@, order_values(final(orders)@)) == ({
                let (s, o) = place_step(old(self)@, *world);
                (s, order_values(old(orders)@) + o)
            }),
    {
        let ghost s0 = self@;
        let ghost o0 = order_values(orders@);
        let base_loc = self.find_base_location(world);
        let (bx, by) = match base_loc {
            Some(loc) => loc,
            None => {
                assert(o0 + Seq::<OrderValue>::empty() =~= o0);
                return;
            },
        };
        let mut buildings: Vec<String> = Vec::new();
        std::mem::swap(&mut buildings, &mut self.pending_buildings);
        let ghost bv = buildings@.map_values(|b: String| b@);
        assert(bv == s0.pending_buildings);
        let n = buildings.len();
        assert(bv.subrange(0, n as int) =~= bv);
        assert(o0 + Seq::<OrderValue>::empty() =~= o0);
        assert(self.pending_buildings@.map_values(|b: String| b@) =~= Seq::<Seq<char>>::empty());
        assert(self@ == (BotState { pending_buildings: Seq::empty(), place_offset: self.place_offset, ..s0 }));
        proof {
            lemma_place_all_offset(*world, s0.player_id, bv, s0.place_offset, bx, by);
        }
        for k in 0..n
            invariant
                n == buildings@.len(),
                bv == buildings@.map_values(|b: String| b@),
                self.wf(),
                self@ == (BotState { pending_buildings: Seq::empty(), place_offset: self.place_offset, ..s0 }),
                location_fits((bx, by)),
                self.place_offset + (n - k) <= i32::MAX,
                ({
                    let (off, rest) = place_all(*world, s0.player_id, bv.subrange(k as int, n as int), self.place_offset, bx, by);
                    let (off0, all) = place_all(*world, s0.player_id, bv, s0.place_offset, bx, by);
                    off == off0 && order_values(orders@) + rest == o0 + all
                }),
        {
            let ghost rest = bv.subrange(k as int, n as int);
            assert(rest[0] == buildings@[k as int]@);
            assert(rest.drop_first() =~= bv.subrange(k + 1, n as int));
            let ghost ov = order_values(orders@);
            if let Some((px, py)) = self.find_placement(world, bx, by) {
                let target = place_target(buildings[k].as_str(), px, py);
                let o = new_order("PlaceBuilding", Some(self.player_id), Some(target));
                orders.push(o);
                assert(order_values(orders@) =~= ov.push(place_order(s0.player_id, rest[0], px, py)));
                proof {
                    let tail = place_all(*world, s0.player_id, rest.drop_first(), (self.place_offset + 1) as i32, bx, by).1;
                    assert(ov + (seq![place_order(s0.player_id, rest[0], px, py)] + tail) =~= ov.push(
                        place_order(s0.player_id, rest[0], px, py),
                    ) + tail);
                }
                self.place_offset += 1;
            }
        }
        proof {
            let e = Seq::<Seq<char>>::empty();
            assert(bv.subrange(n as int, n as int) =~= e);
            assert(order_values(orders@) + Seq::<OrderValue>::empty() =~= order_values(orders@));
        }
    }

    fn meets_prerequisites(&self, world: &WorldView, building_type: &str) -> (r: bool)
        ensures
            r == meets_prerequisites(*world, self.player_id, building_type@),
    {
        let t = building_type;
        if str_eq(t, "powr") || str_eq(t, "apwr") {
            true
        } else if str_eq(t, "proc") {
            true
        } else if str_eq(t, "tent") || str_eq(t, "barr") {
            true
        } else if str_eq(t, "weap") {
            self.has_building(world, "tent") || self.has_building(world, "barr")
        } else if str_eq(t, "pbox") || str_eq(t, "gun") || str_eq(t, "hbox") {
            self.has_building(world, "tent") || self.has_building(world, "barr")
        } else if str_eq(t, "ftur") || str_eq(t, "tsla") || str_eq(t, "sam") || str_eq(t, "agun") || str_eq(t, "gap") {
            self.has_building(world, "tent") || self.has_building(world, "barr")
        } else if str_eq(t, "dome") {
            self.has_building(world, "tent") || self.has_building(world, "barr")
        } else if str_eq(t, "atek") || str_eq(t, "stek") {
            self.has_building(world, "dome")
        } else if str_eq(t, "fix") {
            self.has_building(world, "weap")
        } else if str_eq(t, "hpad") || str_eq(t, "afld") {
            self.has_building(world, "dome")
        } else if str_eq(t, "spen") || str_eq(t, "syrd") {
            self.has_building(world, "dome")
        } else if str_eq(t, "mslo") {
            self.has_building(world, "atek") || self.has_building(world, "stek")
        } else {
            false
        }
    }

    fn building_priority_of(
        &self,
        world: &WorldView,
        cash: i32,
        owned: &Vec<String>,
        btype: &str,
        fraction: i32,
    ) -> (r: Option<i32>)
        requires
            is_essential_building(btype@) || count_of(owned@.map_values(|t: String| t@), btype@) <= 21_474_836,
            0 <= fraction <= 100,
        ensures
            match building_priority(self.player_id, self.ticks, *world, cash, owned@.map_values(|t: String| t@), btype@, fraction) {
                Some(p) => r matches Some(x) && x as int == p,
                None => r is None,
            },
    {
        let ghost ov = owned@.map_values(|t: String| t@);
        // Essentials are handled by the rules before the fractions.
        if str_eq(btype, "proc") || str_eq(btype, "tent") || str_eq(btype, "barr") || str_eq(btype, "weap") {
            return None;
        }
        let cost = world.building_cost(btype);
        if cost <= 0 || cash < cost {
            return None;
        }
        let limit = building_limit_of(btype);
        let current_count = count_str(owned, btype) as i32;
        proof {
            lemma_count_of_bound(ov, btype@);
        }
        if current_count >= limit {
            return None;
        }
        let delay = building_delay_of(btype);
        if (self.ticks as i32) < delay {
            return None;
        }
        if !self.meets_prerequisites(world, btype) {
            return None;
        }
        let total_buildings = owned.len() as i32;
        let current_share = if total_buildings > 0 {
            current_count * 100 / total_buildings
        } else {
            0
        };
        assert(0 <= current_share <= 2147483600) by (nonlinear_arith)
            requires
                0 <= current_count <= 21_474_836,
                total_buildings > 0 ==> current_share == (current_count * 100) / (total_buildings as int),
                total_buildings <= 0 ==> current_share == 0,
        ;
        Some(fraction * 100 - current_share)
    }

    fn choose_building_to_build(&self, world: &WorldView, cash: i32) -> (r: Option<String>)
        requires
            world_fits(*world, self.player_id),
        ensures
            match r {
                Some(t) => spec_choose_building(self.player_id, self.ticks, *world, cash) == Some(t@),
                None => spec_choose_building(self.player_id, self.ticks, *world, cash) is None,
            },
    {
        let owned = world.player_building_types(self.player_id);
        let ghost ov = owned@.map_values(|t: String| t@);
        let refinery_count = count_str(&owned, "proc") as i32;
        let has_barracks = contains_str(&owned, "tent") || contains_str(&owned, "barr");
        let has_factory = contains_str(&owned, "weap");

        // Essentials first: income, infantry, vehicles, more income.
        if refinery_count == 0 && cash >= world.building_cost("proc") {
            return Some(String::from_str("proc"));
        }
        if !has_barracks && cash >= world.building_cost("tent") {
            return Some(String::from_str("tent"));
        }
        if has_barracks && !has_factory && cash >= world.building_cost("weap") && self.meets_prerequisites(world, "weap") {
            return Some(String::from_str("weap"));
        }
        if refinery_count < 2 && cash >= world.building_cost("proc") {
            return Some(String::from_str("proc"));
        }

        // Fraction-based choice among the rest.
        let table = building_fractions_table();
        let mut best_item: Option<&str> = None;
        let mut best_priority: i32 = i32::MIN;
        for k in 0..20usize
            invariant
                ov == owned@.map_values(|t: String| t@),
                ov == building_types(world.actors@, self.player_id),
                world_fits(*world, self.player_id),
                forall|i: int| 0 <= i < 20 ==> (#[trigger] table@[i]).0@ == building_fractions()[i].0 && table@[i].1
                    == building_fractions()[i].1,
                ({
                    let (b, bp) = best_building(self.player_id, self.ticks, *world, cash, ov, k as nat);
                    bp == best_priority && match best_item {
                        Some(t) => b == Some(t@),
                        None => b is None,
                    }
                }),
        {
            let (btype, fraction) = table[k];
            assert(building_fractions()[k as int] == (btype@, fraction));
            if let Some(priority) = self.building_priority_of(world, cash, &owned, btype, fraction) {
                if priority > best_priority {
                    best_priority = priority;
                    best_item = Some(btype);
                }
            }
        }
        match best_item {
            Some(t) => Some(String::from_str(t)),
            None => None,
        }
    }

    fn order_start_production(&self, orders: &mut Vec<GameOrder>, item: &str)
        ensures
            order_values(final(orders)@) == order_values(old(orders)@).push(start_production_order(self.player_id, item@)),
    {
        let o = new_order("StartProduction", Some(self.player_id), Some(String::from_str(item)));
        let ghost o0 = order_values(orders@);
        orders.push(o);
        assert(order_values(orders@) =~= o0.push(start_production_order(self.player_id, item@)));
    }

    fn player_cash(&self, world: &WorldView) -> (r: i32)
        ensures
            r == spec_player_cash(*world, self.player_id),
    {
        world.player_cash(self.player_id)
    }

    fn has_building_in_production(&self, world: &WorldView) -> (r: bool)
        ensures
            r == spec_building_in_production(*world, self.player_id),
    {
        world.has_pending_production(self.player_id)
    }

    fn has_unit_in_production(&self, world: &WorldView) -> (r: bool)
        ensures
            r == spec_unit_in_production(*world, self.player_id),
    {
        world.has_pending_unit_production(self.player_id)
    }

    fn tick_base_builder(&mut self, world: &WorldView, orders: &mut Vec<GameOrder>)
        requires
            old(self).wf(),
            world_fits(*world, old(self).player_id),
            old(self)@.pending_buildings.len() > 0 ==> base_fits(*world, old(self).player_id),
            old(self)@.place_offset + old(self)@.pending_buildings.len() <= i32::MAX,
        ensures
            final(self).wf(),
            (final(self)@, order_values(final(orders)@)) == ({
                let (s, o) = base_step(old(self)@, *world);
                (s, order_values(old(orders)@) + o)
            }),
    {
        let ghost s0 = self@;
        let ghost o0 = order_values(orders@);
        // Place pending buildings first, without waiting for the next check.
        if self.pending_buildings.len() > 0 {
            self.place_pending_buildings(world, orders);
        } else {
            assert(o0 + Seq::<OrderValue>::empty() =~= o0);
        }
        let ghost s1 = self@;
        let ghost o1 = order_values(orders@);
        assert(o1 == o0 + (if s0.pending_buildings.len() > 0 { place_step(s0, *world) } else { (s0, Seq::<OrderValue>::empty()) }).1);
        if !self.has_building(world, "fact") {
            return;
        }
        self.building_wait_ticks -= 1;
        if self.building_wait_ticks > 0 {
            return;
        }
        // Nothing new while something is in production.
        if self.has_building_in_production(world) {
            self.building_wait_ticks = 25 + self.rng.next_range(0, 10);
            return;
        }
        let cash = self.player_cash(world);
        // Build a power plant when power is short.
        let (power_provided, power_drained) = world.player_power(self.player_id);
        let excess_power = power_provided - power_drained;
        if excess_power < 0 || (power_provided == 0 && !self.has_building(world, "powr")) {
            if cash >= 300 {
                self.order_start_production(orders, "powr");
                self.building_wait_ticks = 25 + self.rng.next_range(0, 10);
                assert(order_values(orders@) == o0 + o1.subrange(o0.len() as int, o1.len() as int).push(
                    start_production_order(s0.player_id, "powr"@),
                )) by {
                    assert(o0 + o1.subrange(o0.len() as int, o1.len() as int) =~= o1);
                    assert(o0 + o1.subrange(o0.len() as int, o1.len() as int).push(start_production_order(s0.player_id, "powr"@))
                        =~= o1.push(start_production_order(s0.player_id, "powr"@)));
                }
                return;
            }
        }
        // Otherwise what the fractions call for.
        if let Some(item) = self.choose_building_to_build(world, cash) {
            self.order_start_production(orders, item.as_str());
            self.building_wait_ticks = 25 + self.rng.next_range(0, 10);
            assert(order_values(orders@) == o0 + o1.subrange(o0.len() as int, o1.len() as int).push(
                start_production_order(s0.player_id, item@),
            )) by {
                assert(o0 + o1.subrange(o0.len() as int, o1.len() as int) =~= o1);
                assert(o0 + o1.subrange(o0.len() as int, o1.len() as int).push(start_production_order(s0.player_id, item@))
                    =~= o1.push(start_production_order(s0.player_id, item@)));
            }
        } else {
            self.building_wait_ticks = 125 + self.rng.next_range(0, 10);
        }
    }

    fn can_produce_unit(&self, world: &WorldView, unit_type: &str) -> (r: bool)
        ensures
            r == can_produce_unit(*world, self.player_id, unit_type@),
    {
        let t = unit_type;
        if str_eq(t, "e1") || str_eq(t, "e2") || str_eq(t, "e3") || str_eq(t, "e4") || str_eq(t, "e6") || str_eq(t, "e7")
            || str_eq(t, "shok") || str_eq(t, "medi") || str_eq(t, "mech") || str_eq(t, "dog") || str_eq(t, "spy")
            || str_eq(t, "thf") {
            // Infantry needs barracks.
            self.has_building(world, "tent") || self.has_building(world, "barr")
        } else if str_eq(t, "1tnk") || str_eq(t, "2tnk") || str_eq(t, "3tnk") || str_eq(t, "4tnk") || str_eq(t, "v2rl")
            || str_eq(t, "arty") || str_eq(t, "harv") || str_eq(t, "mcv") || str_eq(t, "apc") || str_eq(t, "jeep")
            || str_eq(t, "mnly") || str_eq(t, "ttnk") || str_eq(t, "ctnk") {
            // Vehicles need a war factory.
            self.has_building(world, "weap")
        } else if str_eq(t, "heli") || str_eq(t, "hind") || str_eq(t, "mh60") {
            self.has_building(world, "hpad")
        } else if str_eq(t, "mig") || str_eq(t, "yak") {
            self.has_building(world, "afld")
        } else {
            false
        }
    }

    /// Count this player's infantry and vehicles by weighed unit type.
    fn count_units_by_type(&self, world: &WorldView) -> (r: Vec<i32>)
        requires
            world_fits(*world, self.player_id),
        ensures
            r@.len() == 17,
            forall|i: int|
                0 <= i < 17 ==> #[trigger] r@[i] == unit_count(
                    *world,
                    owned_ids(world.actors@, self.player_id),
                    unit_fractions()[i].0,
                ),
    {
        let table = unit_fractions_table();
        let mut counts: Vec<i32> = Vec::new();
        for i in 0..17usize
            invariant
                counts@.len() == i,
                forall|j: int| 0 <= j < i ==> #[trigger] counts@[j] == 0,
        {
            counts.push(0);
        }
        let ids = world.actor_ids_for_player(self.player_id);
        for k in 0..ids.len()
            invariant
                ids@ == owned_ids(world.actors@, self.player_id),
                world_fits(*world, self.player_id),
                counts@.len() == 17,
                forall|i: int| 0 <= i < 17 ==> (#[trigger] table@[i]).0@ == unit_fractions()[i].0,
                forall|j: int|
                    0 <= j < 17 ==> #[trigger] counts@[j] == unit_count(*world, ids@.take(k as int), unit_fractions()[j].0),
        {
            let id = ids[k];
            let ghost before = ids@.take(k as int);
            proof {
                assert(ids@.take(k + 1).drop_last() =~= before);
                assert(ids@.take(k + 1).last() == id);
                assert forall|j: int| 0 <= j < 17 implies #[trigger] unit_count(
                    *world,
                    ids@.take(k + 1),
                    unit_fractions()[j].0,
                ) <= 21_474_836 by {
                    lemma_unit_count_prefix(*world, ids@, k + 1, unit_fractions()[j].0);
                }
            }
            let kind = world.actor_kind(id);
            let is_unit = match kind {
                Some(ActorKind::Infantry) => true,
                Some(ActorKind::Vehicle) => true,
                _ => false,
            };
            if is_unit {
                if let Some(atype) = world.actor_type(id) {
                    for i in 0..17usize
                        invariant
                            counts@.len() == 17,
                            forall|x: int| 0 <= x < 17 ==> (#[trigger] table@[x]).0@ == unit_fractions()[x].0,
                            forall|j: int| 0 <= j < 17 ==> #[trigger] unit_count(
                                *world,
                                ids@.take(k + 1),
                                unit_fractions()[j].0,
                            ) <= 21_474_836,
                            k < ids@.len(),
                            ids@.take(k + 1).drop_last() == before,
                            ids@.take(k + 1).last() == id,
                            spec_actor_type(*world, id) == Some(atype@),
                            spec_actor_kind(*world, id) == Some(ActorKind::Infantry) || spec_actor_kind(*world, id)
                                == Some(ActorKind::Vehicle),
                            forall|j: int|
                                0 <= j < 17 ==> #[trigger] counts@[j] == unit_count(*world, before, unit_fractions()[j].0) + (
                                if j < i && atype@ == unit_fractions()[j].0 { 1int } else { 0int }),
                    {
                        if str_eq(atype.as_str(), table[i].0) {
                            assert(is_unit_of_type(*world, id, unit_fractions()[i as int].0));
                            assert(counts@[i as int] == unit_count(*world, before, unit_fractions()[i as int].0));
                            assert(ids@.take(k + 1).len() == k + 1);
                            assert(unit_count(*world, ids@.take(k + 1), unit_fractions()[i as int].0) == unit_count(
                                *world,
                                before,
                                unit_fractions()[i as int].0,
                            ) + 1);
                            let c = counts[i] + 1;
                            counts.set(i, c);
                        }
                    }
                    assert forall|j: int| 0 <= j < 17 implies #[trigger] counts@[j] == unit_count(
                        *world,
                        ids@.take(k + 1),
                        unit_fractions()[j].0,
                    ) by {
                        assert(is_unit_of_type(*world, id, unit_fractions()[j].0) == (atype@ == unit_fractions()[j].0));
                    }
                } else {
                    assert forall|j: int| 0 <= j < 17 implies #[trigger] counts@[j] == unit_count(
                        *world,
                        ids@.take(k + 1),
                        unit_fractions()[j].0,
                    ) by {
                        assert(!is_unit_of_type(*world, id, unit_fractions()[j].0));
                    }
                }
            } else {
                assert forall|j: int| 0 <= j < 17 implies #[trigger] counts@[j] == unit_count(
                    *world,
                    ids@.take(k + 1),
                    unit_fractions()[j].0,
                ) by {
                    assert(!is_unit_of_type(*world, id, unit_fractions()[j].0));
                }
            }
        }
        assert(ids@.take(ids@.len() as int) =~= ids@);
        counts
    }

    fn unit_error_of(
        &self,
        world: &WorldView,
        counts: &Vec<i32>,
        total_units: i32,
        total_fractions: i32,
        utype: &str,
        fraction: i32,
        i: usize,
    ) -> (r: Option<i32>)
        requires
            world_fits(*world, self.player_id),
            i < 17,
            counts@.len() == 17,
            counts@[i as int] == unit_count(*world, owned_ids(world.actors@, self.player_id), utype@),
            0 <= counts@[i as int] <= 21_474_836,
            total_units == total_unit_count(*world, owned_ids(world.actors@, self.player_id), 17),
            total_units >= 0,
            total_fractions == fraction_sum(17),
            total_fractions > 0,
            0 <= fraction <= 100,
        ensures
            match unit_error(
                self.player_id,
                *world,
                owned_ids(world.actors@, self.player_id),
                total_units as int,
                utype@,
                fraction,
            ) {
                Some(e) => r matches Some(x) && x as int == e,
                None => r is None,
            },
    {
        let cost = world.unit_cost(utype);
        if cost <= 0 {
            return None;
        }
        let limit = unit_limit_of(utype);
        let current = counts[i];
        if current >= limit {
            return None;
        }
        // Only types the bot has the production building for.
        if !self.can_produce_unit(world, utype) {
            return None;
        }
        let current_pct = if total_units > 0 {
            current * 100 / total_units
        } else {
            0
        };
        assert(0 <= current_pct <= 2147483600) by (nonlinear_arith)
            requires
                0 <= current <= 21_474_836,
                total_units > 0 ==> current_pct == (current * 100) / (total_units as int),
                total_units <= 0 ==> current_pct == 0,
        ;
        let target_share = fraction * 100 / total_fractions;
        assert(0 <= target_share <= 10000) by (nonlinear_arith)
            requires
                0 <= fraction <= 100,
                total_fractions > 0,
                target_share == (fraction * 100) / (total_fractions as int),
        ;
        Some(current_pct - target_share)
    }

    fn choose_unit_to_build(&self, world: &WorldView) -> (r: Option<String>)
        requires
            world_fits(*world, self.player_id),
        ensures
            match r {
                Some(t) => spec_choose_unit(self.player_id, *world) == Some(t@),
                None => spec_choose_unit(self.player_id, *world) is None,
            },
    {
        let counts = self.count_units_by_type(world);
        let table = unit_fractions_table();
        let ghost ids = owned_ids(world.actors@, self.player_id);
        let mut total_units: i32 = 0;
        for i in 0..17usize
            invariant
                counts@.len() == 17,
                ids == owned_ids(world.actors@, self.player_id),
                world_fits(*world, self.player_id),
                forall|j: int| 0 <= j < 17 ==> #[trigger] counts@[j] == unit_count(*world, ids, unit_fractions()[j].0),
                total_units == total_unit_count(*world, ids, i as nat),
                0 <= total_units,
        {
            proof {
                lemma_unit_count_bound(*world, ids, unit_fractions()[i as int].0);
                lemma_total_unit_count_mono(*world, ids, (i + 1) as nat, 17);
            }
            total_units = total_units + counts[i];
        }
        let mut total_fractions: i32 = 0;
        for i in 0..17usize
            invariant
                forall|x: int| 0 <= x < 17 ==> (#[trigger] table@[x]).1 == unit_fractions()[x].1,
                total_fractions == fraction_sum(i as nat),
                i <= total_fractions <= 100 * i,
        {
            assert(1 <= unit_fractions()[i as int].1 <= 100);
            total_fractions = total_fractions + table[i].1;
        }
        let mut best_item: Option<&str> = None;
        let mut best_error: i32 = i32::MAX;
        for i in 0..17usize
            invariant
                counts@.len() == 17,
                world_fits(*world, self.player_id),
                ids == owned_ids(world.actors@, self.player_id),
                forall|j: int| 0 <= j < 17 ==> #[trigger] counts@[j] == unit_count(*world, ids, unit_fractions()[j].0),
                forall|x: int| 0 <= x < 17 ==> (#[trigger] table@[x]).0@ == unit_fractions()[x].0 && table@[x].1
                    == unit_fractions()[x].1,
                total_units == total_unit_count(*world, ids, 17),
                total_units >= 0,
                total_fractions == fraction_sum(17),
                total_fractions > 0,
                ({
                    let (b, be) = best_unit(self.player_id, *world, ids, total_units as int, i as nat);
                    be == best_error && match best_item {
                        Some(t) => b == Some(t@),
                        None => b is None,
                    }
                }),
        {
            let (utype, fraction) = table[i];
            assert(unit_fractions()[i as int] == (utype@, fraction));
            assert(1 <= fraction <= 100);
            proof {
                lemma_unit_count_bound(*world, ids, utype@);
            }
            if let Some(error) = self.unit_error_of(world, &counts, total_units, total_fractions, utype, fraction, i) {
                if error < best_error {
                    best_error = error;
                    best_item = Some(utype);
                }
            }
        }
        match best_item {
            Some(t) => Some(String::from_str(t)),
            None => None,
        }
    }

    fn tick_unit_builder(&mut self, world: &WorldView, orders: &mut Vec<GameOrder>)
        requires
            old(self).wf(),
            world_fits(*world, old(self).player_id),
        ensures
            final(self).wf(),
            (final(self)@, order_values(final(orders)@)) == ({
                let (s, o) = unit_step(old(self)@, *world);
                (s, order_values(old(orders)@) + o)
            }),
    {
        let ghost o0 = order_values(orders@);
        assert(o0 + Seq::<OrderValue>::empty() =~= o0);
        let cash = self.player_cash(world);
        // Minimum cash to produce units.
        if cash < 500 {
            return;
        }
        self.unit_feedback_ticks -= 1;
        if self.unit_feedback_ticks > 0 {
            return;
        }
        self.unit_feedback_ticks = 30;
        // Nothing new while a unit is in production.
        if self.has_unit_in_production(world) {
            return;
        }
        if let Some(unit) = self.choose_unit_to_build(world) {
            self.order_start_production(orders, unit.as_str());
            assert(o0.push(start_production_order(self.player_id, unit@)) =~= o0 + seq![
                start_production_order(self.player_id, unit@),
            ]);
        }
    }

    /// Add this player's idle fighting units that are neither waiting nor in the squad
    /// to the waiting list.
    fn find_new_units(&mut self, world: &WorldView)
        requires
            old(self).wf(),
        ensures
            final(self).wf(),
            final(self)@ == (BotState {
                waiting_units: gather_units(
                    *world,
                    owned_ids(world.actors@, old(self).player_id),
                    old(self)@.waiting_units,
                    old(self)@.squad_units,
                ),
                ..old(self)@
            }),
    {
        let ghost s0 = self@;
        let our_actors = world.actor_ids_for_player(self.player_id);
        let n = our_actors.len();
        let ghost ids = our_actors@;
        assert(ids.subrange(0, n as int) =~= ids);
        for k in 0..n
            invariant
                n == our_actors@.len(),
                ids == our_actors@,
                self.wf(),
                self@ == (BotState { waiting_units: self.waiting_units@, ..s0 }),
                gather_units(*world, ids, s0.waiting_units, s0.squad_units) == gather_units(
                    *world,
                    ids.subrange(k as int, n as int),
                    self.waiting_units@,
                    s0.squad_units,
                ),
        {
            let id = our_actors[k];
            let ghost rest = ids.subrange(k as int, n as int);
            assert(rest[0] == id);
            assert(rest.drop_first() =~= ids.subrange(k + 1, n as int));
            // Skip units already waiting or in the squad.
            if !contains_id(&self.waiting_units, id) && !contains_id(&self.squad_units, id) {
                let kind = world.actor_kind(id);
                // Only infantry and vehicles.
                let military = match kind {
                    Some(ActorKind::Infantry) => true,
                    Some(ActorKind::Vehicle) => true,
                    _ => false,
                };
                if military {
                    // Harvesters, MCVs and dogs stay out of squads.
                    let excluded = match world.actor_type(id) {
                        Some(t) => str_eq(t.as_str(), "harv") || str_eq(t.as_str(), "mcv") || str_eq(t.as_str(), "dog"),
                        None => false,
                    };
                    if !excluded {
                        self.waiting_units.push(id);
                    }
                }
            }
        }
        assert(ids.subrange(n as int, n as int) =~= Seq::<u32>::empty());
    }

    fn issue_attack_orders(&self, world: &WorldView, orders: &mut Vec<GameOrder>, tx: i32, ty: i32)
        ensures
            order_values(final(orders)@) == order_values(old(orders)@) + attack_orders(*world, self.squad_units@, tx, ty),
    {
        let ghost o0 = order_values(orders@);
        assert(o0 + attack_orders(*world, self.squad_units@.take(0), tx, ty) =~= o0);
        for k in 0..self.squad_units.len()
            invariant
                order_values(orders@) == o0 + attack_orders(*world, self.squad_units@.take(k as int), tx, ty),
        {
            let unit_id = self.squad_units[k];
            let ghost before = order_values(orders@);
            proof {
                assert(self.squad_units@.take(k + 1).drop_last() =~= self.squad_units@.take(k as int));
            }
            // Only idle units get new orders.
            if world.is_actor_idle(unit_id) {
                let o = new_order("AttackMove", Some(unit_id), Some(attack_target(tx, ty)));
                orders.push(o);
                assert(order_values(orders@) =~= before.push(attack_order(unit_id, tx, ty)));
                assert(o0 + attack_orders(*world, self.squad_units@.take(k + 1), tx, ty) =~= (o0 + attack_orders(
                    *world,
                    self.squad_units@.take(k as int),
                    tx,
                    ty,
                )).push(attack_order(unit_id, tx, ty)));
            }
        }
        assert(self.squad_units@.take(self.squad_units@.len() as int) =~= self.squad_units@);
    }

    fn tick_squad_manager(&mut self, world: &WorldView, orders: &mut Vec<GameOrder>)
        requires
            old(self).wf(),
        ensures
            final(self).wf(),
            (final(self)@, order_values(final(orders)@)) == ({
                let (s, o) = squad_step(old(self)@, *world);
                (s, order_values(old(orders)@) + o)
            }),
    {
        let ghost o0 = order_values(orders@);
        assert(o0 + Seq::<OrderValue>::empty() =~= o0);
        // Dead units leave the squad and the waiting list.
        self.squad_units = retain_alive(world, &self.squad_units);
        self.waiting_units = retain_alive(world, &self.waiting_units);

        // Role assignment: gather idle fighting units.
        self.assign_roles_ticks -= 1;
        if self.assign_roles_ticks <= 0 {
            self.assign_roles_ticks = 50;
            self.find_new_units(world);
        }

        // Form an attack force once enough units wait.
        self.attack_force_ticks -= 1;
        if self.attack_force_ticks <= 0 {
            self.attack_force_ticks = 75;
            let squad_size = 5 + self.rng.next_range(0, 3);
            if self.waiting_units.len() as i32 >= squad_size {
                self.squad_units.append(&mut self.waiting_units);
                self.squad_target = world.find_enemy_location(self.player_id);
            }
        }

        // Orders for the active squad.
        if let Some((tx, ty)) = self.squad_target {
            if world.find_enemy_location(self.player_id).is_some() {
                self.issue_attack_orders(world, orders, tx, ty);
            } else {
                // No enemy left: disband the squad.
                self.waiting_units.append(&mut self.squad_units);
                self.squad_target = None;
            }
        }
    }

    /// Generate the orders for this tick (called once per game tick).
    pub fn tick(&mut self, world: &WorldView) -> (r: Vec<GameOrder>)
        requires
            old(self).wf(),
            tick_fits(old(self)@, *world),
        ensures
            final(self).wf(),
            (final(self)@, order_values(r@)) == spec_tick(old(self)@, *world),
    {
        self.ticks += 1;
        let mut orders: Vec<GameOrder> = Vec::new();
        assert(order_values(orders@) =~= Seq::<OrderValue>::empty());

        // Buildings that finished production wait to be placed.
        self.check_completed_buildings(world);

        self.tick_mcv_manager(world, &mut orders);
        self.tick_base_builder(world, &mut orders);
        self.tick_unit_builder(world, &mut orders);
        self.tick_squad_manager(world, &mut orders);
        proof {
            let e = Seq::<OrderValue>::empty();
            assert(e + mcv_step(self@, *world).1 =~= mcv_step(self@, *world).1);
        }
        orders
    }

    fn check_completed_buildings(&mut self, world: &WorldView)
        requires
            old(self).wf(),
        ensures
            final(self).wf(),
            final(self)@ == (BotState {
                pending_buildings: old(self)@.pending_buildings + spec_completed_buildings(*world, old(self).player_id),
                ..old(self)@
            }),
    {
        let mut completed = world.peek_completed_buildings(self.player_id);
        let ghost p0 = self.pending_buildings@;
        let ghost c0 = completed@;
        self.pending_buildings.append(&mut completed);
        assert(self.pending_buildings@.map_values(|b: String| b@) =~= p0.map_values(|b: String| b@) + c0.map_values(
            |b: String| b@,
        ));
    }

    fn tick_mcv_manager(&mut self, world: &WorldView, orders: &mut Vec<GameOrder>)
        requires
            old(self).wf(),
        ensures
            final(self).wf(),
            (final(self)@, order_values(final(orders)@)) == ({
                let (s, o) = mcv_step(old(self)@, *world);
                (s, order_values(old(orders)@) + o)
            }),
    {
        let ghost o0 = order_values(orders@);
        if self.mcv_deployed && self.has_building(world, "fact") {
            assert(o0 + Seq::<OrderValue>::empty() =~= o0);
            return;
        }
        self.mcv_scan_interval -= 1;
        if self.mcv_scan_interval > 0 {
            assert(o0 + Seq::<OrderValue>::empty() =~= o0);
            return;
        }
        self.mcv_scan_interval = 20;
        let ids = world.actor_ids_for_player(self.player_id);
        let mcv_id = find_first_mcv(world, &ids);
        match mcv_id {
            Some(id) => {
                let o = new_order("DeployTransform", Some(id), None);
                orders.push(o);
                assert(order_values(orders@) =~= o0 + seq![deploy_order(id)]);
                self.mcv_deployed = true;
            },
            None => {
                assert(o0 + Seq::<OrderValue>::empty() =~= o0);
                if self.has_building(world, "fact") {
                    self.mcv_deployed = true;
                }
            },
        }
    }
}


// ---------------------------------------------------------------------------
// Laws
// ---------------------------------------------------------------------------

proof fn lemma_best_building_is_candidate(p: u32, ticks: u32, w: WorldView, cash: i32, owned: Seq<Seq<char>>, k: nat)
    requires
        k <= 20,
    ensures
        best_building(p, ticks, w, cash, owned, k).0 matches Some(b) ==> exists|i: int|
            0 <= i < k && #[trigger] building_fractions()[i].0 == b && building_priority(
                p,
                ticks,
                w,
                cash,
                owned,
                b,
                building_fractions()[i].1,
            ) is Some,
    decreases k,
{
    if k > 0 {
        lemma_best_building_is_candidate(p, ticks, w, cash, owned, (k - 1) as nat);
    }
}

/// The base builder only queues what the player can pay for; a building chosen by the
/// fractions is moreover listed with a cost, below its limit, past its delay and with its
/// prerequisites.
pub proof fn lemma_chosen_building_is_allowed(p: u32, ticks: u32, w: WorldView, cash: i32)
    ensures
        spec_choose_building(p, ticks, w, cash) matches Some(b) ==> {
            let owned = building_types(w.actors@, p);
            &&& cash >= cost_of(w.building_costs@, b)
            &&& !is_essential_building(b) ==> {
                &&& cost_of(w.building_costs@, b) > 0
                &&& count_of(owned, b) < building_limit(b)
                &&& (ticks as i32) >= building_delay(b)
                &&& meets_prerequisites(w, p, b)
            }
        },
{
    let owned = building_types(w.actors@, p);
    lemma_best_building_is_candidate(p, ticks, w, cash, owned, 20);
}

proof fn lemma_best_unit_is_candidate(p: u32, w: WorldView, ids: Seq<u32>, total: int, k: nat)
    requires
        k <= 17,
    ensures
        best_unit(p, w, ids, total, k).0 matches Some(u) ==> exists|i: int|
            0 <= i < k && #[trigger] unit_fractions()[i].0 == u && unit_error(p, w, ids, total, u, unit_fractions()[i].1)
                is Some,
    decreases k,
{
    if k > 0 {
        lemma_best_unit_is_candidate(p, w, ids, total, (k - 1) as nat);
    }
}

/// The unit builder only queues a unit type with a listed cost, below its limit, and
/// whose production building the player has.
pub proof fn lemma_chosen_unit_is_allowed(p: u32, w: WorldView)
    ensures
        spec_choose_unit(p, w) matches Some(u) ==> {
            &&& cost_of(w.unit_costs@, u) > 0
            &&& unit_count(w, owned_ids(w.actors@, p), u) < unit_limit(u)
            &&& can_produce_unit(w, p, u)
        },
{
    let ids = owned_ids(w.actors@, p);
    lemma_best_unit_is_candidate(p, w, ids, total_unit_count(w, ids, 17), 17);
}

/// No unit is listed twice among the waiting units and the squad.
pub open spec fn units_distinct(s: BotState) -> bool {
    &&& s.waiting_units.no_duplicates()
    &&& s.squad_units.no_duplicates()
    &&& forall|x: u32| s.waiting_units.contains(x) ==> !s.squad_units.contains(x)
}

proof fn lemma_alive_units(w: WorldView, ids: Seq<u32>)
    ensures
        forall|x: u32| alive_units(w, ids).contains(x) ==> ids.contains(x),
        ids.no_duplicates() ==> alive_units(w, ids).no_duplicates(),
    decreases ids.len(),
{
    if ids.len() > 0 {
        let init = ids.drop_last();
        lemma_alive_units(w, init);
        let r = alive_units(w, init);
        assert forall|x: u32| alive_units(w, ids).contains(x) implies ids.contains(x) by {
            if r.contains(x) {
                let i = choose|i: int| 0 <= i < r.len() && r[i] == x;
                assert(init.contains(x));
                let j = choose|j: int| 0 <= j < init.len() && init[j] == x;
                assert(ids[j] == x);
            } else {
                assert(ids[ids.len() - 1] == x);
            }
        }
        if ids.no_duplicates() {
            assert(init.no_duplicates()) by {
                assert forall|i: int, j: int| 0 <= i < init.len() && 0 <= j < init.len() && i != j implies init[i]
                    != init[j] by {
                    assert(init[i] == ids[i] && init[j] == ids[j]);
                }
            }
            if spec_actor_kind(w, ids.last()) is Some {
                assert(!r.contains(ids.last())) by {
                    if r.contains(ids.last()) {
                        assert(init.contains(ids.last()));
                        let j = choose|j: int| 0 <= j < init.len() && init[j] == ids.last();
                        assert(init[j] == ids[j]);
                        assert(ids[j] == ids[ids.len() - 1]);
                        assert(false);
                    }
                }
                let out = r.push(ids.last());
                assert forall|i: int, j: int| 0 <= i < out.len() && 0 <= j < out.len() && i != j implies out[i]
                    != out[j] by {
                    if i < r.len() && j < r.len() {
                        assert(out[i] == r[i] && out[j] == r[j]);
                    } else if i < r.len() {
                        assert(out[i] == r[i]);
                    } else {
                        assert(out[j] == r[j]);
                    }
                }
            }
        }
    }
}

proof fn lemma_gather_units(w: WorldView, ids: Seq<u32>, waiting: Seq<u32>, squad: Seq<u32>)
    requires
        waiting.no_duplicates(),
        forall|x: u32| waiting.contains(x) ==> !squad.contains(x),
    ensures
        gather_units(w, ids, waiting, squad).no_duplicates(),
        forall|x: u32| gather_units(w, ids, waiting, squad).contains(x) ==> !squad.contains(x),
    decreases ids.len(),
{
    if ids.len() > 0 {
        let id = ids[0];
        if !waiting.contains(id) && !squad.contains(id) && is_fighting_unit(w, id) {
            let next = waiting.push(id);
            assert forall|i: int, j: int| 0 <= i < next.len() && 0 <= j < next.len() && i != j implies next[i]
                != next[j] by {
                if i < waiting.len() && j < waiting.len() {
                    assert(next[i] == waiting[i] && next[j] == waiting[j]);
                } else if i < waiting.len() {
                    assert(next[i] == waiting[i]);
                } else {
                    assert(next[j] == waiting[j]);
                }
            }
            assert forall|x: u32| next.contains(x) implies !squad.contains(x) by {
                let i = choose|i: int| 0 <= i < next.len() && next[i] == x;
                if i < waiting.len() {
                    assert(waiting[i] == x);
                }
            }
            lemma_gather_units(w, ids.drop_first(), next, squad);
        } else {
            lemma_gather_units(w, ids.drop_first(), waiting, squad);
        }
    }
}

proof fn lemma_concat_distinct(a: Seq<u32>, b: Seq<u32>)
    requires
        a.no_duplicates(),
        b.no_duplicates(),
        forall|x: u32| a.contains(x) ==> !b.contains(x),
    ensures
        (a + b).no_duplicates(),
        (b + a).no_duplicates(),
        forall|x: u32| (a + b).contains(x) <==> a.contains(x) || b.contains(x),
{
    let ab = a + b;
    assert forall|i: int, j: int| 0 <= i < ab.len() && 0 <= j < ab.len() && i != j implies ab[i] != ab[j] by {
        if i < a.len() && j < a.len() {
        } else if i >= a.len() && j >= a.len() {
            assert(ab[i] == b[i - a.len()] && ab[j] == b[j - a.len()]);
        } else if i < a.len() {
            assert(a.contains(ab[i]));
            assert(b.contains(ab[j])) by {
                assert(ab[j] == b[j - a.len()]);
            }
        } else {
            assert(a.contains(ab[j]));
            assert(b.contains(ab[i])) by {
                assert(ab[i] == b[i - a.len()]);
            }
        }
    }
    let ba = b + a;
    assert forall|i: int, j: int| 0 <= i < ba.len() && 0 <= j < ba.len() && i != j implies ba[i] != ba[j] by {
        if i < b.len() && j < b.len() {
        } else if i >= b.len() && j >= b.len() {
            assert(ba[i] == a[i - b.len()] && ba[j] == a[j - b.len()]);
        } else if i < b.len() {
            assert(b.contains(ba[i]));
            assert(a.contains(ba[j])) by {
                assert(ba[j] == a[j - b.len()]);
            }
        } else {
            assert(b.contains(ba[j]));
            assert(a.contains(ba[i])) by {
                assert(ba[i] == a[i - b.len()]);
            }
        }
    }
    assert forall|x: u32| ab.contains(x) <==> a.contains(x) || b.contains(x) by {
        if ab.contains(x) {
            let i = choose|i: int| 0 <= i < ab.len() && ab[i] == x;
            if i >= a.len() {
                assert(b[i - a.len()] == x);
            }
        }
        if a.contains(x) {
            let i = choose|i: int| 0 <= i < a.len() && a[i] == x;
            assert(ab[i] == x);
        }
        if b.contains(x) {
            let i = choose|i: int| 0 <= i < b.len() && b[i] == x;
            assert(ab[a.len() + i] == x);
        }
    }
}

/// The squad manager never lists a unit twice: whatever the world, a bot tick keeps each
/// unit at most once among the waiting units and the squad. (A new bot has neither.)
pub proof fn lemma_tick_keeps_units_distinct(s: BotState, w: WorldView)
    requires
        units_distinct(s),
    ensures
        units_distinct(spec_tick(s, w).0),
{
    let s1 = BotState {
        ticks: (s.ticks + 1) as u32,
        pending_buildings: s.pending_buildings + spec_completed_buildings(w, s.player_id),
        ..s
    };
    let s2 = mcv_step(s1, w).0;
    let s3 = base_step(s2, w).0;
    let s4 = unit_step(s3, w).0;
    assert(s4.waiting_units == s.waiting_units && s4.squad_units == s.squad_units);
    let squad = alive_units(w, s4.squad_units);
    let waiting = alive_units(w, s4.waiting_units);
    lemma_alive_units(w, s4.squad_units);
    lemma_alive_units(w, s4.waiting_units);
    assert forall|x: u32| waiting.contains(x) implies !squad.contains(x) by {
        assert(s4.waiting_units.contains(x));
    }
    let waiting2 = if s4.assign_roles_ticks - 1 <= 0 {
        gather_units(w, owned_ids(w.actors@, s4.player_id), waiting, squad)
    } else {
        waiting
    };
    lemma_gather_units(w, owned_ids(w.actors@, s4.player_id), waiting, squad);
    lemma_concat_distinct(squad, waiting2);
    let e = Seq::<u32>::empty();
    assert(e.no_duplicates());
    let s5 = squad_step(s4, w).0;
    assert(units_distinct(s5)) by {
        let (r, v) = spec_next_range(s4.rng, 0, 3);
        let form = s4.attack_force_ticks - 1 <= 0 && (waiting2.len() as i32) >= 5 + v;
        let sq3 = if form { squad + waiting2 } else { squad };
        let wt3 = if form { e } else { waiting2 };
        assert(sq3.no_duplicates() && wt3.no_duplicates());
        assert(forall|x: u32| wt3.contains(x) ==> !sq3.contains(x));
        lemma_concat_distinct(wt3, sq3);
        assert(forall|x: u32| !e.contains(x));
    }
}

/// Whether `t` is one of the unit types the unit builder weighs.
pub open spec fn is_unit_type(t: Seq<char>) -> bool {
    t == "e1"@ || t == "e2"@ || t == "e3"@ || t == "e4"@ || t == "e7"@ || t == "dog"@ || t == "shok"@ || t == "harv"@ || t == "apc"@ || t == "jeep"@ || t == "arty"@ || t == "v2rl"@ || t == "1tnk"@ || t == "2tnk"@ || t == "3tnk"@ || t == "4tnk"@ || t == "ttnk"@
}

/// The unit builder's table lists exactly the unit types, and no building type the base
/// builder weighs is one of them.
proof fn lemma_unit_and_building_names()
    ensures
        forall|j: int| 0 <= j < 17 ==> is_unit_type(#[trigger] unit_fractions()[j].0),
        forall|i: int| 0 <= i < 20 ==> !is_unit_type(#[trigger] building_fractions()[i].0),
{
    reveal_strlit("powr");
    reveal_strlit("proc");
    reveal_strlit("tent");
    reveal_strlit("barr");
    reveal_strlit("weap");
    reveal_strlit("pbox");
    reveal_strlit("gun");
    reveal_strlit("ftur");
    reveal_strlit("tsla");
    reveal_strlit("gap");
    reveal_strlit("fix");
    reveal_strlit("agun");
    reveal_strlit("sam");
    reveal_strlit("atek");
    reveal_strlit("stek");
    reveal_strlit("dome");
    reveal_strlit("hpad");
    reveal_strlit("spen");
    reveal_strlit("syrd");
    reveal_strlit("mslo");
    reveal_strlit("e1");
    reveal_strlit("e2");
    reveal_strlit("e3");
    reveal_strlit("e4");
    reveal_strlit("e7");
    reveal_strlit("dog");
    reveal_strlit("shok");
    reveal_strlit("harv");
    reveal_strlit("apc");
    reveal_strlit("jeep");
    reveal_strlit("arty");
    reveal_strlit("v2rl");
    reveal_strlit("1tnk");
    reveal_strlit("2tnk");
    reveal_strlit("3tnk");
    reveal_strlit("4tnk");
    reveal_strlit("ttnk");
    assert("powr"@.len() == 4 && "powr"@[0] == 'p' && "powr"@[1] == 'o' && "powr"@[2] == 'w' && "powr"@[3] == 'r');
    assert("proc"@.len() == 4 && "proc"@[0] == 'p' && "proc"@[1] == 'r' && "proc"@[2] == 'o' && "proc"@[3] == 'c');
    assert("tent"@.len() == 4 && "tent"@[0] == 't' && "tent"@[1] == 'e' && "tent"@[2] == 'n' && "tent"@[3] == 't');
    assert("barr"@.len() == 4 && "barr"@[0] == 'b' && "barr"@[1] == 'a' && "barr"@[2] == 'r' && "barr"@[3] == 'r');
    assert("weap"@.len() == 4 && "weap"@[0] == 'w' && "weap"@[1] == 'e' && "weap"@[2] == 'a' && "weap"@[3] == 'p');
    assert("pbox"@.len() == 4 && "pbox"@[0] == 'p' && "pbox"@[1] == 'b' && "pbox"@[2] == 'o' && "pbox"@[3] == 'x');
    assert("gun"@.len() == 3 && "gun"@[0] == 'g' && "gun"@[1] == 'u' && "gun"@[2] == 'n');
    assert("ftur"@.len() == 4 && "ftur"@[0] == 'f' && "ftur"@[1] == 't' && "ftur"@[2] == 'u' && "ftur"@[3] == 'r');
    assert("tsla"@.len() == 4 && "tsla"@[0] == 't' && "tsla"@[1] == 's' && "tsla"@[2] == 'l' && "tsla"@[3] == 'a');
    assert("gap"@.len() == 3 && "gap"@[0] == 'g' && "gap"@[1] == 'a' && "gap"@[2] == 'p');
    assert("fix"@.len() == 3 && "fix"@[0] == 'f' && "fix"@[1] == 'i' && "fix"@[2] == 'x');
    assert("agun"@.len() == 4 && "agun"@[0] == 'a' && "agun"@[1] == 'g' && "agun"@[2] == 'u' && "agun"@[3] == 'n');
    assert("sam"@.len() == 3 && "sam"@[0] == 's' && "sam"@[1] == 'a' && "sam"@[2] == 'm');
    assert("atek"@.len() == 4 && "atek"@[0] == 'a' && "atek"@[1] == 't' && "atek"@[2] == 'e' && "atek"@[3] == 'k');
    assert("stek"@.len() == 4 && "stek"@[0] == 's' && "stek"@[1] == 't' && "stek"@[2] == 'e' && "stek"@[3] == 'k');
    assert("dome"@.len() == 4 && "dome"@[0] == 'd' && "dome"@[1] == 'o' && "dome"@[2] == 'm' && "dome"@[3] == 'e');
    assert("hpad"@.len() == 4 && "hpad"@[0] == 'h' && "hpad"@[1] == 'p' && "hpad"@[2] == 'a' && "hpad"@[3] == 'd');
    assert("spen"@.len() == 4 && "spen"@[0] == 's' && "spen"@[1] == 'p' && "spen"@[2] == 'e' && "spen"@[3] == 'n');
    assert("syrd"@.len() == 4 && "syrd"@[0] == 's' && "syrd"@[1] == 'y' && "syrd"@[2] == 'r' && "syrd"@[3] == 'd');
    assert("mslo"@.len() == 4 && "mslo"@[0] == 'm' && "mslo"@[1] == 's' && "mslo"@[2] == 'l' && "mslo"@[3] == 'o');
    assert("e1"@.len() == 2 && "e1"@[0] == 'e' && "e1"@[1] == '1');
    assert("e2"@.len() == 2 && "e2"@[0] == 'e' && "e2"@[1] == '2');
    assert("e3"@.len() == 2 && "e3"@[0] == 'e' && "e3"@[1] == '3');
    assert("e4"@.len() == 2 && "e4"@[0] == 'e' && "e4"@[1] == '4');
    assert("e7"@.len() == 2 && "e7"@[0] == 'e' && "e7"@[1] == '7');
    assert("dog"@.len() == 3 && "dog"@[0] == 'd' && "dog"@[1] == 'o' && "dog"@[2] == 'g');
    assert("shok"@.len() == 4 && "shok"@[0] == 's' && "shok"@[1] == 'h' && "shok"@[2] == 'o' && "shok"@[3] == 'k');
    assert("harv"@.len() == 4 && "harv"@[0] == 'h' && "harv"@[1] == 'a' && "harv"@[2] == 'r' && "harv"@[3] == 'v');
    assert("apc"@.len() == 3 && "apc"@[0] == 'a' && "apc"@[1] == 'p' && "apc"@[2] == 'c');
    assert("jeep"@.len() == 4 && "jeep"@[0] == 'j' && "jeep"@[1] == 'e' && "jeep"@[2] == 'e' && "jeep"@[3] == 'p');
    assert("arty"@.len() == 4 && "arty"@[0] == 'a' && "arty"@[1] == 'r' && "arty"@[2] == 't' && "arty"@[3] == 'y');
    assert("v2rl"@.len() == 4 && "v2rl"@[0] == 'v' && "v2rl"@[1] == '2' && "v2rl"@[2] == 'r' && "v2rl"@[3] == 'l');
    assert("1tnk"@.len() == 4 && "1tnk"@[0] == '1' && "1tnk"@[1] == 't' && "1tnk"@[2] == 'n' && "1tnk"@[3] == 'k');
    assert("2tnk"@.len() == 4 && "2tnk"@[0] == '2' && "2tnk"@[1] == 't' && "2tnk"@[2] == 'n' && "2tnk"@[3] == 'k');
    assert("3tnk"@.len() == 4 && "3tnk"@[0] == '3' && "3tnk"@[1] == 't' && "3tnk"@[2] == 'n' && "3tnk"@[3] == 'k');
    assert("4tnk"@.len() == 4 && "4tnk"@[0] == '4' && "4tnk"@[1] == 't' && "4tnk"@[2] == 'n' && "4tnk"@[3] == 'k');
    assert("ttnk"@.len() == 4 && "ttnk"@[0] == 't' && "ttnk"@[1] == 't' && "ttnk"@[2] == 'n' && "ttnk"@[3] == 'k');
    assert(building_fractions()[0].0 == "powr"@);
    assert(building_fractions()[1].0 == "proc"@);
    assert(building_fractions()[2].0 == "tent"@);
    assert(building_fractions()[3].0 == "barr"@);
    assert(building_fractions()[4].0 == "weap"@);
    assert(building_fractions()[5].0 == "pbox"@);
    assert(building_fractions()[6].0 == "gun"@);
    assert(building_fractions()[7].0 == "ftur"@);
    assert(building_fractions()[8].0 == "tsla"@);
    assert(building_fractions()[9].0 == "gap"@);
    assert(building_fractions()[10].0 == "fix"@);
    assert(building_fractions()[11].0 == "agun"@);
    assert(building_fractions()[12].0 == "sam"@);
    assert(building_fractions()[13].0 == "atek"@);
    assert(building_fractions()[14].0 == "stek"@);
    assert(building_fractions()[15].0 == "dome"@);
    assert(building_fractions()[16].0 == "hpad"@);
    assert(building_fractions()[17].0 == "spen"@);
    assert(building_fractions()[18].0 == "syrd"@);
    assert(building_fractions()[19].0 == "mslo"@);
    assert(unit_fractions()[0].0 == "e1"@);
    assert(unit_fractions()[1].0 == "e2"@);
    assert(unit_fractions()[2].0 == "e3"@);
    assert(unit_fractions()[3].0 == "e4"@);
    assert(unit_fractions()[4].0 == "e7"@);
    assert(unit_fractions()[5].0 == "dog"@);
    assert(unit_fractions()[6].0 == "shok"@);
    assert(unit_fractions()[7].0 == "harv"@);
    assert(unit_fractions()[8].0 == "apc"@);
    assert(unit_fractions()[9].0 == "jeep"@);
    assert(unit_fractions()[10].0 == "arty"@);
    assert(unit_fractions()[11].0 == "v2rl"@);
    assert(unit_fractions()[12].0 == "1tnk"@);
    assert(unit_fractions()[13].0 == "2tnk"@);
    assert(unit_fractions()[14].0 == "3tnk"@);
    assert(unit_fractions()[15].0 == "4tnk"@);
    assert(unit_fractions()[16].0 == "ttnk"@);
    assert(!is_unit_type("powr"@));
    assert(!is_unit_type("proc"@));
    assert(!is_unit_type("tent"@));
    assert(!is_unit_type("barr"@));
    assert(!is_unit_type("weap"@));
    assert(!is_unit_type("pbox"@));
    assert(!is_unit_type("gun"@));
    assert(!is_unit_type("ftur"@));
    assert(!is_unit_type("tsla"@));
    assert(!is_unit_type("gap"@));
    assert(!is_unit_type("fix"@));
    assert(!is_unit_type("agun"@));
    assert(!is_unit_type("sam"@));
    assert(!is_unit_type("atek"@));
    assert(!is_unit_type("stek"@));
    assert(!is_unit_type("dome"@));
    assert(!is_unit_type("hpad"@));
    assert(!is_unit_type("spen"@));
    assert(!is_unit_type("syrd"@));
    assert(!is_unit_type("mslo"@));
    assert forall|i: int| 0 <= i < 20 implies !is_unit_type(#[trigger] building_fractions()[i].0) by {
        if i == 0 {
        } else if i == 1 {
        } else if i == 2 {
        } else if i == 3 {
        } else if i == 4 {
        } else if i == 5 {
        } else if i == 6 {
        } else if i == 7 {
        } else if i == 8 {
        } else if i == 9 {
        } else if i == 10 {
        } else if i == 11 {
        } else if i == 12 {
        } else if i == 13 {
        } else if i == 14 {
        } else if i == 15 {
        } else if i == 16 {
        } else if i == 17 {
        } else if i == 18 {
        } else {
            assert(i == 19);
        }
    }
}


/// The four order names the bot uses are distinct.
proof fn lemma_order_names_distinct()
    ensures
        "DeployTransform"@ != "StartProduction"@,
        "DeployTransform"@ != "PlaceBuilding"@,
        "DeployTransform"@ != "AttackMove"@,
        "StartProduction"@ != "PlaceBuilding"@,
        "StartProduction"@ != "AttackMove"@,
{
    reveal_strlit("DeployTransform");
    reveal_strlit("StartProduction");
    reveal_strlit("PlaceBuilding");
    reveal_strlit("AttackMove");
    assert("DeployTransform"@.len() == 15 && "DeployTransform"@[0] == 'D' && "DeployTransform"@[1] == 'e' && "DeployTransform"@[2] == 'p' && "DeployTransform"@[3] == 'l' && "DeployTransform"@[4] == 'o' && "DeployTransform"@[5] == 'y' && "DeployTransform"@[6] == 'T' && "DeployTransform"@[7] == 'r' && "DeployTransform"@[8] == 'a' && "DeployTransform"@[9] == 'n' && "DeployTransform"@[10] == 's' && "DeployTransform"@[11] == 'f' && "DeployTransform"@[12] == 'o' && "DeployTransform"@[13] == 'r' && "DeployTransform"@[14] == 'm');
    assert("StartProduction"@.len() == 15 && "StartProduction"@[0] == 'S' && "StartProduction"@[1] == 't' && "StartProduction"@[2] == 'a' && "StartProduction"@[3] == 'r' && "StartProduction"@[4] == 't' && "StartProduction"@[5] == 'P' && "StartProduction"@[6] == 'r' && "StartProduction"@[7] == 'o' && "StartProduction"@[8] == 'd' && "StartProduction"@[9] == 'u' && "StartProduction"@[10] == 'c' && "StartProduction"@[11] == 't' && "StartProduction"@[12] == 'i' && "StartProduction"@[13] == 'o' && "StartProduction"@[14] == 'n');
    assert("PlaceBuilding"@.len() == 13 && "PlaceBuilding"@[0] == 'P' && "PlaceBuilding"@[1] == 'l' && "PlaceBuilding"@[2] == 'a' && "PlaceBuilding"@[3] == 'c' && "PlaceBuilding"@[4] == 'e' && "PlaceBuilding"@[5] == 'B' && "PlaceBuilding"@[6] == 'u' && "PlaceBuilding"@[7] == 'i' && "PlaceBuilding"@[8] == 'l' && "PlaceBuilding"@[9] == 'd' && "PlaceBuilding"@[10] == 'i' && "PlaceBuilding"@[11] == 'n' && "PlaceBuilding"@[12] == 'g');
    assert("AttackMove"@.len() == 10 && "AttackMove"@[0] == 'A' && "AttackMove"@[1] == 't' && "AttackMove"@[2] == 't' && "AttackMove"@[3] == 'a' && "AttackMove"@[4] == 'c' && "AttackMove"@[5] == 'k' && "AttackMove"@[6] == 'M' && "AttackMove"@[7] == 'o' && "AttackMove"@[8] == 'v' && "AttackMove"@[9] == 'e');
}

/// Whether some order of `q` satisfies `f`.
pub open spec fn has_order(q: Seq<OrderValue>, f: spec_fn(OrderValue) -> bool) -> bool {
    exists|k: int| 0 <= k < q.len() && f(#[trigger] q[k])
}

proof fn lemma_has_order_concat(a: Seq<OrderValue>, b: Seq<OrderValue>, f: spec_fn(OrderValue) -> bool)
    ensures
        has_order(a + b, f) ==> has_order(a, f) || has_order(b, f),
{
    if has_order(a + b, f) {
        let k = choose|k: int| 0 <= k < (a + b).len() && f(#[trigger] (a + b)[k]);
        if k < a.len() {
            assert(a[k] == (a + b)[k]);
        } else {
            assert(b[k - a.len()] == (a + b)[k]);
        }
    }
}

/// An order to deploy an MCV.
pub open spec fn is_deploy_order(o: OrderValue) -> bool {
    o.0 == "DeployTransform"@
}

/// An order to start producing one of the unit types the unit builder weighs.
pub open spec fn is_unit_production_order(o: OrderValue) -> bool {
    o.0 == "StartProduction"@ && (o.2 matches Some(t) && is_unit_type(t))
}

proof fn lemma_place_all_orders(w: WorldView, p: u32, buildings: Seq<Seq<char>>, offset: i32, bx: i32, by: i32)
    ensures
        forall|k: int|
            0 <= k < place_all(w, p, buildings, offset, bx, by).1.len() ==> (#[trigger] place_all(
                w,
                p,
                buildings,
                offset,
                bx,
                by,
            ).1[k]).0 == "PlaceBuilding"@ && place_all(w, p, buildings, offset, bx, by).1[k].1 == Some(p)
                && place_all(w, p, buildings, offset, bx, by).1[k].2 is Some && place_all(
                w,
                p,
                buildings,
                offset,
                bx,
                by,
            ).1[k].3 is None,
    decreases buildings.len(),
{
    if buildings.len() > 0 {
        match spec_find_placement(w, offset, bx, by) {
            Some(site) => {
                lemma_place_all_orders(w, p, buildings.drop_first(), (offset + 1) as i32, bx, by);
                let rest = place_all(w, p, buildings.drop_first(), (offset + 1) as i32, bx, by).1;
                let all = seq![place_order(p, buildings[0], site.0, site.1)] + rest;
                assert(place_all(w, p, buildings, offset, bx, by).1 == all);
                assert forall|k: int| 0 <= k < all.len() implies (#[trigger] all[k]).0 == "PlaceBuilding"@ && all[k].1
                    == Some(p) && all[k].2 is Some && all[k].3 is None by {
                    if k > 0 {
                        assert(all[k] == rest[k - 1]);
                    } else {
                        assert(all[0] == place_order(p, buildings[0], site.0, site.1));
                    }
                }
            },
            None => {
                lemma_place_all_orders(w, p, buildings.drop_first(), offset, bx, by);
                let rest = place_all(w, p, buildings.drop_first(), offset, bx, by).1;
                assert(place_all(w, p, buildings, offset, bx, by).1 == rest);
                assert forall|k: int| 0 <= k < rest.len() implies (#[trigger] rest[k]).0 == "PlaceBuilding"@ && rest[k].1
                    == Some(p) && rest[k].2 is Some && rest[k].3 is None by {
                }
            },
        }
    }
}

/// An attack-move order for one of the idle `units`.
pub open spec fn attack_shape(o: OrderValue, w: WorldView, units: Seq<u32>) -> bool {
    &&& o.0 == "AttackMove"@
    &&& o.1 is Some
    &&& units.contains(o.1->Some_0)
    &&& spec_is_actor_idle(w, o.1->Some_0)
    &&& o.2 is Some
    &&& o.3 is None
}

proof fn lemma_attack_orders_kind(w: WorldView, units: Seq<u32>, x: i32, y: i32)
    ensures
        forall|k: int|
            0 <= k < attack_orders(w, units, x, y).len() ==> attack_shape(
                #[trigger] attack_orders(w, units, x, y)[k],
                w,
                units,
            ),
    decreases units.len(),
{
    if units.len() > 0 {
        lemma_attack_orders_kind(w, units.drop_last(), x, y);
        let r = attack_orders(w, units.drop_last(), x, y);
        if spec_is_actor_idle(w, units.last()) {
            let all = r.push(attack_order(units.last(), x, y));
            assert forall|k: int| 0 <= k < all.len() implies attack_shape(#[trigger] all[k], w, units) by {
                if k < r.len() {
                    assert(all[k] == r[k]);
                    assert(attack_shape(r[k], w, units.drop_last()));
                    let id = r[k].1->Some_0;
                    let i = choose|i: int| 0 <= i < units.drop_last().len() && units.drop_last()[i] == id;
                    assert(units[i] == id);
                } else {
                    assert(units[units.len() - 1] == units.last());
                }
            }
        } else {
            assert forall|k: int| 0 <= k < r.len() implies attack_shape(#[trigger] r[k], w, units) by {
                assert(attack_shape(r[k], w, units.drop_last()));
                let id = r[k].1->Some_0;
                let i = choose|i: int| 0 <= i < units.drop_last().len() && units.drop_last()[i] == id;
                assert(units[i] == id);
            }
        }
    }
}

/// A building the base builder chooses is one of the types it weighs.
proof fn lemma_chosen_building_listed(p: u32, ticks: u32, w: WorldView, cash: i32)
    ensures
        spec_choose_building(p, ticks, w, cash) matches Some(b) ==> exists|i: int|
            0 <= i < 20 && #[trigger] building_fractions()[i].0 == b,
{
    let owned = building_types(w.actors@, p);
    lemma_best_building_is_candidate(p, ticks, w, cash, owned, 20);
    assert(building_fractions()[1].0 == "proc"@);
    assert(building_fractions()[2].0 == "tent"@);
    assert(building_fractions()[4].0 == "weap"@);
}

/// What one tick does to the MCV and unit countdowns, and which of its orders can deploy
/// an MCV or produce a unit.
proof fn lemma_tick_countdowns(s: BotState, w: WorldView)
    ensures
        ({
            let (s2, o) = spec_tick(s, w);
            &&& s2.player_id == s.player_id
            &&& s2.mcv_scan_interval == s.mcv_scan_interval || s2.mcv_scan_interval == s.mcv_scan_interval - 1
                || s2.mcv_scan_interval == 20
            &&& has_order(o, |o: OrderValue| is_deploy_order(o)) ==> s.mcv_scan_interval <= 1
                && s2.mcv_scan_interval == 20
            &&& s2.unit_feedback_ticks == s.unit_feedback_ticks || s2.unit_feedback_ticks == s.unit_feedback_ticks - 1
                || s2.unit_feedback_ticks == 30
            &&& has_order(o, |o: OrderValue| is_unit_production_order(o)) ==> s.unit_feedback_ticks <= 1
                && s2.unit_feedback_ticks == 30 && spec_player_cash(w, s.player_id) >= 500
        }),
{
    let dep = |o: OrderValue| is_deploy_order(o);
    let up = |o: OrderValue| is_unit_production_order(o);
    lemma_order_names_distinct();
    lemma_unit_and_building_names();
    let s1 = BotState {
        ticks: (s.ticks + 1) as u32,
        pending_buildings: s.pending_buildings + spec_completed_buildings(w, s.player_id),
        ..s
    };
    let (s2, o2) = mcv_step(s1, w);
    let (s3, o3) = base_step(s2, w);
    let (s4, o4) = unit_step(s3, w);
    let (s5, o5) = squad_step(s4, w);
    let p = s.player_id;
    // The base builder's orders place buildings or start building types.
    let (sp, op) = if s2.pending_buildings.len() > 0 { place_step(s2, w) } else { (s2, Seq::<OrderValue>::empty()) };
    match base_location(w, p) {
        Some(base) => {
            lemma_place_all_orders(w, p, s2.pending_buildings, s2.place_offset, base.0, base.1);
        },
        None => {},
    }
    assert(forall|k: int| 0 <= k < op.len() ==> (#[trigger] op[k]).0 == "PlaceBuilding"@);
    lemma_chosen_building_listed(p, sp.ticks, w, spec_player_cash(w, p));
    assert(building_fractions()[0].0 == "powr"@);
    assert forall|k: int| 0 <= k < o3.len() implies !dep(#[trigger] o3[k]) && !up(o3[k]) by {
        if k < op.len() {
            assert(o3[k] == op[k]);
        }
    }
    assert forall|k: int| 0 <= k < o4.len() implies !dep(#[trigger] o4[k]) by {
    }
    assert forall|k: int| 0 <= k < o5.len() implies !dep(#[trigger] o5[k]) && !up(o5[k]) by {
        lemma_squad_orders_kind(s4, w);
    }
    assert forall|k: int| 0 <= k < o2.len() implies !up(#[trigger] o2[k]) by {
    }
    lemma_has_order_concat(o2 + o3 + o4, o5, dep);
    lemma_has_order_concat(o2 + o3, o4, dep);
    lemma_has_order_concat(o2, o3, dep);
    lemma_has_order_concat(o2 + o3 + o4, o5, up);
    lemma_has_order_concat(o2 + o3, o4, up);
    lemma_has_order_concat(o2, o3, up);
}

proof fn lemma_squad_orders_kind(s: BotState, w: WorldView)
    ensures
        forall|k: int|
            0 <= k < squad_step(s, w).1.len() ==> (#[trigger] squad_step(s, w).1[k]).0 == "AttackMove"@,
{
    let (s3, o) = squad_step(s, w);
    match s3.squad_target {
        Some(t) => {
            lemma_attack_orders_kind(w, s3.squad_units, t.0, t.1);
        },
        None => {},
    }
}


/// The bot's state after ticking on each of `ws` in turn from `s`, with the orders of
/// each tick.
pub open spec fn run_bot(s: BotState, ws: Seq<WorldView>) -> (BotState, Seq<Seq<OrderValue>>)
    decreases ws.len(),
{
    if ws.len() == 0 {
        (s, Seq::empty())
    } else {
        let (s1, os) = run_bot(s, ws.drop_last());
        let (s2, o) = spec_tick(s1, ws.last());
        (s2, os.push(o))
    }
}

proof fn lemma_run_prefix(s: BotState, ws: Seq<WorldView>, k: int)
    requires
        0 <= k <= ws.len(),
    ensures
        run_bot(s, ws).1.len() == ws.len(),
        run_bot(s, ws.take(k)).1 == run_bot(s, ws).1.take(k),
    decreases ws.len(),
{
    if ws.len() == 0 {
        assert(ws.take(k) =~= ws);
    } else if k == ws.len() {
        assert(ws.take(k) =~= ws);
        lemma_run_prefix(s, ws.drop_last(), 0);
        assert(run_bot(s, ws).1.take(k) =~= run_bot(s, ws).1);
    } else {
        lemma_run_prefix(s, ws.drop_last(), k);
        assert(ws.drop_last().take(k) =~= ws.take(k));
        assert(run_bot(s, ws).1.take(k) =~= run_bot(s, ws.drop_last()).1.take(k));
    }
}

/// The state before tick `j` and tick `j` itself.
proof fn lemma_run_step(s: BotState, ws: Seq<WorldView>, j: int)
    requires
        0 <= j < ws.len(),
    ensures
        run_bot(s, ws.take(j + 1)).0 == spec_tick(run_bot(s, ws.take(j)).0, ws[j]).0,
        run_bot(s, ws).1[j] == spec_tick(run_bot(s, ws.take(j)).0, ws[j]).1,
{
    assert(ws.take(j + 1).drop_last() =~= ws.take(j));
    assert(ws.take(j + 1).last() == ws[j]);
    lemma_run_prefix(s, ws, j + 1);
    lemma_run_prefix(s, ws.take(j + 1), j);
    assert(run_bot(s, ws.take(j + 1)).1[j] == run_bot(s, ws).1.take(j + 1)[j]);
}

/// Bots are deterministic: two bots for the same player that have seen the same worlds
/// have issued the same orders, tick for tick, whatever worlds come later.
pub proof fn lemma_bots_agree(p: u32, ws1: Seq<WorldView>, ws2: Seq<WorldView>, k: int)
    requires
        0 <= k <= ws1.len(),
        k <= ws2.len(),
        ws1.take(k) == ws2.take(k),
    ensures
        run_bot(spec_new_bot(p), ws1).1.take(k) == run_bot(spec_new_bot(p), ws2).1.take(k),
{
    lemma_run_prefix(spec_new_bot(p), ws1, k);
    lemma_run_prefix(spec_new_bot(p), ws2, k);
}

#[verifier::rlimit(40)]
proof fn lemma_run_player(s: BotState, ws: Seq<WorldView>, j: int)
    requires
        0 <= j <= ws.len(),
    ensures
        run_bot(s, ws.take(j)).0.player_id == s.player_id,
    decreases j,
{
    if j == 0 {
        assert(ws.take(0) =~= Seq::<WorldView>::empty());
    } else {
        lemma_run_player(s, ws, j - 1);
        lemma_run_step(s, ws, j - 1);
        lemma_tick_countdowns(run_bot(s, ws.take(j - 1)).0, ws[j - 1]);
    }
}

#[verifier::rlimit(40)]
proof fn lemma_scan_after_deploy(s: BotState, ws: Seq<WorldView>, a: int, j: int)
    requires
        0 <= a < j <= ws.len(),
        has_order(run_bot(s, ws).1[a], |o: OrderValue| is_deploy_order(o)),
    ensures
        run_bot(s, ws.take(j)).0.mcv_scan_interval >= 20 - (j - a - 1),
    decreases j - a,
{
    if j == a + 1 {
        lemma_run_step(s, ws, a);
        lemma_tick_countdowns(run_bot(s, ws.take(a)).0, ws[a]);
    } else {
        lemma_scan_after_deploy(s, ws, a, j - 1);
        lemma_run_step(s, ws, j - 1);
        lemma_tick_countdowns(run_bot(s, ws.take(j - 1)).0, ws[j - 1]);
    }
}

/// The MCV manager looks for an MCV at most once every 20 ticks: two ticks that both
/// order a deploy are at least 20 ticks apart.
#[verifier::rlimit(40)]
pub proof fn lemma_deploys_spaced(s: BotState, ws: Seq<WorldView>, a: int, b: int)
    requires
        0 <= a < b < ws.len(),
        has_order(run_bot(s, ws).1[a], |o: OrderValue| is_deploy_order(o)),
        has_order(run_bot(s, ws).1[b], |o: OrderValue| is_deploy_order(o)),
    ensures
        b - a >= 20,
{
    lemma_scan_after_deploy(s, ws, a, b);
    lemma_run_step(s, ws, b);
    lemma_tick_countdowns(run_bot(s, ws.take(b)).0, ws[b]);
}

#[verifier::rlimit(40)]
proof fn lemma_feedback_after_production(s: BotState, ws: Seq<WorldView>, a: int, j: int)
    requires
        0 <= a < j <= ws.len(),
        has_order(run_bot(s, ws).1[a], |o: OrderValue| is_unit_production_order(o)),
    ensures
        run_bot(s, ws.take(j)).0.unit_feedback_ticks >= 30 - (j - a - 1),
    decreases j - a,
{
    if j == a + 1 {
        lemma_run_step(s, ws, a);
        lemma_tick_countdowns(run_bot(s, ws.take(a)).0, ws[a]);
    } else {
        lemma_feedback_after_production(s, ws, a, j - 1);
        lemma_run_step(s, ws, j - 1);
        lemma_tick_countdowns(run_bot(s, ws.take(j - 1)).0, ws[j - 1]);
    }
}

/// The unit builder queues a unit only on a tick where the player has at least 500
/// credits, and at most once every 30 ticks.
#[verifier::rlimit(40)]
pub proof fn lemma_unit_production_spaced(s: BotState, ws: Seq<WorldView>, a: int, b: int)
    requires
        0 <= a < b < ws.len(),
        has_order(run_bot(s, ws).1[a], |o: OrderValue| is_unit_production_order(o)),
    ensures
        spec_player_cash(ws[a], s.player_id) >= 500,
        has_order(run_bot(s, ws).1[b], |o: OrderValue| is_unit_production_order(o)) ==> b - a >= 30,
{
    lemma_run_step(s, ws, a);
    lemma_run_player(s, ws, a);
    lemma_tick_countdowns(run_bot(s, ws.take(a)).0, ws[a]);
    lemma_feedback_after_production(s, ws, a, b);
    lemma_run_step(s, ws, b);
    lemma_tick_countdowns(run_bot(s, ws.take(b)).0, ws[b]);
}

proof fn lemma_alive_units_are_alive(w: WorldView, ids: Seq<u32>)
    ensures
        forall|x: u32| alive_units(w, ids).contains(x) ==> spec_actor_kind(w, x) is Some,
    decreases ids.len(),
{
    if ids.len() > 0 {
        lemma_alive_units_are_alive(w, ids.drop_last());
        let r = alive_units(w, ids.drop_last());
        assert forall|x: u32| alive_units(w, ids).contains(x) implies spec_actor_kind(w, x) is Some by {
            if spec_actor_kind(w, ids.last()) is Some {
                assert(alive_units(w, ids) == r.push(ids.last()));
                let i = choose|i: int| 0 <= i < r.push(ids.last()).len() && r.push(ids.last())[i] == x;
                if i < r.len() {
                    assert(r[i] == x);
                    assert(r.contains(x));
                } else {
                    assert(x == ids.last());
                }
            } else {
                assert(alive_units(w, ids) == r);
            }
        }
    }
}

proof fn lemma_gathered_are_alive(w: WorldView, ids: Seq<u32>, waiting: Seq<u32>, squad: Seq<u32>)
    requires
        forall|x: u32| waiting.contains(x) ==> spec_actor_kind(w, x) is Some,
    ensures
        forall|x: u32| gather_units(w, ids, waiting, squad).contains(x) ==> spec_actor_kind(w, x) is Some,
    decreases ids.len(),
{
    if ids.len() > 0 {
        let id = ids[0];
        if !waiting.contains(id) && !squad.contains(id) && is_fighting_unit(w, id) {
            let next = waiting.push(id);
            assert(spec_actor_kind(w, id) is Some);
            assert forall|x: u32| next.contains(x) implies spec_actor_kind(w, x) is Some by {
                let i = choose|i: int| 0 <= i < next.len() && next[i] == x;
                if i < waiting.len() {
                    assert(waiting[i] == x);
                    assert(waiting.contains(x));
                } else {
                    assert(x == id);
                }
            }
            lemma_gathered_are_alive(w, ids.drop_first(), next, squad);
            assert(gather_units(w, ids, waiting, squad) == gather_units(w, ids.drop_first(), next, squad));
        } else {
            lemma_gathered_are_alive(w, ids.drop_first(), waiting, squad);
            assert(gather_units(w, ids, waiting, squad) == gather_units(w, ids.drop_first(), waiting, squad));
        }
    }
}

proof fn lemma_concat_contains(a: Seq<u32>, b: Seq<u32>, x: u32)
    ensures
        (a + b).contains(x) ==> a.contains(x) || b.contains(x),
{
    if (a + b).contains(x) {
        let i = choose|i: int| 0 <= i < (a + b).len() && (a + b)[i] == x;
        if i < a.len() {
            assert(a[i] == x);
        } else {
            assert(b[i - a.len()] == x);
        }
    }
}

/// After a tick, every unit the squad manager lists, waiting or in the squad, is alive
/// in the world of that tick.
pub proof fn lemma_tick_keeps_units_alive(s: BotState, w: WorldView)
    ensures
        forall|x: u32|
            #![trigger spec_tick(s, w).0.waiting_units.contains(x)]
            #![trigger spec_tick(s, w).0.squad_units.contains(x)]
            spec_tick(s, w).0.waiting_units.contains(x) || spec_tick(s, w).0.squad_units.contains(x)
                ==> spec_actor_kind(w, x) is Some,
{
    let s1 = BotState {
        ticks: (s.ticks + 1) as u32,
        pending_buildings: s.pending_buildings + spec_completed_buildings(w, s.player_id),
        ..s
    };
    let s2 = mcv_step(s1, w).0;
    let s3 = base_step(s2, w).0;
    let s4 = unit_step(s3, w).0;
    let squad = alive_units(w, s4.squad_units);
    let waiting = alive_units(w, s4.waiting_units);
    lemma_alive_units_are_alive(w, s4.squad_units);
    lemma_alive_units_are_alive(w, s4.waiting_units);
    lemma_gathered_are_alive(w, owned_ids(w.actors@, s4.player_id), waiting, squad);
    let s5 = spec_tick(s, w).0;
    assert forall|x: u32| s5.waiting_units.contains(x) || s5.squad_units.contains(x) implies spec_actor_kind(
        w,
        x,
    ) is Some by {
        let waiting2 = if s4.assign_roles_ticks - 1 <= 0 {
            gather_units(w, owned_ids(w.actors@, s4.player_id), waiting, squad)
        } else {
            waiting
        };
        lemma_concat_contains(squad, waiting2, x);
        lemma_concat_contains(waiting2, squad, x);
        lemma_concat_contains(squad + waiting2, Seq::empty(), x);
        lemma_concat_contains(Seq::empty(), squad + waiting2, x);
        lemma_concat_contains(Seq::empty(), squad, x);
        lemma_concat_contains(waiting2, Seq::empty(), x);
        lemma_concat_contains(waiting2, squad, x);
    }
}


/// Over any run of ticks, a bot that starts with no unit listed twice (a new bot lists
/// none) keeps each unit at most once among the waiting units and the squad, and after
/// the last tick every listed unit is alive in that tick's world.
pub proof fn lemma_run_keeps_units_distinct_and_alive(s: BotState, ws: Seq<WorldView>)
    requires
        units_distinct(s),
    ensures
        units_distinct(run_bot(s, ws).0),
        ws.len() > 0 ==> forall|x: u32|
            #![trigger run_bot(s, ws).0.waiting_units.contains(x)]
            #![trigger run_bot(s, ws).0.squad_units.contains(x)]
            run_bot(s, ws).0.waiting_units.contains(x) || run_bot(s, ws).0.squad_units.contains(x)
                ==> spec_actor_kind(ws.last(), x) is Some,
    decreases ws.len(),
{
    if ws.len() > 0 {
        lemma_run_keeps_units_distinct_and_alive(s, ws.drop_last());
        let before = run_bot(s, ws.drop_last()).0;
        lemma_tick_keeps_units_distinct(before, ws.last());
        lemma_tick_keeps_units_alive(before, ws.last());
    }
}

/// A new bot lists no unit twice.
pub proof fn lemma_new_bot_units_distinct(p: u32)
    ensures
        units_distinct(spec_new_bot(p)),
{
}


/// The unit types and the power plant, refinery, barracks and war factory wait for no
/// building delay.
proof fn lemma_undelayed_names()
    ensures
        building_delay("powr"@) == 0,
        building_delay("proc"@) == 0,
        building_delay("tent"@) == 0,
        building_delay("weap"@) == 0,
        forall|t: Seq<char>| is_unit_type(t) ==> building_delay(t) == 0,
{
    reveal_strlit("dome");
    reveal_strlit("fix");
    reveal_strlit("pbox");
    reveal_strlit("gun");
    reveal_strlit("ftur");
    reveal_strlit("tsla");
    reveal_strlit("kenn");
    reveal_strlit("spen");
    reveal_strlit("syrd");
    reveal_strlit("atek");
    reveal_strlit("stek");
    reveal_strlit("e1");
    reveal_strlit("e2");
    reveal_strlit("e3");
    reveal_strlit("e4");
    reveal_strlit("e7");
    reveal_strlit("dog");
    reveal_strlit("shok");
    reveal_strlit("harv");
    reveal_strlit("apc");
    reveal_strlit("jeep");
    reveal_strlit("arty");
    reveal_strlit("v2rl");
    reveal_strlit("1tnk");
    reveal_strlit("2tnk");
    reveal_strlit("3tnk");
    reveal_strlit("4tnk");
    reveal_strlit("ttnk");
    reveal_strlit("powr");
    reveal_strlit("proc");
    reveal_strlit("tent");
    reveal_strlit("weap");
    assert("dome"@.len() == 4 && "dome"@[0] == 'd' && "dome"@[1] == 'o' && "dome"@[2] == 'm' && "dome"@[3] == 'e');
    assert("fix"@.len() == 3 && "fix"@[0] == 'f' && "fix"@[1] == 'i' && "fix"@[2] == 'x');
    assert("pbox"@.len() == 4 && "pbox"@[0] == 'p' && "pbox"@[1] == 'b' && "pbox"@[2] == 'o' && "pbox"@[3] == 'x');
    assert("gun"@.len() == 3 && "gun"@[0] == 'g' && "gun"@[1] == 'u' && "gun"@[2] == 'n');
    assert("ftur"@.len() == 4 && "ftur"@[0] == 'f' && "ftur"@[1] == 't' && "ftur"@[2] == 'u' && "ftur"@[3] == 'r');
    assert("tsla"@.len() == 4 && "tsla"@[0] == 't' && "tsla"@[1] == 's' && "tsla"@[2] == 'l' && "tsla"@[3] == 'a');
    assert("kenn"@.len() == 4 && "kenn"@[0] == 'k' && "kenn"@[1] == 'e' && "kenn"@[2] == 'n' && "kenn"@[3] == 'n');
    assert("spen"@.len() == 4 && "spen"@[0] == 's' && "spen"@[1] == 'p' && "spen"@[2] == 'e' && "spen"@[3] == 'n');
    assert("syrd"@.len() == 4 && "syrd"@[0] == 's' && "syrd"@[1] == 'y' && "syrd"@[2] == 'r' && "syrd"@[3] == 'd');
    assert("atek"@.len() == 4 && "atek"@[0] == 'a' && "atek"@[1] == 't' && "atek"@[2] == 'e' && "atek"@[3] == 'k');
    assert("stek"@.len() == 4 && "stek"@[0] == 's' && "stek"@[1] == 't' && "stek"@[2] == 'e' && "stek"@[3] == 'k');
    assert("e1"@.len() == 2 && "e1"@[0] == 'e' && "e1"@[1] == '1');
    assert("e2"@.len() == 2 && "e2"@[0] == 'e' && "e2"@[1] == '2');
    assert("e3"@.len() == 2 && "e3"@[0] == 'e' && "e3"@[1] == '3');
    assert("e4"@.len() == 2 && "e4"@[0] == 'e' && "e4"@[1] == '4');
    assert("e7"@.len() == 2 && "e7"@[0] == 'e' && "e7"@[1] == '7');
    assert("dog"@.len() == 3 && "dog"@[0] == 'd' && "dog"@[1] == 'o' && "dog"@[2] == 'g');
    assert("shok"@.len() == 4 && "shok"@[0] == 's' && "shok"@[1] == 'h' && "shok"@[2] == 'o' && "shok"@[3] == 'k');
    assert("harv"@.len() == 4 && "harv"@[0] == 'h' && "harv"@[1] == 'a' && "harv"@[2] == 'r' && "harv"@[3] == 'v');
    assert("apc"@.len() == 3 && "apc"@[0] == 'a' && "apc"@[1] == 'p' && "apc"@[2] == 'c');
    assert("jeep"@.len() == 4 && "jeep"@[0] == 'j' && "jeep"@[1] == 'e' && "jeep"@[2] == 'e' && "jeep"@[3] == 'p');
    assert("arty"@.len() == 4 && "arty"@[0] == 'a' && "arty"@[1] == 'r' && "arty"@[2] == 't' && "arty"@[3] == 'y');
    assert("v2rl"@.len() == 4 && "v2rl"@[0] == 'v' && "v2rl"@[1] == '2' && "v2rl"@[2] == 'r' && "v2rl"@[3] == 'l');
    assert("1tnk"@.len() == 4 && "1tnk"@[0] == '1' && "1tnk"@[1] == 't' && "1tnk"@[2] == 'n' && "1tnk"@[3] == 'k');
    assert("2tnk"@.len() == 4 && "2tnk"@[0] == '2' && "2tnk"@[1] == 't' && "2tnk"@[2] == 'n' && "2tnk"@[3] == 'k');
    assert("3tnk"@.len() == 4 && "3tnk"@[0] == '3' && "3tnk"@[1] == 't' && "3tnk"@[2] == 'n' && "3tnk"@[3] == 'k');
    assert("4tnk"@.len() == 4 && "4tnk"@[0] == '4' && "4tnk"@[1] == 't' && "4tnk"@[2] == 'n' && "4tnk"@[3] == 'k');
    assert("ttnk"@.len() == 4 && "ttnk"@[0] == 't' && "ttnk"@[1] == 't' && "ttnk"@[2] == 'n' && "ttnk"@[3] == 'k');
    assert("powr"@.len() == 4 && "powr"@[0] == 'p' && "powr"@[1] == 'o' && "powr"@[2] == 'w' && "powr"@[3] == 'r');
    assert("proc"@.len() == 4 && "proc"@[0] == 'p' && "proc"@[1] == 'r' && "proc"@[2] == 'o' && "proc"@[3] == 'c');
    assert("tent"@.len() == 4 && "tent"@[0] == 't' && "tent"@[1] == 'e' && "tent"@[2] == 'n' && "tent"@[3] == 't');
    assert("weap"@.len() == 4 && "weap"@[0] == 'w' && "weap"@[1] == 'e' && "weap"@[2] == 'a' && "weap"@[3] == 'p');
    assert(building_delay("e1"@) == 0);
    assert(building_delay("e2"@) == 0);
    assert(building_delay("e3"@) == 0);
    assert(building_delay("e4"@) == 0);
    assert(building_delay("e7"@) == 0);
    assert(building_delay("dog"@) == 0);
    assert(building_delay("shok"@) == 0);
    assert(building_delay("harv"@) == 0);
    assert(building_delay("apc"@) == 0);
    assert(building_delay("jeep"@) == 0);
    assert(building_delay("arty"@) == 0);
    assert(building_delay("v2rl"@) == 0);
    assert(building_delay("1tnk"@) == 0);
    assert(building_delay("2tnk"@) == 0);
    assert(building_delay("3tnk"@) == 0);
    assert(building_delay("4tnk"@) == 0);
    assert(building_delay("ttnk"@) == 0);
    assert(building_delay("powr"@) == 0);
    assert(building_delay("proc"@) == 0);
    assert(building_delay("tent"@) == 0);
    assert(building_delay("weap"@) == 0);
}

/// A start-production order for a type whose building delay is past `limit`.
pub open spec fn is_early_production_order(o: OrderValue, limit: int) -> bool {
    o.0 == "StartProduction"@ && (o.2 matches Some(t) && building_delay(t) > limit)
}

/// With a construction yard, at a production check (the building countdown at 1 or
/// less), with nothing in production, a base that has no power to spare (a deficit, or
/// no power at all and no power plant), and at least 300 credits, the tick orders a
/// power plant: StartProduction of "powr" for the bot's player.
pub proof fn lemma_power_plant_when_short(s: BotState, w: WorldView)
    requires
        spec_has_building(w, s.player_id, "fact"@),
        s.building_wait_ticks <= 1,
        !spec_building_in_production(w, s.player_id),
        spec_player_power(w, s.player_id).0 - spec_player_power(w, s.player_id).1 < 0 || (spec_player_power(
            w,
            s.player_id,
        ).0 == 0 && !spec_has_building(w, s.player_id, "powr"@)),
        spec_player_cash(w, s.player_id) >= 300,
    ensures
        spec_tick(s, w).1.contains(("StartProduction"@, Some(s.player_id), Some("powr"@), None::<u32>)),
{
    let s1 = BotState {
        ticks: (s.ticks + 1) as u32,
        pending_buildings: s.pending_buildings + spec_completed_buildings(w, s.player_id),
        ..s
    };
    let (s2, o2) = mcv_step(s1, w);
    let (s3, o3) = base_step(s2, w);
    let (s4, o4) = unit_step(s3, w);
    let (s5, o5) = squad_step(s4, w);
    let (sp, op) = if s2.pending_buildings.len() > 0 { place_step(s2, w) } else { (s2, Seq::<OrderValue>::empty()) };
    let order = ("StartProduction"@, Some(s.player_id), Some("powr"@), None::<u32>);
    assert(o3 == op.push(order));
    let o = spec_tick(s, w).1;
    assert(o == o2 + o3 + o4 + o5);
    let i: int = o2.len() + op.len() as int;
    assert(o[i] == order);
}

proof fn lemma_tick_no_early_production(s: BotState, w: WorldView)
    requires
        s.ticks < i32::MAX,
    ensures
        !has_order(spec_tick(s, w).1, |o: OrderValue| is_early_production_order(o, s.ticks + 1)),
{
    let lim = s.ticks + 1;
    let early = |o: OrderValue| is_early_production_order(o, lim);
    lemma_order_names_distinct();
    lemma_unit_and_building_names();
    lemma_undelayed_names();
    let s1 = BotState {
        ticks: (s.ticks + 1) as u32,
        pending_buildings: s.pending_buildings + spec_completed_buildings(w, s.player_id),
        ..s
    };
    let (s2, o2) = mcv_step(s1, w);
    let (s3, o3) = base_step(s2, w);
    let (s4, o4) = unit_step(s3, w);
    let (s5, o5) = squad_step(s4, w);
    let p = s.player_id;
    let (sp, op) = if s2.pending_buildings.len() > 0 { place_step(s2, w) } else { (s2, Seq::<OrderValue>::empty()) };
    match base_location(w, p) {
        Some(base) => {
            lemma_place_all_orders(w, p, s2.pending_buildings, s2.place_offset, base.0, base.1);
        },
        None => {},
    }
    assert(forall|k: int| 0 <= k < op.len() ==> (#[trigger] op[k]).0 == "PlaceBuilding"@);
    assert(sp.ticks == lim);
    let owned = building_types(w.actors@, p);
    let cash = spec_player_cash(w, p);
    lemma_best_building_is_candidate(p, sp.ticks, w, cash, owned, 20);
    assert forall|k: int| 0 <= k < o3.len() implies !early(#[trigger] o3[k]) by {
        if k < op.len() {
            assert(o3[k] == op[k]);
        }
    }
    let ids = owned_ids(w.actors@, p);
    lemma_best_unit_is_candidate(p, w, ids, total_unit_count(w, ids, 17), 17);
    assert forall|k: int| 0 <= k < o4.len() implies !early(#[trigger] o4[k]) by {
    }
    assert forall|k: int| 0 <= k < o5.len() implies !early(#[trigger] o5[k]) by {
        lemma_squad_orders_kind(s4, w);
    }
    assert forall|k: int| 0 <= k < o2.len() implies !early(#[trigger] o2[k]) by {
    }
    lemma_has_order_concat(o2 + o3 + o4, o5, early);
    lemma_has_order_concat(o2 + o3, o4, early);
    lemma_has_order_concat(o2, o3, early);
}

proof fn lemma_run_ticks(s: BotState, ws: Seq<WorldView>)
    requires
        s.ticks + ws.len() <= u32::MAX,
    ensures
        run_bot(s, ws).0.ticks == s.ticks + ws.len(),
    decreases ws.len(),
{
    if ws.len() > 0 {
        lemma_run_ticks(s, ws.drop_last());
    }
}

/// A new bot counts its ticks from 0: after `n` ticks its count is `n`. Hence on tick `j`
/// (counting from 0) it never starts producing a type whose building delay is past
/// `j + 1`; during its first `d` ticks it queues no building type with delay `d`.
pub proof fn lemma_new_bot_respects_delays(p: u32, ws: Seq<WorldView>, j: int)
    requires
        ws.len() < i32::MAX,
    ensures
        run_bot(spec_new_bot(p), ws).0.ticks == ws.len(),
        0 <= j < ws.len() ==> !has_order(
            run_bot(spec_new_bot(p), ws).1[j],
            |o: OrderValue| is_early_production_order(o, j + 1),
        ),
{
    let s = spec_new_bot(p);
    lemma_run_ticks(s, ws);
    if 0 <= j < ws.len() {
        assert(ws.take(j).len() == j);
        lemma_run_ticks(s, ws.take(j));
        lemma_run_step(s, ws, j);
        lemma_tick_no_early_production(run_bot(s, ws.take(j)).0, ws[j]);
    }
}


/// Whether every order of `q` satisfies `f`.
pub open spec fn all_orders(q: Seq<OrderValue>, f: spec_fn(OrderValue) -> bool) -> bool {
    forall|k: int| 0 <= k < q.len() ==> f(#[trigger] q[k])
}

proof fn lemma_all_orders_concat(a: Seq<OrderValue>, b: Seq<OrderValue>, f: spec_fn(OrderValue) -> bool)
    requires
        all_orders(a, f),
        all_orders(b, f),
    ensures
        all_orders(a + b, f),
{
    assert forall|k: int| 0 <= k < (a + b).len() implies f(#[trigger] (a + b)[k]) by {
        if k < a.len() {
            assert((a + b)[k] == a[k]);
        } else {
            assert((a + b)[k] == b[k - a.len()]);
        }
    }
}

proof fn lemma_first_mcv(w: WorldView, ids: Seq<u32>)
    ensures
        first_mcv(w, ids) matches Some(id) ==> ids.contains(id) && spec_actor_kind(w, id) == Some(ActorKind::Mcv),
    decreases ids.len(),
{
    if ids.len() > 0 && spec_actor_kind(w, ids[0]) != Some(ActorKind::Mcv) {
        lemma_first_mcv(w, ids.drop_first());
        if let Some(id) = first_mcv(w, ids.drop_first()) {
            let i = choose|i: int| 0 <= i < ids.drop_first().len() && ids.drop_first()[i] == id;
            assert(ids[i + 1] == id);
        }
    } else if ids.len() > 0 {
        assert(ids[0] == ids[0]);
    }
}

/// An order the bot may issue for player `p` on world `w`, `after` being the bot's state
/// once the tick is done. Every order has a subject and no extra data, and is one of:
/// - DeployTransform of an MCV the player owns;
/// - PlaceBuilding for the player, with a target;
/// - StartProduction for the player of a unit type, only with 500 credits, no unit in
///   production and the building that produces it; or of another type, only with a
///   construction yard, nothing in production, and the credits for it (300 for a
///   power plant bought because power is short);
/// - AttackMove of an idle unit of the squad, while an enemy is known.
pub open spec fn is_allowed_order(o: OrderValue, p: u32, w: WorldView, after: BotState) -> bool {
    &&& o.3 is None
    &&& o.1 is Some
    &&& {
        ||| o.0 == "DeployTransform"@ && o.2 is None && owned_ids(w.actors@, p).contains(o.1->Some_0)
            && spec_actor_kind(w, o.1->Some_0) == Some(ActorKind::Mcv)
        ||| o.0 == "PlaceBuilding"@ && o.1 == Some(p) && o.2 is Some
        ||| o.0 == "StartProduction"@ && o.1 == Some(p) && o.2 is Some && (if is_unit_type(o.2->Some_0) {
            &&& spec_player_cash(w, p) >= 500
            &&& !spec_unit_in_production(w, p)
            &&& can_produce_unit(w, p, o.2->Some_0)
        } else {
            &&& spec_has_building(w, p, "fact"@)
            &&& !spec_building_in_production(w, p)
            &&& spec_player_cash(w, p) >= cost_of(w.building_costs@, o.2->Some_0) || (o.2->Some_0 == "powr"@
                && spec_player_cash(w, p) >= 300)
        })
        ||| o.0 == "AttackMove"@ && o.2 is Some && spec_enemy_location(w, p) is Some && spec_is_actor_idle(
            w,
            o.1->Some_0,
        ) && after.squad_units.contains(o.1->Some_0)
    }
}

/// Every order of a tick is one the bot may issue (see `is_allowed_order`): it deploys
/// the player's own MCV, places or produces for the player under the conditions of
/// each builder, or sends an idle squad unit against a known enemy.
pub proof fn lemma_tick_orders_allowed(s: BotState, w: WorldView)
    ensures
        all_orders(spec_tick(s, w).1, |o: OrderValue| is_allowed_order(o, s.player_id, w, spec_tick(s, w).0)),
{
    let p = s.player_id;
    let after = spec_tick(s, w).0;
    let ok = |o: OrderValue| is_allowed_order(o, p, w, after);
    lemma_unit_and_building_names();
    let s1 = BotState {
        ticks: (s.ticks + 1) as u32,
        pending_buildings: s.pending_buildings + spec_completed_buildings(w, s.player_id),
        ..s
    };
    let (s2, o2) = mcv_step(s1, w);
    let (s3, o3) = base_step(s2, w);
    let (s4, o4) = unit_step(s3, w);
    let (s5, o5) = squad_step(s4, w);
    assert(after == s5);
    // MCV manager.
    lemma_first_mcv(w, owned_ids(w.actors@, p));
    assert forall|k: int| 0 <= k < o2.len() implies ok(#[trigger] o2[k]) by {
    }
    // Base builder.
    let (sp, op) = if s2.pending_buildings.len() > 0 { place_step(s2, w) } else { (s2, Seq::<OrderValue>::empty()) };
    match base_location(w, p) {
        Some(base) => {
            lemma_place_all_orders(w, p, s2.pending_buildings, s2.place_offset, base.0, base.1);
        },
        None => {},
    }
    let cash = spec_player_cash(w, p);
    lemma_chosen_building_listed(p, sp.ticks, w, cash);
    lemma_chosen_building_is_allowed(p, sp.ticks, w, cash);
    assert(building_fractions()[0].0 == "powr"@);
    assert forall|k: int| 0 <= k < o3.len() implies ok(#[trigger] o3[k]) by {
        if k < op.len() {
            assert(o3[k] == op[k]);
        }
    }
    // Unit builder.
    let ids = owned_ids(w.actors@, p);
    lemma_best_unit_is_candidate(p, w, ids, total_unit_count(w, ids, 17), 17);
    lemma_chosen_unit_is_allowed(p, w);
    assert forall|k: int| 0 <= k < o4.len() implies ok(#[trigger] o4[k]) by {
    }
    // Squad manager.
    assert forall|k: int| 0 <= k < o5.len() implies ok(#[trigger] o5[k]) by {
        let sq = s5;
        match sq.squad_target {
            Some(t) => {
                lemma_attack_orders_kind(w, sq.squad_units, t.0, t.1);
                assert(attack_shape(o5[k], w, sq.squad_units));
            },
            None => {},
        }
    }
    assert(all_orders(o2, ok));
    assert(all_orders(o3, ok));
    assert(all_orders(o4, ok));
    assert(all_orders(o5, ok));
    lemma_all_orders_concat(o2, o3, ok);
    lemma_all_orders_concat(o2 + o3, o4, ok);
    lemma_all_orders_concat(o2 + o3 + o4, o5, ok);
}


/// A new bot controls its player, has counted no tick, has nothing pending, listed or
/// targeted, and starts its countdowns at random points within their periods: the MCV
/// scan in 0..20, role assignment in 0..50, the attack force check in 0..75, the rush
/// check in 0..600, the building check in 0..125 and the unit check in 0..30.
pub proof fn lemma_new_bot_state(p: u32)
    ensures
        ({
            let b = spec_new_bot(p);
            &&& b.player_id == p
            &&& b.ticks == 0
            &&& !b.mcv_deployed
            &&& b.pending_buildings.len() == 0
            &&& b.place_offset == 0
            &&& b.waiting_units.len() == 0
            &&& b.squad_units.len() == 0
            &&& b.squad_target is None
            &&& 0 <= b.mcv_scan_interval < 20
            &&& 0 <= b.assign_roles_ticks < 50
            &&& 0 <= b.attack_force_ticks < 75
            &&& 0 <= b.rush_ticks < 600
            &&& 0 <= b.building_wait_ticks < 125
            &&& 0 <= b.unit_feedback_ticks < 30
        }),
{
    let (r1, a) = spec_next_range(seeded(42), 0, 20);
    let (r2, b) = spec_next_range(r1, 0, 50);
    let (r3, c) = spec_next_range(r2, 0, 75);
    let (r4, d) = spec_next_range(r3, 0, 600);
    let (r5, e) = spec_next_range(r4, 0, 125);
    lemma_draw_bounds(seeded(42), 0, 20);
    lemma_draw_bounds(r1, 0, 50);
    lemma_draw_bounds(r2, 0, 75);
    lemma_draw_bounds(r3, 0, 600);
    lemma_draw_bounds(r4, 0, 125);
    lemma_draw_bounds(r5, 0, 30);
}

} // verus!
