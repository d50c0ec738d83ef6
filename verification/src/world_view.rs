//! What the bot reads of the world: the actors with their owners, kinds, types,
//! cells and activity; each player's economy and production; the build costs; and
//! which cells can take a building. The queries the bot makes are answered here.

use vstd::prelude::*;
use crate::strs::str_eq;

verus! {

/// The kind of an actor, as far as the bot tells actors apart.
#[derive(Clone, Copy, Debug, PartialEq, Eq, Structural)]
pub enum ActorKind {
    Mcv,
    Infantry,
    Vehicle,
    Aircraft,
    Building,
    Other,
}

/// An order sent to the simulation.
#[derive(Debug)]
pub struct GameOrder {
    pub order_string: String,
    pub subject_id: Option<u32>,
    pub target_string: Option<String>,
    pub extra_data: Option<u32>,
}

/// An order as a value: order name, subject, target text, extra data.
pub type OrderValue = (Seq<char>, Option<u32>, Option<Seq<char>>, Option<u32>);

impl View for GameOrder {
    type V = OrderValue;

    open spec fn view(&self) -> OrderValue {
        (
            self.order_string@,
            self.subject_id,
            match self.target_string {
                Some(t) => Some(t@),
                None => None,
            },
            self.extra_data,
        )
    }
}

/// A live actor.
#[derive(Debug)]
pub struct ActorInfo {
    pub id: u32,
    /// The player actor ID of the owner.
    pub owner: u32,
    pub kind: ActorKind,
    /// The actor's type name, such as "fact" or "e1".
    pub actor_type: String,
    /// The actor's (top-left) cell.
    pub location: (i32, i32),
    /// Whether the actor has no activity.
    pub idle: bool,
}

/// A player's state.
#[derive(Debug)]
pub struct PlayerInfo {
    /// The player actor ID.
    pub id: u32,
    pub cash: i32,
    pub power_provided: i32,
    pub power_drained: i32,
    /// Whether a building is queued or being produced.
    pub building_in_production: bool,
    /// Whether a unit is queued or being produced.
    pub unit_in_production: bool,
    /// Buildings whose production finished and that wait to be placed.
    pub completed_buildings: Vec<String>,
    /// Where this player's enemy is found, if anywhere.
    pub enemy_location: Option<(i32, i32)>,
}

/// The world as the bot sees it.
#[derive(Debug)]
pub struct WorldView {
    /// Live actors in actor ID order.
    pub actors: Vec<ActorInfo>,
    pub players: Vec<PlayerInfo>,
    /// Cost of each building type.
    pub building_costs: Vec<(String, i32)>,
    /// Cost of each unit type.
    pub unit_costs: Vec<(String, i32)>,
    pub map_width: i32,
    pub map_height: i32,
    /// Row by row, whether each cell can take a building.
    pub buildable: Vec<bool>,
}

// ---------------------------------------------------------------------------
// Queries as values
// ---------------------------------------------------------------------------

/// IDs of the actors owned by `p`, in actor order.
pub open spec fn owned_ids(actors: Seq<ActorInfo>, p: u32) -> Seq<u32>
    decreases actors.len(),
{
    if actors.len() == 0 {
        Seq::empty()
    } else {
        let r = owned_ids(actors.drop_last(), p);
        if actors.last().owner == p {
            r.push(actors.last().id)
        } else {
            r
        }
    }
}

/// Type names of the buildings owned by `p`, in actor order.
pub open spec fn building_types(actors: Seq<ActorInfo>, p: u32) -> Seq<Seq<char>>
    decreases actors.len(),
{
    if actors.len() == 0 {
        Seq::empty()
    } else {
        let r = building_types(actors.drop_last(), p);
        let a = actors.last();
        if a.owner == p && a.kind == ActorKind::Building {
            r.push(a.actor_type@)
        } else {
            r
        }
    }
}

/// The first actor with ID `id`.
pub open spec fn find_actor(actors: Seq<ActorInfo>, id: u32) -> Option<ActorInfo>
    decreases actors.len(),
{
    if actors.len() == 0 {
        None
    } else if actors[0].id == id {
        Some(actors[0])
    } else {
        find_actor(actors.drop_first(), id)
    }
}

/// The cell of the first building of type `t` owned by `p`.
pub open spec fn find_building(actors: Seq<ActorInfo>, p: u32, t: Seq<char>) -> Option<(i32, i32)>
    decreases actors.len(),
{
    if actors.len() == 0 {
        None
    } else if actors[0].owner == p && actors[0].kind == ActorKind::Building && actors[0].actor_type@ == t {
        Some(actors[0].location)
    } else {
        find_building(actors.drop_first(), p, t)
    }
}

/// The first player with player actor ID `id`.
pub open spec fn find_player(players: Seq<PlayerInfo>, id: u32) -> Option<PlayerInfo>
    decreases players.len(),
{
    if players.len() == 0 {
        None
    } else if players[0].id == id {
        Some(players[0])
    } else {
        find_player(players.drop_first(), id)
    }
}

/// The cost listed first for type `t`, 0 when none is listed.
pub open spec fn cost_of(costs: Seq<(String, i32)>, t: Seq<char>) -> i32
    decreases costs.len(),
{
    if costs.len() == 0 {
        0
    } else if costs[0].0@ == t {
        costs[0].1
    } else {
        cost_of(costs.drop_first(), t)
    }
}

/// The kind of the actor with ID `id`, if it is alive.
pub open spec fn spec_actor_kind(w: WorldView, id: u32) -> Option<ActorKind> {
    match find_actor(w.actors@, id) {
        Some(a) => Some(a.kind),
        None => None,
    }
}

/// The type name of the actor with ID `id`, if it is alive.
pub open spec fn spec_actor_type(w: WorldView, id: u32) -> Option<Seq<char>> {
    match find_actor(w.actors@, id) {
        Some(a) => Some(a.actor_type@),
        None => None,
    }
}

/// Whether the actor with ID `id` is alive and idle.
pub open spec fn spec_is_actor_idle(w: WorldView, id: u32) -> bool {
    match find_actor(w.actors@, id) {
        Some(a) => a.idle,
        None => false,
    }
}

/// Cash of player `p` (0 for an unknown player).
pub open spec fn spec_player_cash(w: WorldView, p: u32) -> i32 {
    match find_player(w.players@, p) {
        Some(pi) => pi.cash,
        None => 0,
    }
}

/// Power provided and drained for player `p` (none for an unknown player).
pub open spec fn spec_player_power(w: WorldView, p: u32) -> (i32, i32) {
    match find_player(w.players@, p) {
        Some(pi) => (pi.power_provided, pi.power_drained),
        None => (0, 0),
    }
}

/// Whether player `p` has a building in production.
pub open spec fn spec_building_in_production(w: WorldView, p: u32) -> bool {
    match find_player(w.players@, p) {
        Some(pi) => pi.building_in_production,
        None => false,
    }
}

/// Whether player `p` has a unit in production.
pub open spec fn spec_unit_in_production(w: WorldView, p: u32) -> bool {
    match find_player(w.players@, p) {
        Some(pi) => pi.unit_in_production,
        None => false,
    }
}

/// Buildings of player `p` that finished production and wait to be placed.
pub open spec fn spec_completed_buildings(w: WorldView, p: u32) -> Seq<Seq<char>> {
    match find_player(w.players@, p) {
        Some(pi) => pi.completed_buildings@.map_values(|s: String| s@),
        None => Seq::empty(),
    }
}

/// Where player `p`'s enemy is.
pub open spec fn spec_enemy_location(w: WorldView, p: u32) -> Option<(i32, i32)> {
    match find_player(w.players@, p) {
        Some(pi) => pi.enemy_location,
        None => None,
    }
}

/// Whether cell `(x, y)` is on the map and can take a building.
pub open spec fn cell_buildable(w: WorldView, x: int, y: int) -> bool {
    &&& 0 <= x < w.map_width
    &&& 0 <= y < w.map_height
    &&& y * w.map_width + x < w.buildable@.len()
    &&& w.buildable@[y * w.map_width + x]
}

/// Whether a building of `width` by `height` cells fits with its top-left cell at `(x, y)`.
pub open spec fn spec_can_place_building(w: WorldView, x: int, y: int, width: int, height: int) -> bool {
    forall|dx: int, dy: int|
        0 <= dx < width && 0 <= dy < height ==> #[trigger] cell_buildable(w, x + dx, y + dy)
}

// ---------------------------------------------------------------------------
// Queries
// ---------------------------------------------------------------------------

impl WorldView {
    /// IDs of the actors owned by `player`, in actor order.
    pub fn actor_ids_for_player(&self, player: u32) -> (r: Vec<u32>)
        ensures
            r@ == owned_ids(self.actors@, player),
    {
        let mut r: Vec<u32> = Vec::new();
        for k in 0..self.actors.len()
            invariant
                r@ == owned_ids(self.actors@.take(k as int), player),
        {
            proof {
                assert(self.actors@.take(k + 1).drop_last() =~= self.actors@.take(k as int));
            }
            if self.actors[k].owner == player {
                r.push(self.actors[k].id);
            }
        }
        proof {
            assert(self.actors@.take(self.actors@.len() as int) =~= self.actors@);
        }
        r
    }

    /// Type names of the buildings owned by `player`, in actor order.
    pub fn player_building_types(&self, player: u32) -> (r: Vec<String>)
        ensures
            r@.map_values(|s: String| s@) == building_types(self.actors@, player),
    {
        let mut r: Vec<String> = Vec::new();
        proof {
            assert(r@.map_values(|s: String| s@) =~= building_types(self.actors@.take(0), player));
        }
        for k in 0..self.actors.len()
            invariant
                r@.map_values(|s: String| s@) == building_types(self.actors@.take(k as int), player),
        {
            let ghost prev = r@.map_values(|s: String| s@);
            proof {
                assert(self.actors@.take(k + 1).drop_last() =~= self.actors@.take(k as int));
            }
            let a = &self.actors[k];
            if a.owner == player && a.kind == ActorKind::Building {
                let t = a.actor_type.clone();
                r.push(t);
                assert(r@.map_values(|s: String| s@) =~= prev.push(a.actor_type@));
            }
        }
        proof {
            assert(self.actors@.take(self.actors@.len() as int) =~= self.actors@);
        }
        r
    }

    /// Position of the first actor with ID `id`.
    fn actor_index(&self, id: u32) -> (r: Option<usize>)
        ensures
            match find_actor(self.actors@, id) {
                Some(a) => r matches Some(k) && k < self.actors@.len() && self.actors@[k as int] == a,
                None => r is None,
            },
    {
        let n = self.actors.len();
        assert(self.actors@.subrange(0, n as int) =~= self.actors@);
        for k in 0..n
            invariant
                n == self.actors@.len(),
                find_actor(self.actors@, id) == find_actor(self.actors@.subrange(k as int, n as int), id),
        {
            let ghost rest = self.actors@.subrange(k as int, n as int);
            assert(rest[0] == self.actors@[k as int]);
            if self.actors[k].id == id {
                return Some(k);
            }
            assert(rest.drop_first() =~= self.actors@.subrange(k + 1, n as int));
        }
        None
    }

    /// The kind of the actor with ID `id`, if it is alive.
    pub fn actor_kind(&self, id: u32) -> (r: Option<ActorKind>)
        ensures
            r == spec_actor_kind(*self, id),
    {
        match self.actor_index(id) {
            Some(k) => Some(self.actors[k].kind),
            None => None,
        }
    }

    /// The type name of the actor with ID `id`, if it is alive.
    pub fn actor_type(&self, id: u32) -> (r: Option<String>)
        ensures
            match r {
                Some(s) => spec_actor_type(*self, id) == Some(s@),
                None => spec_actor_type(*self, id) is None,
            },
    {
        match self.actor_index(id) {
            Some(k) => Some(self.actors[k].actor_type.clone()),
            None => None,
        }
    }

    /// Whether the actor with ID `id` is alive and has no activity.
    pub fn is_actor_idle(&self, id: u32) -> (r: bool)
        ensures
            r == spec_is_actor_idle(*self, id),
    {
        match self.actor_index(id) {
            Some(k) => self.actors[k].idle,
            None => false,
        }
    }

    /// Position of the first player with player actor ID `id`.
    fn player_index(&self, id: u32) -> (r: Option<usize>)
        ensures
            match find_player(self.players@, id) {
                Some(pi) => r matches Some(k) && k < self.players@.len() && self.players@[k as int] == pi,
                None => r is None,
            },
    {
        let n = self.players.len();
        assert(self.players@.subrange(0, n as int) =~= self.players@);
        for k in 0..n
            invariant
                n == self.players@.len(),
                find_player(self.players@, id) == find_player(self.players@.subrange(k as int, n as int), id),
        {
            let ghost rest = self.players@.subrange(k as int, n as int);
            assert(rest[0] == self.players@[k as int]);
            if self.players[k].id == id {
                return Some(k);
            }
            assert(rest.drop_first() =~= self.players@.subrange(k + 1, n as int));
        }
        None
    }

    /// Cash of `player`.
    pub fn player_cash(&self, player: u32) -> (r: i32)
        ensures
            r == spec_player_cash(*self, player),
    {
        match self.player_index(player) {
            Some(k) => self.players[k].cash,
            None => 0,
        }
    }

    /// Power provided and drained for `player`.
    pub fn player_power(&self, player: u32) -> (r: (i32, i32))
        ensures
            r == spec_player_power(*self, player),
    {
        match self.player_index(player) {
            Some(k) => (self.players[k].power_provided, self.players[k].power_drained),
            None => (0, 0),
        }
    }

    /// Whether `player` has a building in production.
    pub fn has_pending_production(&self, player: u32) -> (r: bool)
        ensures
            r == spec_building_in_production(*self, player),
    {
        match self.player_index(player) {
            Some(k) => self.players[k].building_in_production,
            None => false,
        }
    }

    /// Whether `player` has a unit in production.
    pub fn has_pending_unit_production(&self, player: u32) -> (r: bool)
        ensures
            r == spec_unit_in_production(*self, player),
    {
        match self.player_index(player) {
            Some(k) => self.players[k].unit_in_production,
            None => false,
        }
    }

    /// Buildings of `player` that finished production and wait to be placed.
    pub fn peek_completed_buildings(&self, player: u32) -> (r: Vec<String>)
        ensures
            r@.map_values(|s: String| s@) == spec_completed_buildings(*self, player),
    {
        match self.player_index(player) {
            Some(k) => {
                let src = &self.players[k].completed_buildings;
                let mut r: Vec<String> = Vec::new();
                for j in 0..src.len()
                    invariant
                        r@.len() == j,
                        j <= src@.len(),
                        r@.map_values(|s: String| s@) == src@.map_values(|s: String| s@).take(j as int),
                {
                    let ghost prev = r@;
                    let c = src[j].clone();
                    r.push(c);
                    assert(r@[j as int]@ == src@[j as int]@);
                    assert(r@.map_values(|s: String| s@) =~= src@.map_values(|s: String| s@).take(j + 1));
                }
                assert(src@.map_values(|s: String| s@).take(src@.len() as int) =~= src@.map_values(
                    |s: String| s@,
                ));
                r
            },
            None => {
                let r: Vec<String> = Vec::new();
                assert(r@.map_values(|s: String| s@) =~= Seq::<Seq<char>>::empty());
                r
            },
        }
    }

    /// Where `player`'s enemy is.
    pub fn find_enemy_location(&self, player: u32) -> (r: Option<(i32, i32)>)
        ensures
            r == spec_enemy_location(*self, player),
    {
        match self.player_index(player) {
            Some(k) => self.players[k].enemy_location,
            None => None,
        }
    }

    fn cost_in(costs: &Vec<(String, i32)>, t: &str) -> (r: i32)
        ensures
            r == cost_of(costs@, t@),
    {
        let n = costs.len();
        assert(costs@.subrange(0, n as int) =~= costs@);
        for k in 0..n
            invariant
                n == costs@.len(),
                cost_of(costs@, t@) == cost_of(costs@.subrange(k as int, n as int), t@),
        {
            let ghost rest = costs@.subrange(k as int, n as int);
            assert(rest[0] == costs@[k as int]);
            if str_eq(costs[k].0.as_str(), t) {
                return costs[k].1;
            }
            assert(rest.drop_first() =~= costs@.subrange(k + 1, n as int));
        }
        0
    }

    /// Cost of building type `t` (0 when it is not listed).
    pub fn building_cost(&self, t: &str) -> (r: i32)
        ensures
            r == cost_of(self.building_costs@, t@),
    {
        Self::cost_in(&self.building_costs, t)
    }

    /// Cost of unit type `t` (0 when it is not listed).
    pub fn unit_cost(&self, t: &str) -> (r: i32)
        ensures
            r == cost_of(self.unit_costs@, t@),
    {
        Self::cost_in(&self.unit_costs, t)
    }

    /// The cell of `player`'s first building of type `t`.
    pub fn find_building_location(&self, player: u32, t: &str) -> (r: Option<(i32, i32)>)
        ensures
            r == find_building(self.actors@, player, t@),
    {
        let n = self.actors.len();
        assert(self.actors@.subrange(0, n as int) =~= self.actors@);
        for k in 0..n
            invariant
                n == self.actors@.len(),
                find_building(self.actors@, player, t@) == find_building(
                    self.actors@.subrange(k as int, n as int),
                    player,
                    t@,
                ),
        {
            let ghost rest = self.actors@.subrange(k as int, n as int);
            assert(rest[0] == self.actors@[k as int]);
            let a = &self.actors[k];
            if a.owner == player && a.kind == ActorKind::Building && str_eq(a.actor_type.as_str(), t) {
                return Some(a.location);
            }
            assert(rest.drop_first() =~= self.actors@.subrange(k + 1, n as int));
        }
        None
    }

    fn cell_is_buildable(&self, x: i64, y: i64) -> (r: bool)
        ensures
            r == cell_buildable(*self, x as int, y as int),
    {
        if x < 0 || y < 0 || x >= self.map_width as i64 || y >= self.map_height as i64 {
            return false;
        }
        assert(0 <= y * self.map_width <= 0x7fff_ffff * 0x7fff_ffff) by (nonlinear_arith)
            requires
                0 <= y < 0x8000_0000,
                0 <= self.map_width < 0x8000_0000,
        ;
        let idx = y * (self.map_width as i64) + x;
        if idx as u64 >= self.buildable.len() as u64 {
            return false;
        }
        self.buildable[idx as usize]
    }

    /// Whether a building of `width` by `height` cells fits with its top-left cell at `(x, y)`:
    /// every cell is on the map and buildable.
    pub fn can_place_building(&self, x: i32, y: i32, width: i32, height: i32) -> (r: bool)
        ensures
            r == spec_can_place_building(*self, x as int, y as int, width as int, height as int),
    {
        let mut dy: i32 = 0;
        while dy < height
            invariant
                0 <= dy,
                height < 0 ==> dy == 0,
                dy <= height || height <= 0,
                forall|ex: int, ey: int|
                    0 <= ex < width && 0 <= ey < dy ==> #[trigger] cell_buildable(*self, x + ex, y + ey),
            decreases height - dy,
        {
            let mut dx: i32 = 0;
            while dx < width
                invariant
                    0 <= dy < height,
                    0 <= dx,
                    dx <= width || width <= 0,
                    forall|ex: int, ey: int|
                        0 <= ex < width && 0 <= ey < dy ==> #[trigger] cell_buildable(*self, x + ex, y + ey),
                    forall|ex: int| 0 <= ex < dx ==> #[trigger] cell_buildable(*self, x + ex, y + dy),
                decreases width - dx,
            {
                if !self.cell_is_buildable(x as i64 + dx as i64, y as i64 + dy as i64) {
                    assert(!cell_buildable(*self, x + dx as int, y + dy as int));
                    return false;
                }
                dx += 1;
            }
            assert forall|ex: int, ey: int| 0 <= ex < width && 0 <= ey < dy + 1 implies #[trigger] cell_buildable(
                *self,
                x + ex,
                y + ey,
            ) by {
                if ey == dy {
                    assert(cell_buildable(*self, x + ex, y + dy));
                }
            }
            dy += 1;
        }
        true
    }
}

} // verus!
