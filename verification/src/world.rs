//! The game world at tick 0 (actors, their synced traits and the shared random
//! generator) and its per-tick sync hash, checked against the hashes recorded in replays.

use vstd::prelude::*;
use vstd::wrapping::i32_specs::{signed_crop, wrapping_add, wrapping_sub};
use crate::map::{MapActor, MapActorValue, OraMap};
use crate::math::{CPos, WPos, spec_cpos_bits, spec_wpos_hash};
use crate::rng::{MersenneTwister, RngState, seeded};
use crate::sync::{
    ActorSync, ActorSyncValue, compute_world_sync_hash, count_hashes, effect_terms, hash_cpos,
    exact_sync_hash, hash_wpos, identity_terms, lemma_crop_of_i32, lemma_wrapped_add, lemma_wrapped_sub,
    player_terms, spec_world_sync_hash, trait_terms,
};

verus! {

/// The game world state.
pub struct World {
    /// All actors in creation order (ActorID order): the world actor (ID 0),
    /// the player actors, then the map actors.
    all_actor_ids: Vec<u32>,
    /// Actors with synced traits, in ActorID order.
    sync_actors: Vec<ActorSync>,
    /// Synced effects (projectiles and the like); none at tick 0.
    synced_effects: Vec<i32>,
    /// The shared random generator.
    pub rng: MersenneTwister,
    /// Player actor IDs whose render state is unlocked.
    unlocked_render_player_ids: Vec<u32>,
}

impl World {
    /// IDs of all actors, in creation order.
    pub closed spec fn actor_ids(&self) -> Seq<u32> {
        self.all_actor_ids@
    }

    /// The synced actors with their trait hashes, in ActorID order.
    pub closed spec fn sync_entries(&self) -> Seq<ActorSyncValue> {
        self.sync_actors@.map_values(|a: ActorSync| a@)
    }

    /// The hashes of the synced effects.
    pub closed spec fn effects(&self) -> Seq<i32> {
        self.synced_effects@
    }

    /// Player actor IDs whose render state is unlocked.
    pub closed spec fn unlocked_players(&self) -> Seq<u32> {
        self.unlocked_render_player_ids@
    }

    /// The state of the shared random generator.
    pub closed spec fn rng_state(&self) -> RngState {
        self.rng@
    }

    /// The shared random generator is well formed.
    pub closed spec fn rng_wf(&self) -> bool {
        self.rng.wf()
    }

    /// The shared random generator.
    pub fn rng(&self) -> (r: &MersenneTwister)
        ensures
            r@ == self.rng_state(),
            r.wf() == self.rng_wf(),
    {
        &self.rng
    }

    /// The world's sync hash.
    pub open spec fn spec_sync_hash(&self) -> i32 {
        spec_world_sync_hash(self.actor_ids(), self.sync_entries(), self.effects(), self.rng_state().last, self.unlocked_players())
    }

    /// The three parts of the sync hash: actor identities alone, what the synced
    /// traits add to them, and the last random value.
    pub open spec fn spec_sync_hash_debug(&self) -> (i32, i32, i32) {
        let identity = spec_world_sync_hash(self.actor_ids(), Seq::empty(), Seq::empty(), 0, Seq::empty());
        let full_no_rng = spec_world_sync_hash(self.actor_ids(), self.sync_entries(), Seq::empty(), 0, Seq::empty());
        (identity, wrapping_sub(full_no_rng, identity), self.rng_state().last)
    }

    /// Compute the world's sync hash as the game does.
    pub fn sync_hash(&self) -> (r: i32)
        ensures
            r == self.spec_sync_hash(),
    {
        compute_world_sync_hash(
            self.all_actor_ids.as_slice(),
            self.sync_actors.as_slice(),
            self.synced_effects.as_slice(),
            self.rng.last(),
            self.unlocked_render_player_ids.as_slice(),
        )
    }

    /// Compute the sync hash components separately, for finding where a desync comes from.
    pub fn sync_hash_debug(&self) -> (r: (i32, i32, i32))
        ensures
            r == self.spec_sync_hash_debug(),
    {
        let no_actors: Vec<ActorSync> = Vec::new();
        let no_effects: Vec<i32> = Vec::new();
        let no_players: Vec<u32> = Vec::new();
        assert(no_actors@.map_values(|a: ActorSync| a@) =~= Seq::<ActorSyncValue>::empty());
        let identity = compute_world_sync_hash(
            self.all_actor_ids.as_slice(),
            no_actors.as_slice(),
            no_effects.as_slice(),
            0,
            no_players.as_slice(),
        );
        let full_no_rng = compute_world_sync_hash(
            self.all_actor_ids.as_slice(),
            self.sync_actors.as_slice(),
            no_effects.as_slice(),
            0,
            no_players.as_slice(),
        );
        let traits = full_no_rng.wrapping_sub(identity);
        (identity, traits, self.rng.last())
    }
}

/// The world position at the center of cell `(x, y)`: 1024 * coordinate + 512, with
/// the 32-bit wrapping arithmetic that the simulation uses throughout.
pub open spec fn spec_center_of_cell(x: i32, y: i32) -> WPos {
    WPos { x: signed_crop(1024 * x + 512), y: signed_crop(1024 * y + 512), z: 0 }
}

/// The center coordinate of a cell coordinate, wrapped to 32 bits.
fn center_coord(c: i32) -> (r: i32)
    ensures
        r == signed_crop(1024 * c + 512),
{
    proof {
        lemma_crop_of_i32(1024i32);
        lemma_crop_of_i32(c);
        lemma_crop_of_i32(512i32);
        lemma_wrapped_add(1024 * c, 512);
    }
    1024i32.wrapping_mul(c).wrapping_add(512)
}

/// Convert a cell position to the world position of its center (rectangular grid).
pub fn center_of_cell(x: i32, y: i32) -> (r: WPos)
    ensures
        r == spec_center_of_cell(x, y),
{
    WPos::new(center_coord(x), center_coord(y), 0)
}

/// The synced state of a building: its top-left cell.
pub fn building_sync_hash(top_left: CPos) -> (r: i32)
    ensures
        r == top_left.bits,
{
    hash_cpos(top_left)
}

/// The synced state of an immobile actor: its top-left cell and its center position.
pub fn immobile_sync_hash(top_left: CPos, center_pos: WPos) -> (r: i32)
    ensures
        r == top_left.bits ^ spec_wpos_hash(center_pos),
{
    hash_cpos(top_left) ^ hash_wpos(center_pos)
}

/// The synced state of a health trait: its hit points.
pub fn health_sync_hash(hp: i32) -> (r: i32)
    ensures
        r == hp,
{
    hp
}

/// Trees: type names of three bytes starting with 't', or starting with "tc".
pub open spec fn is_tree_type(b: Seq<u8>) -> bool {
    b.len() >= 1 && b[0] == 116u8 && (b.len() == 3 || (b.len() >= 2 && b[1] == 99u8))
}

/// The type name "mine" (ore mines).
pub open spec fn is_mine_type(b: Seq<u8>) -> bool {
    b == seq![109u8, 105u8, 110u8, 101u8]
}

/// The type name "mpspawn" (multiplayer start points).
pub open spec fn is_spawn_type(b: Seq<u8>) -> bool {
    b == seq![109u8, 112u8, 115u8, 112u8, 97u8, 119u8, 110u8]
}

/// The trait hashes a map actor starts with, or `None` for an actor without synced traits.
/// Trees: body orientation (1), building (top-left cell), health (50000).
/// Mines: body orientation, building. Spawn points: body orientation, immobile
/// (top-left cell and center position).
pub open spec fn map_actor_traits(b: Seq<u8>, x: i32, y: i32) -> Option<Seq<i32>> {
    if is_tree_type(b) {
        Some(seq![1i32, spec_cpos_bits(x, y), 50000i32])
    } else if is_mine_type(b) {
        Some(seq![1i32, spec_cpos_bits(x, y)])
    } else if is_spawn_type(b) {
        Some(seq![1i32, spec_cpos_bits(x, y) ^ spec_wpos_hash(spec_center_of_cell(x, y))])
    } else {
        None
    }
}

/// The synced actors among the map actors, the first map actor having ID `first_id`.
pub open spec fn map_sync_entries(actors: Seq<MapActorValue>, first_id: int) -> Seq<ActorSyncValue>
    decreases actors.len(),
{
    if actors.len() == 0 {
        Seq::empty()
    } else {
        let init = map_sync_entries(actors.drop_last(), first_id);
        let a = actors.last();
        match map_actor_traits(a.0, a.1.0, a.1.1) {
            Some(hs) => init.push(((first_id + actors.len() - 1) as u32, hs)),
            None => init,
        }
    }
}

fn is_tree_bytes(b: &[u8]) -> (r: bool)
    ensures
        r == is_tree_type(b@),
{
    b.len() >= 1 && b[0] == 116u8 && (b.len() == 3 || (b.len() >= 2 && b[1] == 99u8))
}

fn is_mine_bytes(b: &[u8]) -> (r: bool)
    ensures
        r == is_mine_type(b@),
{
    let r = b.len() == 4 && b[0] == 109u8 && b[1] == 105u8 && b[2] == 110u8 && b[3] == 101u8;
    assert(r ==> b@ =~= seq![109u8, 105u8, 110u8, 101u8]);
    r
}

fn is_spawn_bytes(b: &[u8]) -> (r: bool)
    ensures
        r == is_spawn_type(b@),
{
    let r = b.len() == 7 && b[0] == 109u8 && b[1] == 112u8 && b[2] == 115u8 && b[3] == 112u8 && b[4]
        == 97u8 && b[5] == 119u8 && b[6] == 110u8;
    assert(r ==> b@ =~= seq![109u8, 112u8, 115u8, 112u8, 97u8, 119u8, 110u8]);
    r
}

/// `w` is the tick-0 world of a map with `player_count` players and the map actors
/// `actors`, seeded with `seed`: actor IDs 0 to `player_count + actors.len() + 1`,
/// the synced map actors, no effects, no unlocked render players, and a freshly seeded
/// generator.
pub open spec fn is_built_world(w: World, player_count: nat, actors: Seq<MapActorValue>, seed: i32) -> bool {
    &&& w.actor_ids() == Seq::new(player_count + actors.len() + 2, |i: int| i as u32)
    &&& w.sync_entries() == map_sync_entries(actors, player_count + 2int)
    &&& w.effects() == Seq::<i32>::empty()
    &&& w.unlocked_players() == Seq::<u32>::empty()
    &&& w.rng_wf()
    &&& w.rng_state() == seeded(seed)
}

/// Build the initial world (tick 0) from a map and the game seed.
/// Actor IDs: 0 for the world actor, then the player actors (non-playable slots,
/// playable slots, then the "Everyone" spectator), then the map actors in map order.
pub fn build_world(map: &OraMap, random_seed: i32) -> (w: World)
    requires
        map.players@.len() + map.actors@.len() + 2 <= u32::MAX,
    ensures
        is_built_world(w, map.players@.len(), map.actors@.map_values(|a: MapActor| a@), random_seed),
{
    let rng = MersenneTwister::new(random_seed);
    let mut all_actor_ids: Vec<u32> = Vec::new();
    let mut sync_actors: Vec<ActorSync> = Vec::new();
    let mut next_id: u32 = 0;
    let ghost total = map.players@.len() + map.actors@.len() + 2;

    // The world actor.
    all_actor_ids.push(next_id);
    next_id += 1;

    // Player actors: non-playable slots first, then playable ones.
    let mut non_playable: usize = 0;
    for k in 0..map.players.len()
        invariant
            non_playable <= k,
    {
        if !map.players[k].playable {
            non_playable += 1;
        }
    }
    let playable = map.players.len() - non_playable;
    for _k in 0..non_playable
        invariant
            all_actor_ids@.len() == next_id,
            next_id <= 1 + _k,
            next_id == 1 + _k,
            non_playable <= map.players@.len(),
            map.players@.len() + map.actors@.len() + 2 <= u32::MAX,
            forall|i: int| 0 <= i < all_actor_ids@.len() ==> #[trigger] all_actor_ids@[i] == i as u32,
    {
        all_actor_ids.push(next_id);
        next_id += 1;
    }
    for _k in 0..playable
        invariant
            all_actor_ids@.len() == next_id,
            next_id == 1 + non_playable + _k,
            non_playable + playable == map.players@.len(),
            map.players@.len() + map.actors@.len() + 2 <= u32::MAX,
            forall|i: int| 0 <= i < all_actor_ids@.len() ==> #[trigger] all_actor_ids@[i] == i as u32,
    {
        all_actor_ids.push(next_id);
        next_id += 1;
    }
    // The "Everyone" spectator player.
    all_actor_ids.push(next_id);
    next_id += 1;

    // Map actors.
    let ghost actors = map.actors@.map_values(|a: MapActor| a@);
    let ghost first_id: int = map.players@.len() + 2int;
    assert(actors.take(0) =~= Seq::<MapActorValue>::empty());
    assert(sync_actors@.map_values(|a: ActorSync| a@) =~= Seq::<ActorSyncValue>::empty());
    for k in 0..map.actors.len()
        invariant
            actors == map.actors@.map_values(|a: MapActor| a@),
            first_id == map.players@.len() + 2,
            map.players@.len() + map.actors@.len() + 2 <= u32::MAX,
            all_actor_ids@.len() == next_id,
            next_id == first_id + k,
            forall|i: int| 0 <= i < all_actor_ids@.len() ==> #[trigger] all_actor_ids@[i] == i as u32,
            sync_actors@.map_values(|a: ActorSync| a@) == map_sync_entries(actors.take(k as int), first_id),
    {
        let id = next_id;
        all_actor_ids.push(id);
        next_id += 1;

        let actor = &map.actors[k];
        let b = actor.actor_type.as_str().as_bytes();
        let (x, y) = actor.location;
        assert(actors[k as int] == (b@, (x, y)));
        let mut trait_hashes: Vec<i32> = Vec::new();
        let top_left = CPos::new(x, y);
        if is_tree_bytes(b) {
            trait_hashes.push(1);
            trait_hashes.push(building_sync_hash(top_left));
            trait_hashes.push(health_sync_hash(50000));
        } else if is_mine_bytes(b) {
            trait_hashes.push(1);
            trait_hashes.push(building_sync_hash(top_left));
        } else if is_spawn_bytes(b) {
            trait_hashes.push(1);
            let center = center_of_cell(x, y);
            trait_hashes.push(immobile_sync_hash(top_left, center));
        }
        let ghost prev = sync_actors@.map_values(|a: ActorSync| a@);
        proof {
            assert(actors.take(k + 1).drop_last() =~= actors.take(k as int));
            assert(actors.take(k + 1).last() == actors[k as int]);
        }
        if trait_hashes.len() > 0 {
            let entry = ActorSync { actor_id: id, trait_hashes };
            assert(entry@.1 =~= map_actor_traits(b@, x, y)->Some_0);
            sync_actors.push(entry);
            assert(sync_actors@.map_values(|a: ActorSync| a@) =~= prev.push(entry@));
        } else {
            assert(map_actor_traits(b@, x, y) is None);
        }
    }
    proof {
        assert(actors.take(actors.len() as int) =~= actors);
        assert(all_actor_ids@ =~= Seq::new(total as nat, |i: int| i as u32));
    }
    let w = World {
        all_actor_ids,
        sync_actors,
        synced_effects: Vec::new(),
        rng,
        unlocked_render_player_ids: Vec::new(),
    };
    assert(w.effects() =~= Seq::<i32>::empty());
    assert(w.unlocked_players() =~= Seq::<u32>::empty());
    w
}


/// For a world without synced effects or unlocked render players (as every world
/// `build_world` makes), the sync hash is exactly the wrapping sum of its three debug
/// components: actor identities, trait hashes and the last random value.
pub proof fn lemma_sync_hash_is_sum_of_components(w: &World)
    requires
        w.effects() == Seq::<i32>::empty(),
        w.unlocked_players() == Seq::<u32>::empty(),
    ensures
        w.spec_sync_hash() == wrapping_add(
            wrapping_add(w.spec_sync_hash_debug().0, w.spec_sync_hash_debug().1),
            w.spec_sync_hash_debug().2,
        ),
{
    let ids = w.actor_ids();
    let l = ids.len() as int;
    let i = identity_terms(ids);
    let t = trait_terms(w.sync_entries(), l);
    let r = w.rng_state().last;
    assert(trait_terms(Seq::<ActorSyncValue>::empty(), l) == 0);
    assert(count_hashes(Seq::<ActorSyncValue>::empty()) == 0);
    assert(effect_terms(Seq::<i32>::empty(), l) == 0);
    assert(effect_terms(Seq::<i32>::empty(), l + count_hashes(w.sync_entries())) == 0);
    assert(player_terms(Seq::<u32>::empty()) == 0);
    assert(w.spec_sync_hash_debug().0 == signed_crop(i));
    assert(w.spec_sync_hash_debug().1 == wrapping_sub(signed_crop(i + t), signed_crop(i)));
    lemma_wrapped_sub(i + t, i);
    lemma_wrapped_add(i, t);
    lemma_crop_of_i32(r);
    lemma_wrapped_add(i + t, r as int);
}

/// The tick-0 sync hash is determined by the map and the seed, and depends on the
/// players only through their number: two worlds built from maps with the same actors
/// and as many players (in any order, playable or not), with the same seed, hash alike.
pub proof fn lemma_built_world_sync_hash_determined(
    w1: World,
    w2: World,
    player_count: nat,
    actors: Seq<MapActorValue>,
    seed: i32,
)
    requires
        is_built_world(w1, player_count, actors, seed),
        is_built_world(w2, player_count, actors, seed),
    ensures
        w1.spec_sync_hash() == w2.spec_sync_hash(),
{
}

/// Of the debug components of a tick-0 world, the identity and trait parts do not depend
/// on the seed, and the random part is the last value of a freshly seeded generator (0).
pub proof fn lemma_built_world_debug_components(
    w1: World,
    w2: World,
    player_count: nat,
    actors: Seq<MapActorValue>,
    seed1: i32,
    seed2: i32,
)
    requires
        is_built_world(w1, player_count, actors, seed1),
        is_built_world(w2, player_count, actors, seed2),
    ensures
        w1.spec_sync_hash_debug().0 == w2.spec_sync_hash_debug().0,
        w1.spec_sync_hash_debug().1 == w2.spec_sync_hash_debug().1,
        w1.spec_sync_hash_debug().2 == seeded(seed1).last,
        seeded(seed1).last == 0,
{
}


proof fn lemma_map_sync_entries_contains(actors: Seq<MapActorValue>, first_id: int, k: int)
    requires
        0 <= k < actors.len(),
        map_actor_traits(actors[k].0, actors[k].1.0, actors[k].1.1) is Some,
    ensures
        map_sync_entries(actors, first_id).contains(
            ((first_id + k) as u32, map_actor_traits(actors[k].0, actors[k].1.0, actors[k].1.1)->Some_0),
        ),
    decreases actors.len(),
{
    let init = map_sync_entries(actors.drop_last(), first_id);
    let a = actors.last();
    if k == actors.len() - 1 {
        let e = map_sync_entries(actors, first_id);
        assert(e == init.push(((first_id + actors.len() - 1) as u32, map_actor_traits(a.0, a.1.0, a.1.1)->Some_0)));
        assert(e[e.len() - 1] == ((first_id + k) as u32, map_actor_traits(a.0, a.1.0, a.1.1)->Some_0));
    } else {
        assert(actors.drop_last()[k] == actors[k]);
        lemma_map_sync_entries_contains(actors.drop_last(), first_id, k);
        let entry = ((first_id + k) as u32, map_actor_traits(actors[k].0, actors[k].1.0, actors[k].1.1)->Some_0);
        let i = choose|i: int| 0 <= i < init.len() && init[i] == entry;
        match map_actor_traits(a.0, a.1.0, a.1.1) {
            Some(hs) => {
                let e = init.push(((first_id + actors.len() - 1) as u32, hs));
                assert(e[i] == entry);
            },
            None => {},
        }
    }
}

/// The tick-0 synced state of the map's trees, mines and spawn points. The map actor at
/// position `k` gets actor ID `player_count + 2 + k`. A tree (a type name of three bytes
/// starting with 't', or any name starting with "tc") is synced with body orientation 1,
/// its top-left cell and 50000 hit points; an ore mine ("mine") with body orientation 1
/// and its top-left cell; a spawn point ("mpspawn") with body orientation 1 and its
/// top-left cell XOR-ed with the hash of its cell center (1024 * coordinate + 512, wrapped).
pub proof fn lemma_built_world_map_actor_entries(
    w: World,
    player_count: nat,
    actors: Seq<MapActorValue>,
    seed: i32,
    k: int,
)
    requires
        is_built_world(w, player_count, actors, seed),
        0 <= k < actors.len(),
    ensures
        ({
            let b = actors[k].0;
            let x = actors[k].1.0;
            let y = actors[k].1.1;
            let id = (player_count + 2 + k) as u32;
            let cell = spec_cpos_bits(x, y);
            &&& (b.len() >= 2 && b[0] == 116u8 && b[1] == 99u8) || (b.len() == 3 && b[0] == 116u8)
                ==> w.sync_entries().contains((id, seq![1i32, cell, 50000i32]))
            &&& b == seq![109u8, 105u8, 110u8, 101u8] ==> w.sync_entries().contains((id, seq![1i32, cell]))
            &&& b == seq![109u8, 112u8, 115u8, 112u8, 97u8, 119u8, 110u8] ==> w.sync_entries().contains(
                (
                    id,
                    seq![
                        1i32,
                        cell ^ spec_wpos_hash(
                            WPos { x: signed_crop(1024 * x + 512), y: signed_crop(1024 * y + 512), z: 0 },
                        ),
                    ],
                ),
            )
        }),
{
    let b = actors[k].0;
    if is_tree_type(b) || is_mine_type(b) || is_spawn_type(b) {
        lemma_map_sync_entries_contains(actors, player_count + 2int, k);
    }
    if b == seq![109u8, 105u8, 110u8, 101u8] {
        assert(!is_tree_type(b));
    }
    if b == seq![109u8, 112u8, 115u8, 112u8, 97u8, 119u8, 110u8] {
        assert(!is_tree_type(b));
        assert(!is_mine_type(b));
    }
}

/// The sync hash follows the shared generator: two worlds that differ at most in their
/// generator hash alike, but for the last value drawn, which the hash adds (wrapping).
/// So drawing a value `v` moves the hash from `h` to `h - last + v`. The debug
/// components report that last value as their third part.
pub proof fn lemma_sync_hash_tracks_rng(w1: World, w2: World)
    requires
        w1.actor_ids() == w2.actor_ids(),
        w1.sync_entries() == w2.sync_entries(),
        w1.effects() == w2.effects(),
        w1.unlocked_players() == w2.unlocked_players(),
    ensures
        w2.spec_sync_hash() == wrapping_add(wrapping_sub(w1.spec_sync_hash(), w1.rng_state().last), w2.rng_state().last),
        w1.spec_sync_hash_debug().2 == w1.rng_state().last,
{
    let r1 = w1.rng_state().last;
    let r2 = w2.rng_state().last;
    let x = exact_sync_hash(w1.actor_ids(), w1.sync_entries(), w1.effects(), 0, w1.unlocked_players());
    assert(exact_sync_hash(w1.actor_ids(), w1.sync_entries(), w1.effects(), r1, w1.unlocked_players()) == x + r1);
    assert(exact_sync_hash(w2.actor_ids(), w2.sync_entries(), w2.effects(), r2, w2.unlocked_players()) == x + r2);
    lemma_crop_of_i32(r1);
    lemma_crop_of_i32(r2);
    lemma_wrapped_sub(x + r1, r1 as int);
    lemma_wrapped_add(x, r2 as int);
}

} // verus!
