//! The world sync hash: a wrapping 32-bit checksum over actor identities,
//! per-actor trait hashes, synced effects, the shared random generator and
//! the players whose render state is unlocked, in the order the game sums them.

use vstd::prelude::*;
use vstd::arithmetic::div_mod::{lemma_add_mod_noop, lemma_mul_mod_noop, lemma_sub_mod_noop};
use vstd::wrapping::i32_specs::{signed_crop, wrapping_add, wrapping_mul, wrapping_sub};
use crate::math::{CPos, WPos, spec_wpos_hash};

verus! {

/// The sync state of one actor: its ID and the hash of each of its synced traits, in order.
#[derive(Debug)]
pub struct ActorSync {
    pub actor_id: u32,
    pub trait_hashes: Vec<i32>,
}

/// An actor's sync state as a value.
pub type ActorSyncValue = (u32, Seq<i32>);

impl View for ActorSync {
    type V = ActorSyncValue;

    open spec fn view(&self) -> ActorSyncValue {
        (self.actor_id, self.trait_hashes@)
    }
}

/// The sync hash of a cell position: its packed bits.
pub fn hash_cpos(c: CPos) -> (r: i32)
    ensures
        r == c.bits,
{
    c.bits
}

/// The sync hash of a world position: its coordinates XOR-ed.
pub fn hash_wpos(p: WPos) -> (r: i32)
    ensures
        r == spec_wpos_hash(p),
{
    p.sync_hash()
}

/// Sum of `k * (1 + id_k) * (id_k << 16)` over the actors, `k` counting from 0.
pub open spec fn identity_terms(ids: Seq<u32>) -> int
    decreases ids.len(),
{
    if ids.len() == 0 {
        0
    } else {
        let k = ids.len() - 1;
        identity_terms(ids.drop_last()) + k * (1 + ids.last()) * (ids.last() * 65536)
    }
}

/// Sum of `n * (1 + id) * h` over the hashes `h` of one actor, `n` counting from `n0`.
pub open spec fn hash_terms(id: u32, hs: Seq<i32>, n0: int) -> int
    decreases hs.len(),
{
    if hs.len() == 0 {
        0
    } else {
        hash_terms(id, hs.drop_last(), n0) + (n0 + hs.len() - 1) * (1 + id) * hs.last()
    }
}

/// Total number of trait hashes.
pub open spec fn count_hashes(actors: Seq<ActorSyncValue>) -> int
    decreases actors.len(),
{
    if actors.len() == 0 {
        0
    } else {
        count_hashes(actors.drop_last()) + actors.last().1.len()
    }
}

/// Sum of the trait terms of all actors, the counter starting at `n0`.
pub open spec fn trait_terms(actors: Seq<ActorSyncValue>, n0: int) -> int
    decreases actors.len(),
{
    if actors.len() == 0 {
        0
    } else {
        let init = actors.drop_last();
        trait_terms(init, n0) + hash_terms(actors.last().0, actors.last().1, n0 + count_hashes(init))
    }
}

/// Sum of `n * e` over the synced effects, `n` counting from `n0`.
pub open spec fn effect_terms(effects: Seq<i32>, n0: int) -> int
    decreases effects.len(),
{
    if effects.len() == 0 {
        0
    } else {
        effect_terms(effects.drop_last(), n0) + (n0 + effects.len() - 1) * effects.last()
    }
}

/// Sum of `(id << 16) * 0x567` over the unlocked render players.
pub open spec fn player_terms(ids: Seq<u32>) -> int
    decreases ids.len(),
{
    if ids.len() == 0 {
        0
    } else {
        player_terms(ids.drop_last()) + ids.last() * 65536 * 0x567
    }
}

/// The world sync hash computed without overflow.
pub open spec fn exact_sync_hash(
    ids: Seq<u32>,
    actors: Seq<ActorSyncValue>,
    effects: Seq<i32>,
    rng_last: i32,
    players: Seq<u32>,
) -> int {
    identity_terms(ids) + trait_terms(actors, ids.len() as int) + effect_terms(
        effects,
        ids.len() + count_hashes(actors),
    ) + rng_last + player_terms(players)
}

/// The world sync hash: the exact sum wrapped to 32 bits, as the game's unchecked arithmetic computes it.
pub open spec fn spec_world_sync_hash(
    ids: Seq<u32>,
    actors: Seq<ActorSyncValue>,
    effects: Seq<i32>,
    rng_last: i32,
    players: Seq<u32>,
) -> i32 {
    signed_crop(exact_sync_hash(ids, actors, effects, rng_last, players))
}

// ---------------------------------------------------------------------------
// 32-bit wrapping arithmetic
// ---------------------------------------------------------------------------

proof fn lemma_crop_mod(x: int)
    ensures
        (signed_crop(x) as int) % 0x1_0000_0000int == x % 0x1_0000_0000int,
        i32::MIN <= signed_crop(x) as int <= i32::MAX,
{
}

proof fn lemma_crop_same(x: int, y: int)
    requires
        x % 0x1_0000_0000int == y % 0x1_0000_0000int,
    ensures
        signed_crop(x) == signed_crop(y),
{
}

pub proof fn lemma_crop_of_i32(a: i32)
    ensures
        signed_crop(a as int) == a,
{
}

proof fn lemma_crop_add(x: int, y: int)
    ensures
        signed_crop(signed_crop(x) + signed_crop(y)) == signed_crop(x + y),
{
    let m = 0x1_0000_0000int;
    lemma_crop_mod(x);
    lemma_crop_mod(y);
    lemma_add_mod_noop(signed_crop(x) as int, signed_crop(y) as int, m);
    lemma_add_mod_noop(x, y, m);
    lemma_crop_same(signed_crop(x) + signed_crop(y), x + y);
}

proof fn lemma_crop_sub(x: int, y: int)
    ensures
        signed_crop(signed_crop(x) - signed_crop(y)) == signed_crop(x - y),
{
    let m = 0x1_0000_0000int;
    lemma_crop_mod(x);
    lemma_crop_mod(y);
    lemma_sub_mod_noop(signed_crop(x) as int, signed_crop(y) as int, m);
    lemma_sub_mod_noop(x, y, m);
    lemma_crop_same(signed_crop(x) - signed_crop(y), x - y);
}

proof fn lemma_crop_mul(x: int, y: int)
    ensures
        signed_crop(signed_crop(x) * signed_crop(y)) == signed_crop(x * y),
{
    let m = 0x1_0000_0000int;
    lemma_crop_mod(x);
    lemma_crop_mod(y);
    lemma_mul_mod_noop(signed_crop(x) as int, signed_crop(y) as int, m);
    lemma_mul_mod_noop(x, y, m);
    lemma_crop_same(signed_crop(x) * signed_crop(y), x * y);
}

/// Wrapping addition of 32-bit values is the exact sum wrapped.
pub proof fn lemma_wrapping_add_crop(a: i32, b: i32)
    ensures
        wrapping_add(a, b) == signed_crop(a + b),
{
}

/// Wrapping subtraction of 32-bit values is the exact difference wrapped.
pub proof fn lemma_wrapping_sub_crop(a: i32, b: i32)
    ensures
        wrapping_sub(a, b) == signed_crop(a - b),
{
}

/// Wrapping addition of wrapped values wraps the exact sum.
pub proof fn lemma_wrapped_add(x: int, y: int)
    ensures
        wrapping_add(signed_crop(x), signed_crop(y)) == signed_crop(x + y),
{
    lemma_wrapping_add_crop(signed_crop(x), signed_crop(y));
    lemma_crop_add(x, y);
}

/// Wrapping subtraction of wrapped values wraps the exact difference.
pub proof fn lemma_wrapped_sub(x: int, y: int)
    ensures
        wrapping_sub(signed_crop(x), signed_crop(y)) == signed_crop(x - y),
{
    lemma_wrapping_sub_crop(signed_crop(x), signed_crop(y));
    lemma_crop_sub(x, y);
}

proof fn lemma_wrapped_mul(x: int, y: int)
    ensures
        wrapping_mul(signed_crop(x), signed_crop(y)) == signed_crop(x * y),
{
    lemma_crop_mul(x, y);
}

fn crop_u64(v: u64) -> (r: i32)
    ensures
        r == signed_crop(v as int),
{
    let m = v % 0x1_0000_0000u64;
    if m <= 0x7fff_ffffu64 {
        m as i32
    } else {
        (m as i64 - 0x1_0000_0000i64) as i32
    }
}


/// The sync hash of the given world state, in the order the game sums it:
/// actor identities, the trait hashes of each synced actor, synced effects,
/// the last value of the shared random generator, then the unlocked render players.
pub fn compute_world_sync_hash(
    all_actor_ids: &[u32],
    sync_actors: &[ActorSync],
    synced_effects: &[i32],
    rng_last: i32,
    unlocked_render_player_ids: &[u32],
) -> (r: i32)
    ensures
        r == spec_world_sync_hash(
            all_actor_ids@,
            sync_actors@.map_values(|a: ActorSync| a@),
            synced_effects@,
            rng_last,
            unlocked_render_player_ids@,
        ),
{
    let ghost ids = all_actor_ids@;
    let ghost actors = sync_actors@.map_values(|a: ActorSync| a@);
    let ghost effects = synced_effects@;
    let ghost players = unlocked_render_player_ids@;
    let ghost l = ids.len() as int;
    let mut n: i32 = 0;
    let mut ret: i32 = 0;
    proof {
        lemma_crop_of_i32(0);
        lemma_crop_of_i32(1);
        assert(ids.take(0) =~= Seq::<u32>::empty());
    }
    // Actor identities.
    for k in 0..all_actor_ids.len()
        invariant
            ids == all_actor_ids@,
            n == signed_crop(k as int),
            ret == signed_crop(identity_terms(ids.take(k as int))),
            signed_crop(1) == 1i32,
    {
        let id = all_actor_ids[k];
        let term = n.wrapping_mul(crop_u64(1 + id as u64)).wrapping_mul(crop_u64(id as u64 * 65536));
        proof {
            let kk = k as int;
            lemma_wrapped_mul(kk, 1 + id);
            lemma_wrapped_mul(kk * (1 + id), id * 65536);
            assert(term == signed_crop(kk * (1 + id) * (id * 65536)));
            lemma_wrapped_add(identity_terms(ids.take(kk)), kk * (1 + id) * (id * 65536));
            assert(ids.take(kk + 1).drop_last() =~= ids.take(kk));
            lemma_wrapped_add(kk, 1);
        }
        ret = ret.wrapping_add(term);
        n = n.wrapping_add(1);
    }
    proof {
        assert(ids.take(l) =~= ids);
        assert(actors.take(0) =~= Seq::<ActorSyncValue>::empty());
    }
    let ghost id_sum = identity_terms(ids);
    // Trait hashes of each synced actor.
    for a in 0..sync_actors.len()
        invariant
            actors == sync_actors@.map_values(|x: ActorSync| x@),
            l == ids.len(),
            id_sum == identity_terms(ids),
            n == signed_crop(l + count_hashes(actors.take(a as int))),
            ret == signed_crop(id_sum + trait_terms(actors.take(a as int), l)),
            signed_crop(1) == 1i32,
    {
        let actor_id = sync_actors[a].actor_id;
        let hashes = &sync_actors[a].trait_hashes;
        let ghost hs = hashes@;
        let ghost before = actors.take(a as int);
        let ghost n0 = l + count_hashes(before);
        let ghost base = id_sum + trait_terms(before, l);
        proof {
            assert(hs.take(0) =~= Seq::<i32>::empty());
            assert(actors[a as int] == (actor_id, hs));
        }
        for j in 0..hashes.len()
            invariant
                hs == hashes@,
                n == signed_crop(n0 + j),
                ret == signed_crop(base + hash_terms(actor_id, hs.take(j as int), n0)),
                signed_crop(1) == 1i32,
        {
            let h = hashes[j];
            let term = n.wrapping_mul(crop_u64(1 + actor_id as u64)).wrapping_mul(h);
            proof {
                let nn = n0 + j;
                lemma_wrapped_mul(nn, 1 + actor_id);
                lemma_crop_of_i32(h);
                lemma_wrapped_mul(nn * (1 + actor_id), h as int);
                assert(term == signed_crop(nn * (1 + actor_id) * h));
                lemma_wrapped_add(base + hash_terms(actor_id, hs.take(j as int), n0), nn * (1 + actor_id) * h);
                assert(hs.take(j + 1).drop_last() =~= hs.take(j as int));
                lemma_wrapped_add(nn, 1);
            }
            ret = ret.wrapping_add(term);
            n = n.wrapping_add(1);
        }
        proof {
            assert(hs.take(hs.len() as int) =~= hs);
            assert(actors.take(a + 1).drop_last() =~= before);
            assert(actors.take(a + 1).last() == (actor_id, hs));
        }
    }
    proof {
        assert(actors.take(actors.len() as int) =~= actors);
        assert(effects.take(0) =~= Seq::<i32>::empty());
    }
    let ghost c = l + count_hashes(actors);
    let ghost it_sum = id_sum + trait_terms(actors, l);
    // Synced effects.
    for e in 0..synced_effects.len()
        invariant
            effects == synced_effects@,
            n == signed_crop(c + e),
            ret == signed_crop(it_sum + effect_terms(effects.take(e as int), c)),
            signed_crop(1) == 1i32,
    {
        let v = synced_effects[e];
        let term = n.wrapping_mul(v);
        proof {
            lemma_crop_of_i32(v);
            lemma_wrapped_mul(c + e, v as int);
            lemma_wrapped_add(it_sum + effect_terms(effects.take(e as int), c), (c + e) * v);
            assert(effects.take(e + 1).drop_last() =~= effects.take(e as int));
            lemma_wrapped_add(c + e, 1);
        }
        ret = ret.wrapping_add(term);
        n = n.wrapping_add(1);
    }
    proof {
        assert(effects.take(effects.len() as int) =~= effects);
        let before = it_sum + effect_terms(effects, c);
        lemma_crop_of_i32(rng_last);
        lemma_wrapped_add(before, rng_last as int);
        assert(players.take(0) =~= Seq::<u32>::empty());
    }
    // The shared random generator.
    ret = ret.wrapping_add(rng_last);
    let ghost ier_sum = it_sum + effect_terms(effects, c) + rng_last;
    // Players whose render state is unlocked.
    for q in 0..unlocked_render_player_ids.len()
        invariant
            players == unlocked_render_player_ids@,
            ret == signed_crop(ier_sum + player_terms(players.take(q as int))),
    {
        let id = unlocked_render_player_ids[q];
        let term = crop_u64(id as u64 * 65536).wrapping_mul(0x567);
        proof {
            lemma_crop_of_i32(0x567);
            lemma_wrapped_mul(id * 65536, 0x567);
            lemma_wrapped_add(ier_sum + player_terms(players.take(q as int)), id * 65536 * 0x567);
            assert(players.take(q + 1).drop_last() =~= players.take(q as int));
        }
        ret = ret.wrapping_add(term);
    }
    proof {
        assert(players.take(players.len() as int) =~= players);
    }
    ret
}

} // verus!
