use openra::map::{MapActor, MapPlayer, OraMap};
use openra::math::{CPos, WPos};
use openra::rng::MersenneTwister;
use openra::sync::{compute_world_sync_hash, ActorSync};
use openra::world::{build_world, building_sync_hash, center_of_cell, health_sync_hash, immobile_sync_hash};

#[test]
fn center_of_cell_values() {
    let pos = center_of_cell(0, 0);
    assert_eq!(pos, WPos::new(512, 512, 0));

    let pos = center_of_cell(10, 20);
    assert_eq!(pos, WPos::new(10 * 1024 + 512, 20 * 1024 + 512, 0));
}

#[test]
fn building_hash_matches_cpos_bits() {
    let top_left = CPos::new(5, 10);
    assert_eq!(building_sync_hash(top_left), top_left.bits);
}

#[test]
fn immobile_hash_xors_topleft_and_center() {
    let top_left = CPos::new(5, 10);
    let center = center_of_cell(5, 10);
    let hash = immobile_sync_hash(top_left, center);
    assert_eq!(hash, top_left.bits ^ center.sync_hash());
}

#[test]
fn cpos_packing() {
    assert_eq!(CPos::new(1, 2).bits, (1 << 20) | (2 << 8));
    assert_eq!(CPos::new(0xFFF, 0).bits, 0xFFF0_0000u32 as i32);
    assert_eq!(CPos::new(-1, -1).bits, 0xFFFF_FF00u32 as i32);
}

#[test]
fn wpos_hash_xors_coordinates() {
    assert_eq!(WPos::new(1, 2, 4).sync_hash(), 7);
    assert_eq!(WPos::new(5, 5, 0).sync_hash(), 0);
    assert_eq!(health_sync_hash(50000), 50000);
}

fn actor(t: &str, x: i32, y: i32) -> MapActor {
    MapActor { actor_type: t.to_string(), location: (x, y) }
}

fn map(players: usize, actors: Vec<MapActor>) -> OraMap {
    OraMap {
        title: "Test".to_string(),
        map_size: (64, 64),
        players: (0..players).map(|i| MapPlayer { name: format!("P{}", i), playable: i % 2 == 0 }).collect(),
        actors,
    }
}

#[test]
fn sync_hash_of_a_small_world() {
    // IDs: 0 world, 1 "Everyone", 2 the mine.
    let w = build_world(&map(0, vec![actor("mine", 1, 2)]), 7);
    let identity = 1 * 2 * (1 << 16) + 2 * 3 * (2 << 16);
    let cpos = (1 << 20) | (2 << 8);
    let traits = 3 * 3 * 1 + 4 * 3 * cpos;
    assert_eq!(w.sync_hash_debug(), (identity, traits, 0));
    assert_eq!(w.sync_hash(), identity + traits);
}

#[test]
fn sync_hash_is_sum_of_components() {
    let actors = vec![
        actor("t01", 3, 4),
        actor("tc02", 5, 6),
        actor("mine", 7, 8),
        actor("mpspawn", 9, 10),
        actor("fact", 1, 1),
        actor("tree", 2, 2),
    ];
    let w = build_world(&map(3, actors), -852810065);
    let (identity, traits, rng_last) = w.sync_hash_debug();
    assert_eq!(w.sync_hash(), identity.wrapping_add(traits).wrapping_add(rng_last));
}

#[test]
fn built_world_entries() {
    let actors = vec![actor("t01", 3, 4), actor("fact", 1, 1), actor("mpspawn", 9, 10), actor("mine", 7, 8)];
    let w = build_world(&map(2, actors), 1);
    // 0 world, 1-2 players, 3 everyone, 4.. map actors.
    let ids: Vec<u32> = (0..8).collect();
    let spawn_center = center_of_cell(9, 10);
    let sync = vec![
        ActorSync { actor_id: 4, trait_hashes: vec![1, CPos::new(3, 4).bits, 50000] },
        ActorSync { actor_id: 6, trait_hashes: vec![1, CPos::new(9, 10).bits ^ spawn_center.sync_hash()] },
        ActorSync { actor_id: 7, trait_hashes: vec![1, CPos::new(7, 8).bits] },
    ];
    let expected = compute_world_sync_hash(&ids, &sync, &[], 0, &[]);
    assert_eq!(w.sync_hash(), expected);
}

#[test]
fn sync_hash_counts_effects_and_players() {
    let ids = [0u32, 1];
    let h = compute_world_sync_hash(&ids, &[], &[10, 20], 5, &[1]);
    // identity 1*2*65536, effects 2*10 + 3*20, rng 5, player (1<<16)*0x567
    assert_eq!(h, 131072 + 20 + 60 + 5 + 65536 * 0x567);
}

#[test]
fn sync_hash_wraps() {
    let ids = [0u32, 0xFFFF_FFFF];
    let h = compute_world_sync_hash(&ids, &[], &[], i32::MAX, &[]);
    // 1 * (1 + 0xFFFFFFFF) wraps to 0, so only the random value remains.
    assert_eq!(h, i32::MAX);
    let h = compute_world_sync_hash(&[0], &[ActorSync { actor_id: 0, trait_hashes: vec![i32::MAX] }], &[], 1, &[]);
    // 1 * 1 * MAX + 1 wraps to MIN.
    assert_eq!(h, i32::MIN);
}

#[test]
fn world_rng_is_seeded() {
    let w = build_world(&map(1, vec![]), 5489);
    let mut a = MersenneTwister::new(5489);
    let mut b = w.rng.clone();
    assert_eq!(a.next(), b.next());
    assert_eq!(w.rng.last(), 0);
}

#[test]
fn center_of_cell_wraps() {
    let pos = center_of_cell(2_097_152, -2_097_153);
    assert_eq!(pos, WPos::new(-2_147_483_136, 2_147_483_136, 0));
    let pos = center_of_cell(-1, -3);
    assert_eq!(pos, WPos::new(-512, -2560, 0));
}

#[test]
fn sync_hash_ignores_player_order_and_flags() {
    let actors = || vec![actor("t01", 3, 4), actor("mine", 7, 8), actor("mpspawn", 9, 10)];
    let a = map(3, actors());
    let mut b = map(3, actors());
    b.players.reverse();
    for p in b.players.iter_mut() {
        p.playable = !p.playable;
    }
    assert_eq!(build_world(&a, 99).sync_hash(), build_world(&b, 99).sync_hash());
    assert_eq!(build_world(&a, 99).sync_hash(), build_world(&a, 99).sync_hash());
}

#[test]
fn debug_components_do_not_depend_on_the_seed() {
    let m = map(2, vec![actor("t01", 3, 4), actor("mine", 7, 8)]);
    let (i1, t1, r1) = build_world(&m, 1).sync_hash_debug();
    let (i2, t2, r2) = build_world(&m, -12345).sync_hash_debug();
    assert_eq!((i1, t1), (i2, t2));
    assert_eq!((r1, r2), (0, 0));
    assert_eq!(build_world(&m, 1).rng().last(), 0);
}
