use transaction_solver::Router;

#[test]
fn a_client_always_routes_to_the_same_shard() {
    let router = Router::new(7);
    for client in 0..=u16::MAX {
        assert_eq!(router.shard(client), router.shard(client));
    }
}

#[test]
fn every_shard_index_is_in_range() {
    for shards in [1usize, 2, 3, 5, 8, 13, 64] {
        let router = Router::new(shards);
        for client in 0..=u16::MAX {
            assert!(
                router.shard(client) < shards,
                "{client} with {shards} shards"
            );
        }
    }
}

#[test]
fn one_shard_takes_everything() {
    let router = Router::new(1);
    for client in [0, 1, 999, u16::MAX] {
        assert_eq!(router.shard(client), 0);
    }
}

#[test]
fn the_batch_path_agrees_with_the_single_one() {
    let router = Router::new(6);
    let clients: Vec<u32> = (0..=u16::MAX).map(u32::from).collect();
    let mut out = vec![0u32; clients.len()];

    router.route_into(&clients, &mut out);

    for (&client, &shard) in clients.iter().zip(&out) {
        assert_eq!(
            shard as usize,
            router.shard(client as u16),
            "client {client}"
        );
    }
}

#[test]
fn a_short_output_slice_routes_only_what_fits() {
    let router = Router::new(4);
    let clients = [1u32, 2, 3, 4, 5];
    let mut out = [u32::MAX; 3];

    router.route_into(&clients, &mut out);

    for (index, &shard) in out.iter().enumerate() {
        assert_eq!(shard as usize, router.shard(clients[index] as u16));
    }
}

/// The whole point of hashing rather than using `client % shards`: a partner that
/// sends only even client IDs must not leave half the shards idle.
#[test]
fn the_load_is_spread_evenly() {
    const SHARDS: usize = 8;
    let router = Router::new(SHARDS);

    let mut counts = [0usize; SHARDS];
    for client in (0..=u16::MAX).step_by(2) {
        counts[router.shard(client)] += 1;
    }

    let total: usize = counts.iter().sum();
    let ideal = total / SHARDS;
    for (shard, &count) in counts.iter().enumerate() {
        let drift = (count as isize - ideal as isize).unsigned_abs();
        assert!(
            drift * 10 < ideal,
            "shard {shard} took {count}, expected about {ideal}"
        );
    }
}

#[test]
fn different_seeds_route_differently() {
    let a = Router::with_seed(8, 1);
    let b = Router::with_seed(8, 2);

    let differing = (0..=u16::MAX).filter(|&c| a.shard(c) != b.shard(c)).count();
    assert!(
        differing > 40_000,
        "only {differing} of 65,536 clients moved between seeds"
    );
}

/// The mixer and the reduction, written out.
fn expected(client: u16, seed: u32, shards: u64) -> usize {
    let mut h = u32::from(client) ^ seed;
    h = h.wrapping_mul(0x85eb_ca6b);
    h ^= h >> 13;
    h = h.wrapping_mul(0xc2b2_ae35);
    h ^= h >> 16;
    ((u64::from(h) * shards) >> 32) as usize
}

#[test]
fn a_seeded_router_is_the_formula() {
    for (shards, seed) in [(1usize, 0u32), (3, 7), (8, 0xdead_beef), (65_535, 1)] {
        let router = Router::with_seed(shards, seed);
        assert_eq!(router.shards(), shards);
        for client in (0..=u16::MAX).step_by(97) {
            assert_eq!(router.shard(client), expected(client, seed, shards as u64));
        }
    }
}

#[test]
fn known_routes() {
    let router = Router::with_seed(8, 0);
    assert_eq!(router.shard(0), 0);
    let largest = Router::with_seed(u32::MAX as usize, 0);
    assert_eq!(largest.shards(), u32::MAX as usize);
    assert_eq!(largest.shard(0), 0);
}

#[test]
fn slots_beyond_the_clients_are_left_alone() {
    let router = Router::with_seed(4, 9);
    let clients = [1u32, 2];
    let mut out = [u32::MAX; 4];
    router.route_into(&clients, &mut out);
    assert_eq!(out[0] as usize, router.shard(1));
    assert_eq!(out[1] as usize, router.shard(2));
    assert_eq!(out[2], u32::MAX);
    assert_eq!(out[3], u32::MAX);
}

#[test]
fn fresh_routers_are_seeded_anew() {
    // A fresh router is seeded anew; that eight of them agree on a thousand clients would
    // take the same seed.
    let first = Router::new(1 << 20);
    let same = (0..8).all(|_| {
        let other = Router::new(1 << 20);
        (0..1000u16).all(|client| other.shard(client) == first.shard(client))
    });
    assert!(!same);
}

#[test]
fn a_seed_is_the_high_half_of_a_hash() {
    assert_eq!(Router::seed_from(0x1234_5678_9abc_def0), 0x1234_5678);
    assert_eq!(Router::seed_from(0xffff_ffff), 0);
    assert_eq!(Router::seed_from(u64::MAX), u32::MAX);
}

/// The client whose hash is `hash`, by undoing the mixer step by step.
fn client_with(hash: u32, seed: u32) -> u32 {
    let mut h = hash ^ (hash >> 16);
    h = h.wrapping_mul(0x7ed1_b41d);
    h ^= (h >> 13) ^ (h >> 26);
    h.wrapping_mul(0xa5cb_9243) ^ seed
}

fn shard_of_hash(router: &Router, hash: u32, seed: u32) -> u32 {
    let mut out = [u32::MAX];
    router.route_into(&[client_with(hash, seed)], &mut out);
    out[0]
}

#[test]
fn the_range_of_hashes_is_cut_evenly_and_in_order() {
    let seed = 0xdead_beef;
    let router = Router::with_seed(3, seed);
    // 2^32 is 3 * 1431655765 + 1: the first shard owns one hash more than the others.
    for (hash, shard) in [
        (0, 0),
        (1431655765, 0),
        (1431655766, 1),
        (2863311530, 1),
        (2863311531, 2),
        (u32::MAX, 2),
    ] {
        assert_eq!(shard_of_hash(&router, hash, seed), shard, "{hash}");
    }
    let mut last = 0;
    for step in 0..=255u32 {
        let shard = shard_of_hash(&router, step << 24, seed);
        assert!(last <= shard);
        last = shard;
    }
}

#[test]
fn distinct_clients_have_distinct_hashes() {
    // With 2^32 - 1 shards only the hashes 0 and 1 share one.
    let router = Router::with_seed(u32::MAX as usize, 0x0bad_cafe);
    let mut shards: Vec<usize> = (0..=u16::MAX).map(|client| router.shard(client)).collect();
    shards.sort_unstable();
    shards.dedup();
    assert!(shards.len() >= 65_535);
}

#[test]
fn a_seed_stands_for_another_client() {
    let plain = Router::with_seed(1 << 20, 0);
    for seed in [1u16, 0x00ff, 0xbeef] {
        let seeded = Router::with_seed(1 << 20, u32::from(seed));
        for client in (0..=u16::MAX).step_by(131) {
            assert_eq!(seeded.shard(client), plain.shard(client ^ seed));
        }
        assert_eq!(seeded.shard(seed), 0);
    }
}
