//! Deciding which shard owns a client.
//!
//! Routing has to satisfy three things at once. It must be a pure function of the client
//! ID, or two records for one account could land on different shards and race. It must
//! spread 65,536 possible clients evenly, or one shard does all the work. And it must be
//! cheap enough to disappear next to the CSV parse that produced the record.
//!
//! The mixer below is four 32-bit operations. It is seeded from
//! [`RandomState`](std::collections::hash_map::RandomState), so the client-to-shard map
//! differs on every process and cannot be precomputed by whoever is sending the records.

use std::collections::hash_map::RandomState;
use std::hash::BuildHasher;
use vstd::prelude::*;

verus! {

/// Maps clients onto shards.
#[derive(Clone, Copy, Debug)]
pub struct Router {
    seed: u32,
    shards: u32,
}

/// The first half of the mixer: multiply, then fold the high bits into the low ones.
pub open spec fn half_mixed(client: u32, seed: u32) -> u32 {
    let h = (client ^ seed).wrapping_mul(0x85eb_ca6b);
    h ^ (h >> 13)
}

/// The hash of a client: the multiply-xorshift pair that ends MurmurHash3.
pub open spec fn mixed(client: u32, seed: u32) -> u32 {
    let h = half_mixed(client, seed).wrapping_mul(0xc2b2_ae35);
    h ^ (h >> 16)
}

/// Where `hash` falls once the range of hashes is cut into `shards` equal parts.
pub open spec fn reduced(hash: u32, shards: u32) -> int {
    (hash * shards) / 0x1_0000_0000
}

/// The shard that owns a client.
pub open spec fn owner(client: u32, seed: u32, shards: u32) -> int {
    reduced(mixed(client, seed), shards)
}

/// Hashes `value` with a fresh `std::hash::RandomState`, which each process seeds anew: the
/// hash can be any number, and nothing is claimed of it.
#[verifier::external_body]
fn random_hash(value: u64) -> (hash: u64) {
    RandomState::new().hash_one(value)
}

impl Router {
    #[verifier::type_invariant]
    spec fn has_shards(self) -> bool {
        self.shards > 0
    }

    /// What distinguishes this router from others with as many shards.
    pub closed spec fn seed(self) -> u32 {
        self.seed
    }

    /// How many shards this router routes to.
    pub closed spec fn shard_count(self) -> u32 {
        self.shards
    }

    /// The shard that owns a client.
    pub open spec fn shard_of(self, client: u32) -> int {
        owner(client, self.seed(), self.shard_count())
    }

    /// A router for `shards` shards, seeded for this process only.
    pub fn new(shards: usize) -> (router: Router)
        requires
            0 < shards <= u32::MAX,
        ensures
            router.shard_count() == shards,
    {
        Router { seed: Router::random_seed(), shards: shards as u32 }
    }

    /// A router with a caller-chosen seed. Tests use this to make routing repeatable.
    pub fn with_seed(shards: usize, seed: u32) -> (router: Router)
        requires
            0 < shards <= u32::MAX,
        ensures
            router.shard_count() == shards,
            router.seed() == seed,
    {
        Router { seed, shards: shards as u32 }
    }

    /// How many shards this router routes to.
    pub fn shards(&self) -> (shards: usize)
        ensures
            shards == self.shard_count(),
            shards > 0,
    {
        proof {
            use_type_invariant(self);
        }
        self.shards as usize
    }

    /// The shard that owns `client`.
    pub fn shard(&self, client: u16) -> (shard: usize)
        ensures
            shard == self.shard_of(client as u32),
            shard < self.shard_count(),
    {
        proof {
            use_type_invariant(self);
        }
        Router::reduce(Router::mix(client, self.seed), self.shards) as usize
    }

    /// Routes a whole chunk of clients, writing one shard index per client.
    ///
    /// Where one of the two slices is shorter, only what fits is routed.
    pub fn route_into(&self, clients: &[u32], out: &mut [u32])
        ensures
            final(out)@.len() == old(out)@.len(),
            forall|i: int|
                0 <= i < final(out)@.len() ==> #[trigger] final(out)@[i] == if i < clients@.len() {
                    self.shard_of(clients@[i])
                } else {
                    old(out)@[i] as int
                },
    {
        proof {
            use_type_invariant(self);
        }
        let n: usize = if clients.len() <= out.len() {
            clients.len()
        } else {
            out.len()
        };
        let mut i: usize = 0;
        while i < n
            invariant
                i <= n <= clients@.len(),
                n <= out@.len(),
                n == clients@.len() || n == out@.len(),
                self.shards > 0,
                out@.len() == old(out)@.len(),
                forall|j: int|
                    0 <= j < out@.len() ==> #[trigger] out@[j] == if j < i {
                        self.shard_of(clients@[j])
                    } else {
                        old(out)@[j] as int
                    },
            decreases n - i,
        {
            out[i] = Router::reduce(Router::mix32(clients[i], self.seed), self.shards);
            i = i + 1;
        }
    }

    /// A 32-bit avalanche mixer over the client ID.
    fn mix(client: u16, seed: u32) -> (hash: u32)
        ensures
            hash == mixed(client as u32, seed),
    {
        Router::mix32(client as u32, seed)
    }

    /// The mixer over an already-widened client ID.
    fn mix32(client: u32, seed: u32) -> (hash: u32)
        ensures
            hash == mixed(client, seed),
    {
        let mut h: u32 = client ^ seed;
        h = h.wrapping_mul(0x85eb_ca6b);
        h = h ^ (h >> 13);
        h = h.wrapping_mul(0xc2b2_ae35);
        h ^ (h >> 16)
    }

    /// Maps a hash uniformly onto `0..shards` without a division: one widening multiply and a
    /// shift.
    fn reduce(hash: u32, shards: u32) -> (shard: u32)
        requires
            shards > 0,
        ensures
            shard == reduced(hash, shards),
            shard < shards,
    {
        proof {
            reduction_is_uniform(hash, shards);
            assert(hash * shards <= 0xffff_ffff * 0xffff_ffff) by (nonlinear_arith)
                requires
                    0 <= hash <= 0xffff_ffff,
                    0 <= shards <= 0xffff_ffff,
            ;
        }
        let product: u64 = hash as u64 * shards as u64;
        assert(product >> 32 == product / 0x1_0000_0000) by (bit_vector);
        (product >> 32) as u32
    }

    /// A per-process seed, without a random-number dependency. It can be any number.
    fn random_seed() -> (seed: u32) {
        Router::seed_from(random_hash(0x5f37_1cb4_9ce2_a17d))
    }

    /// The seed that a 64-bit hash gives: its high half.
    pub fn seed_from(hash: u64) -> (seed: u32)
        ensures
            seed == hash as int / 0x1_0000_0000,
    {
        assert(hash >> 32 == hash / 0x1_0000_0000) by (bit_vector);
        (hash >> 32) as u32
    }
}

/// Cutting the range of hashes into shards keeps it even: a shard owns exactly the hashes
/// between its own multiple of 2^32 / shards and the next one, and there is no shard beyond
/// the last.
pub proof fn reduction_is_uniform(hash: u32, shards: u32)
    requires
        shards > 0,
    ensures
        0 <= reduced(hash, shards) < shards,
        forall|shard: int|
            #![trigger shard * 0x1_0000_0000]
            reduced(hash, shards) == shard <==> shard * 0x1_0000_0000 <= hash * shards < (shard + 1)
                * 0x1_0000_0000,
{
    assert(0 <= hash * shards < shards * 0x1_0000_0000) by (nonlinear_arith)
        requires
            0 <= hash <= 0xffff_ffff,
            0 < shards,
    ;
}

/// A later hash never falls to an earlier shard.
pub proof fn reduction_keeps_the_order(hash: u32, later: u32, shards: u32)
    requires
        shards > 0,
        hash <= later,
    ensures
        reduced(hash, shards) <= reduced(later, shards) < shards,
{
    reduction_is_uniform(later, shards);
    assert(hash * shards <= later * shards) by (nonlinear_arith)
        requires
            hash <= later,
            0 < shards,
    ;
}

/// The hashes that fall to a shard.
pub open spec fn hashes_of(shard: int, shards: u32) -> Set<int> {
    Set::new(|hash: int| 0 <= hash <= u32::MAX && reduced(hash as u32, shards) == shard)
}

/// `n / unit`, rounded up.
pub open spec fn rounded_up(n: int, unit: int) -> int {
    (n + unit - 1) / unit
}

/// The share of every shard is as even as whole numbers allow: of the 2^32 hashes it owns
/// 2^32 / shards, rounded down or up.
pub proof fn every_shard_owns_an_equal_share(shard: int, shards: u32)
    requires
        0 <= shard < shards,
    ensures
        hashes_of(shard, shards).finite(),
        ({
            let share = hashes_of(shard, shards).len();
            share == 0x1_0000_0000int / (shards as int) || share == rounded_up(
                0x1_0000_0000,
                shards as int,
            )
        }),
{
    let unit = shards as int;
    let first = rounded_up(shard * 0x1_0000_0000, unit);
    let next = rounded_up((shard + 1) * 0x1_0000_0000, unit);
    assert forall|hash: int| #[trigger]
        hashes_of(shard, shards).contains(hash) <==> first <= hash < next by {
        a_bound_rounded_up_bounds_alike(shard * 0x1_0000_0000, unit, hash);
        a_bound_rounded_up_bounds_alike((shard + 1) * 0x1_0000_0000, unit, hash);
        assert(hash < next ==> hash <= u32::MAX) by (nonlinear_arith)
            requires
                hash < next ==> hash * unit < (shard + 1) * 0x1_0000_0000,
                0 <= shard < unit,
        ;
        assert(first <= hash ==> 0 <= hash) by (nonlinear_arith)
            requires
                first <= hash ==> shard * 0x1_0000_0000 <= hash * unit,
                0 <= shard < unit,
        ;
        if 0 <= hash <= u32::MAX {
            reduction_is_uniform(hash as u32, shards);
            assert(reduced(hash as u32, shards) == shard <==> shard * 0x1_0000_0000 <= (hash as u32)
                * shards < (shard + 1) * 0x1_0000_0000);
        }
    }
    assert(hashes_of(shard, shards) =~= vstd::set_lib::set_int_range(first, next));
    shares_differ_by_one_at_most(shard, unit);
    vstd::set_lib::lemma_int_range(first, next);
}

/// A whole number reaches a bound exactly if it reaches the bound rounded up.
proof fn a_bound_rounded_up_bounds_alike(bound: int, unit: int, n: int)
    requires
        unit > 0,
    ensures
        rounded_up(bound, unit) <= n <==> bound <= n * unit,
{
    let up = rounded_up(bound, unit);
    vstd::arithmetic::div_mod::lemma_fundamental_div_mod(bound + unit - 1, unit);
    let rest = (bound + unit - 1) % unit;
    assert(up <= n <==> bound <= n * unit) by (nonlinear_arith)
        requires
            bound + unit - 1 == unit * up + rest,
            0 <= rest < unit,
    ;
}

/// Between two multiples of 2^32 / shards, both rounded up, lie 2^32 / shards whole numbers,
/// rounded down or up.
proof fn shares_differ_by_one_at_most(shard: int, shards: int)
    requires
        0 <= shard < shards,
    ensures
        ({
            let share = rounded_up((shard + 1) * 0x1_0000_0000, shards) - rounded_up(
                shard * 0x1_0000_0000,
                shards,
            );
            share == 0x1_0000_0000int / shards || share == rounded_up(0x1_0000_0000, shards)
        }),
{
    let all = 0x1_0000_0000int;
    let first = rounded_up(shard * all, shards);
    let next = rounded_up((shard + 1) * all, shards);
    let down = all / shards;
    let up = rounded_up(all, shards);
    vstd::arithmetic::div_mod::lemma_fundamental_div_mod(all, shards);
    a_bound_rounded_up_bounds_alike(shard * all, shards, first);
    a_bound_rounded_up_bounds_alike(shard * all, shards, first - 1);
    a_bound_rounded_up_bounds_alike((shard + 1) * all, shards, first + down - 1);
    a_bound_rounded_up_bounds_alike((shard + 1) * all, shards, first + up);
    a_bound_rounded_up_bounds_alike(all, shards, up);
    a_bound_rounded_up_bounds_alike(all, shards, down);
    a_bound_rounded_up_bounds_alike(all, shards, down + 1);
    assert((first + down - 1) * shards == (first - 1) * shards + down * shards)
        by (nonlinear_arith);
    assert((first + up) * shards == first * shards + up * shards) by (nonlinear_arith);
    assert((shard + 1) * all == shard * all + all) by (nonlinear_arith);
    assert((down + 1) * shards == down * shards + shards) by (nonlinear_arith);
    assert(down * shards == shards * down) by (nonlinear_arith);
}

/// The client that has a hash.
pub open spec fn unmixed(hash: u32, seed: u32) -> u32 {
    let h = (hash ^ (hash >> 16)).wrapping_mul(0x7ed1_b41d);
    (h ^ (h >> 13) ^ (h >> 26)).wrapping_mul(0xa5cb_9243) ^ seed
}

/// Multiplying by a factor and then by its inverse changes nothing.
proof fn an_inverse_undoes_its_factor(h: u32, factor: u32, inverse: u32)
    requires
        (factor * inverse) % 0x1_0000_0000 == 1,
    ensures
        h.wrapping_mul(factor).wrapping_mul(inverse) == h,
{
    let all = 0x1_0000_0000int;
    let product = h * factor;
    let whole = product / all;
    let rest = product % all;
    let turns = (factor * inverse) / all;
    assert(rest * inverse == all * (h * turns - whole * inverse) + h) by (nonlinear_arith)
        requires
            product == h * factor,
            product == all * whole + rest,
            factor * inverse == all * turns + 1,
    ;
    vstd::arithmetic::div_mod::lemma_fundamental_div_mod_converse(
        rest * inverse,
        all,
        h * turns - whole * inverse,
        h as int,
    );
}

/// Both multiplications of the mixer can be undone.
proof fn multiplying_can_be_undone(h: u32)
    ensures
        h.wrapping_mul(0x85eb_ca6b).wrapping_mul(0xa5cb_9243) == h,
        h.wrapping_mul(0xa5cb_9243).wrapping_mul(0x85eb_ca6b) == h,
        h.wrapping_mul(0xc2b2_ae35).wrapping_mul(0x7ed1_b41d) == h,
        h.wrapping_mul(0x7ed1_b41d).wrapping_mul(0xc2b2_ae35) == h,
{
    an_inverse_undoes_its_factor(h, 0x85eb_ca6b, 0xa5cb_9243);
    an_inverse_undoes_its_factor(h, 0xa5cb_9243, 0x85eb_ca6b);
    an_inverse_undoes_its_factor(h, 0xc2b2_ae35, 0x7ed1_b41d);
    an_inverse_undoes_its_factor(h, 0x7ed1_b41d, 0xc2b2_ae35);
}

/// For every seed the mixer is one to one: distinct clients have distinct hashes, and every
/// number is the hash of some client.
pub proof fn mixing_is_one_to_one(client: u32, other: u32, hash: u32, seed: u32)
    ensures
        mixed(client, seed) == mixed(other, seed) <==> client == other,
        mixed(unmixed(hash, seed), seed) == hash,
{
    a_hash_leads_back_to_its_client(client, seed);
    a_hash_leads_back_to_its_client(other, seed);
    every_number_is_a_hash(hash, seed);
}

/// A client is found again from its hash.
proof fn a_hash_leads_back_to_its_client(client: u32, seed: u32)
    ensures
        unmixed(mixed(client, seed), seed) == client,
{
    let a = (client ^ seed).wrapping_mul(0x85eb_ca6b);
    let b = (a ^ (a >> 13)).wrapping_mul(0xc2b2_ae35);
    multiplying_can_be_undone(client ^ seed);
    multiplying_can_be_undone(a ^ (a >> 13));
    assert((b ^ (b >> 16)) ^ ((b ^ (b >> 16)) >> 16) == b) by (bit_vector);
    assert((a ^ (a >> 13)) ^ ((a ^ (a >> 13)) >> 13) ^ ((a ^ (a >> 13)) >> 26) == a)
        by (bit_vector);
    assert((client ^ seed) ^ seed == client) by (bit_vector);
}

/// Every number is the hash of the client that is found from it.
proof fn every_number_is_a_hash(hash: u32, seed: u32)
    ensures
        mixed(unmixed(hash, seed), seed) == hash,
{
    let a = (hash ^ (hash >> 16)).wrapping_mul(0x7ed1_b41d);
    let b = (a ^ (a >> 13) ^ (a >> 26)).wrapping_mul(0xa5cb_9243);
    multiplying_can_be_undone(hash ^ (hash >> 16));
    multiplying_can_be_undone(a ^ (a >> 13) ^ (a >> 26));
    assert((b ^ seed) ^ seed == b) by (bit_vector);
    assert((a ^ (a >> 13) ^ (a >> 26)) ^ ((a ^ (a >> 13) ^ (a >> 26)) >> 13) == a)
        by (bit_vector);
    assert((hash ^ (hash >> 16)) ^ ((hash ^ (hash >> 16)) >> 16) == hash) by (bit_vector);
}

/// The seed only shifts the clients about: it is as if another client had been mixed without a
/// seed. The client that is the seed has the hash zero.
pub proof fn a_seed_stands_for_another_client(client: u32, seed: u32)
    ensures
        mixed(client, seed) == mixed(client ^ seed, 0),
        mixed(client, client) == 0,
{
    assert((client ^ seed) ^ 0 == client ^ seed) by (bit_vector);
    assert(client ^ client == 0) by (bit_vector);
    assert(0u32 ^ (0u32 >> 13) == 0) by (bit_vector);
    assert(0u32 ^ (0u32 >> 16) == 0) by (bit_vector);
}

/// One shard takes everything.
pub proof fn one_shard_owns_every_client(client: u32, seed: u32)
    ensures
        owner(client, seed, 1) == 0,
{
    reduction_is_uniform(mixed(client, seed), 1);
}

} // verus!
