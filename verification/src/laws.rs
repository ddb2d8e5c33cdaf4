//! Laws of the table, stated over the model and proved once and for all.
//!
//! Each law quantifies over every hasher, reducer family and store state the
//! table can hold; the executable functions' contracts tie their results to
//! the same model functions, so these laws carry over to the running code.

use crate::capability::{Hasher, Reducer};
use crate::model::{
    chain_tail, find_spec, lemma_merged_map_empty, lemma_search_covers, lemma_search_some_probe,
    map_of_pairs, merged_map, probe_spec, replay_from, search_from, tail_from,
};
use vstd::prelude::*;

verus! {

/// Every probe of a search over `chains` either misses or returns `w`.
proof fn lemma_search_constant<H: Hasher, R: Reducer>(
    h: H,
    rs: Seq<R>,
    chains: Map<Seq<char>, Seq<char>>,
    target: Seq<char>,
    w: Seq<char>,
    i: int,
)
    requires
        0 <= i < rs.len(),
        probe_spec(h, rs, chains, target, 0) == Some(w),
        forall|j: int|
            0 <= j < rs.len() ==> (#[trigger] probe_spec(h, rs, chains, target, j) is None
                || probe_spec(h, rs, chains, target, j) == Some(w)),
    ensures
        search_from(h, rs, chains, target, i) == Some(w),
    decreases i + 1,
{
    if i > 0 && probe_spec(h, rs, chains, target, i) is None {
        lemma_search_constant(h, rs, chains, target, w, i - 1);
    }
}

/// Round-trip: a table holding exactly the chain of `seed` recovers `seed`
/// when searched for the digest of `seed` itself.  At least one reduction
/// column is needed: with none there are no start columns and every search
/// reports not-found.
pub proof fn lemma_seed_round_trip<H: Hasher, R: Reducer>(h: H, rs: Seq<R>, seed: Seq<char>)
    requires
        rs.len() >= 1,
    ensures
        find_spec(
            h,
            rs,
            Map::<Seq<char>, Seq<char>>::empty().insert(chain_tail(h, rs, seed), seed),
            h.digest_spec(seed),
        ) == Some(seed),
{
    let target = h.digest_spec(seed);
    let tail = chain_tail(h, rs, seed);
    let m = Map::<Seq<char>, Seq<char>>::empty().insert(tail, seed);
    assert(replay_from(h, rs, 0, seed, target) == Some(seed));
    assert(tail_from(h, rs, 0, target) == tail);
    assert(probe_spec(h, rs, m, target, 0) == Some(seed));
    assert forall|j: int| 0 <= j < rs.len() implies (#[trigger] probe_spec(h, rs, m, target, j)
        is None || probe_spec(h, rs, m, target, j) == Some(seed)) by {
        if m.contains_key(tail_from(h, rs, j, target)) {
            assert(m[tail_from(h, rs, j, target)] == seed);
        }
    }
    lemma_search_constant(h, rs, m, target, seed, rs.len() - 1);
}

/// Every probe of a search over `chains` misses when no stored chain
/// replays to `target`.
proof fn lemma_search_no_replay<H: Hasher, R: Reducer>(
    h: H,
    rs: Seq<R>,
    chains: Map<Seq<char>, Seq<char>>,
    target: Seq<char>,
    i: int,
)
    requires
        forall|k: Seq<char>| #[trigger]
            chains.contains_key(k) ==> replay_from(h, rs, 0, chains[k], target) is None,
    ensures
        search_from(h, rs, chains, target, i) is None,
    decreases i + 1,
{
    if i >= 0 {
        lemma_search_no_replay(h, rs, chains, target, i - 1);
    }
}

/// Not-found on absent coverage: a digest that no plaintext reachable from
/// any stored chain hashes to — no chain replayed from any stored seed ever
/// meets it — is reported not-found.
pub proof fn lemma_absent_coverage_not_found<H: Hasher, R: Reducer>(
    h: H,
    rs: Seq<R>,
    chains: Map<Seq<char>, Seq<char>>,
    target: Seq<char>,
)
    requires
        forall|k: Seq<char>| #[trigger]
            chains.contains_key(k) ==> replay_from(h, rs, 0, chains[k], target) is None,
    ensures
        find_spec(h, rs, chains, target) is None,
{
    lemma_search_no_replay(h, rs, chains, target, rs.len() - 1);
}

/// Idempotent seeding: growing the chain of the same seed twice leaves the
/// store, and therefore every lookup, exactly as growing it once does.
pub proof fn lemma_idempotent_seeding<H: Hasher, R: Reducer>(
    h: H,
    rs: Seq<R>,
    chains: Map<Seq<char>, Seq<char>>,
    seed: Seq<char>,
    target: Seq<char>,
)
    ensures
        find_spec(
            h,
            rs,
            chains.insert(chain_tail(h, rs, seed), seed).insert(chain_tail(h, rs, seed), seed),
            target,
        ) == find_spec(h, rs, chains.insert(chain_tail(h, rs, seed), seed), target),
{
    let tail = chain_tail(h, rs, seed);
    assert(chains.insert(tail, seed).insert(tail, seed) =~= chains.insert(tail, seed));
}

/// At most one plaintext is recoverable for `target`: any two stored chains
/// whose replays meet `target` recover the same plaintext.  This holds in
/// particular whenever at most one plaintext reachable from the stored
/// chains hashes to `target`.
pub open spec fn unique_recovery<H: Hasher, R: Reducer>(
    h: H,
    rs: Seq<R>,
    chains: Map<Seq<char>, Seq<char>>,
    target: Seq<char>,
) -> bool {
    forall|k1: Seq<char>, k2: Seq<char>|
        #![trigger replay_from(h, rs, 0, chains[k1], target), replay_from(
            h,
            rs,
            0,
            chains[k2],
            target,
        )]
        chains.contains_key(k1) && chains.contains_key(k2) && replay_from(
            h,
            rs,
            0,
            chains[k1],
            target,
        ) is Some && replay_from(h, rs, 0, chains[k2], target) is Some ==> replay_from(
            h,
            rs,
            0,
            chains[k1],
            target,
        ) == replay_from(h, rs, 0, chains[k2], target)
}

/// Sequential/concurrent equivalence and worker-count invariance: when at
/// most one plaintext is recoverable for `target`, every search result that
/// is pinned to a successful probe on a hit and authoritative on not-found —
/// the contract of the concurrent search, for every worker count — equals
/// the sequential search's result.
pub proof fn lemma_unique_recovery_result<H: Hasher, R: Reducer>(
    h: H,
    rs: Seq<R>,
    chains: Map<Seq<char>, Seq<char>>,
    target: Seq<char>,
    r: Option<Seq<char>>,
)
    requires
        unique_recovery(h, rs, chains, target),
        (r matches Some(p) ==> exists|i: int|
            0 <= i < rs.len() && #[trigger] probe_spec(h, rs, chains, target, i) == Some(p)),
        (r is None ==> find_spec(h, rs, chains, target) is None),
    ensures
        r == find_spec(h, rs, chains, target),
{
    match r {
        Some(p) => {
            let i = choose|i: int|
                0 <= i < rs.len() && probe_spec(h, rs, chains, target, i) == Some(p);
            lemma_search_covers(h, rs, chains, target, i, rs.len() - 1);
            lemma_search_some_probe(h, rs, chains, target, rs.len() - 1);
            let w = choose|w: Seq<char>| find_spec(h, rs, chains, target) == Some(w);
            let j = choose|j: int|
                0 <= j <= rs.len() - 1 && probe_spec(h, rs, chains, target, j) == Some(w);
            let t1 = tail_from(h, rs, i, target);
            let t2 = tail_from(h, rs, j, target);
            assert(chains.contains_key(t1) && replay_from(h, rs, 0, chains[t1], target) == Some(
                p,
            ));
            assert(chains.contains_key(t2) && replay_from(h, rs, 0, chains[t2], target) == Some(
                w,
            ));
            assert(p == w);
        },
        None => {},
    }
}

/// Round-trip through any conforming search: on a table holding exactly the
/// chain of `seed`, a search result for the digest of `seed` that is pinned
/// to a successful probe on a hit and authoritative on not-found can only be
/// `seed` itself.
pub proof fn lemma_seed_round_trip_result<H: Hasher, R: Reducer>(
    h: H,
    rs: Seq<R>,
    seed: Seq<char>,
    r: Option<Seq<char>>,
)
    requires
        rs.len() >= 1,
        (r matches Some(p) ==> exists|i: int|
            0 <= i < rs.len() && #[trigger] probe_spec(
                h,
                rs,
                Map::<Seq<char>, Seq<char>>::empty().insert(chain_tail(h, rs, seed), seed),
                h.digest_spec(seed),
                i,
            ) == Some(p)),
        (r is None ==> find_spec(
            h,
            rs,
            Map::<Seq<char>, Seq<char>>::empty().insert(chain_tail(h, rs, seed), seed),
            h.digest_spec(seed),
        ) is None),
    ensures
        r == Some(seed),
{
    let m = Map::<Seq<char>, Seq<char>>::empty().insert(chain_tail(h, rs, seed), seed);
    let target = h.digest_spec(seed);
    lemma_seed_round_trip(h, rs, seed);
    assert forall|k1: Seq<char>, k2: Seq<char>|
        m.contains_key(k1) && m.contains_key(k2) && replay_from(h, rs, 0, m[k1], target) is Some
            && replay_from(h, rs, 0, m[k2], target) is Some implies #[trigger] replay_from(
        h,
        rs,
        0,
        m[k1],
        target,
    ) == #[trigger] replay_from(h, rs, 0, m[k2], target) by {
        assert(k1 == chain_tail(h, rs, seed));
        assert(k2 == chain_tail(h, rs, seed));
    }
    lemma_unique_recovery_result(h, rs, m, target, r);
}

/// Import/export round-trip: merging an exported pair list into a fresh
/// store rebuilds the exported mapping exactly, so every lookup behaves as
/// it did on the original table.
pub proof fn lemma_export_reconstruct_round_trip<H: Hasher, R: Reducer>(
    h: H,
    rs: Seq<R>,
    chains: Map<Seq<char>, Seq<char>>,
    pairs: Seq<(Seq<char>, Seq<char>)>,
    target: Seq<char>,
)
    requires
        map_of_pairs(pairs) == chains,
    ensures
        merged_map(Map::<Seq<char>, Seq<char>>::empty(), pairs) == chains,
        find_spec(h, rs, merged_map(Map::<Seq<char>, Seq<char>>::empty(), pairs), target)
            == find_spec(h, rs, chains, target),
{
    lemma_merged_map_empty(pairs);
}

} // verus!
