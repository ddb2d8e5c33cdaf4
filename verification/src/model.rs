//! The mathematical model of the table: what a chain is, what a probe of one
//! start column computes, and what a full search returns.  Every executable
//! contract in the crate is stated over these functions.

use crate::capability::{Hasher, Reducer};
use vstd::prelude::*;

verus! {

/// The terminal plaintext of the chain segment that enters at column `i`
/// with digest `d`: apply `reduce_i`, then hash and reduce through the last
/// column.
pub open spec fn tail_from<H: Hasher, R: Reducer>(h: H, rs: Seq<R>, i: int, d: Seq<char>) -> Seq<
    char,
>
    decreases rs.len() - i,
{
    let p = rs[i].reduce_spec(d);
    if i + 1 < rs.len() {
        tail_from(h, rs, i + 1, h.digest_spec(p))
    } else {
        p
    }
}

/// The terminal plaintext of the chain continued from plaintext `p` sitting
/// at column `j`: if all columns are already applied the chain ends at `p`,
/// otherwise it continues by hashing `p` and entering column `j`.
pub open spec fn tail_cont<H: Hasher, R: Reducer>(h: H, rs: Seq<R>, j: int, p: Seq<char>) -> Seq<
    char,
> {
    if j >= rs.len() {
        p
    } else {
        tail_from(h, rs, j, h.digest_spec(p))
    }
}

/// The terminal plaintext of the full chain grown from `seed`.  With no
/// reduction columns the chain is just the seed itself.
pub open spec fn chain_tail<H: Hasher, R: Reducer>(h: H, rs: Seq<R>, seed: Seq<char>) -> Seq<
    char,
> {
    tail_cont(h, rs, 0, seed)
}

/// Replay a chain from plaintext `v` sitting at column `j`, looking for the
/// plaintext whose digest is `target`: the first such plaintext among the
/// chain positions `j..=rs.len()`, if any.
pub open spec fn replay_from<H: Hasher, R: Reducer>(
    h: H,
    rs: Seq<R>,
    j: int,
    v: Seq<char>,
    target: Seq<char>,
) -> Option<Seq<char>>
    decreases rs.len() - j,
{
    if h.digest_spec(v) == target {
        Some(v)
    } else if j >= rs.len() {
        None
    } else {
        replay_from(h, rs, j + 1, rs[j].reduce_spec(h.digest_spec(v)), target)
    }
}

/// One probe of the search: assume `target` enters a chain at column `i`,
/// compute the terminal plaintext of that segment, and if the store knows
/// that tail, replay the whole chain from the stored seed.  A replay that
/// never meets `target` is a false positive and the probe reports nothing.
pub open spec fn probe_spec<H: Hasher, R: Reducer>(
    h: H,
    rs: Seq<R>,
    chains: Map<Seq<char>, Seq<char>>,
    target: Seq<char>,
    i: int,
) -> Option<Seq<char>> {
    let tail = tail_from(h, rs, i, target);
    if chains.contains_key(tail) {
        replay_from(h, rs, 0, chains[tail], target)
    } else {
        None
    }
}

/// The search restricted to start columns `0..=i`, probed in descending
/// order: the result of the first successful probe, if any.
pub open spec fn search_from<H: Hasher, R: Reducer>(
    h: H,
    rs: Seq<R>,
    chains: Map<Seq<char>, Seq<char>>,
    target: Seq<char>,
    i: int,
) -> Option<Seq<char>>
    decreases i + 1,
{
    if i < 0 {
        None
    } else {
        let r = probe_spec(h, rs, chains, target, i);
        if r is Some {
            r
        } else {
            search_from(h, rs, chains, target, i - 1)
        }
    }
}

/// The result of a full sequential search for `target`: every start column
/// tried, highest first.
pub open spec fn find_spec<H: Hasher, R: Reducer>(
    h: H,
    rs: Seq<R>,
    chains: Map<Seq<char>, Seq<char>>,
    target: Seq<char>,
) -> Option<Seq<char>> {
    search_from(h, rs, chains, target, rs.len() - 1)
}

/// The character sequences held by a vector of owned string pairs.
pub open spec fn pair_views(s: Seq<(String, String)>) -> Seq<(Seq<char>, Seq<char>)> {
    Seq::new(s.len(), |i: int| (s[i].0@, s[i].1@))
}

/// The mapping described by a sequence of key/value pairs, inserted in
/// order: on a repeated key the later pair wins.
pub open spec fn map_of_pairs(s: Seq<(Seq<char>, Seq<char>)>) -> Map<Seq<char>, Seq<char>>
    decreases s.len(),
{
    if s.len() == 0 {
        Map::empty()
    } else {
        map_of_pairs(s.drop_last()).insert(s.last().0, s.last().1)
    }
}

/// `m` with the pairs of `s` inserted in order, later pairs winning; the
/// overwrite-on-collision policy of the store, applied to a merge.
pub open spec fn merged_map(
    m: Map<Seq<char>, Seq<char>>,
    s: Seq<(Seq<char>, Seq<char>)>,
) -> Map<Seq<char>, Seq<char>>
    decreases s.len(),
{
    if s.len() == 0 {
        m
    } else {
        merged_map(m, s.drop_last()).insert(s.last().0, s.last().1)
    }
}

/// No two pairs share a key.
pub open spec fn unique_keys(s: Seq<(Seq<char>, Seq<char>)>) -> bool {
    forall|i: int, j: int| 0 <= i < j < s.len() ==> s[i].0 != s[j].0
}

/// The character sequences held by a vector of owned strings.
pub open spec fn str_views(s: Seq<String>) -> Seq<Seq<char>> {
    Seq::new(s.len(), |i: int| s[i]@)
}

/// The store after growing one chain per seed, in order: each seed's chain
/// tail is mapped to that seed, later seeds winning tail collisions.
pub open spec fn seeded_map<H: Hasher, R: Reducer>(
    h: H,
    rs: Seq<R>,
    m: Map<Seq<char>, Seq<char>>,
    seeds: Seq<Seq<char>>,
) -> Map<Seq<char>, Seq<char>>
    decreases seeds.len(),
{
    if seeds.len() == 0 {
        m
    } else {
        seeded_map(h, rs, m, seeds.drop_last()).insert(
            chain_tail(h, rs, seeds.last()),
            seeds.last(),
        )
    }
}

/// The character sequence held by an optional owned string.
pub open spec fn opt_view(o: Option<String>) -> Option<Seq<char>> {
    match o {
        Some(s) => Some(s@),
        None => None,
    }
}

/// Whatever a replay returns really is a preimage: its digest is the target.
pub proof fn lemma_replay_from_sound<H: Hasher, R: Reducer>(
    h: H,
    rs: Seq<R>,
    j: int,
    v: Seq<char>,
    target: Seq<char>,
)
    ensures
        replay_from(h, rs, j, v, target) matches Some(w) ==> h.digest_spec(w) == target,
    decreases rs.len() - j,
{
    if h.digest_spec(v) == target {
    } else if j < rs.len() {
        lemma_replay_from_sound(h, rs, j + 1, rs[j].reduce_spec(h.digest_spec(v)), target);
    }
}

/// Whatever a search returns really is a preimage: its digest is the target.
pub proof fn lemma_search_from_sound<H: Hasher, R: Reducer>(
    h: H,
    rs: Seq<R>,
    chains: Map<Seq<char>, Seq<char>>,
    target: Seq<char>,
    i: int,
)
    ensures
        search_from(h, rs, chains, target, i) matches Some(w) ==> h.digest_spec(w) == target,
    decreases i + 1,
{
    if i >= 0 {
        if probe_spec(h, rs, chains, target, i) is Some {
            let tail = tail_from(h, rs, i, target);
            lemma_replay_from_sound(h, rs, 0, chains[tail], target);
        } else {
            lemma_search_from_sound(h, rs, chains, target, i - 1);
        }
    }
}

/// A successful probe at column `i` makes every search that reaches down to
/// column `i` succeed as well.
pub proof fn lemma_search_covers<H: Hasher, R: Reducer>(
    h: H,
    rs: Seq<R>,
    chains: Map<Seq<char>, Seq<char>>,
    target: Seq<char>,
    i: int,
    j: int,
)
    requires
        0 <= i <= j,
        probe_spec(h, rs, chains, target, i) is Some,
    ensures
        search_from(h, rs, chains, target, j) is Some,
    decreases j,
{
    if j > i && probe_spec(h, rs, chains, target, j) is None {
        lemma_search_covers(h, rs, chains, target, i, j - 1);
    }
}

/// Whatever a search returns came out of one of its probes: a hit is the
/// result of some start column's probe.
pub proof fn lemma_search_some_probe<H: Hasher, R: Reducer>(
    h: H,
    rs: Seq<R>,
    chains: Map<Seq<char>, Seq<char>>,
    target: Seq<char>,
    i: int,
)
    ensures
        search_from(h, rs, chains, target, i) matches Some(w) ==> exists|j: int|
            0 <= j <= i && #[trigger] probe_spec(h, rs, chains, target, j) == Some(w),
    decreases i + 1,
{
    if i >= 0 {
        if probe_spec(h, rs, chains, target, i) is Some {
            assert(probe_spec(h, rs, chains, target, i) == search_from(h, rs, chains, target, i));
        } else {
            lemma_search_some_probe(h, rs, chains, target, i - 1);
        }
    }
}

/// When every probe down to column 0 misses, the search reports nothing.
pub proof fn lemma_search_all_none<H: Hasher, R: Reducer>(
    h: H,
    rs: Seq<R>,
    chains: Map<Seq<char>, Seq<char>>,
    target: Seq<char>,
    i: int,
)
    requires
        forall|j: int| 0 <= j <= i ==> #[trigger] probe_spec(h, rs, chains, target, j) is None,
    ensures
        search_from(h, rs, chains, target, i) is None,
    decreases i + 1,
{
    if i >= 0 {
        lemma_search_all_none(h, rs, chains, target, i - 1);
    }
}

/// A key is in the mapping described by a pair sequence exactly when some
/// pair carries it.
pub proof fn lemma_map_of_pairs_contains(s: Seq<(Seq<char>, Seq<char>)>, k: Seq<char>)
    ensures
        map_of_pairs(s).contains_key(k) <==> exists|i: int| 0 <= i < s.len() && s[i].0 == k,
    decreases s.len(),
{
    if s.len() > 0 {
        lemma_map_of_pairs_contains(s.drop_last(), k);
        if s.last().0 == k {
            assert(s[s.len() - 1].0 == k);
        } else {
            if map_of_pairs(s).contains_key(k) {
                let i = choose|i: int| 0 <= i < s.drop_last().len() && s.drop_last()[i].0 == k;
                assert(s[i].0 == k);
            }
            if exists|i: int| 0 <= i < s.len() && s[i].0 == k {
                let i = choose|i: int| 0 <= i < s.len() && s[i].0 == k;
                assert(s.drop_last()[i].0 == k);
            }
        }
    }
}

/// The mapping described by a pair sequence sends the key of pair `i` to its
/// value, provided no later pair repeats that key.
pub proof fn lemma_map_of_pairs_value(s: Seq<(Seq<char>, Seq<char>)>, i: int)
    requires
        0 <= i < s.len(),
        forall|j: int| i < j < s.len() ==> s[j].0 != s[i].0,
    ensures
        map_of_pairs(s).contains_key(s[i].0),
        map_of_pairs(s)[s[i].0] == s[i].1,
    decreases s.len(),
{
    if i == s.len() - 1 {
    } else {
        assert(s.drop_last()[i] == s[i]);
        lemma_map_of_pairs_value(s.drop_last(), i);
        assert(s.last().0 != s[i].0);
    }
}

/// Overwriting the value of the pair that carries key `k` describes the same
/// mapping as inserting `(k, v)`, when no other pair carries `k`.
pub proof fn lemma_map_of_pairs_update(s: Seq<(Seq<char>, Seq<char>)>, i: int, v: Seq<char>)
    requires
        unique_keys(s),
        0 <= i < s.len(),
    ensures
        unique_keys(s.update(i, (s[i].0, v))),
        map_of_pairs(s.update(i, (s[i].0, v))) == map_of_pairs(s).insert(s[i].0, v),
    decreases s.len(),
{
    let k = s[i].0;
    let t = s.update(i, (k, v));
    assert forall|x: int, y: int| 0 <= x < y < t.len() implies t[x].0 != t[y].0 by {
        assert(s[x].0 != s[y].0);
    }
    if i == s.len() - 1 {
        assert(t.drop_last() =~= s.drop_last());
        assert(t.last() == (k, v));
        assert(map_of_pairs(t) == map_of_pairs(s.drop_last()).insert(k, v));
        assert(map_of_pairs(s.drop_last()).insert(k, s[i].1).insert(k, v) =~= map_of_pairs(
            s.drop_last(),
        ).insert(k, v));
    } else {
        assert(t.drop_last() =~= s.drop_last().update(i, (k, v)));
        assert(s.drop_last()[i] == s[i]);
        lemma_map_of_pairs_update(s.drop_last(), i, v);
        assert(t.last() == s.last());
        // the final inserted key differs from `k`, so the two inserts commute
        assert(s.last().0 != k);
        assert(map_of_pairs(s.drop_last()).insert(k, v).insert(s.last().0, s.last().1)
            =~= map_of_pairs(s.drop_last()).insert(s.last().0, s.last().1).insert(k, v));
    }
}

/// Appending a pair with a fresh key describes the same mapping as inserting
/// it, and keeps the keys unique.
pub proof fn lemma_map_of_pairs_push(s: Seq<(Seq<char>, Seq<char>)>, k: Seq<char>, v: Seq<char>)
    requires
        unique_keys(s),
        forall|i: int| 0 <= i < s.len() ==> s[i].0 != k,
    ensures
        unique_keys(s.push((k, v))),
        map_of_pairs(s.push((k, v))) == map_of_pairs(s).insert(k, v),
{
    let t = s.push((k, v));
    assert(t.drop_last() =~= s);
    assert(t.last() == (k, v));
    assert forall|x: int, y: int| 0 <= x < y < t.len() implies t[x].0 != t[y].0 by {
        if y < s.len() {
            assert(s[x].0 != s[y].0);
        }
    }
}

/// Merging a pair sequence into the empty mapping describes exactly the
/// mapping of that sequence.
pub proof fn lemma_merged_map_empty(s: Seq<(Seq<char>, Seq<char>)>)
    ensures
        merged_map(Map::empty(), s) == map_of_pairs(s),
    decreases s.len(),
{
    if s.len() > 0 {
        lemma_merged_map_empty(s.drop_last());
    }
}

} // verus!
