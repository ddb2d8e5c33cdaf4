//! The rainbow table itself: the chain store, the builder, the sequential
//! searcher and import/export.
//!
//! The chain store maps a chain's terminal plaintext (its tail) to the seed
//! the chain was grown from.  Keys are unique; inserting a tail that is
//! already present silently overwrites the earlier seed.  That is the
//! deliberate, documented collision policy of a rainbow table — a merge of
//! two chains loses the earlier one — not an error condition.

use crate::capability::{Hasher, Reducer};
use crate::model::{
    chain_tail, find_spec, lemma_map_of_pairs_contains, lemma_map_of_pairs_push,
    lemma_map_of_pairs_update, lemma_map_of_pairs_value, lemma_replay_from_sound,
    lemma_search_all_none, lemma_search_covers, lemma_search_from_sound, lemma_search_some_probe,
    map_of_pairs, merged_map,
    opt_view, pair_views, probe_spec, replay_from, search_from, seeded_map, str_views, tail_cont,
    tail_from, unique_keys,
};
use crate::search::{available_workers, outcome_ok, run_workers, HaltFlag, WorkerOutcome};
use vstd::prelude::*;

verus! {

/// The JSON object text that serialises a tail-to-seed mapping, with the
/// keys in sorted order.  Named rather than written out: the exact text is a
/// function of the mapping alone, fixed by the serialiser.
pub uninterp spec fn json_of(m: Map<Seq<char>, Seq<char>>) -> Seq<char>;

/// Relies on serde_json::to_string over a std::collections::BTreeMap of
/// strings: the output is a deterministic function of the key-value mapping
/// (a BTreeMap iterates its keys in sorted order), and serialising a map
/// with string keys and string values cannot fail.
#[verifier::external_body]
fn pairs_to_json(pairs: &Vec<(String, String)>) -> (r: String)
    requires
        unique_keys(pair_views(pairs@)),
    ensures
        r@ == json_of(map_of_pairs(pair_views(pairs@))),
{
    let m: std::collections::BTreeMap<&str, &str> = pairs.iter().map(
        |p| (p.0.as_str(), p.1.as_str()),
    ).collect();
    serde_json::to_string(&m).unwrap()
}

/// A rainbow table: an ordered sequence of reduction columns, the hashing
/// capability, and the store of (tail, seed) pairs.
pub struct RainbowTable<H: Hasher, R: Reducer> {
    chains: Vec<(String, String)>,
    hasher: H,
    reducers: Vec<R>,
}

impl<H: Hasher, R: Reducer> RainbowTable<H, R> {
    /// The store never holds two pairs with the same tail.
    #[verifier::type_invariant]
    spec fn wf(self) -> bool {
        unique_keys(pair_views(self.chains@))
    }

    /// The hashing capability the table was built with.
    pub closed spec fn spec_hasher(&self) -> H {
        self.hasher
    }

    /// The reduction columns the table was built with, in application order.
    pub closed spec fn spec_reducers(&self) -> Seq<R> {
        self.reducers@
    }

    /// The `(tail, seed)` pairs currently held by the store, in store order.
    pub closed spec fn spec_chains(&self) -> Seq<(Seq<char>, Seq<char>)> {
        pair_views(self.chains@)
    }

    /// The tail-to-seed mapping currently held by the store.
    pub open spec fn chains_map(&self) -> Map<Seq<char>, Seq<char>> {
        map_of_pairs(self.spec_chains())
    }

    /// The result the sequential search computes for `target`.
    pub open spec fn spec_find(&self, target: Seq<char>) -> Option<Seq<char>> {
        find_spec(self.spec_hasher(), self.spec_reducers(), self.chains_map(), target)
    }

    /// Construct an empty table over the given capabilities.
    pub fn new(hasher: H, reducers: Vec<R>) -> (t: RainbowTable<H, R>)
        ensures
            t.spec_hasher() == hasher,
            t.spec_reducers() == reducers@,
            t.chains_map() == Map::<Seq<char>, Seq<char>>::empty(),
    {
        let t = RainbowTable { chains: Vec::new(), hasher, reducers };
        proof {
            assert(pair_views(t.chains@) =~= Seq::<(Seq<char>, Seq<char>)>::empty());
        }
        t
    }

    /// The position of the pair holding `key` as its tail, if any.
    fn find_key_index(&self, key: &String) -> (r: Option<usize>)
        ensures
            match r {
                Some(i) => i < self.chains@.len() && self.chains@[i as int].0@ == key@,
                None => forall|i: int| 0 <= i < self.chains@.len() ==> self.chains@[i].0@ != key@,
            },
    {
        let n = self.chains.len();
        let mut j: usize = 0;
        while j < n
            invariant
                j <= n,
                n == self.chains@.len(),
                forall|t: int| 0 <= t < j ==> self.chains@[t].0@ != key@,
            decreases n - j,
        {
            if self.chains[j].0 == *key {
                return Some(j);
            }
            j += 1;
        }
        None
    }

    /// The seed stored for the chain whose tail is `tail`, if any.
    fn chain_seed(&self, tail: &String) -> (r: Option<&String>)
        ensures
            match r {
                Some(seed) => self.chains_map().contains_key(tail@) && seed@
                    == self.chains_map()[tail@],
                None => !self.chains_map().contains_key(tail@),
            },
    {
        proof {
            use_type_invariant(&*self);
            lemma_map_of_pairs_contains(pair_views(self.chains@), tail@);
        }
        match self.find_key_index(tail) {
            Some(i) => {
                proof {
                    assert(pair_views(self.chains@)[i as int].0 == tail@);
                    lemma_map_of_pairs_value(pair_views(self.chains@), i as int);
                }
                Some(&self.chains[i].1)
            },
            None => {
                proof {
                    assert(forall|i: int|
                        0 <= i < pair_views(self.chains@).len() ==> pair_views(self.chains@)[i].0
                            != tail@);
                }
                None
            },
        }
    }

    /// Insert `(key, value)` into the store; an existing pair with the same
    /// tail is overwritten (last write wins).
    fn insert_chain(&mut self, key: String, value: String)
        ensures
            final(self).spec_hasher() == old(self).spec_hasher(),
            final(self).spec_reducers() == old(self).spec_reducers(),
            final(self).chains_map() == old(self).chains_map().insert(key@, value@),
    {
        proof {
            use_type_invariant(&*self);
        }
        match self.find_key_index(&key) {
            Some(i) => {
                let ghost old_views = pair_views(self.chains@);
                proof {
                    assert(old_views[i as int].0 == key@);
                    lemma_map_of_pairs_update(old_views, i as int, value@);
                }
                let mut v: Vec<(String, String)> = Vec::new();
                proof {
                    assert(pair_views(v@) =~= Seq::<(Seq<char>, Seq<char>)>::empty());
                }
                std::mem::swap(&mut v, &mut self.chains);
                v[i] = (key, value);
                proof {
                    assert(pair_views(v@) =~= old_views.update(
                        i as int,
                        (old_views[i as int].0, value@),
                    ));
                }
                self.chains = v;
            },
            None => {
                proof {
                    lemma_map_of_pairs_push(pair_views(self.chains@), key@, value@);
                }
                let ghost old_views = pair_views(self.chains@);
                let ghost kv = (key@, value@);
                let mut v: Vec<(String, String)> = Vec::new();
                proof {
                    assert(pair_views(v@) =~= Seq::<(Seq<char>, Seq<char>)>::empty());
                }
                std::mem::swap(&mut v, &mut self.chains);
                v.push((key, value));
                proof {
                    assert(pair_views(v@) =~= old_views.push(kv));
                }
                self.chains = v;
            },
        }
    }

    /// Grow the chain for `seed` through every reduction column and store
    /// its `(tail, seed)` pair; an existing chain with the same tail is
    /// overwritten.
    pub fn add_seed(&mut self, seed: &str)
        ensures
            final(self).spec_hasher() == old(self).spec_hasher(),
            final(self).spec_reducers() == old(self).spec_reducers(),
            final(self).chains_map() == old(self).chains_map().insert(
                chain_tail(old(self).spec_hasher(), old(self).spec_reducers(), seed@),
                seed@,
            ),
    {
        let n = self.reducers.len();
        let mut value: String = seed.to_owned();
        let mut j: usize = 0;
        while j < n
            invariant
                j <= n,
                n == self.spec_reducers().len(),
                chain_tail(self.spec_hasher(), self.spec_reducers(), seed@) == tail_cont(
                    self.spec_hasher(),
                    self.spec_reducers(),
                    j as int,
                    value@,
                ),
            decreases n - j,
        {
            let h = self.hasher.digest(value.as_str());
            value = self.reducers[j].reduce(h.as_str());
            j += 1;
        }
        self.insert_chain(value, seed.to_owned());
    }

    /// Grow one chain per seed, in sequence order.  Nothing is deduplicated
    /// beyond the store's overwrite-on-collision policy.
    pub fn add_seeds(&mut self, seeds: &[String])
        ensures
            final(self).spec_hasher() == old(self).spec_hasher(),
            final(self).spec_reducers() == old(self).spec_reducers(),
            final(self).chains_map() == seeded_map(
                old(self).spec_hasher(),
                old(self).spec_reducers(),
                old(self).chains_map(),
                str_views(seeds@),
            ),
    {
        let n = seeds.len();
        let mut i: usize = 0;
        while i < n
            invariant
                i <= n,
                n == seeds@.len(),
                self.spec_hasher() == old(self).spec_hasher(),
                self.spec_reducers() == old(self).spec_reducers(),
                self.chains_map() == seeded_map(
                    old(self).spec_hasher(),
                    old(self).spec_reducers(),
                    old(self).chains_map(),
                    str_views(seeds@).take(i as int),
                ),
            decreases n - i,
        {
            self.add_seed(seeds[i].as_str());
            proof {
                let views = str_views(seeds@);
                assert(views.take(i + 1).drop_last() =~= views.take(i as int));
                assert(views.take(i + 1).last() == seeds@[i as int]@);
            }
            i += 1;
        }
        proof {
            assert(str_views(seeds@).take(n as int) =~= str_views(seeds@));
        }
    }

    /// Merge an externally supplied tail-to-seed mapping into the store,
    /// entry by entry, following the same overwrite-on-collision policy as
    /// normal insertion.  No validation is performed that the imported
    /// chains actually replay from seed to tail; the store trusts its input.
    pub fn reconstruct(&mut self, old_chains: &Vec<(String, String)>)
        ensures
            final(self).spec_hasher() == old(self).spec_hasher(),
            final(self).spec_reducers() == old(self).spec_reducers(),
            final(self).chains_map() == merged_map(
                old(self).chains_map(),
                pair_views(old_chains@),
            ),
    {
        let n = old_chains.len();
        let mut i: usize = 0;
        while i < n
            invariant
                i <= n,
                n == old_chains@.len(),
                self.spec_hasher() == old(self).spec_hasher(),
                self.spec_reducers() == old(self).spec_reducers(),
                self.chains_map() == merged_map(
                    old(self).chains_map(),
                    pair_views(old_chains@).take(i as int),
                ),
            decreases n - i,
        {
            let pair = &old_chains[i];
            self.insert_chain(pair.0.clone(), pair.1.clone());
            proof {
                let views = pair_views(old_chains@);
                assert(views.take(i + 1).drop_last() =~= views.take(i as int));
                assert(views.take(i + 1).last() == views[i as int]);
            }
            i += 1;
        }
        proof {
            assert(pair_views(old_chains@).take(n as int) =~= pair_views(old_chains@));
        }
    }

    /// The full tail-to-seed mapping as a vector of pairs, one per stored
    /// chain, suitable for persistence and a later `reconstruct`.
    pub fn export(&self) -> (r: Vec<(String, String)>)
        ensures
            pair_views(r@) == self.spec_chains(),
            unique_keys(pair_views(r@)),
            map_of_pairs(pair_views(r@)) == self.chains_map(),
    {
        proof {
            use_type_invariant(&*self);
        }
        let n = self.chains.len();
        let mut out: Vec<(String, String)> = Vec::new();
        let mut i: usize = 0;
        while i < n
            invariant
                i <= n,
                n == self.chains@.len(),
                out@.len() == i,
                pair_views(out@) =~= pair_views(self.chains@).take(i as int),
            decreases n - i,
        {
            let pair = &self.chains[i];
            out.push((pair.0.clone(), pair.1.clone()));
            proof {
                assert(pair_views(out@) =~= pair_views(self.chains@).take(i as int + 1));
            }
            i += 1;
        }
        proof {
            assert(pair_views(out@) =~= pair_views(self.chains@));
        }
        out
    }

    /// The full tail-to-seed mapping as JSON object text, for persistence.
    pub fn to_json_string(&self) -> (r: String)
        ensures
            r@ == json_of(self.chains_map()),
    {
        proof {
            use_type_invariant(&*self);
        }
        pairs_to_json(&self.chains)
    }

    /// Probe a single start column: assume `hash` enters a chain at column
    /// `start`, reduce and hash through the last column, and if the
    /// resulting tail is stored, replay the whole chain from its seed.  The
    /// replay rejects false positives: a candidate is returned only when its
    /// digest really is `hash`.
    pub fn probe(&self, hash: &str, start: usize) -> (r: Option<String>)
        requires
            start < self.spec_reducers().len(),
        ensures
            opt_view(r) == probe_spec(
                self.spec_hasher(),
                self.spec_reducers(),
                self.chains_map(),
                hash@,
                start as int,
            ),
    {
        let ghost h = self.spec_hasher();
        let ghost rs = self.spec_reducers();
        let n = self.reducers.len();

        // Reconstruct the chain segment from `start` to the last column.
        let mut tail: String = self.reducers[start].reduce(hash);
        let mut j: usize = start + 1;
        while j < n
            invariant
                start < j <= n,
                n == rs.len(),
                h == self.spec_hasher(),
                rs == self.spec_reducers(),
                tail_from(h, rs, start as int, hash@) == tail_cont(h, rs, j as int, tail@),
            decreases n - j,
        {
            let hv = self.hasher.digest(tail.as_str());
            tail = self.reducers[j].reduce(hv.as_str());
            j += 1;
        }
        assert(tail@ == tail_from(h, rs, start as int, hash@));

        // If the tail is stored, replay the chain from its seed until the
        // digest of the current plaintext is the target itself.
        match self.chain_seed(&tail) {
            None => None,
            Some(seed) => {
                let target: String = hash.to_owned();
                let ghost seed0 = self.chains_map()[tail@];
                let mut value: String = seed.clone();
                let mut hv: String = self.hasher.digest(value.as_str());
                let mut k: usize = 0;
                while k < n
                    invariant
                        k <= n,
                        n == rs.len(),
                        h == self.spec_hasher(),
                        rs == self.spec_reducers(),
                        target@ == hash@,
                        hv@ == h.digest_spec(value@),
                        replay_from(h, rs, 0, seed0, hash@) == replay_from(
                            h,
                            rs,
                            k as int,
                            value@,
                            hash@,
                        ),
                    ensures
                        hv@ == h.digest_spec(value@),
                        replay_from(h, rs, 0, seed0, hash@) == replay_from(
                            h,
                            rs,
                            k as int,
                            value@,
                            hash@,
                        ),
                        hv@ == hash@ || k == n,
                    decreases n - k,
                {
                    if hv == target {
                        break;
                    }
                    value = self.reducers[k].reduce(hv.as_str());
                    hv = self.hasher.digest(value.as_str());
                    k += 1;
                }
                if hv == target {
                    Some(value)
                } else {
                    None
                }
            },
        }
    }

    /// Search for the plaintext whose digest is `hash`, trying every start
    /// column from the last down to the first.  Returns the replayed
    /// plaintext of the first probe that passes verification, or nothing if
    /// the table's coverage does not include the digest.
    pub fn find_plaintext_single(&self, hash: &str) -> (r: Option<String>)
        ensures
            opt_view(r) == self.spec_find(hash@),
            (r matches Some(p) ==> self.spec_hasher().digest_spec(p@) == hash@),
    {
        let ghost h = self.spec_hasher();
        let ghost rs = self.spec_reducers();
        let ghost m = self.chains_map();
        let n = self.reducers.len();
        let mut i: usize = n;
        while i > 0
            invariant
                i <= n,
                n == rs.len(),
                h == self.spec_hasher(),
                rs == self.spec_reducers(),
                m == self.chains_map(),
                search_from(h, rs, m, hash@, n as int - 1) == search_from(
                    h,
                    rs,
                    m,
                    hash@,
                    i as int - 1,
                ),
            decreases i,
        {
            i -= 1;
            let r = self.probe(hash, i);
            if r.is_some() {
                proof {
                    lemma_search_from_sound(h, rs, m, hash@, n as int - 1);
                }
                return r;
            }
        }
        None
    }

    /// One worker of a concurrent search: probe the start columns congruent
    /// to `thread_idx` modulo `num_threads`, in descending order, checking
    /// the halt flag before each owned column.  In-flight work for a column
    /// always finishes; cancellation is cooperative, not preemptive.  A
    /// worker that owns no start column — its index is at least the column
    /// count, since its smallest owned column is its own index — never
    /// consults the flag and reports exhaustion.
    pub fn worker_search(
        &self,
        hash: &str,
        thread_idx: usize,
        num_threads: usize,
        halt: &HaltFlag,
    ) -> (r: WorkerOutcome)
        requires
            thread_idx < num_threads,
        ensures
            outcome_ok(self, hash@, thread_idx as int, num_threads as int, r),
            (self.spec_reducers().len() <= thread_idx as int ==> r matches
                WorkerOutcome::Exhausted),
    {
        let ghost h = self.spec_hasher();
        let ghost rs = self.spec_reducers();
        let ghost m = self.chains_map();
        let n = self.reducers.len();
        let mut i: usize = n;
        while i > 0
            invariant
                i <= n,
                n == rs.len(),
                thread_idx < num_threads,
                h == self.spec_hasher(),
                rs == self.spec_reducers(),
                m == self.chains_map(),
                forall|j: int|
                    i as int <= j < n && j % (num_threads as int) == thread_idx as int
                        ==> #[trigger] probe_spec(h, rs, m, hash@, j) is None,
            decreases i,
        {
            i -= 1;
            if i % num_threads == thread_idx {
                proof {
                    // an owned column exists, so the worker's index is below
                    // the column count: i < num_threads makes i its own
                    // remainder, hence i == thread_idx < n
                    if i < num_threads {
                        assert((i as int) % (num_threads as int) == i as int) by (nonlinear_arith)
                            requires
                                0 <= i < num_threads,
                        ;
                    }
                    assert(thread_idx < n);
                }
                if halt.is_set() {
                    return WorkerOutcome::Halted;
                }
                match self.probe(hash, i) {
                    Some(p) => {
                        return WorkerOutcome::Found(p);
                    },
                    None => {},
                }
            }
        }
        WorkerOutcome::Exhausted
    }

    /// Run one worker and hand back its one outcome; a worker that found a
    /// hit first requests the halt, so the others wind down at their next
    /// look at the flag instead of probing on.
    pub(crate) fn worker_run(
        &self,
        hash: &str,
        thread_idx: usize,
        num_threads: usize,
        halt: &HaltFlag,
    ) -> (r: WorkerOutcome)
        requires
            thread_idx < num_threads,
        ensures
            outcome_ok(self, hash@, thread_idx as int, num_threads as int, r),
            (self.spec_reducers().len() <= thread_idx as int ==> r matches
                WorkerOutcome::Exhausted),
    {
        let out = self.worker_search(hash, thread_idx, num_threads, halt);
        let found = match &out {
            WorkerOutcome::Found(_) => true,
            _ => false,
        };
        if found {
            halt.set();
        }
        out
    }

    /// Search as `find_plaintext_single` does, but with the start columns
    /// partitioned round-robin across `num_threads` workers racing under a
    /// shared halt flag; the first reported hit wins and the rest are
    /// cancelled.  A single worker degrades to the sequential search
    /// directly.  A hit is always a true preimage of `hash`, and not-found
    /// is authoritative: it is reported only when no start column probes
    /// successfully.  Which of several successful probes supplies the
    /// returned plaintext depends on scheduling and is left open.
    pub fn find_plaintext_multi(&self, hash: &str, num_threads: usize) -> (r: Option<String>)
        requires
            1 <= num_threads,
        ensures
            num_threads == 1 ==> opt_view(r) == self.spec_find(hash@),
            (r matches Some(p) ==> self.spec_hasher().digest_spec(p@) == hash@
                && self.spec_find(hash@) is Some),
            (r matches Some(p) ==> exists|i: int|
                0 <= i < self.spec_reducers().len() && #[trigger] probe_spec(
                    self.spec_hasher(),
                    self.spec_reducers(),
                    self.chains_map(),
                    hash@,
                    i,
                ) == Some(p@)),
            r is None ==> self.spec_find(hash@) is None,
    {
        let ghost h = self.spec_hasher();
        let ghost rs = self.spec_reducers();
        let ghost m = self.chains_map();
        if num_threads == 1 {
            let r = self.find_plaintext_single(hash);
            proof {
                lemma_search_some_probe(h, rs, m, hash@, rs.len() - 1);
            }
            return r;
        }
        let outs = run_workers(self, hash, num_threads);
        let len = outs.len();
        let mut s: usize = 0;
        while s < len
            invariant
                s <= len,
                len == outs@.len(),
                len == num_threads,
                2 <= num_threads,
                h == self.spec_hasher(),
                rs == self.spec_reducers(),
                m == self.chains_map(),
                forall|w: int|
                    0 <= w < len ==> outcome_ok(
                        self,
                        hash@,
                        w,
                        num_threads as int,
                        #[trigger] outs@[w],
                    ),
                (exists|w: int| 0 <= w < outs@.len() && (#[trigger] outs@[w]) is Halted) ==> (exists|
                    w: int,
                |
                    0 <= w < outs@.len() && (#[trigger] outs@[w]) is Found),
                forall|t: int| 0 <= t < s ==> !((#[trigger] outs@[t]) is Found),
            decreases len - s,
        {
            match &outs[s] {
                WorkerOutcome::Found(p) => {
                    proof {
                        let i = choose|i: int|
                            0 <= i < rs.len() && i % (num_threads as int) == s as int
                                && probe_spec(h, rs, m, hash@, i) == Some(p@);
                        lemma_replay_from_sound(h, rs, 0, m[tail_from(h, rs, i, hash@)], hash@);
                        lemma_search_covers(h, rs, m, hash@, i, rs.len() - 1);
                    }
                    return Some(p.clone());
                },
                _ => {},
            }
            s += 1;
        }
        // No worker reported a hit; since only a successful worker requests
        // the halt, none stopped early either, so every worker exhausted
        // its columns and every start column was probed without success.
        proof {
            assert forall|i: int| 0 <= i < rs.len() implies #[trigger] probe_spec(
                h,
                rs,
                m,
                hash@,
                i,
            ) is None by {
                let w = i % (num_threads as int);
                assert(0 <= w < num_threads as int);
                assert(!((outs@[w]) is Found));
                assert(!((outs@[w]) is Halted));
                assert(outs@[w] is Exhausted);
            }
            lemma_search_all_none(h, rs, m, hash@, rs.len() - 1);
        }
        None
    }

    /// Search with one worker per available processor.
    pub fn find_plaintext(&self, hash: &str) -> (r: Option<String>)
        ensures
            (r matches Some(p) ==> self.spec_hasher().digest_spec(p@) == hash@
                && self.spec_find(hash@) is Some),
            (r matches Some(p) ==> exists|i: int|
                0 <= i < self.spec_reducers().len() && #[trigger] probe_spec(
                    self.spec_hasher(),
                    self.spec_reducers(),
                    self.chains_map(),
                    hash@,
                    i,
                ) == Some(p@)),
            r is None ==> self.spec_find(hash@) is None,
    {
        let num_threads = available_workers();
        self.find_plaintext_multi(hash, num_threads)
    }
}

} // verus!
