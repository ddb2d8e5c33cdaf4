use rainbow_table::{Hasher, RainbowTable, Reducer, HaltFlag, WorkerOutcome};

// This hasher performs an MD5 digest.
struct Md5Hasher;

impl Hasher for Md5Hasher {
    fn digest_spec(&self, _plaintext: vstd::seq::Seq<char>) -> vstd::seq::Seq<char> {
        unreachable!()
    }

    fn digest(&self, plaintext: &str) -> String {
        format!("{:x}", md5::compute(plaintext.as_bytes()))
    }
}

// This reducer simply takes the first n characters of a hash.
struct SubstringReducer {
    n: usize,
}

impl Reducer for SubstringReducer {
    fn reduce_spec(&self, _hash: vstd::seq::Seq<char>) -> vstd::seq::Seq<char> {
        unreachable!()
    }

    fn reduce(&self, hash: &str) -> String {
        String::from(&hash[..self.n])
    }
}

// A hasher that maps every plaintext to the same digest: every chain merges.
struct ConstHasher;

impl Hasher for ConstHasher {
    fn digest_spec(&self, _plaintext: vstd::seq::Seq<char>) -> vstd::seq::Seq<char> {
        unreachable!()
    }

    fn digest(&self, _plaintext: &str) -> String {
        String::from("X")
    }
}

// A reducer that hands the digest back as the next plaintext.
struct EchoReducer;

impl Reducer for EchoReducer {
    fn reduce_spec(&self, _hash: vstd::seq::Seq<char>) -> vstd::seq::Seq<char> {
        unreachable!()
    }

    fn reduce(&self, hash: &str) -> String {
        String::from(hash)
    }
}

// One first-5-characters column followed by a hundred first-6-characters
// columns, seeded with four words.
fn build_rainbow_table() -> RainbowTable<Md5Hasher, SubstringReducer> {
    let mut rfs: Vec<SubstringReducer> = Vec::new();
    rfs.push(SubstringReducer { n: 5 });
    for _ in 0..100 {
        rfs.push(SubstringReducer { n: 6 });
    }

    let seeds = vec![
        String::from("test"),
        String::from("monster"),
        String::from("test2"),
        String::from("amazing"),
    ];

    let mut table = RainbowTable::new(Md5Hasher, rfs);
    table.add_seeds(&seeds);
    table
}

// Substring columns of widths 6 through 26, seeded with the numbers below
// 1000.
fn build_numeric_table() -> RainbowTable<Md5Hasher, SubstringReducer> {
    let mut rfs: Vec<SubstringReducer> = Vec::new();
    for i in 6..27 {
        rfs.push(SubstringReducer { n: i });
    }

    let mut table = RainbowTable::new(Md5Hasher, rfs);
    for i in 0..1000 {
        table.add_seed(&format!("{}", i));
    }
    table
}

#[test]
fn execute_rainbow_table_single() {
    let table = build_rainbow_table();
    assert_eq!(
        Some(String::from("monster")),
        table.find_plaintext_single("8bf4e6addd72a9c4c4714708d2941528")
    );
    assert_eq!(
        Some(String::from("8bf4e")),
        table.find_plaintext_single("18b11cf86b4a3fd75e3fd9ac3485bdb6")
    );
}

#[test]
fn execute_rainbow_table_multi() {
    let table = build_rainbow_table();
    assert_eq!(
        Some(String::from("monster")),
        table.find_plaintext_multi("8bf4e6addd72a9c4c4714708d2941528", 2)
    );
    assert_eq!(
        Some(String::from("8bf4e")),
        table.find_plaintext_multi("18b11cf86b4a3fd75e3fd9ac3485bdb6", 2)
    );
}

#[test]
fn execute_rainbow_table_system() {
    let table = build_rainbow_table();
    assert_eq!(
        Some(String::from("monster")),
        table.find_plaintext("8bf4e6addd72a9c4c4714708d2941528")
    );
    assert_eq!(
        Some(String::from("8bf4e")),
        table.find_plaintext("18b11cf86b4a3fd75e3fd9ac3485bdb6")
    );
}

#[test]
fn test_rainbow_table_find_seeds() {
    // Test that the rainbow table can find the hashes of the seed values.
    let table = build_numeric_table();
    for i in 0..1000 {
        let seed = format!("{}", i);
        let seed_hash = format!("{:x}", md5::compute(seed.as_bytes()));
        assert_eq!(Some(seed), table.find_plaintext(&seed_hash));
    }
}

#[test]
fn test_rainbow_table_find_random() {
    let table = build_numeric_table();

    // Build out the list of reducers used in the actual table.
    let mut rfs: Vec<SubstringReducer> = Vec::new();
    let hf = Md5Hasher;
    for i in 6..27 {
        rfs.push(SubstringReducer { n: i });
    }

    // Test that the rainbow table can find hashes that appear randomly in
    // the table.
    for _ in 0..1000 {
        let start: usize = rand::random_range(0..1000);
        let mut value = format!("{}", start);
        let reductions: usize = rand::random_range(1..rfs.len());
        for i in 0..reductions {
            value = rfs[i].reduce(&hf.digest(&value[..])[..]);
        }
        let hash = hf.digest(&value[..]);
        assert_eq!(Some(value), table.find_plaintext(&hash));
    }
}

#[test]
fn test_rainbow_table_find_none() {
    // Test that the table will return None when presented with a hash not
    // in the table.
    let table = build_numeric_table();
    assert_eq!(None, table.find_plaintext("8a1fb399dcf220db935995abce6a1532"));
}

#[test]
fn concrete_scenario_lookup() {
    // A first-5-characters column, then first-6-characters columns, seeded
    // with "monster" and "test": the digest of "monster" is recovered, an
    // unreachable digest is not.
    let mut rfs: Vec<SubstringReducer> = Vec::new();
    rfs.push(SubstringReducer { n: 5 });
    for _ in 0..20 {
        rfs.push(SubstringReducer { n: 6 });
    }
    let mut table = RainbowTable::new(Md5Hasher, rfs);
    table.add_seed("monster");
    table.add_seed("test");
    assert_eq!(
        Some(String::from("monster")),
        table.find_plaintext("8bf4e6addd72a9c4c4714708d2941528")
    );
    assert_eq!(None, table.find_plaintext("8a1fb399dcf220db935995abce6a1532"));
}

#[test]
fn seed_digest_round_trip() {
    // Looking up the digest of a freshly added seed recovers that seed.
    let mut rfs: Vec<SubstringReducer> = Vec::new();
    for _ in 0..3 {
        rfs.push(SubstringReducer { n: 4 });
    }
    let mut table = RainbowTable::new(Md5Hasher, rfs);
    table.add_seed("alpha");
    let digest = format!("{:x}", md5::compute("alpha".as_bytes()));
    assert_eq!(Some(String::from("alpha")), table.find_plaintext_single(&digest));
    assert_eq!(Some(String::from("alpha")), table.find_plaintext(&digest));
}

#[test]
fn absent_coverage_not_found() {
    // Every chain value of this table digests to "X"; any other digest is
    // outside the covered space and must report not-found.
    let mut table = RainbowTable::new(ConstHasher, vec![EchoReducer]);
    table.add_seed("a");
    assert_eq!(None, table.find_plaintext_single("Y"));
    assert_eq!(None, table.find_plaintext_multi("Y", 3));
}

#[test]
fn sequential_and_concurrent_agree() {
    // For every tested digest the sequential and the concurrent search
    // return the same plaintext, whatever the worker count.
    let table = build_rainbow_table();
    let digests = vec![
        String::from("8bf4e6addd72a9c4c4714708d2941528"),
        String::from("18b11cf86b4a3fd75e3fd9ac3485bdb6"),
        String::from("098f6bcd4621d373cade4e832627b4f6"),
        String::from("8a1fb399dcf220db935995abce6a1532"),
    ];
    for digest in &digests {
        let sequential = table.find_plaintext_single(digest);
        for k in 1..7 {
            assert_eq!(sequential, table.find_plaintext_multi(digest, k));
        }
    }
}

#[test]
fn repeated_seed_same_lookup() {
    // Adding the same seed twice leaves the store, and so every lookup,
    // exactly as adding it once.
    let mut once = RainbowTable::new(Md5Hasher, vec![SubstringReducer { n: 5 }]);
    once.add_seed("monster");
    let mut twice = RainbowTable::new(Md5Hasher, vec![SubstringReducer { n: 5 }]);
    twice.add_seed("monster");
    twice.add_seed("monster");
    assert_eq!(once.to_json_string(), twice.to_json_string());
    let digest = format!("{:x}", md5::compute("monster".as_bytes()));
    assert_eq!(once.find_plaintext_single(&digest), twice.find_plaintext_single(&digest));
}

#[test]
fn export_reconstruct_round_trip() {
    // Importing an exported mapping into a fresh table reproduces the
    // original lookup behaviour.
    let original = build_rainbow_table();
    let exported = original.export();

    let mut rfs: Vec<SubstringReducer> = Vec::new();
    rfs.push(SubstringReducer { n: 5 });
    for _ in 0..100 {
        rfs.push(SubstringReducer { n: 6 });
    }
    let mut rebuilt = RainbowTable::new(Md5Hasher, rfs);
    rebuilt.reconstruct(&exported);

    assert_eq!(original.to_json_string(), rebuilt.to_json_string());
    for digest in ["8bf4e6addd72a9c4c4714708d2941528", "18b11cf86b4a3fd75e3fd9ac3485bdb6"] {
        assert_eq!(
            original.find_plaintext_single(digest),
            rebuilt.find_plaintext_single(digest)
        );
    }
}

#[test]
fn export_lists_tail_seed_pairs() {
    // With no reduction columns a chain ends at its own seed, so the store
    // pairs each seed with itself, in insertion order.
    let rfs: Vec<SubstringReducer> = Vec::new();
    let mut table = RainbowTable::new(Md5Hasher, rfs);
    table.add_seed("b");
    table.add_seed("a");
    let exported = table.export();
    assert_eq!(
        exported,
        vec![
            (String::from("b"), String::from("b")),
            (String::from("a"), String::from("a")),
        ]
    );
}

#[test]
fn json_string_is_sorted_object() {
    // The JSON export is an object over the stored mapping with its keys in
    // sorted order, regardless of insertion order.
    let rfs: Vec<SubstringReducer> = Vec::new();
    let mut table = RainbowTable::new(Md5Hasher, rfs);
    table.add_seed("b");
    table.add_seed("a");
    assert_eq!("{\"a\":\"a\",\"b\":\"b\"}", table.to_json_string());
}

#[test]
fn tail_collision_last_write_wins() {
    // Every chain of this table ends at the tail "X", so a later seed
    // overwrites an earlier one, and lookups recover the later seed.
    let mut table = RainbowTable::new(ConstHasher, vec![EchoReducer]);
    table.add_seeds(&[String::from("a"), String::from("b")]);
    assert_eq!(Some(String::from("b")), table.find_plaintext_single("X"));
    // Re-adding recomputes the chain and overwrites again.
    table.add_seed("a");
    assert_eq!(Some(String::from("a")), table.find_plaintext_single("X"));
}

#[test]
fn reconstruct_overwrites_existing_tail() {
    // An imported pair with an already-stored tail wins, like any insertion.
    let mut table = RainbowTable::new(ConstHasher, vec![EchoReducer]);
    table.add_seed("a");
    table.reconstruct(&vec![(String::from("X"), String::from("b"))]);
    assert_eq!(Some(String::from("b")), table.find_plaintext_single("X"));
}

#[test]
fn empty_table_not_found() {
    // A table with columns but no chains finds nothing and does not crash.
    let mut rfs: Vec<SubstringReducer> = Vec::new();
    for _ in 0..3 {
        rfs.push(SubstringReducer { n: 4 });
    }
    let table = RainbowTable::new(Md5Hasher, rfs);
    assert_eq!(None, table.find_plaintext_single("0cc175b9c0f1b6a831c399e269772661"));
    assert_eq!(None, table.find_plaintext_multi("0cc175b9c0f1b6a831c399e269772661", 2));
}

#[test]
fn zero_reducers_not_found() {
    // With no reduction columns there are no start columns to try: even the
    // digest of a stored seed reports not-found.
    let rfs: Vec<SubstringReducer> = Vec::new();
    let mut table = RainbowTable::new(Md5Hasher, rfs);
    table.add_seed("a");
    assert_eq!(None, table.find_plaintext_single("0cc175b9c0f1b6a831c399e269772661"));
    assert_eq!(None, table.find_plaintext("0cc175b9c0f1b6a831c399e269772661"));
}

#[test]
fn worker_search_reports_outcomes() {
    let mut table = RainbowTable::new(Md5Hasher, vec![SubstringReducer { n: 5 }]);
    table.add_seed("monster");
    let digest = format!("{:x}", md5::compute("monster".as_bytes()));

    // A lone worker owning every column finds the seed.
    let halt = HaltFlag::new();
    match table.worker_search(&digest, 0, 1, &halt) {
        WorkerOutcome::Found(p) => assert_eq!("monster", p),
        _ => panic!("expected the worker to find the seed"),
    }

    // A worker whose columns are exhausted without a hit says so.
    let halt = HaltFlag::new();
    assert!(matches!(
        table.worker_search("8a1fb399dcf220db935995abce6a1532", 0, 1, &halt),
        WorkerOutcome::Exhausted
    ));

    // A worker that observes a requested halt stops early.
    let halt = HaltFlag::new();
    halt.set();
    assert!(matches!(table.worker_search(&digest, 0, 1, &halt), WorkerOutcome::Halted));
}
