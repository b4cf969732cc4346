//! Deterministic workload generation: the sorted key set and the query stream.

use vstd::arithmetic::div_mod::{lemma_add_mod_noop, lemma_mod_sub_multiples_vanish, lemma_small_mod};
use vstd::prelude::*;

verus! {

/// Multiplier of the linear-congruential generator.
pub const LCG_MULTIPLIER: u64 = 6364136223846793005;

/// Increment of the linear-congruential generator.
pub const LCG_INCREMENT: u64 = 1442695040888963407;

/// Seed that the harness uses when none is given.
pub const DEFAULT_SEED: u64 = 42;

/// Largest tree size whose greatest key, plus one, still fits in an `i32`.
pub const MAX_TREE_SIZE: usize = 715827882;

/// Why a workload could not be generated.
#[derive(Clone, Copy, Debug, PartialEq, Eq, Structural)]
pub enum WorkloadError {
    /// The tree size is zero, or so large that the keys leave the 32-bit range.
    InvalidConfig,
}

/// The key stored at position `i` of the key set.
pub open spec fn key_at_position(i: int) -> int {
    3 * i + 1
}

/// The key set of `n` keys.
pub open spec fn key_seq(n: nat) -> Seq<i32> {
    Seq::new(n, |i: int| key_at_position(i) as i32)
}

/// Whether a sequence of keys is strictly increasing.
pub open spec fn strictly_increasing(s: Seq<i32>) -> bool {
    forall|i: int, j: int| 0 <= i < j < s.len() ==> s[i] < s[j]
}

/// Whether a tree size is one for which a workload exists.
pub open spec fn valid_tree_size(tree_size: usize) -> bool {
    1 <= tree_size <= MAX_TREE_SIZE
}

/// The greatest key of the key set of `tree_size` keys.
pub open spec fn max_key_of(tree_size: usize) -> int {
    key_at_position(tree_size - 1)
}

/// One step of the generator: the state that follows `state`.
pub open spec fn lcg_step(state: u64) -> u64 {
    ((state * LCG_MULTIPLIER + LCG_INCREMENT) % 0x1_0000_0000_0000_0000) as u64
}

/// The generator's state after `n` steps from `seed`.
pub open spec fn lcg_state(seed: u64, n: nat) -> u64
    decreases n,
{
    if n == 0 {
        seed
    } else {
        lcg_step(lcg_state(seed, (n - 1) as nat))
    }
}

/// The query that a generator state yields: its top 31 bits, reduced to
/// `0 ..= max_key`.
pub open spec fn query_of_state(state: u64, max_key: int) -> int {
    ((state as int) / 0x2_0000_0000) % (max_key + 1)
}

/// The first `n` queries drawn from `seed` into `0 ..= max_key`.
pub open spec fn query_seq(seed: u64, n: nat, max_key: int) -> Seq<i32> {
    Seq::new(n, |i: int| query_of_state(lcg_state(seed, (i + 1) as nat), max_key) as i32)
}

/// What `generate` yields for a configuration.
pub open spec fn generated(
    tree_size: usize,
    num_queries: usize,
    seed: u64,
    keys: Seq<i32>,
    queries: Seq<i32>,
) -> bool {
    &&& keys == key_seq(tree_size as nat)
    &&& queries == query_seq(seed, num_queries as nat, max_key_of(tree_size))
}

/// A query drawn into `0 ..= max_key` lies in that range.
pub proof fn lemma_query_in_range(state: u64, max_key: int)
    requires
        0 <= max_key,
    ensures
        0 <= query_of_state(state, max_key) <= max_key,
{
}

/// The state of the query stream: a linear-congruential generator.
pub struct Lcg {
    state: u64,
}

impl Lcg {
    /// The generator's current state.
    pub closed spec fn view(&self) -> u64 {
        self.state
    }

    /// A generator that starts at `seed`.
    pub fn new(seed: u64) -> (g: Lcg)
        ensures
            g@ == seed,
    {
        Lcg { state: seed }
    }

    /// Advances the generator by one step and returns the query that the new
    /// state yields in `0 ..= max_key`.
    pub fn next_query(&mut self, max_key: i32) -> (q: i32)
        requires
            0 <= max_key < i32::MAX,
        ensures
            final(self)@ == lcg_step(old(self)@),
            q == query_of_state(final(self)@, max_key as int),
            0 <= q <= max_key,
    {
        let next: u64 = self.state.wrapping_mul(LCG_MULTIPLIER).wrapping_add(LCG_INCREMENT);
        let top: u64 = next >> 33;
        assert(top == next / 0x2_0000_0000 && top < 0x8000_0000) by (bit_vector)
            requires
                top == next >> 33,
        ;
        proof {
            lemma_wrapping_step(self.state, next);
        }
        self.state = next;
        let raw: i32 = top as i32;
        raw % (max_key + 1)
    }
}

/// The key set of `tree_size` keys, in increasing order.
pub fn build_keys(tree_size: usize) -> (keys: Vec<i32>)
    requires
        tree_size <= MAX_TREE_SIZE,
    ensures
        keys@ == key_seq(tree_size as nat),
{
    let mut keys: Vec<i32> = Vec::new();
    let mut i: usize = 0;
    while i < tree_size
        invariant
            i <= tree_size <= MAX_TREE_SIZE,
            keys@ == key_seq(i as nat),
        decreases tree_size - i,
    {
        let k: i32 = (i as i32) * 3 + 1;
        keys.push(k);
        i += 1;
        assert(keys@ =~= key_seq(i as nat));
    }
    keys
}

/// The first `num_queries` queries that `rng` yields in `0 ..= max_key`,
/// in the order in which they are drawn.
pub fn build_queries(rng: &mut Lcg, num_queries: usize, max_key: i32) -> (queries: Vec<i32>)
    requires
        0 <= max_key < i32::MAX,
    ensures
        queries@ == query_seq(old(rng)@, num_queries as nat, max_key as int),
        final(rng)@ == lcg_state(old(rng)@, num_queries as nat),
{
    let ghost seed = rng@;
    let mut queries: Vec<i32> = Vec::new();
    let mut i: usize = 0;
    while i < num_queries
        invariant
            i <= num_queries,
            0 <= max_key < i32::MAX,
            rng@ == lcg_state(seed, i as nat),
            queries@ == query_seq(seed, i as nat, max_key as int),
        decreases num_queries - i,
    {
        let q: i32 = rng.next_query(max_key);
        queries.push(q);
        i += 1;
        assert(queries@ =~= query_seq(seed, i as nat, max_key as int));
    }
    queries
}

/// Generates the workload of a run: the key set of `tree_size` keys and
/// `num_queries` queries drawn from `seed` into `0 ..= max_key`, where
/// `max_key` is the greatest key. Fails when no key set of that size exists.
pub fn generate(tree_size: usize, num_queries: usize, seed: u64) -> (r: Result<
    (Vec<i32>, Vec<i32>),
    WorkloadError,
>)
    ensures
        r is Ok <==> valid_tree_size(tree_size),
        r is Err ==> r == Err::<(Vec<i32>, Vec<i32>), WorkloadError>(WorkloadError::InvalidConfig),
        r matches Ok(w) ==> {
            &&& generated(tree_size, num_queries, seed, w.0@, w.1@)
            &&& w.0@.len() == tree_size
            &&& w.1@.len() == num_queries
            &&& strictly_increasing(w.0@)
            &&& forall|i: int|
                0 <= i < w.1@.len() ==> 0 <= #[trigger] w.1@[i] <= w.0@[tree_size - 1]
        },
{
    if tree_size == 0 || tree_size > MAX_TREE_SIZE {
        return Err(WorkloadError::InvalidConfig);
    }
    let keys = build_keys(tree_size);
    let max_key: i32 = keys[tree_size - 1];
    let mut rng = Lcg::new(seed);
    let queries = build_queries(&mut rng, num_queries, max_key);
    proof {
        lemma_keys_strictly_increasing(tree_size);
        lemma_queries_in_range(tree_size, num_queries, seed);
    }
    Ok((keys, queries))
}

/// The key set is strictly increasing, starts at 1 and ends at the greatest key.
pub proof fn lemma_keys_strictly_increasing(tree_size: usize)
    requires
        valid_tree_size(tree_size),
    ensures
        strictly_increasing(key_seq(tree_size as nat)),
        key_seq(tree_size as nat)[0] == 1,
        key_seq(tree_size as nat)[tree_size - 1] == max_key_of(tree_size),
        forall|i: int|
            0 <= i < tree_size ==> #[trigger] key_seq(tree_size as nat)[i] == key_at_position(i),
{
}

/// Every generated query lies between 0 and the greatest key, both included,
/// for every valid tree size, every number of queries and every seed.
pub proof fn lemma_queries_in_range(tree_size: usize, num_queries: usize, seed: u64)
    requires
        valid_tree_size(tree_size),
    ensures
        forall|i: int|
            0 <= i < num_queries ==> 0 <= #[trigger] query_seq(
                seed,
                num_queries as nat,
                max_key_of(tree_size),
            )[i] <= max_key_of(tree_size),
{
    let max_key = max_key_of(tree_size);
    assert forall|i: int| 0 <= i < num_queries implies 0 <= #[trigger] query_seq(
        seed,
        num_queries as nat,
        max_key,
    )[i] <= max_key by {
        lemma_query_in_range(lcg_state(seed, (i + 1) as nat), max_key);
    }
}

/// Generation is deterministic: two workloads generated for the same tree
/// size, number of queries and seed hold the same keys and the same queries.
pub proof fn lemma_generate_deterministic(
    tree_size: usize,
    num_queries: usize,
    seed: u64,
    keys_a: Seq<i32>,
    queries_a: Seq<i32>,
    keys_b: Seq<i32>,
    queries_b: Seq<i32>,
)
    requires
        generated(tree_size, num_queries, seed, keys_a, queries_a),
        generated(tree_size, num_queries, seed, keys_b, queries_b),
    ensures
        keys_a == keys_b,
        queries_a == queries_b,
{
}

/// A query stream can be drawn in pieces: the queries drawn after the first
/// `n` are those of a generator seeded with the state reached after `n` steps.
pub proof fn lemma_stream_resumes(seed: u64, n: nat, m: nat, max_key: int)
    ensures
        lcg_state(seed, n + m) == lcg_state(lcg_state(seed, n), m),
        query_seq(seed, n + m, max_key) == query_seq(seed, n, max_key) + query_seq(
            lcg_state(seed, n),
            m,
            max_key,
        ),
{
    lemma_state_composes(seed, n, m);
    let whole = query_seq(seed, n + m, max_key);
    let rest = query_seq(lcg_state(seed, n), m, max_key);
    assert forall|i: int| 0 <= i < m implies whole[n + i] == #[trigger] rest[i] by {
        lemma_state_composes(seed, n, (i + 1) as nat);
        assert((n + i + 1) as nat == n + (i + 1) as nat);
    }
    assert(query_seq(seed, n + m, max_key) =~= query_seq(seed, n, max_key) + query_seq(
        lcg_state(seed, n),
        m,
        max_key,
    ));
}

proof fn lemma_state_composes(seed: u64, n: nat, m: nat)
    ensures
        lcg_state(seed, n + m) == lcg_state(lcg_state(seed, n), m),
    decreases m,
{
    if m > 0 {
        lemma_state_composes(seed, n, (m - 1) as nat);
        assert((n + m - 1) as nat == n + (m - 1) as nat);
    }
}

/// The wrapping product and sum of the machine agree with the step function.
proof fn lemma_wrapping_step(state: u64, next: u64)
    requires
        next == state.wrapping_mul(LCG_MULTIPLIER).wrapping_add(LCG_INCREMENT),
    ensures
        next == lcg_step(state),
{
    let m = 0x1_0000_0000_0000_0000int;
    let p = state * LCG_MULTIPLIER;
    let a = p % m;
    let c = LCG_INCREMENT as int;
    lemma_small_mod(c as nat, m as nat);
    lemma_add_mod_noop(p, c, m);
    assert((a + c) % m == (p + c) % m);
    if a + c < m {
        lemma_small_mod((a + c) as nat, m as nat);
    } else {
        lemma_small_mod((a + c - m) as nat, m as nat);
        lemma_mod_sub_multiples_vanish(a + c, m);
        assert((a + c - m) % m == (-m + (a + c)) % m);
    }
}

} // verus!
