//! The measurement protocol: a warm-up pass outside the timed region, then
//! one timed pass over the whole query sequence, both feeding a sink.

use crate::clock::{Elapsed, Stopwatch};
use crate::engine::Engine;
use crate::tree::predecessor;
use vstd::prelude::*;

verus! {

/// The greatest number of lookups of a warm-up pass.
pub const WARMUP_LIMIT: usize = 100_000;

/// The number of lookups of the warm-up pass before `num_queries` timed ones.
pub open spec fn warmup_len(num_queries: nat) -> nat {
    if num_queries < WARMUP_LIMIT {
        num_queries
    } else {
        WARMUP_LIMIT as nat
    }
}

/// The number of lookups of the warm-up pass before `num_queries` timed ones.
pub fn warmup_count(num_queries: usize) -> (n: usize)
    ensures
        n == warmup_len(num_queries as nat),
        n <= num_queries,
{
    if num_queries < WARMUP_LIMIT {
        num_queries
    } else {
        WARMUP_LIMIT
    }
}

/// The 64-bit two's complement number that `x` wraps to.
pub open spec fn wrap_i64(x: int) -> i64 {
    ((x + 0x8000_0000_0000_0000) % 0x1_0000_0000_0000_0000 - 0x8000_0000_0000_0000) as i64
}

/// The sum of the results.
pub open spec fn sum_of(results: Seq<i64>) -> int
    decreases results.len(),
{
    if results.len() == 0 {
        0
    } else {
        sum_of(results.drop_last()) + results.last()
    }
}

/// The sink after the results were added to it, one after the other, each
/// sum wrapping: the sink before plus the sum of the results, wrapped.
pub open spec fn sink_after(sink: i64, results: Seq<i64>) -> i64 {
    wrap_i64(sink + sum_of(results))
}

/// Whether `results` are answers of `lookup` to the queries, one for each
/// query and in their order.
pub open spec fn answers<F: Fn(i32) -> i64>(
    lookup: &F,
    queries: Seq<i32>,
    results: Seq<i64>,
) -> bool {
    &&& results.len() == queries.len()
    &&& forall|i: int| 0 <= i < queries.len() ==> lookup.ensures((queries[i],), #[trigger] results[i])
}

/// The results of predecessor search in `keys` for the queries, in their order.
pub open spec fn lookup_results(keys: Seq<i32>, queries: Seq<i32>) -> Seq<i64> {
    Seq::new(queries.len(), |i: int| predecessor(keys, queries[i]) as i64)
}

/// A number in the 64-bit range wraps to itself, and a wrapped number may be
/// wrapped again after an addition with the same outcome.
pub proof fn lemma_wrap_i64(x: int, y: i64)
    ensures
        wrap_i64(y as int) == y,
        wrap_i64(wrap_i64(x) + y) == wrap_i64(x + y),
        vstd::wrapping::i64_specs::wrapping_add(wrap_i64(x), y) == wrap_i64(x + y),
{
    let m = 0x1_0000_0000_0000_0000int;
    let h = 0x8000_0000_0000_0000int;
    vstd::arithmetic::div_mod::lemma_small_mod((y + h) as nat, m as nat);
    let w = wrap_i64(x) as int;
    assert(0 <= (x + h) % m < m) by (nonlinear_arith)
        requires
            m > 0,
    ;
    assert(w + h == (x + h) % m);
    vstd::arithmetic::div_mod::lemma_add_mod_noop_right(y as int, x + h, m);
    assert((y + (x + h) % m) % m == (y + (x + h)) % m);
    assert(w + y + h == y + (x + h) % m);
    assert(x + y + h == y + (x + h));
    let s = w + y;
    assert(0 <= (s + h) % m < m) by (nonlinear_arith)
        requires
            m > 0,
    ;
    if s > i64::MAX {
        vstd::arithmetic::div_mod::lemma_small_mod((s + h - m) as nat, m as nat);
        vstd::arithmetic::div_mod::lemma_mod_sub_multiples_vanish(s + h, m);
        assert((s + h - m) % m == (-m + (s + h)) % m);
    } else if s < i64::MIN {
        vstd::arithmetic::div_mod::lemma_small_mod((s + h + m) as nat, m as nat);
        vstd::arithmetic::div_mod::lemma_mod_add_multiples_vanish(s + h, m);
    } else {
        vstd::arithmetic::div_mod::lemma_small_mod((s + h) as nat, m as nat);
    }
}

/// One pass: asks `lookup` for each of the first `count` queries, in order,
/// and adds every answer to the sink, wrapping.
pub fn run_pass<F: Fn(i32) -> i64>(lookup: &F, queries: &[i32], count: usize, sink: i64) -> (r:
    i64)
    requires
        count <= queries@.len(),
        forall|q: i32| lookup.requires((q,)),
    ensures
        exists|results: Seq<i64>|
            answers(lookup, queries@.take(count as int), results) && r == sink_after(sink, results),
{
    let mut acc: i64 = sink;
    let ghost mut results: Seq<i64> = Seq::empty();
    let mut i: usize = 0;
    proof {
        lemma_wrap_i64(0, sink);
    }
    while i < count
        invariant
            i <= count <= queries@.len(),
            forall|q: i32| lookup.requires((q,)),
            answers(lookup, queries@.take(i as int), results),
            acc == sink_after(sink, results),
        decreases count - i,
    {
        let answer: i64 = lookup(queries[i]);
        proof {
            let extended = results.push(answer);
            assert(extended.drop_last() =~= results);
            lemma_wrap_i64(sink + sum_of(results), answer);
            assert forall|j: int| 0 <= j < i + 1 implies lookup.ensures(
                (queries@.take(i + 1)[j],),
                #[trigger] extended[j],
            ) by {
                if j < i {
                    assert(queries@.take(i as int)[j] == queries@.take(i + 1)[j]);
                    assert(extended[j] == results[j]);
                }
            }
            results = extended;
        }
        acc = acc.wrapping_add(answer);
        i += 1;
    }
    acc
}

/// What one measurement yields.
pub struct Measurement {
    /// The sink after the warm-up pass and the timed pass. It is handed out
    /// so that no lookup can be dropped as unused.
    pub sink: i64,
    /// The number of lookups of the timed pass.
    pub num_queries: usize,
    /// The time that the timed pass took.
    pub elapsed: Elapsed,
}

/// Measures `lookup`: a warm-up pass over the first queries, outside the
/// timed region; then the clock is started, every query is looked up in
/// order, and the clock is read. Both passes feed one sink, which starts at 0.
pub fn measure<F: Fn(i32) -> i64>(lookup: &F, queries: &[i32]) -> (m: Measurement)
    requires
        forall|q: i32| lookup.requires((q,)),
    ensures
        m.num_queries == queries@.len(),
        exists|warm: Seq<i64>, timed: Seq<i64>|
            {
                &&& answers(lookup, queries@.take(warmup_len(queries@.len()) as int), warm)
                &&& answers(lookup, queries@, timed)
                &&& m.sink == sink_after(sink_after(0, warm), timed)
            },
{
    let num_queries: usize = queries.len();
    let warmed: i64 = run_pass(lookup, queries, warmup_count(num_queries), 0);
    let watch = Stopwatch::start();
    let sink: i64 = run_pass(lookup, queries, num_queries, warmed);
    let elapsed = watch.elapsed();
    proof {
        assert(queries@.take(num_queries as int) =~= queries@);
    }
    Measurement { sink, num_queries, elapsed }
}

/// Where every answer is the predecessor of its query in `keys`, the answers
/// are the lookup results of `keys`.
pub proof fn lemma_answers_of_engine<F: Fn(i32) -> i64>(
    lookup: &F,
    keys: Seq<i32>,
    queries: Seq<i32>,
    results: Seq<i64>,
)
    requires
        answers(lookup, queries, results),
        forall|q: i32, r: i64| lookup.ensures((q,), r) ==> r == predecessor(keys, q),
    ensures
        results == lookup_results(keys, queries),
{
    assert forall|i: int| 0 <= i < queries.len() implies results[i] == lookup_results(
        keys,
        queries,
    )[i] by {
        assert(lookup.ensures((queries[i],), results[i]));
    }
    assert(results =~= lookup_results(keys, queries));
}

/// Measures an engine by the same protocol. The sink that comes out is
/// fixed by the keys and the queries alone, whichever engine answered.
pub fn measure_engine<E: Engine>(engine: &E, queries: &[i32]) -> (m: Measurement)
    ensures
        m.num_queries == queries@.len(),
        m.sink == sink_after(
            sink_after(
                0,
                lookup_results(
                    engine.keys(),
                    queries@.take(warmup_len(queries@.len()) as int),
                ),
            ),
            lookup_results(engine.keys(), queries@),
        ),
{
    let lookup = |q: i32| -> (r: i64)
        ensures
            r == predecessor(engine.keys(), q),
        { engine.lookup(q) };
    let m = measure(&lookup, queries);
    proof {
        let (warm, timed) = choose|warm: Seq<i64>, timed: Seq<i64>|
            {
                &&& answers(&lookup, queries@.take(warmup_len(queries@.len()) as int), warm)
                &&& answers(&lookup, queries@, timed)
                &&& m.sink == sink_after(sink_after(0, warm), timed)
            };
        lemma_answers_of_engine(
            &lookup,
            engine.keys(),
            queries@.take(warmup_len(queries@.len()) as int),
            warm,
        );
        lemma_answers_of_engine(&lookup, engine.keys(), queries@, timed);
    }
    m
}

} // verus!
