//! The uniform face of an index engine, and the adapter of the static tree.

use crate::tree::{lemma_predecessor_unique, predecessor, sorted, FastTree};
use crate::workload::{key_seq, lemma_keys_strictly_increasing, strictly_increasing, valid_tree_size};
use vstd::prelude::*;

verus! {

/// Why an engine could not be made ready.
#[derive(Clone, Copy, Debug, PartialEq, Eq, Structural)]
pub enum EngineError {
    /// The engine could not be built from the keys. It is not tried again.
    ConstructionFailure,
}

/// The result of a lookup for which no key is at most the query.
pub const ABSENT: i64 = -1;

/// Whether the positions of `n` keys can all be told as a lookup result.
pub open spec fn positions_fit(n: nat) -> bool {
    n <= i64::MAX
}

/// An index engine over a fixed sequence of sorted keys. Every engine
/// answers a lookup in the same way: with the position, in the key sequence,
/// of the greatest key that is at most the query, or with `ABSENT`.
pub trait Engine {
    /// The keys that the engine was built from, in order.
    spec fn keys(&self) -> Seq<i32>;

    /// Predecessor search for `query`.
    fn lookup(&self, query: i32) -> (r: i64)
        ensures
            r == predecessor(self.keys(), query),
    ;
}

/// Engines built from the same keys give the same answer to every query:
/// whatever two of them return for a query is the same position, or the
/// same absence.
pub proof fn lemma_engines_agree<A: Engine, B: Engine>(
    a: &A,
    b: &B,
    query: i32,
    from_a: i64,
    from_b: i64,
)
    requires
        a.keys() == b.keys(),
        from_a == predecessor(a.keys(), query),
        from_b == predecessor(b.keys(), query),
    ensures
        from_a == from_b,
{
}

/// A query below the first key is absent from sorted keys.
pub proof fn lemma_absent_below_first_key(keys: Seq<i32>, query: i32)
    requires
        sorted(keys),
        keys.len() > 0,
        query < keys[0],
    ensures
        predecessor(keys, query) == ABSENT,
{
    lemma_predecessor_unique(keys, query, -1);
}

/// A query at or above the last key of sorted keys is answered with the
/// last position.
pub proof fn lemma_last_key_found(keys: Seq<i32>, query: i32)
    requires
        sorted(keys),
        keys.len() > 0,
        query >= keys[keys.len() - 1],
    ensures
        predecessor(keys, query) == keys.len() - 1,
{
    lemma_predecessor_unique(keys, query, keys.len() - 1);
}

/// In strictly increasing keys, a query that is a key is answered with the
/// position of that key.
pub proof fn lemma_exact_key_found(keys: Seq<i32>, position: int)
    requires
        strictly_increasing(keys),
        0 <= position < keys.len(),
    ensures
        sorted(keys),
        predecessor(keys, keys[position]) == position,
{
    lemma_predecessor_unique(keys, keys[position], position);
}

/// In the key set of `tree_size` keys, the predecessor of a query of at
/// least 1 is the third of the query less one, and at most the last position.
pub proof fn lemma_predecessor_in_key_set(tree_size: usize, query: i32)
    requires
        valid_tree_size(tree_size),
    ensures
        sorted(key_seq(tree_size as nat)),
        query < 1 ==> predecessor(key_seq(tree_size as nat), query) == ABSENT,
        query >= 1 ==> predecessor(key_seq(tree_size as nat), query) == if (query - 1) / 3
            < tree_size {
            (query - 1) / 3
        } else {
            tree_size - 1
        },
{
    let keys = key_seq(tree_size as nat);
    lemma_keys_strictly_increasing(tree_size);
    if query < 1 {
        lemma_predecessor_unique(keys, query, -1);
    } else if (query - 1) / 3 < tree_size {
        lemma_predecessor_unique(keys, query, (query - 1) / 3);
    } else {
        lemma_predecessor_unique(keys, query, tree_size - 1);
    }
}

/// Whether `len`, a number of keys, is small enough for every position to be
/// a lookup result.
pub fn length_fits(len: usize) -> (b: bool)
    ensures
        b == positions_fit(len as nat),
{
    len as u64 <= 0x7fff_ffff_ffff_ffff
}

/// The adapter of the static search tree. It owns its tree from construction
/// to `destroy`, and nothing else holds it.
pub struct ForeignAdapter {
    tree: FastTree,
}

impl ForeignAdapter {
    #[verifier::type_invariant]
    spec fn well_formed(&self) -> bool {
        positions_fit(self.tree@.len())
    }

    /// The keys of the tree that the adapter owns.
    pub closed spec fn view(&self) -> Seq<i32> {
        self.tree@
    }

    /// Builds the tree from sorted keys. Construction fails where the tree
    /// cannot be built: without keys, or with more keys than lookup results
    /// can tell apart.
    pub fn new(keys: &[i32]) -> (r: Result<ForeignAdapter, EngineError>)
        requires
            sorted(keys@),
        ensures
            r is Ok <==> 0 < keys@.len() && positions_fit(keys@.len()),
            r matches Ok(a) ==> a@ == keys@,
            r matches Err(e) ==> e == EngineError::ConstructionFailure,
    {
        if !length_fits(keys.len()) {
            return Err(EngineError::ConstructionFailure);
        }
        match FastTree::new(keys) {
            Some(tree) => Ok(ForeignAdapter { tree }),
            None => Err(EngineError::ConstructionFailure),
        }
    }

    /// The number of keys in the tree.
    pub fn size(&self) -> (n: usize)
        ensures
            n == self@.len(),
    {
        self.tree.size()
    }

    /// The key at a position of the tree.
    pub fn key_at(&self, index: usize) -> (k: i32)
        requires
            index < self@.len(),
        ensures
            k == self@[index as int],
    {
        self.tree.key_at(index)
    }

    /// Releases the tree. The adapter is consumed: it can neither be queried
    /// nor released again.
    pub fn destroy(self) {
    }
}

impl Engine for ForeignAdapter {
    open spec fn keys(&self) -> Seq<i32> {
        self@
    }

    fn lookup(&self, query: i32) -> (r: i64) {
        proof {
            use_type_invariant(self);
        }
        match self.tree.search(query) {
            Some(position) => position as i64,
            None => ABSENT,
        }
    }
}

} // verus!
