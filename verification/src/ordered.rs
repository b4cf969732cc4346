//! The adapter of the general-purpose ordered map.

use crate::engine::{length_fits, positions_fit, Engine, EngineError, ABSENT};
use crate::tree::{lemma_count_le_bounded, lemma_predecessor_unique, predecessor, sorted};
use std::collections::btree_map::Range;
use std::collections::BTreeMap;
use vstd::prelude::*;

verus! {

/// The map that inserting every key of `s` with its position, in the order of
/// `s`, gives: each key that occurs is mapped to the last position at which
/// it occurs.
pub open spec fn index_map(s: Seq<i32>) -> Map<i32, usize>
    decreases s.len(),
{
    if s.len() == 0 {
        Map::empty()
    } else {
        index_map(s.drop_last()).insert(s.last(), (s.len() - 1) as usize)
    }
}

/// The keys of `index_map(s)` are the keys that occur in `s`, and each is
/// mapped to the last position at which it occurs.
pub proof fn lemma_index_map_holds_last_positions(s: Seq<i32>)
    requires
        s.len() <= usize::MAX,
    ensures
        forall|i: int| 0 <= i < s.len() ==> index_map(s).contains_key(#[trigger] s[i]),
        forall|k: i32| #[trigger]
            index_map(s).contains_key(k) ==> {
                &&& index_map(s)[k] < s.len()
                &&& s[index_map(s)[k] as int] == k
                &&& forall|j: int| index_map(s)[k] < j < s.len() ==> #[trigger] s[j] != k
            },
    decreases s.len(),
{
    if s.len() > 0 {
        let front = s.drop_last();
        lemma_index_map_holds_last_positions(front);
        assert forall|i: int| 0 <= i < s.len() implies index_map(s).contains_key(
            #[trigger] s[i],
        ) by {
            if i < front.len() {
                assert(front[i] == s[i]);
            }
        }
        assert forall|k: i32| #[trigger] index_map(s).contains_key(k) implies {
            &&& index_map(s)[k] < s.len()
            &&& s[index_map(s)[k] as int] == k
            &&& forall|j: int| index_map(s)[k] < j < s.len() ==> #[trigger] s[j] != k
        } by {
            if k != s.last() {
                let p = index_map(front)[k];
                assert(front[p as int] == s[p as int]);
                assert forall|j: int| p < j < s.len() implies #[trigger] s[j] != k by {
                    if j < front.len() {
                        assert(front[j] == s[j]);
                    }
                }
            }
        }
    }
}

/// On sorted keys, the greatest key of `index_map(s)` that is at most `q` is
/// mapped to the predecessor of `q` in `s`.
pub proof fn lemma_greatest_key_is_predecessor(s: Seq<i32>, q: i32, k: i32)
    requires
        sorted(s),
        s.len() <= usize::MAX,
        index_map(s).contains_key(k),
        k <= q,
        forall|other: i32| #[trigger] index_map(s).contains_key(other) && other <= q ==> other <= k,
    ensures
        index_map(s)[k] == predecessor(s, q),
{
    lemma_index_map_holds_last_positions(s);
    let p = index_map(s)[k] as int;
    if p + 1 < s.len() {
        assert(s[p] <= s[p + 1]);
        assert(index_map(s).contains_key(s[p + 1]));
    }
    lemma_predecessor_unique(s, q, p);
}

/// On sorted keys, where no key of `index_map(s)` is at most `q`, `q` has no
/// predecessor in `s`.
pub proof fn lemma_no_key_no_predecessor(s: Seq<i32>, q: i32)
    requires
        sorted(s),
        s.len() <= usize::MAX,
        forall|other: i32| #[trigger] index_map(s).contains_key(other) ==> other > q,
    ensures
        predecessor(s, q) == -1,
{
    lemma_index_map_holds_last_positions(s);
    if s.len() > 0 {
        assert(index_map(s).contains_key(s[0]));
    }
    lemma_predecessor_unique(s, q, -1);
}

/// `std::collections::btree_map::Range`: an iterator over the entries of a
/// part of a `BTreeMap`. Nothing inside it is seen here.
#[verifier::external_type_specification]
#[verifier::external_body]
#[verifier::reject_recursive_types(K)]
#[verifier::reject_recursive_types(V)]
pub struct ExRange<'a, K, V>(Range<'a, K, V>);

/// The entries that a range over a map has yet to yield, in the order in
/// which its front yields them.
pub uninterp spec fn range_entries(r: Range<'_, i32, usize>) -> Seq<(i32, usize)>;

/// Whether `entries` are the entries of `m` whose key is at most `q`, each
/// once, in increasing order of their keys.
pub open spec fn entries_up_to(m: Map<i32, usize>, q: i32, entries: Seq<(i32, usize)>) -> bool {
    &&& forall|i: int, j: int| 0 <= i < j < entries.len() ==> entries[i].0 < entries[j].0
    &&& forall|i: int|
        0 <= i < entries.len() ==> {
            &&& m.contains_key(#[trigger] entries[i].0)
            &&& m[entries[i].0] == entries[i].1
            &&& entries[i].0 <= q
        }
    &&& forall|k: i32| #[trigger]
        m.contains_key(k) && k <= q ==> exists|i: int|
            0 <= i < entries.len() && #[trigger] entries[i].0 == k
}

/// `BTreeMap::range` with the bound `..= q`: the range holds the entries of
/// the map whose key is at most `q`, in increasing order of their keys.
#[verifier::external_body]
fn range_up_to<'a>(m: &'a BTreeMap<i32, usize>, q: i32) -> (r: Range<'a, i32, usize>)
    ensures
        entries_up_to(m@, q, range_entries(r)),
{
    m.range(..=q)
}

/// `next_back` of a range over a map: it takes the last entry that the range
/// has yet to yield, and returns `None` where none is left.
#[verifier::external_body]
fn range_next_back(r: &mut Range<'_, i32, usize>) -> (e: Option<(i32, usize)>)
    ensures
        match e {
            Some(entry) => {
                &&& range_entries(*old(r)).len() > 0
                &&& entry == range_entries(*old(r)).last()
                &&& range_entries(*final(r)) == range_entries(*old(r)).drop_last()
            },
            None => range_entries(*old(r)).len() == 0 && range_entries(*final(r)).len() == 0,
        },
{
    r.next_back().map(|(k, v)| (*k, *v))
}

/// The adapter of the ordered map: a balanced map from each key to its
/// position in the key sequence that it was built from.
pub struct MapAdapter {
    map: BTreeMap<i32, usize>,
    keys: Ghost<Seq<i32>>,
}

impl MapAdapter {
    #[verifier::type_invariant]
    spec fn well_formed(&self) -> bool {
        &&& sorted(self.keys@)
        &&& positions_fit(self.keys@.len())
        &&& self.keys@.len() <= usize::MAX
        &&& self.map@ == index_map(self.keys@)
    }

    /// The keys that the map was built from, in order.
    pub closed spec fn view(&self) -> Seq<i32> {
        self.keys@
    }

    /// Builds the map by inserting every key with its position, in the order
    /// of the keys. Construction fails only with more keys than lookup
    /// results can tell apart.
    pub fn new(keys: &[i32]) -> (r: Result<MapAdapter, EngineError>)
        requires
            sorted(keys@),
        ensures
            r is Ok <==> positions_fit(keys@.len()),
            r matches Ok(a) ==> a@ == keys@,
            r matches Err(e) ==> e == EngineError::ConstructionFailure,
    {
        if !length_fits(keys.len()) {
            return Err(EngineError::ConstructionFailure);
        }
        let mut map: BTreeMap<i32, usize> = BTreeMap::new();
        let mut i: usize = 0;
        while i < keys.len()
            invariant
                i <= keys@.len(),
                map@ == index_map(keys@.take(i as int)),
            decreases keys@.len() - i,
        {
            map.insert(keys[i], i);
            proof {
                assert(keys@.take(i + 1).drop_last() =~= keys@.take(i as int));
            }
            i += 1;
        }
        proof {
            assert(keys@.take(i as int) =~= keys@);
        }
        Ok(MapAdapter { map, keys: Ghost(keys@) })
    }

    /// The entry of the greatest key that is at most `query`, found by one
    /// bounded range query.
    fn last_entry_up_to(&self, query: i32) -> (e: Option<(i32, usize)>)
        ensures
            match e {
                Some(entry) => entry.1 == predecessor(self@, query),
                None => predecessor(self@, query) == -1,
            },
    {
        proof {
            use_type_invariant(self);
        }
        let mut range = range_up_to(&self.map, query);
        let ghost entries = range_entries(range);
        let e = range_next_back(&mut range);
        proof {
            match e {
                Some(entry) => {
                    assert(entry == entries[entries.len() - 1]);
                    assert forall|other: i32| #[trigger]
                        self.map@.contains_key(other) && other <= query implies other
                        <= entry.0 by {
                        let i = choose|i: int|
                            0 <= i < entries.len() && #[trigger] entries[i].0 == other;
                        assert(entries[i].0 <= entries[entries.len() - 1].0);
                    }
                    lemma_greatest_key_is_predecessor(self.keys@, query, entry.0);
                },
                None => {
                    lemma_no_key_no_predecessor(self.keys@, query);
                },
            }
        }
        e
    }
}

impl Engine for MapAdapter {
    open spec fn keys(&self) -> Seq<i32> {
        self@
    }

    fn lookup(&self, query: i32) -> (r: i64) {
        proof {
            use_type_invariant(self);
            lemma_count_le_bounded(self.keys@, query as int);
        }
        match self.last_entry_up_to(query) {
            Some(entry) => entry.1 as i64,
            None => ABSENT,
        }
    }
}

} // verus!
