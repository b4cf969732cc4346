//! A static search tree over sorted 32-bit keys, and the mathematical model
//! of predecessor search that every engine of the harness is held to.

use vstd::prelude::*;
use vstd::slice::slice_to_vec;

verus! {

/// Whether a sequence of keys is in non-decreasing order.
pub open spec fn sorted(s: Seq<i32>) -> bool {
    forall|i: int, j: int| 0 <= i <= j < s.len() ==> s[i] <= s[j]
}

/// The number of keys of `s` that are at most `q`.
pub open spec fn count_le(s: Seq<i32>, q: int) -> nat
    decreases s.len(),
{
    if s.len() == 0 {
        0
    } else {
        count_le(s.drop_last(), q) + if s.last() <= q {
            1nat
        } else {
            0nat
        }
    }
}

/// Predecessor search: the position of the greatest key of `s` that is at
/// most `q` (the last such position, where that key occurs more than once),
/// or -1 where every key is greater than `q`.
pub open spec fn predecessor(s: Seq<i32>, q: i32) -> int {
    count_le(s, q as int) - 1
}

/// Lower bound: the position of the first key of `s` that is at least `q`,
/// or the length of `s` where every key is smaller than `q`.
pub open spec fn lower_bound_of(s: Seq<i32>, q: i32) -> nat {
    count_le(s, q - 1)
}

/// No more keys are at most `q` than there are keys.
pub proof fn lemma_count_le_bounded(s: Seq<i32>, q: int)
    ensures
        count_le(s, q) <= s.len(),
    decreases s.len(),
{
    if s.len() > 0 {
        lemma_count_le_bounded(s.drop_last(), q);
    }
}

/// Where the keys at most `q` are exactly the first `k` keys, `k` is their
/// number.
pub proof fn lemma_count_le_is_split(s: Seq<i32>, q: int, k: int)
    requires
        0 <= k <= s.len(),
        forall|i: int| 0 <= i < k ==> s[i] <= q,
        forall|i: int| k <= i < s.len() ==> s[i] > q,
    ensures
        count_le(s, q) == k,
    decreases s.len(),
{
    if s.len() > 0 {
        if k == s.len() {
            lemma_count_le_is_split(s.drop_last(), q, k - 1);
        } else {
            lemma_count_le_is_split(s.drop_last(), q, k);
        }
    }
}

/// In a sorted sequence the keys at most `q` are exactly the first
/// `count_le(s, q)` keys.
pub proof fn lemma_count_le_splits_sorted(s: Seq<i32>, q: int)
    requires
        sorted(s),
    ensures
        count_le(s, q) <= s.len(),
        forall|i: int| 0 <= i < s.len() ==> (i < count_le(s, q) <==> #[trigger] s[i] <= q),
    decreases s.len(),
{
    lemma_count_le_bounded(s, q);
    if s.len() > 0 {
        let front = s.drop_last();
        lemma_count_le_splits_sorted(front, q);
        if s.last() <= q {
            assert forall|i: int| 0 <= i < front.len() implies #[trigger] front[i] <= q by {
                assert(s[i] <= s[s.len() - 1]);
            }
            lemma_count_le_is_split(front, q, front.len() as int);
        }
        assert forall|i: int| 0 <= i < s.len() implies (i < count_le(s, q) <==> #[trigger] s[i]
            <= q) by {
            if i < front.len() {
                assert(front[i] == s[i]);
            }
        }
    }
}

/// What predecessor search returns on sorted keys: the position of a key that
/// is at most `q`, behind which every key is greater than `q`; and -1
/// exactly where the first key, and so every key, is greater than `q`.
pub proof fn lemma_predecessor_characterized(s: Seq<i32>, q: i32)
    requires
        sorted(s),
    ensures
        -1 <= predecessor(s, q) < s.len(),
        forall|j: int| 0 <= j <= predecessor(s, q) ==> #[trigger] s[j] <= q,
        forall|j: int| predecessor(s, q) < j < s.len() ==> #[trigger] s[j] > q,
        s.len() > 0 ==> (predecessor(s, q) == -1 <==> q < s[0]),
{
    lemma_count_le_splits_sorted(s, q as int);
}

/// Predecessor search has one answer: a position of sorted keys whose key is
/// at most `q`, and behind which every key is greater, is the predecessor.
pub proof fn lemma_predecessor_unique(s: Seq<i32>, q: i32, p: int)
    requires
        sorted(s),
        -1 <= p < s.len(),
        p >= 0 ==> s[p] <= q,
        p + 1 < s.len() ==> s[p + 1] > q,
    ensures
        p == predecessor(s, q),
{
    assert forall|i: int| 0 <= i < p + 1 implies s[i] <= q by {
        assert(s[i] <= s[p]);
    }
    assert forall|i: int| p + 1 <= i < s.len() implies s[i] > q by {
        assert(s[p + 1] <= s[i]);
    }
    lemma_count_le_is_split(s, q as int, p + 1);
}

/// What the lower bound is on sorted keys: every key before it is smaller
/// than `q`, and every key from it on is at least `q`.
pub proof fn lemma_lower_bound_characterized(s: Seq<i32>, q: i32)
    requires
        sorted(s),
    ensures
        lower_bound_of(s, q) <= s.len(),
        forall|j: int| 0 <= j < lower_bound_of(s, q) ==> #[trigger] s[j] < q,
        forall|j: int| lower_bound_of(s, q) <= j < s.len() ==> #[trigger] s[j] >= q,
{
    lemma_count_le_splits_sorted(s, q - 1);
}

/// Tells whether the keys are in non-decreasing order.
pub fn is_sorted(keys: &[i32]) -> (b: bool)
    ensures
        b == sorted(keys@),
{
    let mut i: usize = 1;
    while i < keys.len()
        invariant
            1 <= i,
            forall|a: int, b: int| 0 <= a <= b < i && b < keys@.len() ==> keys@[a] <= keys@[b],
        decreases keys@.len() - i,
    {
        if keys[i - 1] > keys[i] {
            return false;
        }
        assert forall|a: int, b: int| 0 <= a <= b < i + 1 && b < keys@.len() implies keys@[a]
            <= keys@[b] by {
            if a < b && b == i {
                assert(keys@[a] <= keys@[i - 1]);
            }
        }
        i += 1;
    }
    true
}

/// A static search tree: a set of sorted 32-bit keys, built once and then
/// only searched. It is never empty.
pub struct FastTree {
    keys: Vec<i32>,
}

impl FastTree {
    #[verifier::type_invariant]
    spec fn well_formed(&self) -> bool {
        &&& self.keys@.len() > 0
        &&& sorted(self.keys@)
    }

    /// The keys of the tree, in order.
    pub closed spec fn view(&self) -> Seq<i32> {
        self.keys@
    }

    /// Builds a tree from a sorted slice of keys. There is no tree without
    /// keys: an empty slice gives `None`.
    pub fn new(keys: &[i32]) -> (r: Option<FastTree>)
        requires
            sorted(keys@),
        ensures
            r is Some <==> keys@.len() > 0,
            r matches Some(t) ==> t@ == keys@,
    {
        if keys.len() == 0 {
            return None;
        }
        Some(FastTree { keys: slice_to_vec(keys) })
    }

    /// The number of keys that are at most `bound`, by binary search.
    fn rank(&self, bound: i32) -> (r: usize)
        ensures
            r == count_le(self@, bound as int),
            r <= self@.len(),
    {
        proof {
            use_type_invariant(self);
        }
        let mut lo: usize = 0;
        let mut hi: usize = self.keys.len();
        while lo < hi
            invariant
                0 <= lo <= hi <= self.keys@.len(),
                sorted(self.keys@),
                forall|i: int| 0 <= i < lo ==> self.keys@[i] <= bound,
                forall|i: int| hi <= i < self.keys@.len() ==> self.keys@[i] > bound,
            decreases hi - lo,
        {
            let mid: usize = lo + (hi - lo) / 2;
            if self.keys[mid] <= bound {
                lo = mid + 1;
            } else {
                hi = mid;
            }
        }
        proof {
            lemma_count_le_is_split(self.keys@, bound as int, lo as int);
        }
        lo
    }

    /// Searches for the greatest key that is at most `key` and returns its
    /// position, or `None` where every key is greater.
    pub fn search(&self, key: i32) -> (r: Option<usize>)
        ensures
            match r {
                Some(p) => p == predecessor(self@, key),
                None => predecessor(self@, key) == -1,
            },
            r matches Some(p) ==> p < self@.len() && self@[p as int] <= key,
            r is None <==> key < self@[0],
    {
        proof {
            use_type_invariant(self);
            lemma_predecessor_characterized(self@, key);
        }
        let n: usize = self.rank(key);
        if n == 0 {
            None
        } else {
            Some(n - 1)
        }
    }

    /// Finds the first key that is at least `key` and returns its position,
    /// which is `size()` where every key is smaller.
    pub fn lower_bound(&self, key: i32) -> (r: usize)
        ensures
            r == lower_bound_of(self@, key),
            r <= self@.len(),
    {
        if key == i32::MIN {
            proof {
                use_type_invariant(self);
                lemma_count_le_is_split(self@, key - 1, 0);
            }
            0
        } else {
            self.rank(key - 1)
        }
    }

    /// The number of keys in the tree.
    pub fn size(&self) -> (n: usize)
        ensures
            n == self@.len(),
            n > 0,
    {
        proof {
            use_type_invariant(self);
        }
        self.keys.len()
    }

    /// The key at the given position of the sorted order.
    pub fn key_at(&self, index: usize) -> (k: i32)
        requires
            index < self@.len(),
        ensures
            k == self@[index as int],
    {
        self.keys[index]
    }
}

} // verus!
