//! Three-way comparisons and a stable sort.
use vstd::prelude::*;

verus! {

/// The outcome of comparing two values.
#[derive(Clone, Copy, Debug, PartialEq, Eq, Structural)]
pub enum Comparison {
    Less,
    Equal,
    Greater,
}

impl Comparison {
    /// How two numbers compare.
    pub open spec fn of(left: int, right: int) -> Comparison {
        if left < right {
            Comparison::Less
        } else if left == right {
            Comparison::Equal
        } else {
            Comparison::Greater
        }
    }

    /// How two flags compare: a set flag is the greater one.
    pub open spec fn of_flags(left: bool, right: bool) -> Comparison {
        Self::of(
            if left {
                1
            } else {
                0
            },
            if right {
                1
            } else {
                0
            },
        )
    }

    /// This outcome, with `next` deciding where it is a tie.
    pub open spec fn or_by(self, next: Comparison) -> Comparison {
        match self {
            Comparison::Equal => next,
            _ => self,
        }
    }

    /// The outcome with the two sides exchanged.
    pub open spec fn reversed(self) -> Comparison {
        match self {
            Comparison::Less => Comparison::Greater,
            Comparison::Equal => Comparison::Equal,
            Comparison::Greater => Comparison::Less,
        }
    }

    /// Compares two numbers.
    pub fn of_numbers(left: u64, right: u64) -> (r: Comparison)
        ensures
            r == Self::of(left as int, right as int),
    {
        if left < right {
            Comparison::Less
        } else if left == right {
            Comparison::Equal
        } else {
            Comparison::Greater
        }
    }

    /// Compares two flags.
    pub fn of_bools(left: bool, right: bool) -> (r: Comparison)
        ensures
            r == Self::of_flags(left, right),
    {
        if left == right {
            Comparison::Equal
        } else if right {
            Comparison::Less
        } else {
            Comparison::Greater
        }
    }

    /// Lets `next` decide a tie.
    pub fn tie_break(self, next: Comparison) -> (r: Comparison)
        ensures
            r == self.or_by(next),
    {
        match self {
            Comparison::Equal => next,
            _ => self,
        }
    }
}

/// Every index below `n`, each of them once.
pub open spec fn is_arrangement(order: Seq<usize>, n: nat) -> bool {
    &&& order.len() == n
    &&& forall|i: int| 0 <= i < n ==> 0 <= #[trigger] order[i] < n
    &&& forall|i: int, j: int|
        0 <= i < n && 0 <= j < n && i != j ==> #[trigger] order[i] != #[trigger] order[j]
}

/// The items of `s` in the order that a sequence of indices gives.
pub open spec fn arranged<T>(s: Seq<T>, order: Seq<usize>) -> Seq<T> {
    Seq::new(order.len(), |i: int| s[order[i] as int])
}

/// Whether no pair of items stands in an order that `rank` forbids, where items that compare as
/// equal keep the order that they had.
pub open spec fn stably_ordered<T>(
    s: Seq<T>,
    order: Seq<usize>,
    rank: spec_fn(T, T) -> Comparison,
) -> bool {
    forall|i: int, j: int|
        0 <= i < j < order.len() ==> goes_before(s, rank, #[trigger] order[i], #[trigger] order[j])
}

/// Whether the item at index `a` belongs before the one at index `b`.
pub open spec fn goes_before<T>(
    s: Seq<T>,
    rank: spec_fn(T, T) -> Comparison,
    a: usize,
    b: usize,
) -> bool {
    match rank(s[a as int], s[b as int]) {
        Comparison::Less => true,
        Comparison::Equal => a < b,
        Comparison::Greater => false,
    }
}

/// Whether `after` holds the items of `before`, rearranged.
pub open spec fn is_rearrangement<T>(before: Seq<T>, after: Seq<T>) -> bool {
    exists|order: Seq<usize>| #[trigger]
        is_arrangement(order, before.len()) && after == arranged(before, order)
}

/// Whether `after` is `before` sorted by `rank`, with ties left in place.
pub open spec fn is_stable_sort<T>(
    before: Seq<T>,
    after: Seq<T>,
    rank: spec_fn(T, T) -> Comparison,
) -> bool {
    exists|order: Seq<usize>| #[trigger]
        is_arrangement(order, before.len()) && after == arranged(before, order) && stably_ordered(
            before,
            order,
            rank,
        )
}

/// Whether `rank` orders the items of `s`: exchanging the sides reverses it, and going on from a
/// first item to a second and from there to a third never leads back.
pub open spec fn ranks<T>(s: Seq<T>, rank: spec_fn(T, T) -> Comparison) -> bool {
    &&& forall|i: int, j: int|
        0 <= i < s.len() && 0 <= j < s.len() ==> #[trigger] rank(s[i], s[j]) == rank(
            s[j],
            s[i],
        ).reversed()
    &&& forall|i: int, j: int, k: int|
        0 <= i < s.len() && 0 <= j < s.len() && 0 <= k < s.len() && rank(s[i], s[j])
            != Comparison::Greater && rank(s[j], s[k]) != Comparison::Greater ==> (
        #[trigger] rank(s[i], s[j])).or_by(#[trigger] rank(s[j], s[k])) == rank(s[i], s[k])
}

/// Going before is transitive.
proof fn lemma_goes_before_transitive<T>(
    s: Seq<T>,
    rank: spec_fn(T, T) -> Comparison,
    a: usize,
    b: usize,
    c: usize,
)
    requires
        ranks(s, rank),
        a < s.len(),
        b < s.len(),
        c < s.len(),
        goes_before(s, rank, a, b),
        goes_before(s, rank, b, c),
    ensures
        goes_before(s, rank, a, c),
{
    assert(rank(s[a as int], s[b as int]).or_by(rank(s[b as int], s[c as int])) == rank(
        s[a as int],
        s[c as int],
    ));
}

/// The indices from `lo` up to `hi`, each of them once.
spec fn covers(order: Seq<usize>, lo: int, hi: int) -> bool {
    &&& order.len() == hi - lo
    &&& forall|i: int| 0 <= i < order.len() ==> lo <= #[trigger] order[i] < hi
    &&& distinct(order)
}

spec fn distinct(order: Seq<usize>) -> bool {
    forall|i: int, j: int|
        0 <= i < order.len() && 0 <= j < order.len() && i != j ==> #[trigger] order[i]
            != #[trigger] order[j]
}

/// What may be asked of a strict comparison of the items at two indices.
spec fn tells_less<T, F: Fn(usize, usize) -> bool>(
    less: F,
    s: Seq<T>,
    rank: spec_fn(T, T) -> Comparison,
) -> bool {
    &&& forall|a: usize, b: usize|
        a < s.len() && b < s.len() ==> #[trigger] call_requires(less, (a, b))
    &&& forall|a: usize, b: usize, r: bool|
        a < s.len() && b < s.len() && #[trigger] call_ensures(less, (a, b), r) ==> r == (rank(
            s[a as int],
            s[b as int],
        ) == Comparison::Less)
}

/// Merges two sorted runs of neighbouring indices.
fn merge_runs<T, F: Fn(usize, usize) -> bool>(
    left: &Vec<usize>,
    right: &Vec<usize>,
    less: &F,
    Ghost(s): Ghost<Seq<T>>,
    Ghost(rank): Ghost<spec_fn(T, T) -> Comparison>,
    Ghost(lo): Ghost<int>,
    Ghost(mid): Ghost<int>,
    Ghost(hi): Ghost<int>,
) -> (out: Vec<usize>)
    requires
        0 <= lo <= mid <= hi <= s.len(),
        covers(left@, lo, mid),
        covers(right@, mid, hi),
        tells_less(*less, s, rank),
    ensures
        covers(out@, lo, hi),
        ranks(s, rank) && stably_ordered(s, left@, rank) && stably_ordered(s, right@, rank)
            ==> stably_ordered(s, out@, rank),
{
    let mut out: Vec<usize> = Vec::new();
    let mut i: usize = 0;
    let mut j: usize = 0;
    let ghost sorted = ranks(s, rank) && stably_ordered(s, left@, rank) && stably_ordered(
        s,
        right@,
        rank,
    );
    while i < left.len() || j < right.len()
        invariant
            0 <= lo <= mid <= hi <= s.len(),
            covers(left@, lo, mid),
            covers(right@, mid, hi),
            tells_less(*less, s, rank),
            i <= left@.len(),
            j <= right@.len(),
            out@.len() == i + j,
            forall|k: int| 0 <= k < out@.len() ==> lo <= #[trigger] out@[k] < hi,
            distinct(out@),
            forall|k: int, x: int|
                0 <= k < out@.len() && i <= x < left@.len() ==> #[trigger] out@[k]
                    != #[trigger] left@[x],
            forall|k: int, y: int|
                0 <= k < out@.len() && j <= y < right@.len() ==> #[trigger] out@[k]
                    != #[trigger] right@[y],
            sorted == (ranks(s, rank) && stably_ordered(s, left@, rank) && stably_ordered(
                s,
                right@,
                rank,
            )),
            sorted ==> stably_ordered(s, out@, rank),
            sorted ==> forall|k: int, x: int|
                0 <= k < out@.len() && i <= x < left@.len() ==> goes_before(
                    s,
                    rank,
                    #[trigger] out@[k],
                    #[trigger] left@[x],
                ),
            sorted ==> forall|k: int, y: int|
                0 <= k < out@.len() && j <= y < right@.len() ==> goes_before(
                    s,
                    rank,
                    #[trigger] out@[k],
                    #[trigger] right@[y],
                ),
        decreases left@.len() - i + right@.len() - j,
    {
        let from_right = if i == left.len() {
            true
        } else if j == right.len() {
            false
        } else {
            less(right[j], left[i])
        };
        if from_right {
            let next: usize = right[j];
            proof {
                if sorted && i < left@.len() {
                    assert forall|x: int| i <= x < left@.len() implies goes_before(
                        s,
                        rank,
                        next,
                        #[trigger] left@[x],
                    ) by {
                        assert(goes_before(s, rank, next, left@[i as int]));
                        if x > i {
                            assert(goes_before(s, rank, left@[i as int], left@[x]));
                            lemma_goes_before_transitive(s, rank, next, left@[i as int], left@[x]);
                        }
                    }
                }
            }
            out.push(next);
            j = j + 1;
        } else {
            let next: usize = left[i];
            proof {
                if sorted && j < right@.len() {
                    assert forall|y: int| j <= y < right@.len() implies goes_before(
                        s,
                        rank,
                        next,
                        #[trigger] right@[y],
                    ) by {
                        assert(rank(s[next as int], s[right@[j as int] as int]) == rank(
                            s[right@[j as int] as int],
                            s[next as int],
                        ).reversed());
                        assert(goes_before(s, rank, next, right@[j as int]));
                        if y > j {
                            assert(goes_before(s, rank, right@[j as int], right@[y]));
                            lemma_goes_before_transitive(
                                s,
                                rank,
                                next,
                                right@[j as int],
                                right@[y],
                            );
                        }
                    }
                }
            }
            out.push(next);
            i = i + 1;
        }
    }
    out
}

/// Sorts the indices from `lo` up to `hi` by the items that they stand for.
fn sort_run<T, F: Fn(usize, usize) -> bool>(
    lo: usize,
    hi: usize,
    less: &F,
    Ghost(s): Ghost<Seq<T>>,
    Ghost(rank): Ghost<spec_fn(T, T) -> Comparison>,
) -> (out: Vec<usize>)
    requires
        lo <= hi <= s.len(),
        tells_less(*less, s, rank),
    ensures
        covers(out@, lo as int, hi as int),
        ranks(s, rank) ==> stably_ordered(s, out@, rank),
    decreases hi - lo,
{
    if hi - lo < 2 {
        let mut out: Vec<usize> = Vec::new();
        if lo < hi {
            out.push(lo);
        }
        out
    } else {
        let mid: usize = lo + (hi - lo) / 2;
        let left = sort_run::<T, F>(lo, mid, less, Ghost(s), Ghost(rank));
        let right = sort_run::<T, F>(mid, hi, less, Ghost(s), Ghost(rank));
        merge_runs::<T, F>(
            &left,
            &right,
            less,
            Ghost(s),
            Ghost(rank),
            Ghost(lo as int),
            Ghost(mid as int),
            Ghost(hi as int),
        )
    }
}

/// Sorts the indices of the items of `s`, given a strict comparison of the items at two indices.
pub(crate) fn sort_indices<T, F: Fn(usize, usize) -> bool>(
    len: usize,
    less: &F,
    Ghost(s): Ghost<Seq<T>>,
    Ghost(rank): Ghost<spec_fn(T, T) -> Comparison>,
) -> (order: Vec<usize>)
    requires
        len == s.len(),
        forall|a: usize, b: usize| a < len && b < len ==> #[trigger] call_requires(*less, (a, b)),
        forall|a: usize, b: usize, r: bool|
            a < len && b < len && #[trigger] call_ensures(*less, (a, b), r) ==> r == (rank(
                s[a as int],
                s[b as int],
            ) == Comparison::Less),
    ensures
        is_arrangement(order@, s.len()),
        ranks(s, rank) ==> stably_ordered(s, order@, rank),
{
    sort_run::<T, F>(0, len, less, Ghost(s), Ghost(rank))
}

/// Puts values into the order that indices give.
pub(crate) fn arrange<T: Copy>(values: &Vec<T>, order: &Vec<usize>) -> (r: Vec<T>)
    requires
        is_arrangement(order@, values@.len()),
    ensures
        r@ == arranged(values@, order@),
{
    let mut out: Vec<T> = Vec::new();
    let mut i: usize = 0;
    while i < order.len()
        invariant
            i <= order@.len(),
            is_arrangement(order@, values@.len()),
            out@ == arranged(values@, order@).take(i as int),
        decreases order@.len() - i,
    {
        out.push(values[order[i]]);
        i = i + 1;
        assert(out@ =~= arranged(values@, order@).take(i as int));
    }
    assert(out@ =~= arranged(values@, order@));
    out
}

/// Every index below `n` occurs in an arrangement.
proof fn lemma_arrangement_holds_all(order: Seq<usize>, n: nat, x: usize) -> (i: int)
    requires
        is_arrangement(order, n),
        x < n,
    ensures
        0 <= i < n,
        order[i] == x,
{
    let wide = order.map_values(|v: usize| v as int);
    assert(wide.no_duplicates()) by {
        assert forall|i: int, j: int|
            0 <= i < wide.len() && 0 <= j < wide.len() && i != j implies wide[i] != wide[j] by {
            assert(order[i] != order[j]);
        }
    }
    wide.unique_seq_to_set();
    vstd::set_lib::lemma_int_range(0, n as int);
    assert(wide.to_set().subset_of(vstd::set_lib::set_int_range(0, n as int))) by {
        assert forall|v: int| wide.to_set().contains(v) implies 0 <= v < n by {
            let k = choose|k: int| 0 <= k < wide.len() && wide[k] == v;
            assert(0 <= order[k] < n);
        }
    }
    vstd::set_lib::lemma_subset_equality(wide.to_set(), vstd::set_lib::set_int_range(0, n as int));
    assert(wide.to_set().contains(x as int));
    let i = choose|i: int| 0 <= i < wide.len() && wide[i] == x as int;
    i
}

/// A rearranged sequence holds every item as often as it did before.
pub proof fn rearranging_keeps_items<T>(before: Seq<T>, after: Seq<T>)
    requires
        is_rearrangement(before, after),
    ensures
        after.to_multiset() == before.to_multiset(),
{
    let order = choose|order: Seq<usize>| #[trigger]
        is_arrangement(order, before.len()) && after == arranged(before, order);
    lemma_arranged_multiset(before, order);
}

proof fn lemma_arranged_multiset<T>(s: Seq<T>, order: Seq<usize>)
    requires
        is_arrangement(order, s.len()),
    ensures
        arranged(s, order).to_multiset() == s.to_multiset(),
    decreases s.len(),
{
    broadcast use vstd::seq_lib::group_to_multiset_ensures;
    broadcast use vstd::multiset::group_multiset_axioms;

    let after = arranged(s, order);
    if s.len() == 0 {
        assert(after =~= s);
    } else if s.len() - 1 <= usize::MAX {
        let top = (s.len() - 1) as usize;
        let p = lemma_arrangement_holds_all(order, s.len(), top);
        let rest = order.remove(p);
        let init = s.drop_last();
        assert(is_arrangement(rest, init.len())) by {
            assert forall|i: int| 0 <= i < rest.len() implies 0 <= #[trigger] rest[i]
                < init.len() by {
                let k = if i < p {
                    i
                } else {
                    i + 1
                };
                assert(rest[i] == order[k]);
                assert(order[k] != order[p]);
            }
            assert forall|i: int, j: int|
                0 <= i < rest.len() && 0 <= j < rest.len() && i != j implies #[trigger] rest[i]
                != #[trigger] rest[j] by {
                let k = if i < p {
                    i
                } else {
                    i + 1
                };
                let l = if j < p {
                    j
                } else {
                    j + 1
                };
                assert(order[k] != order[l]);
            }
        }
        lemma_arranged_multiset(init, rest);
        assert(after.remove(p) =~= arranged(init, rest)) by {
            assert forall|i: int| 0 <= i < rest.len() implies after.remove(p)[i] == arranged(
                init,
                rest,
            )[i] by {
                assert(0 <= rest[i] < init.len());
            }
        }
        assert(after[p] == s.last());
        assert(s =~= init.push(s.last()));
        assert(after.to_multiset().count(after[p]) > 0) by {
            assert(after.contains(after[p]));
        }
        assert(after.to_multiset() =~= after.to_multiset().remove(after[p]).insert(after[p]));
    } else {
        assert(order[s.len() - 1] <= usize::MAX);
        lemma_arrangement_is_short(order, s.len());
    }
}

/// There are no more indices than `usize` has values.
proof fn lemma_arrangement_is_short(order: Seq<usize>, n: nat)
    requires
        is_arrangement(order, n),
    ensures
        n <= usize::MAX + 1,
{
    if n > usize::MAX + 1 {
        let wide = order.map_values(|v: usize| v as int);
        assert(wide.no_duplicates()) by {
            assert forall|i: int, j: int|
                0 <= i < wide.len() && 0 <= j < wide.len() && i != j implies wide[i] != wide[j] by {
                assert(order[i] != order[j]);
            }
        }
        wide.unique_seq_to_set();
        vstd::set_lib::lemma_int_range(0, usize::MAX + 1);
        assert(wide.to_set().subset_of(vstd::set_lib::set_int_range(0, usize::MAX + 1)));
        vstd::set_lib::lemma_len_subset(wide.to_set(), vstd::set_lib::set_int_range(0, usize::MAX + 1));
    }
}

/// A stable sort has one result.
pub proof fn stable_sort_is_unique<T>(
    before: Seq<T>,
    one: Seq<T>,
    other: Seq<T>,
    rank: spec_fn(T, T) -> Comparison,
)
    requires
        ranks(before, rank),
        is_stable_sort(before, one, rank),
        is_stable_sort(before, other, rank),
    ensures
        one == other,
{
    let a = choose|order: Seq<usize>| #[trigger]
        is_arrangement(order, before.len()) && one == arranged(before, order) && stably_ordered(
            before,
            order,
            rank,
        );
    let b = choose|order: Seq<usize>| #[trigger]
        is_arrangement(order, before.len()) && other == arranged(before, order) && stably_ordered(
            before,
            order,
            rank,
        );
    lemma_same_order(before, a, b, rank, before.len());
    assert(a =~= b);
}

proof fn lemma_same_order<T>(
    s: Seq<T>,
    a: Seq<usize>,
    b: Seq<usize>,
    rank: spec_fn(T, T) -> Comparison,
    k: nat,
)
    requires
        ranks(s, rank),
        is_arrangement(a, s.len()),
        is_arrangement(b, s.len()),
        stably_ordered(s, a, rank),
        stably_ordered(s, b, rank),
        k <= s.len(),
    ensures
        forall|i: int| 0 <= i < k ==> #[trigger] a[i] == b[i],
    decreases k,
{
    if k > 0 {
        lemma_same_order(s, a, b, rank, (k - 1) as nat);
        let i = k - 1;
        if a[i] != b[i] {
            let x = a[i];
            let y = b[i];
            let in_b = lemma_arrangement_holds_all(b, s.len(), x);
            let in_a = lemma_arrangement_holds_all(a, s.len(), y);
            if in_b < i {
                assert(a[in_b] == b[in_b]);
                assert(false);
            }
            if in_a < i {
                assert(a[in_a] == b[in_a]);
                assert(false);
            }
            assert(goes_before(s, rank, a[i], a[in_a]));
            assert(goes_before(s, rank, b[i], b[in_b]));
            assert(rank(s[x as int], s[y as int]) == rank(s[y as int], s[x as int]).reversed());
        }
    }
}

} // verus!
