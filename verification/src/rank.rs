//! Ordering by descending value, and picking the leader of a list.

use vstd::prelude::*;

verus! {

// ---------------------------------------------------------------------------
// Rankings
// ---------------------------------------------------------------------------

/// Whether place `i` ranks ahead of place `j`: by the larger value, and among equal values by the
/// earlier place.
pub open spec fn ahead(values: Seq<u64>, i: int, j: int) -> bool {
    values[i] > values[j] || (values[i] == values[j] && i < j)
}

/// Whether `order` lists the places from `lo` up to `hi`, each once, ranked by their values.
pub open spec fn ranks(values: Seq<u64>, order: Seq<int>, lo: int, hi: int) -> bool {
    &&& order.len() == hi - lo
    &&& forall|p: int| 0 <= p < order.len() ==> lo <= #[trigger] order[p] < hi
    &&& forall|p: int, q: int|
        0 <= p < q < order.len() ==> ahead(values, #[trigger] order[p], #[trigger] order[q])
    &&& forall|i: int| lo <= i < hi ==> #[trigger] order.contains(i)
}

/// The places of all values, ranked.
pub open spec fn ranking(values: Seq<u64>) -> Seq<int> {
    choose|order: Seq<int>| ranks(values, order, 0, values.len() as int)
}

/// There is only one ranking.
pub proof fn ranking_is_unique(values: Seq<u64>, a: Seq<int>, b: Seq<int>)
    requires
        ranks(values, a, 0, values.len() as int),
        ranks(values, b, 0, values.len() as int),
    ensures
        a == b,
{
    assert forall|p: int| 0 <= p < a.len() implies a[p] == b[p] by {
        lemma_same_place(values, a, b, p);
    }
    assert(a =~= b);
}

proof fn lemma_same_place(values: Seq<u64>, a: Seq<int>, b: Seq<int>, p: int)
    requires
        ranks(values, a, 0, values.len() as int),
        ranks(values, b, 0, values.len() as int),
        0 <= p < a.len(),
    ensures
        a[p] == b[p],
    decreases p,
{
    assert forall|q: int| 0 <= q < p implies a[q] == b[q] by {
        lemma_same_place(values, a, b, q);
    }
    if a[p] != b[p] {
        assert(b.contains(a[p]));
        assert(a.contains(b[p]));
        let q = choose|q: int| 0 <= q < b.len() && b[q] == a[p];
        let r = choose|r: int| 0 <= r < a.len() && a[r] == b[p];
        if q < p {
            assert(ahead(values, a[q], a[p]));
        }
        if r < p {
            assert(ahead(values, b[r], b[p]));
        }
        assert(ahead(values, b[p], b[q]));
        assert(ahead(values, a[p], a[r]));
    }
}

proof fn lemma_find_below(values: Seq<u64>, order: Seq<int>, v: u64, p: int) -> (r: int)
    requires
        0 <= p <= order.len(),
        forall|q: int| 0 <= q < p ==> values[#[trigger] order[q]] >= v,
    ensures
        p <= r <= order.len(),
        forall|q: int| 0 <= q < r ==> values[#[trigger] order[q]] >= v,
        r < order.len() ==> values[order[r]] < v,
    decreases order.len() - p,
{
    if p < order.len() && values[order[p]] >= v {
        lemma_find_below(values, order, v, p + 1)
    } else {
        p
    }
}

proof fn lemma_rank(values: Seq<u64>) -> (order: Seq<int>)
    ensures
        ranks(values, order, 0, values.len() as int),
    decreases values.len(),
{
    if values.len() == 0 {
        seq![]
    } else {
        let rest = values.drop_last();
        let n = values.len() - 1;
        let o = lemma_rank(rest);
        assert forall|p: int| 0 <= p < o.len() implies rest[#[trigger] o[p]] == values[o[p]] by {}
        let r = lemma_find_below(values, o, values.last(), 0);
        let order = o.insert(r, n);
        assert forall|p: int| 0 <= p < order.len() implies 0 <= #[trigger] order[p] <= n by {
            if p < r {
                assert(order[p] == o[p]);
            } else if p > r {
                assert(order[p] == o[p - 1]);
            }
        }
        assert forall|p: int, q: int| 0 <= p < q < order.len() implies ahead(
            values,
            #[trigger] order[p],
            #[trigger] order[q],
        ) by {
            if q < r {
                assert(ahead(rest, o[p], o[q]));
            } else if q == r {
                assert(order[p] == o[p]);
                assert(values[o[p]] >= values.last());
            } else if p < r {
                assert(order[q] == o[q - 1]);
                assert(ahead(rest, o[p], o[q - 1]));
            } else if p == r {
                assert(order[q] == o[q - 1]);
                if q - 1 > r {
                    assert(ahead(rest, o[r], o[q - 1]));
                }
            } else {
                assert(ahead(rest, o[p - 1], o[q - 1]));
            }
        }
        assert forall|i: int| 0 <= i <= n implies #[trigger] order.contains(i) by {
            if i == n {
                assert(order[r] == n);
            } else {
                assert(o.contains(i));
                let p = choose|p: int| 0 <= p < o.len() && o[p] == i;
                if p < r {
                    assert(order[p] == i);
                } else {
                    assert(order[p + 1] == i);
                }
            }
        }
        order
    }
}

/// Every list of values has a ranking.
pub proof fn ranking_ranks(values: Seq<u64>)
    ensures
        ranks(values, ranking(values), 0, values.len() as int),
{
    let order = lemma_rank(values);
    assert(ranks(values, order, 0, values.len() as int));
}

/// The places that a vector lists.
pub open spec fn places(order: Seq<usize>) -> Seq<int> {
    Seq::new(order.len(), |p: int| order[p] as int)
}

/// Ranks the places from `lo` up to `hi`.
fn rank_range(values: &Vec<u64>, lo: usize, hi: usize) -> (order: Vec<usize>)
    requires
        lo <= hi <= values.len(),
    ensures
        ranks(values@, places(order@), lo as int, hi as int),
    decreases hi - lo,
{
    if hi - lo <= 1 {
        let mut order: Vec<usize> = Vec::new();
        if lo < hi {
            order.push(lo);
            assert(places(order@)[0] == lo);
        }
        assert forall|i: int| lo <= i < hi implies #[trigger] places(order@).contains(i) by {
            assert(places(order@)[0] == i);
        }
        return order;
    }
    let mid: usize = lo + (hi - lo) / 2;
    let left = rank_range(values, lo, mid);
    let right = rank_range(values, mid, hi);
    merge(values, &left, &right, Ghost(lo as int), Ghost(mid as int), Ghost(hi as int))
}

/// Merges the rankings of two neighbouring ranges.
fn merge(
    values: &Vec<u64>,
    left: &Vec<usize>,
    right: &Vec<usize>,
    Ghost(lo): Ghost<int>,
    Ghost(mid): Ghost<int>,
    Ghost(hi): Ghost<int>,
) -> (order: Vec<usize>)
    requires
        0 <= lo <= mid <= hi <= values.len(),
        ranks(values@, places(left@), lo, mid),
        ranks(values@, places(right@), mid, hi),
    ensures
        ranks(values@, places(order@), lo, hi),
{
    let mut order: Vec<usize> = Vec::new();
    let mut a: usize = 0;
    let mut b: usize = 0;
    let ghost l = places(left@);
    let ghost r = places(right@);
    while a < left.len() || b < right.len()
        invariant
            a <= left.len(),
            b <= right.len(),
            l == places(left@),
            r == places(right@),
            0 <= lo <= mid <= hi <= values.len(),
            ranks(values@, l, lo, mid),
            ranks(values@, r, mid, hi),
            order.len() == a + b,
            forall|p: int| 0 <= p < order.len() ==> lo <= #[trigger] places(order@)[p] < hi,
            forall|p: int, q: int|
                0 <= p < q < order.len() ==> ahead(
                    values@,
                    #[trigger] places(order@)[p],
                    #[trigger] places(order@)[q],
                ),
            forall|p: int, x: int|
                0 <= p < order.len() && a <= x < l.len() ==> ahead(
                    values@,
                    #[trigger] places(order@)[p],
                    #[trigger] l[x],
                ),
            forall|p: int, y: int|
                0 <= p < order.len() && b <= y < r.len() ==> ahead(
                    values@,
                    #[trigger] places(order@)[p],
                    #[trigger] r[y],
                ),
            forall|x: int| 0 <= x < a ==> places(order@).contains(#[trigger] l[x]),
            forall|y: int| 0 <= y < b ==> places(order@).contains(#[trigger] r[y]),
        decreases left.len() - a + right.len() - b,
    {
        let ghost before = places(order@);
        let from_left = if a >= left.len() {
            false
        } else if b >= right.len() {
            true
        } else {
            proof {
                assert(left@[a as int] == l[a as int]);
                assert(right@[b as int] == r[b as int]);
            }
            values[left[a]] >= values[right[b]]
        };
        let next: usize = if from_left {
            left[a]
        } else {
            right[b]
        };
        proof {
            assert(from_left ==> next == l[a as int]);
            assert(!from_left ==> next == r[b as int]);
            if from_left {
                assert forall|y: int| b <= y < r.len() implies ahead(
                    values@,
                    next as int,
                    #[trigger] r[y],
                ) by {
                    if y > b {
                        assert(ahead(values@, r[b as int], r[y]));
                    }
                }
            } else {
                assert forall|x: int| a <= x < l.len() implies ahead(
                    values@,
                    next as int,
                    #[trigger] l[x],
                ) by {
                    if x > a {
                        assert(ahead(values@, l[a as int], l[x]));
                    }
                }
            }
        }
        order.push(next);
        proof {
            assert(places(order@) =~= before.push(next as int));
            assert forall|i: int| before.contains(i) implies places(order@).contains(i) by {
                let p = choose|p: int| 0 <= p < before.len() && before[p] == i;
                assert(places(order@)[p] == i);
            }
            assert(places(order@)[before.len() as int] == next);
            assert(places(order@).contains(next as int));
        }
        if from_left {
            a += 1;
        } else {
            b += 1;
        }
    }
    assert forall|i: int| lo <= i < hi implies #[trigger] places(order@).contains(i) by {
        if i < mid {
            assert(l.contains(i));
            let x = choose|x: int| 0 <= x < l.len() && l[x] == i;
            assert(places(order@).contains(l[x]));
        } else {
            assert(r.contains(i));
            let y = choose|y: int| 0 <= y < r.len() && r[y] == i;
            assert(places(order@).contains(r[y]));
        }
    }
    order
}

/// Ranks the places of values by descending value, earlier places first among equals.
pub fn rank_descending(values: &Vec<u64>) -> (order: Vec<usize>)
    ensures
        places(order@) == ranking(values@),
        ranks(values@, ranking(values@), 0, values.len() as int),
{
    let order = rank_range(values, 0, values.len());
    proof {
        ranking_ranks(values@);
        ranking_is_unique(values@, places(order@), ranking(values@));
    }
    order
}

// ---------------------------------------------------------------------------
// Leaders
// ---------------------------------------------------------------------------

/// The place of the largest value above `floor`: the earliest one, if there is any.
pub open spec fn leader(values: Seq<int>, floor: int) -> Option<int>
    decreases values.len(),
{
    if values.len() == 0 {
        None
    } else {
        let before = leader(values.drop_last(), floor);
        let best = match before {
            Some(i) => values[i],
            None => floor,
        };
        if values.last() > best {
            Some(values.len() - 1)
        } else {
            before
        }
    }
}

/// The leader holds the largest value, and is the first to hold it; without a leader no value
/// exceeds the floor.
pub proof fn leader_is_first_largest(values: Seq<int>, floor: int)
    ensures
        match leader(values, floor) {
            Some(i) => {
                &&& 0 <= i < values.len()
                &&& values[i] > floor
                &&& forall|j: int| 0 <= j < values.len() ==> #[trigger] values[j] <= values[i]
                &&& forall|j: int| 0 <= j < i ==> #[trigger] values[j] < values[i]
            },
            None => forall|j: int| 0 <= j < values.len() ==> #[trigger] values[j] <= floor,
        },
    decreases values.len(),
{
    if values.len() > 0 {
        let rest = values.drop_last();
        leader_is_first_largest(rest, floor);
        assert forall|j: int| 0 <= j < rest.len() implies rest[j] == #[trigger] values[j] by {}
        assert(values[values.len() - 1] == values.last());
    }
}

/// The leader once one more value is offered.
pub proof fn lemma_leader_step(values: Seq<int>, floor: int, value: int)
    ensures
        ({
            let before = leader(values, floor);
            let best = match before {
                Some(i) => values[i],
                None => floor,
            };
            &&& leader(values.push(value), floor) == if value > best {
                Some(values.len() as int)
            } else {
                before
            }
            &&& match before {
                Some(i) => 0 <= i < values.len(),
                None => true,
            }
        }),
{
    leader_is_first_largest(values, floor);
    assert(values.push(value).drop_last() =~= values);
}

/// The leader among the values offered so far.
pub struct Lead {
    pub place: Option<usize>,
    /// The leading value, or the floor while there is none.
    pub value: i128,
    /// How many values were offered.
    pub offered: usize,
}

impl Lead {
    /// Whether this is the leader of `values` above `floor`.
    pub open spec fn of(&self, values: Seq<int>, floor: int) -> bool {
        &&& self.offered == values.len()
        &&& match leader(values, floor) {
            Some(i) => self.place == Some(i as usize) && 0 <= i < values.len() && self.value
                == values[i],
            None => self.place is None && self.value == floor,
        }
    }

    /// No leader yet.
    pub fn new(floor: i128) -> (r: Lead)
        ensures
            r.of(seq![], floor as int),
    {
        Lead { place: None, value: floor, offered: 0 }
    }

    /// Offers one more value.
    pub(crate) fn offer(&mut self, value: i128, Ghost(values): Ghost<Seq<int>>, Ghost(floor): Ghost<int>)
        requires
            old(self).of(values, floor),
            values.len() < usize::MAX,
        ensures
            final(self).of(values.push(value as int), floor),
    {
        proof {
            lemma_leader_step(values, floor, value as int);
        }
        if value > self.value {
            self.place = Some(self.offered);
            self.value = value;
        }
        self.offered = self.offered + 1;
    }
}

} // verus!
