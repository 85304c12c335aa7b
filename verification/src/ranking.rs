//! Ranking pods by a distance key: a stable ascending order of positions,
//! and the closest few.

use vstd::prelude::*;
use itertools::Itertools;
use crate::pod::{PodInfo, PodRecord};

verus! {

/// Position `i` ranks before position `j`: a smaller key, or an equal key
/// and an earlier position (a stable order).
pub open spec fn ranks_before(keys: Seq<u64>, i: int, j: int) -> bool {
    keys[i] < keys[j] || (keys[i] == keys[j] && i < j)
}

/// `order` lists every position of `keys` once, by ascending key, positions
/// with equal keys in their original order.
pub open spec fn is_stable_order(keys: Seq<u64>, order: Seq<int>) -> bool {
    &&& order.len() == keys.len()
    &&& forall|j: int| 0 <= j < order.len() ==> 0 <= #[trigger] order[j] < keys.len()
    &&& forall|j1: int, j2: int|
        0 <= j1 < j2 < order.len() ==> ranks_before(keys, #[trigger] order[j1], #[trigger] order[j2])
}

/// The positions of a sorted list of (position, key) pairs.
pub open spec fn positions_of(pairs: Seq<(usize, u64)>) -> Seq<int> {
    pairs.map_values(|p: (usize, u64)| p.0 as int)
}

/// A stable order lists every position exactly once.
pub proof fn lemma_stable_order_covers(keys: Seq<u64>, order: Seq<int>)
    requires
        is_stable_order(keys, order),
    ensures
        order.no_duplicates(),
        order.to_set() == vstd::set_lib::set_int_range(0, keys.len() as int),
{
    assert forall|j1: int, j2: int| 0 <= j1 < order.len() && 0 <= j2 < order.len() && j1 != j2
        implies order[j1] != order[j2] by {
        if j1 < j2 {
            assert(ranks_before(keys, order[j1], order[j2]));
        } else {
            assert(ranks_before(keys, order[j2], order[j1]));
        }
    }
    order.unique_seq_to_set();
    vstd::set_lib::lemma_int_range(0, keys.len() as int);
    let range = vstd::set_lib::set_int_range(0, keys.len() as int);
    assert(order.to_set().subset_of(range)) by {
        assert forall|x: int| order.to_set().contains(x) implies range.contains(x) by {
            let j = choose|j: int| 0 <= j < order.len() && order[j] == x;
        }
    }
    vstd::seq_lib::seq_to_set_is_finite(order);
    vstd::set_lib::lemma_subset_equality(order.to_set(), range);
}

/// Two stable orders of the same keys agree on their first `j` positions.
proof fn lemma_stable_orders_agree(keys: Seq<u64>, o1: Seq<int>, o2: Seq<int>, j: int)
    requires
        is_stable_order(keys, o1),
        is_stable_order(keys, o2),
        0 <= j <= keys.len(),
    ensures
        forall|i: int| 0 <= i < j ==> o1[i] == o2[i],
    decreases j,
{
    if j > 0 {
        lemma_stable_orders_agree(keys, o1, o2, j - 1);
        let i = j - 1;
        let a = o1[i];
        let b = o2[i];
        if a != b {
            lemma_stable_order_covers(keys, o1);
            lemma_stable_order_covers(keys, o2);
            assert(o1.to_set().contains(b));
            assert(o2.to_set().contains(a));
            let ma = choose|m: int| 0 <= m < o2.len() && o2[m] == a;
            let mb = choose|m: int| 0 <= m < o1.len() && o1[m] == b;
            if ma < i {
                assert(o1[ma] == o2[ma]);
            } else if mb < i {
                assert(o1[mb] == o2[mb]);
            } else {
                assert(ranks_before(keys, o2[i], o2[ma]));
                assert(ranks_before(keys, o1[i], o1[mb]));
            }
        }
    }
}

/// The stable order of a list of keys is unique: the ranking, and with it
/// the pods a fuzzy search offers, is determined by the keys.
pub proof fn lemma_stable_order_unique(keys: Seq<u64>, o1: Seq<int>, o2: Seq<int>)
    requires
        is_stable_order(keys, o1),
        is_stable_order(keys, o2),
    ensures
        o1 == o2,
{
    lemma_stable_orders_agree(keys, o1, o2, keys.len() as int);
    assert(o1 =~= o2);
}

/// `itertools::Itertools::sorted_by_key` on the keys paired with their
/// positions (`enumerate`), keyed by the key: the source sorts with
/// `slice::sort_by_key`, which is stable, so the result is every
/// (position, key) pair by ascending key, equal keys in position order.
#[verifier::external_body]
fn sort_positions_by_key(keys: Vec<u64>) -> (res: Vec<(usize, u64)>)
    ensures
        is_stable_order(keys@, positions_of(res@)),
        forall|j: int| 0 <= j < res@.len() ==> (#[trigger] res@[j]).1 == keys@[res@[j].0 as int],
{
    keys.into_iter().enumerate().sorted_by_key(|p| p.1).collect()
}

/// How many candidates a fuzzy search offers at most.
pub const MAX_CHOICES: usize = 3;

/// The pods at the first `MAX_CHOICES` positions of `order`.
pub open spec fn first_choices(pods: Seq<PodRecord>, order: Seq<int>) -> Seq<PodRecord> {
    let k = if order.len() < MAX_CHOICES { order.len() } else { MAX_CHOICES as nat };
    order.take(k as int).map_values(|i: int| pods[i])
}

/// `res` holds the pods nearest by key: the first `MAX_CHOICES` of the
/// stable ascending order of `keys`.
pub open spec fn are_closest(pods: Seq<PodRecord>, keys: Seq<u64>, res: Seq<PodRecord>) -> bool {
    exists|order: Seq<int>| is_stable_order(keys, order) && res == first_choices(pods, order)
}

/// The closest pods are determined by the pods and their keys.
pub proof fn lemma_closest_unique(pods: Seq<PodRecord>, keys: Seq<u64>, r1: Seq<PodRecord>, r2: Seq<PodRecord>)
    requires
        are_closest(pods, keys, r1),
        are_closest(pods, keys, r2),
    ensures
        r1 == r2,
{
    let o1 = choose|order: Seq<int>| is_stable_order(keys, order) && r1 == first_choices(pods, order);
    let o2 = choose|order: Seq<int>| is_stable_order(keys, order) && r2 == first_choices(pods, order);
    lemma_stable_order_unique(keys, o1, o2);
}

/// The closest pods are at most `MAX_CHOICES`, as many as there are pods up
/// to that bound, each is one of the pods, and the first of them has a key
/// no greater than any pod's.
pub proof fn lemma_closest_shape(pods: Seq<PodRecord>, keys: Seq<u64>, res: Seq<PodRecord>)
    requires
        are_closest(pods, keys, res),
        pods.len() == keys.len(),
    ensures
        res.len() == if pods.len() < MAX_CHOICES { pods.len() } else { MAX_CHOICES as nat },
        forall|j: int| 0 <= j < res.len() ==> exists|i: int| 0 <= i < pods.len() && #[trigger] res[j] == pods[i],
        pods.len() > 0 ==> exists|i: int| 0 <= i < pods.len() && res[0] == pods[i] && forall|m: int|
            0 <= m < keys.len() ==> keys[i] <= #[trigger] keys[m],
{
    let o = choose|order: Seq<int>| is_stable_order(keys, order) && res == first_choices(pods, order);
    assert forall|j: int| 0 <= j < res.len() implies exists|i: int| 0 <= i < pods.len() && #[trigger] res[j] == pods[i] by {
        assert(res[j] == pods[o[j]]);
    }
    if pods.len() > 0 {
        lemma_stable_order_covers(keys, o);
        let i = o[0];
        assert(res[0] == pods[i]);
        assert forall|m: int| 0 <= m < keys.len() implies keys[i] <= #[trigger] keys[m] by {
            assert(o.to_set().contains(m));
            let jm = choose|j: int| 0 <= j < o.len() && o[j] == m;
            if jm > 0 {
                assert(ranks_before(keys, o[0], o[jm]));
            }
        }
    }
}

/// The (at most three) pods with the smallest keys, smallest first, pods
/// with equal keys in listing order; `keys[i]` is the distance key of
/// `pods[i]`.
pub fn closest_pods(pods: &Vec<PodInfo>, keys: Vec<u64>) -> (res: Vec<PodInfo>)
    requires
        keys@.len() == pods@.len(),
    ensures
        are_closest(pods@.map_values(|p: PodInfo| p@), keys@, res@.map_values(|p: PodInfo| p@)),
{
    let ghost key_view = keys@;
    let ghost pv = pods@.map_values(|p: PodInfo| p@);
    let sorted = sort_positions_by_key(keys);
    let ghost order = positions_of(sorted@);
    let k = if sorted.len() < MAX_CHOICES { sorted.len() } else { MAX_CHOICES };
    let mut res: Vec<PodInfo> = Vec::new();
    let mut j: usize = 0;
    while j < k
        invariant
            j <= k <= sorted@.len(),
            k == if sorted@.len() < MAX_CHOICES { sorted@.len() } else { MAX_CHOICES as nat },
            order == positions_of(sorted@),
            is_stable_order(key_view, order),
            key_view.len() == pods@.len(),
            pv == pods@.map_values(|p: PodInfo| p@),
            res@.map_values(|p: PodInfo| p@) == order.take(j as int).map_values(|i: int| pv[i]),
        decreases k - j,
    {
        let pos = sorted[j].0;
        assert(order[j as int] == pos as int);
        res.push(pods[pos].copy());
        assert(order.take(j + 1) == order.take(j as int).push(pos as int));
        assert(res@.map_values(|p: PodInfo| p@) == order.take(j as int).map_values(|i: int| pv[i]).push(pv[pos as int]));
        j += 1;
    }
    assert(res@.map_values(|p: PodInfo| p@) == first_choices(pv, order));
    res
}

} // verus!
