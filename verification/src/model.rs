//! The mathematical model: the constraint graph over birth and death
//! events, what a satisfying assignment of dates is, and the lemmas that
//! connect cycles of the graph to unsatisfiability of the facts.
//!
//! Person `i` (1-based, `1 <= i <= n`) owns two event nodes: node `i - 1`
//! is the birth of `i`, and node `n + i - 1` is the death of `i`.

use vstd::prelude::*;
use vstd::multiset::Multiset;

verus! {

broadcast use vstd::multiset::group_multiset_axioms;

/// Both components of a fact pair name a person in `[1, n]`.
pub open spec fn pair_wf(n: int, p: (u32, u32)) -> bool {
    1 <= p.0 <= n && 1 <= p.1 <= n
}

/// Every fact of both lists names persons in `[1, n]`.
pub open spec fn facts_wf(n: int, f1: Seq<(u32, u32)>, f2: Seq<(u32, u32)>) -> bool {
    &&& forall|k: int| 0 <= k < f1.len() ==> pair_wf(n, #[trigger] f1[k])
    &&& forall|k: int| 0 <= k < f2.len() ==> pair_wf(n, #[trigger] f2[k])
}

/// The edge a form-1 fact `p` ("p.0 died before p.1 was born") adds:
/// from the death of `p.0` to the birth of `p.1`.
pub open spec fn form1_edge(n: int, p: (u32, u32), u: int, v: int) -> bool {
    u == n + p.0 - 1 && v == p.1 - 1
}

/// The two edges a form-2 fact `p` ("the lives of `p.0` and `p.1`
/// overlapped") adds: each is born before the other dies.
pub open spec fn form2_edge(n: int, p: (u32, u32), u: int, v: int) -> bool {
    ||| (u == p.0 - 1 && v == n + p.1 - 1)
    ||| (u == p.1 - 1 && v == n + p.0 - 1)
}

/// An edge of the partially built constraint graph: the first `n_life`
/// birth-before-death edges, the first `k1` form-1 facts and the first
/// `k2` form-2 facts are in.
pub open spec fn partial_edge(
    n: int,
    f1: Seq<(u32, u32)>,
    f2: Seq<(u32, u32)>,
    n_life: int,
    k1: int,
    k2: int,
    u: int,
    v: int,
) -> bool {
    ||| (0 <= u < n_life && v == u + n)
    ||| (exists|k: int| 0 <= k < k1 && form1_edge(n, #[trigger] f1[k], u, v))
    ||| (exists|k: int| 0 <= k < k2 && form2_edge(n, #[trigger] f2[k], u, v))
}

/// An edge of the full constraint graph of `n` persons and the two
/// fact lists.
pub open spec fn constraint_edge(
    n: int,
    f1: Seq<(u32, u32)>,
    f2: Seq<(u32, u32)>,
    u: int,
    v: int,
) -> bool {
    partial_edge(n, f1, f2, n, f1.len() as int, f2.len() as int, u, v)
}

/// The date of event node `v` under the two date arrays: nodes `0..n`
/// are births, nodes `n..2n` are deaths.
pub open spec fn date_of(n: int, birth: Seq<usize>, death: Seq<usize>, v: int) -> int {
    if v < n {
        birth[v] as int
    } else {
        death[v - n] as int
    }
}

/// Some event is dated `d`.
pub open spec fn date_assigned(n: int, birth: Seq<usize>, death: Seq<usize>, d: int) -> bool {
    exists|v: int| 0 <= v < 2 * n && #[trigger] date_of(n, birth, death, v) == d
}

/// A form-1 fact is honoured: `p.0` died before `p.1` was born.
pub open spec fn form1_fact_holds(birth: Seq<usize>, death: Seq<usize>, p: (u32, u32)) -> bool {
    death[p.0 - 1] < birth[p.1 - 1]
}

/// A form-2 fact is honoured: each of `p.0`, `p.1` was born before the
/// other died.
pub open spec fn form2_fact_holds(birth: Seq<usize>, death: Seq<usize>, p: (u32, u32)) -> bool {
    birth[p.0 - 1] < death[p.1 - 1] && birth[p.1 - 1] < death[p.0 - 1]
}

/// `birth` and `death` assign dates that honour every fact: each person is
/// born before they die, every fact of both lists holds, and the `2n`
/// dates are exactly the integers `1 ..= 2n`.
pub open spec fn valid_assignment(
    n: int,
    f1: Seq<(u32, u32)>,
    f2: Seq<(u32, u32)>,
    birth: Seq<usize>,
    death: Seq<usize>,
) -> bool {
    &&& birth.len() == n
    &&& death.len() == n
    &&& forall|i: int| 0 <= i < n ==> 1 <= #[trigger] birth[i] <= 2 * n
    &&& forall|i: int| 0 <= i < n ==> 1 <= #[trigger] death[i] <= 2 * n
    &&& forall|i: int| 0 <= i < n ==> #[trigger] birth[i] < death[i]
    &&& forall|k: int| 0 <= k < f1.len() ==> form1_fact_holds(birth, death, #[trigger] f1[k])
    &&& forall|k: int| 0 <= k < f2.len() ==> form2_fact_holds(birth, death, #[trigger] f2[k])
    &&& forall|u: int, v: int|
        0 <= u < 2 * n && 0 <= v < 2 * n && u != v ==> date_of(n, birth, death, u) != date_of(
            n,
            birth,
            death,
            v,
        )
    &&& forall|d: int| 1 <= d <= 2 * n ==> #[trigger] date_assigned(n, birth, death, d)
}

/// The facts admit some assignment of dates.
pub open spec fn consistent(n: int, f1: Seq<(u32, u32)>, f2: Seq<(u32, u32)>) -> bool {
    exists|birth: Seq<usize>, death: Seq<usize>| valid_assignment(n, f1, f2, birth, death)
}

/// Consecutive entries of `p` are joined by edges of `edges`.
pub open spec fn edge_path(edges: Multiset<(int, int)>, p: Seq<int>) -> bool {
    forall|k: int| 0 <= k < p.len() - 1 ==> edges.contains((#[trigger] p[k], p[k + 1]))
}

/// `p` lists the nodes of a directed cycle of `edges`.
pub open spec fn is_cycle_path(edges: Multiset<(int, int)>, p: Seq<int>) -> bool {
    &&& p.len() >= 1
    &&& edge_path(edges, p)
    &&& edges.contains((p[p.len() - 1], p[0]))
}

/// `edges` has a directed cycle.
pub open spec fn has_cycle(edges: Multiset<(int, int)>) -> bool {
    exists|p: Seq<int>| is_cycle_path(edges, p)
}

/// Node `v` occurs somewhere in `order`.
pub open spec fn appears(order: Seq<usize>, v: int) -> bool {
    exists|q: int| 0 <= q < order.len() && (#[trigger] order[q]) as int == v
}

/// The position at which node `v` occurs in `order`.
pub open spec fn position_of(order: Seq<usize>, v: int) -> int {
    choose|q: int| 0 <= q < order.len() && (#[trigger] order[q]) as int == v
}

/// `order` lists every node of `0 .. count` exactly once, each node
/// strictly before the target of every edge that leaves it.
pub open spec fn is_topo_order(edges: Multiset<(int, int)>, count: nat, order: Seq<usize>) -> bool {
    &&& order.len() == count
    &&& forall|q: int| 0 <= q < order.len() ==> ((#[trigger] order[q]) as int) < count
    &&& forall|q: int, r: int|
        0 <= q < order.len() && 0 <= r < order.len() && q != r ==> order[q] != order[r]
    &&& forall|v: int| 0 <= v < count ==> #[trigger] appears(order, v)
    &&& forall|q: int, r: int|
        0 <= q < order.len() && 0 <= r < order.len() && #[trigger] edges.contains(
            ((order[q]) as int, (order[r]) as int),
        ) ==> q < r
}

/// A node `v` that appears in `order` is found at `position_of(order, v)`.
proof fn lemma_position(order: Seq<usize>, v: int)
    requires
        appears(order, v),
    ensures
        0 <= position_of(order, v) < order.len(),
        (order[position_of(order, v)]) as int == v,
{
}

/// Every edge of the constraint graph joins two event nodes of `0 .. 2n`.
proof fn lemma_constraint_edge_range(
    n: int,
    f1: Seq<(u32, u32)>,
    f2: Seq<(u32, u32)>,
    u: int,
    v: int,
)
    requires
        facts_wf(n, f1, f2),
        constraint_edge(n, f1, f2, u, v),
    ensures
        0 <= u < 2 * n,
        0 <= v < 2 * n,
{
    if 0 <= u < n && v == u + n {
    } else if exists|k: int| 0 <= k < f1.len() && form1_edge(n, #[trigger] f1[k], u, v) {
        let k = choose|k: int| 0 <= k < f1.len() && form1_edge(n, #[trigger] f1[k], u, v);
        assert(pair_wf(n, f1[k]));
    } else {
        let k = choose|k: int| 0 <= k < f2.len() && form2_edge(n, #[trigger] f2[k], u, v);
        assert(pair_wf(n, f2[k]));
    }
}

/// Under a valid assignment, every constraint edge goes from an
/// earlier-dated event to a later-dated one.
proof fn lemma_edge_date(
    n: int,
    f1: Seq<(u32, u32)>,
    f2: Seq<(u32, u32)>,
    birth: Seq<usize>,
    death: Seq<usize>,
    u: int,
    v: int,
)
    requires
        facts_wf(n, f1, f2),
        valid_assignment(n, f1, f2, birth, death),
        constraint_edge(n, f1, f2, u, v),
    ensures
        0 <= u < 2 * n,
        0 <= v < 2 * n,
        date_of(n, birth, death, u) < date_of(n, birth, death, v),
{
    lemma_constraint_edge_range(n, f1, f2, u, v);
    if 0 <= u < n && v == u + n {
        assert(birth[u] < death[u]);
    } else if exists|k: int| 0 <= k < f1.len() && form1_edge(n, #[trigger] f1[k], u, v) {
        let k = choose|k: int| 0 <= k < f1.len() && form1_edge(n, #[trigger] f1[k], u, v);
        assert(pair_wf(n, f1[k]));
        assert(form1_fact_holds(birth, death, f1[k]));
    } else {
        let k = choose|k: int| 0 <= k < f2.len() && form2_edge(n, #[trigger] f2[k], u, v);
        assert(pair_wf(n, f2[k]));
        assert(form2_fact_holds(birth, death, f2[k]));
    }
}

/// Along a path of constraint edges the dates strictly increase.
proof fn lemma_path_dates(
    n: int,
    f1: Seq<(u32, u32)>,
    f2: Seq<(u32, u32)>,
    birth: Seq<usize>,
    death: Seq<usize>,
    edges: Multiset<(int, int)>,
    p: Seq<int>,
)
    requires
        facts_wf(n, f1, f2),
        valid_assignment(n, f1, f2, birth, death),
        forall|u: int, v: int| #[trigger] edges.contains((u, v)) ==> constraint_edge(n, f1, f2, u, v),
        edge_path(edges, p),
        p.len() >= 1,
    ensures
        date_of(n, birth, death, p[0]) <= date_of(n, birth, death, p[p.len() - 1]),
        p.len() >= 2 ==> date_of(n, birth, death, p[0]) < date_of(n, birth, death, p[p.len() - 1]),
    decreases p.len(),
{
    if p.len() >= 2 {
        assert(edges.contains((p[p.len() - 2], p[p.len() - 1])));
        lemma_edge_date(n, f1, f2, birth, death, p[p.len() - 2], p[p.len() - 1]);
        let q = p.drop_last();
        assert forall|k: int| 0 <= k < q.len() - 1 implies edges.contains(
            (#[trigger] q[k], q[k + 1]),
        ) by {
            assert(edges.contains((p[k], p[k + 1])));
        }
        lemma_path_dates(n, f1, f2, birth, death, edges, q);
    }
}

/// Position `q` of the order has been projected: the event at that
/// position got date `q + 1` in its person's array slot.
pub open spec fn projected(
    n: int,
    order: Seq<usize>,
    birth: Seq<usize>,
    death: Seq<usize>,
    q: int,
) -> bool {
    &&& (order[q] as int) < n ==> birth[order[q] as int] as int == q + 1
    &&& (order[q] as int) >= n ==> death[order[q] as int - n] as int == q + 1
}

/// Projecting a topological order of the full constraint graph onto the
/// two date arrays yields a valid assignment.
pub proof fn lemma_projection_valid(
    n: int,
    f1: Seq<(u32, u32)>,
    f2: Seq<(u32, u32)>,
    edges: Multiset<(int, int)>,
    order: Seq<usize>,
    birth: Seq<usize>,
    death: Seq<usize>,
)
    requires
        n >= 0,
        facts_wf(n, f1, f2),
        forall|u: int, v: int|
            constraint_edge(n, f1, f2, u, v) ==> #[trigger] edges.contains((u, v)),
        is_topo_order(edges, (2 * n) as nat, order),
        birth.len() == n,
        death.len() == n,
        forall|q: int| 0 <= q < order.len() ==> #[trigger] projected(n, order, birth, death, q),
    ensures
        valid_assignment(n, f1, f2, birth, death),
{
    let count = 2 * n;
    // Every event's date is its position in the order, plus one.
    assert forall|v: int| 0 <= v < count implies ({
        let q = position_of(order, v);
        0 <= q < count && (order[q] as int) == v && #[trigger] date_of(n, birth, death, v) == q + 1
    }) by {
        assert(appears(order, v));
        lemma_position(order, v);
        assert(projected(n, order, birth, death, position_of(order, v)));
    }
    assert forall|i: int| 0 <= i < n implies 1 <= #[trigger] birth[i] <= 2 * n by {
        assert(date_of(n, birth, death, i) == birth[i] as int);
    }
    assert forall|i: int| 0 <= i < n implies 1 <= #[trigger] death[i] <= 2 * n by {
        assert(date_of(n, birth, death, n + i) == death[i] as int);
    }
    // Every constraint edge runs from an earlier date to a later one.
    assert forall|u: int, v: int| #[trigger] constraint_edge(n, f1, f2, u, v) implies date_of(
        n,
        birth,
        death,
        u,
    ) < date_of(n, birth, death, v) by {
        lemma_constraint_edge_range(n, f1, f2, u, v);
        assert(edges.contains((u, v)));
        assert(appears(order, u));
        assert(appears(order, v));
        lemma_position(order, u);
        lemma_position(order, v);
        let qu = position_of(order, u);
        let qv = position_of(order, v);
        assert(edges.contains(((order[qu]) as int, (order[qv]) as int)));
        assert(date_of(n, birth, death, u) == qu + 1);
        assert(date_of(n, birth, death, v) == qv + 1);
    }
    assert forall|i: int| 0 <= i < n implies #[trigger] birth[i] < death[i] by {
        assert(constraint_edge(n, f1, f2, i, i + n));
        assert(date_of(n, birth, death, i) < date_of(n, birth, death, i + n));
    }
    assert forall|k: int| 0 <= k < f1.len() implies form1_fact_holds(
        birth,
        death,
        #[trigger] f1[k],
    ) by {
        assert(pair_wf(n, f1[k]));
        let u = n + f1[k].0 - 1;
        let v = f1[k].1 - 1;
        assert(form1_edge(n, f1[k], u, v));
        assert(constraint_edge(n, f1, f2, u, v));
        assert(date_of(n, birth, death, u) < date_of(n, birth, death, v));
        assert(date_of(n, birth, death, u) == death[f1[k].0 - 1] as int);
        assert(date_of(n, birth, death, v) == birth[f1[k].1 - 1] as int);
    }
    assert forall|k: int| 0 <= k < f2.len() implies form2_fact_holds(
        birth,
        death,
        #[trigger] f2[k],
    ) by {
        assert(pair_wf(n, f2[k]));
        let u1 = f2[k].0 - 1;
        let v1 = n + f2[k].1 - 1;
        assert(form2_edge(n, f2[k], u1, v1));
        assert(constraint_edge(n, f1, f2, u1, v1));
        assert(date_of(n, birth, death, u1) < date_of(n, birth, death, v1));
        let u2 = f2[k].1 - 1;
        let v2 = n + f2[k].0 - 1;
        assert(form2_edge(n, f2[k], u2, v2));
        assert(constraint_edge(n, f1, f2, u2, v2));
        assert(date_of(n, birth, death, u2) < date_of(n, birth, death, v2));
    }
    assert forall|u: int, v: int| 0 <= u < count && 0 <= v < count && u != v implies date_of(
        n,
        birth,
        death,
        u,
    ) != date_of(n, birth, death, v) by {
        let qu = position_of(order, u);
        let qv = position_of(order, v);
        assert(date_of(n, birth, death, u) == qu + 1);
        assert(date_of(n, birth, death, v) == qv + 1);
        assert((order[qu]) as int == u);
        assert((order[qv]) as int == v);
    }
    assert forall|d: int| 1 <= d <= count implies #[trigger] date_assigned(n, birth, death, d) by {
        let q = d - 1;
        let v = (order[q]) as int;
        assert(0 <= v < count);
        assert(appears(order, v));
        lemma_position(order, v);
        let qv = position_of(order, v);
        assert(order[qv] == order[q]);
        assert(qv == q);
        assert(date_of(n, birth, death, v) == d);
    }
}

/// The set of dates the `2n` events take.
pub open spec fn assigned_dates(n: int, birth: Seq<usize>, death: Seq<usize>) -> Set<int> {
    Set::new(|d: int| date_assigned(n, birth, death, d))
}

/// Law: under a valid assignment the events' dates are exactly the
/// integers `1 ..= 2n` — no repeats (dates are pairwise distinct) and
/// no gaps.
pub proof fn lemma_dates_are_permutation(
    n: int,
    f1: Seq<(u32, u32)>,
    f2: Seq<(u32, u32)>,
    birth: Seq<usize>,
    death: Seq<usize>,
)
    requires
        valid_assignment(n, f1, f2, birth, death),
    ensures
        assigned_dates(n, birth, death) =~= vstd::set_lib::set_int_range(1, 2 * n + 1),
{
    assert forall|d: int| assigned_dates(n, birth, death).contains(d) implies 1 <= d <= 2 * n by {
        let v = choose|v: int| 0 <= v < 2 * n && #[trigger] date_of(n, birth, death, v) == d;
        if v < n {
            assert(1 <= birth[v] <= 2 * n);
        } else {
            assert(1 <= death[v - n] <= 2 * n);
        }
    }
}

/// A cyclic constraint graph means the facts are not consistent.
pub proof fn lemma_cycle_refutes_consistency(
    n: int,
    f1: Seq<(u32, u32)>,
    f2: Seq<(u32, u32)>,
    edges: Multiset<(int, int)>,
)
    requires
        facts_wf(n, f1, f2),
        forall|u: int, v: int| #[trigger] edges.contains((u, v)) ==> constraint_edge(n, f1, f2, u, v),
        has_cycle(edges),
    ensures
        !consistent(n, f1, f2),
{
    if consistent(n, f1, f2) {
        let (birth, death) = choose|birth: Seq<usize>, death: Seq<usize>|
            valid_assignment(n, f1, f2, birth, death);
        let p = choose|p: Seq<int>| is_cycle_path(edges, p);
        // The dates cannot rise strictly all the way around the cycle
        // and yet return to the date of the first node.
        lemma_path_dates(n, f1, f2, birth, death, edges, p);
        lemma_edge_date(n, f1, f2, birth, death, p[p.len() - 1], p[0]);
    }
}

} // verus!
