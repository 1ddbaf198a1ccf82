//! The algorithm: build the constraint graph from the facts, ask for a
//! topological order, and project that order back onto per-person birth
//! and death dates.

use vstd::prelude::*;
use vstd::multiset::Multiset;
use crate::graph::{graph_add_edge, graph_add_node, graph_edges, graph_new, graph_nodes,
    graph_toposort};
use crate::model::{consistent, facts_wf, form1_edge, form2_edge, is_topo_order,
    lemma_cycle_refutes_consistency, lemma_projection_valid, pair_wf, partial_edge, projected,
    valid_assignment};

verus! {

broadcast use vstd::multiset::group_multiset_axioms, vstd::multiset::group_multiset_properties;

/// The graph holds exactly the edges of the constraint graph built from
/// the first `n_life` lifespan edges, `k1` form-1 facts and `k2` form-2
/// facts.
spec fn graph_matches(
    g: petgraph::graph::DiGraph<(), ()>,
    n: int,
    f1: Seq<(u32, u32)>,
    f2: Seq<(u32, u32)>,
    n_life: int,
    k1: int,
    k2: int,
) -> bool {
    forall|u: int, v: int|
        #[trigger] graph_edges(g).contains((u, v)) <==> partial_edge(
            n,
            f1,
            f2,
            n_life,
            k1,
            k2,
            u,
            v,
        )
}

/// Builds the constraint graph: nodes `0 .. n` stand for births, nodes
/// `n .. 2n` for deaths, with one birth-before-death edge per person and
/// the edges of every fact of both lists.
fn build_constraint_graph(fact_form1: &[(u32, u32)], fact_form2: &[(u32, u32)], n: usize) -> (g:
    petgraph::graph::DiGraph<(), ()>)
    requires
        facts_wf(n as int, fact_form1@, fact_form2@),
        2 * (n as int) < 0xFFFF_FFFF,
        (n as int) + fact_form1@.len() + 2 * fact_form2@.len() < 0xFFFF_FFFF,
    ensures
        graph_nodes(g) as int == 2 * (n as int),
        graph_matches(
            g,
            n as int,
            fact_form1@,
            fact_form2@,
            n as int,
            fact_form1@.len() as int,
            fact_form2@.len() as int,
        ),
{
    let mut g = graph_new();
    let total: usize = 2 * n;

    let mut i: usize = 0;
    while i < total
        invariant
            total == 2 * n,
            2 * (n as int) < 0xFFFF_FFFF,
            i <= total,
            graph_nodes(g) as int == i as int,
            graph_edges(g) == Multiset::<(int, int)>::empty(),
        decreases total - i,
    {
        graph_add_node(&mut g);
        i = i + 1;
    }

    let mut i: usize = 0;
    while i < n
        invariant
            2 * (n as int) < 0xFFFF_FFFF,
            i <= n,
            graph_nodes(g) as int == 2 * (n as int),
            graph_edges(g).len() == i,
            graph_matches(g, n as int, fact_form1@, fact_form2@, i as int, 0, 0),
        decreases n - i,
    {
        let ghost prev = graph_edges(g);
        graph_add_edge(&mut g, i, n + i);
        proof {
            assert forall|u: int, v: int| #[trigger] graph_edges(g).contains((u, v))
                <==> partial_edge(
                n as int,
                fact_form1@,
                fact_form2@,
                i as int + 1,
                0,
                0,
                u,
                v,
            ) by {
                let nn = n as int;
                assert(prev.contains((u, v)) <==> partial_edge(
                    nn,
                    fact_form1@,
                    fact_form2@,
                    i as int,
                    0,
                    0,
                    u,
                    v,
                ));
                assert(graph_edges(g).contains((u, v)) <==> (prev.contains((u, v)) || (u == i as int
                    && v == i as int + nn)));
                if partial_edge(nn, fact_form1@, fact_form2@, i as int + 1, 0, 0, u, v) && !(u
                    == i as int && v == i as int + nn) {
                    assert(partial_edge(nn, fact_form1@, fact_form2@, i as int, 0, 0, u, v));
                }
            }
        }
        i = i + 1;
    }

    let mut k: usize = 0;
    while k < fact_form1.len()
        invariant
            facts_wf(n as int, fact_form1@, fact_form2@),
            2 * (n as int) < 0xFFFF_FFFF,
            (n as int) + fact_form1@.len() + 2 * fact_form2@.len() < 0xFFFF_FFFF,
            k <= fact_form1@.len(),
            graph_nodes(g) as int == 2 * (n as int),
            graph_edges(g).len() == n + k,
            graph_matches(g, n as int, fact_form1@, fact_form2@, n as int, k as int, 0),
        decreases fact_form1@.len() - k,
    {
        let pair = fact_form1[k];
        proof {
            assert(pair_wf(n as int, fact_form1@[k as int]));
        }
        let a = pair.0 as usize;
        let b = pair.1 as usize;
        let ghost prev = graph_edges(g);
        graph_add_edge(&mut g, n + a - 1, b - 1);
        proof {
            let nn = n as int;
            let eu = nn + fact_form1@[k as int].0 - 1;
            let ev = fact_form1@[k as int].1 - 1;
            assert forall|u: int, v: int| #[trigger] graph_edges(g).contains((u, v))
                <==> partial_edge(nn, fact_form1@, fact_form2@, nn, k as int + 1, 0, u, v) by {
                assert(prev.contains((u, v)) <==> partial_edge(
                    nn,
                    fact_form1@,
                    fact_form2@,
                    nn,
                    k as int,
                    0,
                    u,
                    v,
                ));
                assert(graph_edges(g).contains((u, v)) <==> (prev.contains((u, v)) || (u == eu && v
                    == ev)));
                if u == eu && v == ev {
                    assert(form1_edge(nn, fact_form1@[k as int], u, v));
                    assert(partial_edge(nn, fact_form1@, fact_form2@, nn, k as int + 1, 0, u, v));
                }
                if partial_edge(nn, fact_form1@, fact_form2@, nn, k as int + 1, 0, u, v) && !(u
                    == eu && v == ev) {
                    assert(partial_edge(nn, fact_form1@, fact_form2@, nn, k as int, 0, u, v));
                }
            }
        }
        k = k + 1;
    }

    let mut k: usize = 0;
    while k < fact_form2.len()
        invariant
            facts_wf(n as int, fact_form1@, fact_form2@),
            2 * (n as int) < 0xFFFF_FFFF,
            (n as int) + fact_form1@.len() + 2 * fact_form2@.len() < 0xFFFF_FFFF,
            k <= fact_form2@.len(),
            graph_nodes(g) as int == 2 * (n as int),
            graph_edges(g).len() == n + fact_form1@.len() + 2 * (k as int),
            graph_matches(
                g,
                n as int,
                fact_form1@,
                fact_form2@,
                n as int,
                fact_form1@.len() as int,
                k as int,
            ),
        decreases fact_form2@.len() - k,
    {
        let pair = fact_form2[k];
        proof {
            assert(pair_wf(n as int, fact_form2@[k as int]));
        }
        let a = pair.0 as usize;
        let b = pair.1 as usize;
        let ghost prev = graph_edges(g);
        graph_add_edge(&mut g, a - 1, n + b - 1);
        let ghost mid = graph_edges(g);
        graph_add_edge(&mut g, b - 1, n + a - 1);
        proof {
            let nn = n as int;
            let k1 = fact_form1@.len() as int;
            let eu1 = fact_form2@[k as int].0 - 1;
            let ev1 = nn + fact_form2@[k as int].1 - 1;
            let eu2 = fact_form2@[k as int].1 - 1;
            let ev2 = nn + fact_form2@[k as int].0 - 1;
            assert forall|u: int, v: int| #[trigger] graph_edges(g).contains((u, v))
                <==> partial_edge(nn, fact_form1@, fact_form2@, nn, k1, k as int + 1, u, v) by {
                assert(prev.contains((u, v)) <==> partial_edge(
                    nn,
                    fact_form1@,
                    fact_form2@,
                    nn,
                    k1,
                    k as int,
                    u,
                    v,
                ));
                assert(mid.contains((u, v)) <==> (prev.contains((u, v)) || (u == eu1 && v == ev1)));
                assert(graph_edges(g).contains((u, v)) <==> (mid.contains((u, v)) || (u == eu2 && v
                    == ev2)));
                if (u == eu1 && v == ev1) || (u == eu2 && v == ev2) {
                    assert(form2_edge(nn, fact_form2@[k as int], u, v));
                    assert(partial_edge(nn, fact_form1@, fact_form2@, nn, k1, k as int + 1, u, v));
                }
                if partial_edge(nn, fact_form1@, fact_form2@, nn, k1, k as int + 1, u, v) && !(u
                    == eu1 && v == ev1) && !(u == eu2 && v == ev2) {
                    assert(partial_edge(nn, fact_form1@, fact_form2@, nn, k1, k as int, u, v));
                }
            }
        }
        k = k + 1;
    }

    g
}

/// Turns a topological order of the `2n` event nodes into the two date
/// arrays: the event at position `q` gets date `q + 1`.
fn project_dates(order: &Vec<usize>, n: usize) -> (r: (Vec<usize>, Vec<usize>))
    requires
        order@.len() == 2 * n,
        2 * (n as int) < 0xFFFF_FFFF,
        forall|q: int| 0 <= q < order@.len() ==> ((#[trigger] order@[q]) as int) < 2 * n,
        forall|q: int, r: int|
            0 <= q < order@.len() && 0 <= r < order@.len() && q != r ==> order@[q] != order@[r],
    ensures
        r.0@.len() == n,
        r.1@.len() == n,
        forall|q: int|
            0 <= q < order@.len() ==> #[trigger] projected(n as int, order@, r.0@, r.1@, q),
{
    let mut birth: Vec<usize> = Vec::new();
    let mut death: Vec<usize> = Vec::new();
    let mut i: usize = 0;
    while i < n
        invariant
            i <= n,
            birth@.len() == i,
            death@.len() == i,
        decreases n - i,
    {
        birth.push(0);
        death.push(0);
        i = i + 1;
    }
    let mut p: usize = 0;
    while p < order.len()
        invariant
            order@.len() == 2 * n,
            2 * (n as int) < 0xFFFF_FFFF,
            forall|q: int| 0 <= q < order@.len() ==> ((#[trigger] order@[q]) as int) < 2 * n,
            forall|q: int, r: int|
                0 <= q < order@.len() && 0 <= r < order@.len() && q != r ==> order@[q] != order@[r],
            p <= order@.len(),
            birth@.len() == n,
            death@.len() == n,
            forall|q: int| 0 <= q < p ==> #[trigger] projected(n as int, order@, birth@, death@, q),
        decreases order@.len() - p,
    {
        let ghost b0 = birth@;
        let ghost d0 = death@;
        let e = order[p];
        if e < n {
            birth.set(e, p + 1);
        } else {
            death.set(e - n, p + 1);
        }
        proof {
            assert forall|q: int| 0 <= q < p + 1 implies #[trigger] projected(
                n as int,
                order@,
                birth@,
                death@,
                q,
            ) by {
                if q < p {
                    assert(projected(n as int, order@, b0, d0, q));
                    assert(order@[q] != order@[p as int]);
                }
            }
        }
        p = p + 1;
    }
    (birth, death)
}

/// Produces proposed dates of birth and death such that the collected
/// facts hold true.
///
/// Let `P_1, ..., P_n` be `n` deceased people.  A pair `(a, b)` of
/// `fact_form1` records that `P_a` died before `P_b` was born; a pair
/// `(a, b)` of `fact_form2` records that the life spans of `P_a` and
/// `P_b` overlapped at least partially.  All person indices must lie in
/// `[1, n]`, and the machine limits of the graph's `u32` node indices
/// bound `n` and the number of facts; both are preconditions.
///
/// If the facts are internally consistent, returns `Some((birth, death))`
/// where `birth[i - 1]` and `death[i - 1]` are the proposed dates of
/// person `P_i`: the `2n` dates are exactly the integers `1 ..= 2n`, and
/// every fact holds of them.  Returns `None` if and only if the facts
/// are not internally consistent.
pub fn proposed_dates(fact_form1: &[(u32, u32)], fact_form2: &[(u32, u32)], n: usize) -> (r: Option<
    (Vec<usize>, Vec<usize>),
>)
    requires
        facts_wf(n as int, fact_form1@, fact_form2@),
        2 * (n as int) < 0xFFFF_FFFF,
        (n as int) + fact_form1@.len() + 2 * fact_form2@.len() < 0xFFFF_FFFF,
    ensures
        r is Some <==> consistent(n as int, fact_form1@, fact_form2@),
        r matches Some(bd) ==> valid_assignment(
            n as int,
            fact_form1@,
            fact_form2@,
            bd.0@,
            bd.1@,
        ),
{
    let g = build_constraint_graph(fact_form1, fact_form2, n);
    match graph_toposort(&g) {
        Some(order) => {
            proof {
                assert(is_topo_order(graph_edges(g), graph_nodes(g), order@));
                assert(graph_nodes(g) == (2 * (n as int)) as nat);
            }
            let (birth, death) = project_dates(&order, n);
            proof {
                assert forall|u: int, v: int|
                    crate::model::constraint_edge(
                        n as int,
                        fact_form1@,
                        fact_form2@,
                        u,
                        v,
                    ) implies #[trigger] graph_edges(g).contains((u, v)) by {}
                lemma_projection_valid(
                    n as int,
                    fact_form1@,
                    fact_form2@,
                    graph_edges(g),
                    order@,
                    birth@,
                    death@,
                );
                assert(consistent(n as int, fact_form1@, fact_form2@));
            }
            Some((birth, death))
        },
        None => {
            proof {
                lemma_cycle_refutes_consistency(
                    n as int,
                    fact_form1@,
                    fact_form2@,
                    graph_edges(g),
                );
            }
            None
        },
    }
}

/// Law: the verdict depends only on the facts.  Any two results that
/// meet `proposed_dates`'s contract for the same input agree on success
/// versus failure (the proposed dates themselves may differ).
pub proof fn lemma_verdict_is_function_of_input(
    n: int,
    f1: Seq<(u32, u32)>,
    f2: Seq<(u32, u32)>,
    r1: Option<(Seq<usize>, Seq<usize>)>,
    r2: Option<(Seq<usize>, Seq<usize>)>,
)
    requires
        r1 is Some <==> consistent(n, f1, f2),
        r2 is Some <==> consistent(n, f1, f2),
    ensures
        r1 is Some <==> r2 is Some,
{
}

} // verus!
