//! The project-wide check for recursive struct types: a struct that holds
//! itself by value, directly or through other structs and arrays, has no
//! finite size. The strongly connected components of the "holds by value"
//! graph are found with Tarjan's algorithm.

use vstd::prelude::*;

use crate::error::AnalyzeError;
use crate::module::{listed, push_listed, Module, StructID};
use crate::types::{Ty, TyView};

verus! {

// ---------------------------------------------------------------------------
// Graphs over node numbers
// ---------------------------------------------------------------------------

/// Whether the adjacency lists `g` have an edge from `a` to `b`.
pub open spec fn edge(g: Seq<Vec<usize>>, a: int, b: int) -> bool {
    0 <= a < g.len() && exists|k: int| 0 <= k < g[a].len() && g[a]@[k] as int == b
}

/// Whether `p` follows edges of `g` from its first node to its last.
pub open spec fn is_path(g: Seq<Vec<usize>>, p: Seq<int>) -> bool {
    &&& p.len() >= 1
    &&& forall|k: int| 0 <= k < p.len() - 1 ==> #[trigger] edge(g, p[k], p[k + 1])
}

/// Whether `b` can be reached from `a` along edges of `g` (in zero or more steps).
pub open spec fn reach(g: Seq<Vec<usize>>, a: int, b: int) -> bool {
    exists|p: Seq<int>| #[trigger] is_path(g, p) && p[0] == a && p.last() == b
}

pub proof fn lemma_reach_refl(g: Seq<Vec<usize>>, a: int)
    ensures
        reach(g, a, a),
{
    let p = seq![a];
    assert(is_path(g, p));
}

pub proof fn lemma_reach_edge(g: Seq<Vec<usize>>, a: int, b: int)
    requires
        edge(g, a, b),
    ensures
        reach(g, a, b),
{
    let p = seq![a, b];
    assert forall|k: int| 0 <= k < p.len() - 1 implies #[trigger] edge(g, p[k], p[k + 1]) by {
        assert(k == 0);
    }
    assert(is_path(g, p));
}

pub proof fn lemma_reach_trans(g: Seq<Vec<usize>>, a: int, b: int, c: int)
    requires
        reach(g, a, b),
        reach(g, b, c),
    ensures
        reach(g, a, c),
{
    let p1 = choose|p: Seq<int>| #[trigger] is_path(g, p) && p[0] == a && p.last() == b;
    let p2 = choose|p: Seq<int>| #[trigger] is_path(g, p) && p[0] == b && p.last() == c;
    let p = p1 + p2.drop_first();
    assert forall|k: int| 0 <= k < p.len() - 1 implies #[trigger] edge(g, p[k], p[k + 1]) by {
        if k < p1.len() - 1 {
            assert(p[k] == p1[k] && p[k + 1] == p1[k + 1]);
            assert(edge(g, p1[k], p1[k + 1]));
        } else {
            let j = k - (p1.len() - 1);
            assert(p[k] == p2[j]);
            assert(p[k + 1] == p2[j + 1]);
            assert(edge(g, p2[j], p2[j + 1]));
        }
    }
    assert(is_path(g, p));
    if p2.len() == 1 {
        assert(p =~= p1);
    }
}

/// Whether `a` lies on a cycle of `g`: a path of at least one edge from `a` back to `a`.
pub open spec fn on_cycle(g: Seq<Vec<usize>>, a: int) -> bool {
    exists|p: Seq<int>| #[trigger] is_path(g, p) && p.len() >= 2 && p[0] == a && p.last() == a
}

/// Two different nodes that reach each other both lie on a cycle.
pub proof fn lemma_mutual_reach_cycle(g: Seq<Vec<usize>>, a: int, b: int)
    requires
        a != b,
        reach(g, a, b),
        reach(g, b, a),
    ensures
        on_cycle(g, a),
{
    let p1 = choose|p: Seq<int>| #[trigger] is_path(g, p) && p[0] == a && p.last() == b;
    let p2 = choose|p: Seq<int>| #[trigger] is_path(g, p) && p[0] == b && p.last() == a;
    let p = p1 + p2.drop_first();
    assert(p1.len() >= 2);
    assert forall|k: int| 0 <= k < p.len() - 1 implies #[trigger] edge(g, p[k], p[k + 1]) by {
        if k < p1.len() - 1 {
            assert(p[k] == p1[k] && p[k + 1] == p1[k + 1]);
            assert(edge(g, p1[k], p1[k + 1]));
        } else {
            let j = k - (p1.len() - 1);
            assert(p[k] == p2[j]);
            assert(p[k + 1] == p2[j + 1]);
            assert(edge(g, p2[j], p2[j + 1]));
        }
    }
    assert(is_path(g, p));
    if p2.len() == 1 {
        assert(p =~= p1);
    }
}

/// The number of visited nodes: those whose visit time is not zero.
pub open spec fn visited_count(d: Seq<usize>) -> nat
    decreases d.len(),
{
    if d.len() == 0 {
        0
    } else {
        visited_count(d.drop_last()) + if d.last() > 0 {
            1nat
        } else {
            0nat
        }
    }
}

proof fn lemma_count_bound(d: Seq<usize>, u: int)
    requires
        0 <= u < d.len(),
        d[u] == 0,
    ensures
        visited_count(d) < d.len(),
    decreases d.len(),
{
    if u < d.len() - 1 {
        lemma_count_bound(d.drop_last(), u);
    } else {
        lemma_count_le(d.drop_last());
    }
}

proof fn lemma_count_le(d: Seq<usize>)
    ensures
        visited_count(d) <= d.len(),
    decreases d.len(),
{
    if d.len() > 0 {
        lemma_count_le(d.drop_last());
    }
}

proof fn lemma_count_visit(d: Seq<usize>, u: int, t: usize)
    requires
        0 <= u < d.len(),
        d[u] == 0,
        t > 0,
    ensures
        visited_count(d.update(u, t)) == visited_count(d) + 1,
    decreases d.len(),
{
    let d2 = d.update(u, t);
    if u < d.len() - 1 {
        assert(d2.drop_last() =~= d.drop_last().update(u, t));
        lemma_count_visit(d.drop_last(), u, t);
    } else {
        assert(d2.drop_last() =~= d.drop_last());
    }
}

/// Some node at or below stack position `i` has the visit time that `low`
/// records for the node at `i`, and the node at `i` reaches it.
pub open spec fn low_witness(g: Seq<Vec<usize>>, s: Seq<usize>, d: Seq<usize>, l: Seq<usize>, i: int) -> bool {
    exists|j: int| 0 <= j <= i && #[trigger] d[s[j] as int] == l[s[i] as int] && reach(g, s[i] as int, s[j] as int)
}

/// Every reported component is strongly connected: each of its nodes reaches
/// each other, and it has more than one node.
pub open spec fn sccs_sound(g: Seq<Vec<usize>>, sccs: Seq<Vec<usize>>) -> bool {
    forall|c: int|
        0 <= c < sccs.len() ==> #[trigger] sccs[c]@.len() > 1 && component_ok(g, sccs[c]@)
}

/// Every node of `comp` is a node of `g`, and each reaches each other.
pub open spec fn component_ok(g: Seq<Vec<usize>>, comp: Seq<usize>) -> bool {
    &&& comp.no_duplicates()
    &&& forall|x: usize| comp.contains(x) ==> (x as int) < g.len()
    &&& forall|x: usize, y: usize| comp.contains(x) && comp.contains(y) ==> reach(g, x as int, y as int)
}

/// Each entry is a strongly connected group of more than one node, or one
/// node with an edge to itself.
pub open spec fn components_ok(g: Seq<Vec<usize>>, sccs: Seq<Vec<usize>>) -> bool {
    forall|c: int|
        0 <= c < sccs.len() ==> {
            let comp = #[trigger] sccs[c]@;
            ||| comp.len() == 1 && (comp[0] as int) < g.len() && edge(g, comp[0] as int, comp[0] as int)
            ||| comp.len() > 1 && component_ok(g, comp)
        }
}

/// Each entry is a group of more than one struct that hold one another by
/// value, or one struct that holds itself directly.
pub open spec fn struct_components_ok(e: Seq<(StructID, Vec<StructID>)>, sccs: Seq<Vec<StructID>>) -> bool {
    forall|c: int|
        0 <= c < sccs.len() ==> {
            let comp = #[trigger] sccs[c]@;
            &&& comp.len() == 1 ==> struct_edge(e, comp[0], comp[0])
            &&& comp.len() != 1 ==> comp.len() > 1 && forall|x: StructID, y: StructID|
                comp.contains(x) && comp.contains(y) ==> struct_reach(e, x, y)
            &&& forall|x: StructID| comp.contains(x) ==> struct_on_cycle(e, x)
        }
}

/// Every node marked as a self loop has an edge to itself.
pub open spec fn loops_sound(g: Seq<Vec<usize>>, marks: Seq<bool>) -> bool {
    forall|v: int| 0 <= v < marks.len() && #[trigger] marks[v] ==> edge(g, v, v)
}

/// On a stack whose nodes above position `p` all have a low value below their
/// visit time, every node reaches the node at `p`.
proof fn lemma_reach_down(g: Seq<Vec<usize>>, s: Seq<usize>, d: Seq<usize>, l: Seq<usize>, p: int, i: int)
    requires
        0 <= p < s.len(),
        0 <= i < s.len(),
        forall|a: int| 0 <= a < s.len() ==> (s[a] as int) < d.len() && (s[a] as int) < l.len(),
        forall|a: int, b: int| 0 <= a < b < s.len() ==> d[s[a] as int] < d[s[b] as int],
        forall|a: int, b: int| 0 <= a < b < s.len() ==> reach(g, s[a] as int, s[b] as int),
        forall|a: int| 0 <= a < s.len() ==> low_witness(g, s, d, l, a),
        forall|a: int| p < a < s.len() ==> l[s[a] as int] < d[s[a] as int],
    ensures
        reach(g, s[i] as int, s[p] as int),
    decreases i,
{
    if i < p {
    } else if i == p {
        lemma_reach_refl(g, s[p] as int);
    } else {
        assert(low_witness(g, s, d, l, i));
        let j = choose|j: int| 0 <= j <= i && #[trigger] d[s[j] as int] == l[s[i] as int] && reach(g, s[i] as int, s[j] as int);
        assert(j != i);
        lemma_reach_down(g, s, d, l, p, j);
        lemma_reach_trans(g, s[i] as int, s[j] as int, s[p] as int);
    }
}

/// Whether node `v` has been visited and taken off the stack.
pub open spec fn popped(d: Seq<usize>, s: Seq<usize>, v: int) -> bool {
    0 <= v < d.len() && d[v] > 0 && !s.contains(v as usize)
}

/// Every node that an edge leaves a popped node for is popped too.
pub open spec fn popped_closed(g: Seq<Vec<usize>>, d: Seq<usize>, s: Seq<usize>) -> bool {
    forall|v: int, w: int| #[trigger] popped(d, s, v) && #[trigger] edge(g, v, w) ==> popped(d, s, w)
}

/// What holds of a node whose neighbours have all been scanned while it
/// stays on the stack: each neighbour is popped, or on the stack at a visit
/// time no earlier than the node's low value; and an edge to itself is marked.
pub open spec fn scanned(g: Seq<Vec<usize>>, d: Seq<usize>, l: Seq<usize>, s: Seq<usize>, marks: Seq<bool>, x: int) -> bool {
    &&& forall|w: int| #[trigger] edge(g, x, w) ==> popped(d, s, w) || (s.contains(w as usize) && l[x] <= d[w])
    &&& edge(g, x, x) ==> marks[x]
}

/// No other node reaches `v` and is reached from it.
pub open spec fn alone(g: Seq<Vec<usize>>, v: int) -> bool {
    forall|y: int| y != v && #[trigger] reach(g, v, y) ==> !reach(g, y, v)
}

/// Some reported component holds node `v`.
pub open spec fn covered(sccs: Seq<Vec<usize>>, v: int) -> bool {
    exists|c: int| 0 <= c < sccs.len() && #[trigger] sccs[c]@.contains(v as usize)
}

/// Every popped node lies in a reported component or is alone, and has its
/// edge to itself marked.
pub open spec fn popped_accounted(
    g: Seq<Vec<usize>>,
    d: Seq<usize>,
    s: Seq<usize>,
    sccs: Seq<Vec<usize>>,
    marks: Seq<bool>,
) -> bool {
    forall|v: int|
        #[trigger] popped(d, s, v) ==> (covered(sccs, v) || alone(g, v)) && (edge(g, v, v) ==> marks[v])
}

/// Along a path that starts at a popped node, every node is popped, while
/// the popped nodes are closed.
proof fn lemma_popped_path(g: Seq<Vec<usize>>, d: Seq<usize>, s: Seq<usize>, p: Seq<int>, i: int)
    requires
        popped_closed(g, d, s),
        is_path(g, p),
        0 <= i < p.len(),
        popped(d, s, p[i]),
    ensures
        popped(d, s, p.last()),
    decreases p.len() - i,
{
    if i < p.len() - 1 {
        assert(edge(g, p[i], p[i + 1]));
        lemma_popped_path(g, d, s, p, i + 1);
    }
}

/// A popped node reaches only popped nodes, while the popped nodes are closed.
proof fn lemma_popped_reach(g: Seq<Vec<usize>>, d: Seq<usize>, s: Seq<usize>, v: int, w: int)
    requires
        popped_closed(g, d, s),
        popped(d, s, v),
        reach(g, v, w),
    ensures
        popped(d, s, w),
{
    let p = choose|p: Seq<int>| #[trigger] is_path(g, p) && p[0] == v && p.last() == w;
    lemma_popped_path(g, d, s, p, 0);
}

/// What `scanned` says of a node stays true while popped nodes stay popped,
/// nodes on the stack stay on it or are popped, visit times stay, the node's
/// low value does not grow and marks are only added.
proof fn lemma_scanned_stable(
    g: Seq<Vec<usize>>,
    d1: Seq<usize>,
    l1: Seq<usize>,
    s1: Seq<usize>,
    m1: Seq<bool>,
    d2: Seq<usize>,
    l2: Seq<usize>,
    s2: Seq<usize>,
    m2: Seq<bool>,
    x: int,
)
    requires
        scanned(g, d1, l1, s1, m1, x),
        forall|w: int| #[trigger] popped(d1, s1, w) ==> popped(d2, s2, w),
        forall|w: int|
            0 <= w < g.len() && #[trigger] s1.contains(w as usize) ==> s2.contains(w as usize) || popped(d2, s2, w),
        forall|w: int| 0 <= w < g.len() && #[trigger] s1.contains(w as usize) ==> d2[w] == d1[w],
        l2[x] <= l1[x],
        m1.len() == m2.len(),
        forall|v: int| 0 <= v < m1.len() && #[trigger] m1[v] ==> m2[v],
        0 <= x < m1.len(),
        m1.len() == g.len(),
        forall|a: int, k: int| 0 <= a < g.len() && 0 <= k < g[a].len() ==> (#[trigger] g[a]@[k] as int) < g.len(),
    ensures
        scanned(g, d2, l2, s2, m2, x),
{
    assert forall|w: int| #[trigger] edge(g, x, w) implies popped(d2, s2, w) || (s2.contains(w as usize) && l2[x]
        <= d2[w]) by {
        if popped(d1, s1, w) {
        } else {
            assert(s1.contains(w as usize) && l1[x] <= d1[w]);
            let k = choose|k: int| 0 <= k < g[x].len() && g[x]@[k] as int == w;
            assert((g[x]@[k] as int) < g.len());
        }
    }
}

/// Popping the nodes above and at `pu` once the node `u` there closes its
/// component keeps the popped nodes closed, and accounts for each node popped:
/// the group is reported when it has more than one node, and a node popped
/// alone reaches no other node that reaches it back.
proof fn lemma_pop_component(
    g: Seq<Vec<usize>>,
    d: Seq<usize>,
    l: Seq<usize>,
    s2: Seq<usize>,
    marks: Seq<bool>,
    sccs_before: Seq<Vec<usize>>,
    sccs_after: Seq<Vec<usize>>,
    scc: Vec<usize>,
    pu: int,
    u: int,
)
    requires
        d.len() == g.len(),
        l.len() == g.len(),
        marks.len() == g.len(),
        g.len() <= usize::MAX,
        forall|a: int, k: int| 0 <= a < g.len() && 0 <= k < g[a].len() ==> (#[trigger] g[a]@[k] as int) < g.len(),
        0 <= pu < s2.len(),
        s2[pu] as int == u,
        forall|i: int| 0 <= i < s2.len() ==> (#[trigger] s2[i] as int) < g.len() && d[s2[i] as int] > 0,
        forall|i: int, j: int| 0 <= i < j < s2.len() ==> d[#[trigger] s2[i] as int] < d[#[trigger] s2[j] as int],
        l[u] == d[u],
        forall|i: int| pu <= i < s2.len() ==> scanned(g, d, l, s2, marks, #[trigger] s2[i] as int),
        forall|i: int| pu < i < s2.len() ==> l[u] <= l[#[trigger] s2[i] as int],
        popped_closed(g, d, s2),
        popped_accounted(g, d, s2, sccs_before, marks),
        forall|x: usize| scc@.contains(x) ==> exists|i: int| pu <= i < s2.len() && s2[i] == x,
        forall|i: int| pu <= i < s2.len() ==> scc@.contains(#[trigger] s2[i]),
        sccs_after == (if scc@.len() > 1 {
            sccs_before.push(scc)
        } else {
            sccs_before
        }),
    ensures
        popped_closed(g, d, s2.subrange(0, pu)),
        popped_accounted(g, d, s2.subrange(0, pu), sccs_after, marks),
        forall|v: int| #[trigger] popped(d, s2, v) ==> popped(d, s2.subrange(0, pu), v),
{
    let s3 = s2.subrange(0, pu);
    assert forall|i: int, j: int| 0 <= i < j < s2.len() implies #[trigger] s2[i] != #[trigger] s2[j] by {
        assert(d[s2[i] as int] < d[s2[j] as int]);
    }
    // a node at or above `pu` is not below it
    assert forall|i: int| pu <= i < s2.len() implies !s3.contains(#[trigger] s2[i]) by {
        if s3.contains(s2[i]) {
            let q = choose|q: int| 0 <= q < s3.len() && s3[q] == s2[i];
            assert(s2[q] == s2[i]);
        }
    }
    // a node popped before stays popped
    assert forall|v: int| #[trigger] popped(d, s2, v) implies popped(d, s3, v) by {
        if s3.contains(v as usize) {
            let q = choose|q: int| 0 <= q < s3.len() && s3[q] == v as usize;
            assert(s2[q] == v as usize);
        }
    }
    // a node popped now was popped before or is one of the group
    assert forall|v: int| #[trigger] popped(d, s3, v) implies popped(d, s2, v) || exists|i: int|
        pu <= i < s2.len() && s2[i] as int == v by {
        if s2.contains(v as usize) {
            let q = choose|q: int| 0 <= q < s2.len() && s2[q] == v as usize;
            if q < pu {
                assert(s3[q] == v as usize);
            } else {
                assert(pu <= q < s2.len() && s2[q] as int == v);
            }
        }
    }
    assert forall|v: int, w: int| #[trigger] popped(d, s3, v) && #[trigger] edge(g, v, w) implies popped(d, s3, w) by {
        if popped(d, s2, v) {
            assert(popped(d, s2, w));
        } else {
            let i = choose|i: int| pu <= i < s2.len() && s2[i] as int == v;
            assert(scanned(g, d, l, s2, marks, s2[i] as int));
            if !popped(d, s2, w) {
                assert(s2.contains(w as usize) && l[v] <= d[w]);
                let q = choose|q: int| 0 <= q < s2.len() && s2[q] == w as usize;
                if q < pu {
                    assert(d[s2[q] as int] < d[s2[pu] as int]);
                    if i > pu {
                        assert(l[u] <= l[s2[i] as int]);
                    }
                    assert(false);
                } else {
                    assert(!s3.contains(s2[q]));
                }
            }
        }
    }
    assert forall|v: int| #[trigger] popped(d, s3, v) implies (covered(sccs_after, v) || alone(g, v)) && (edge(
        g,
        v,
        v,
    ) ==> marks[v]) by {
        if popped(d, s2, v) {
            if covered(sccs_before, v) {
                let c = choose|c: int| 0 <= c < sccs_before.len() && #[trigger] sccs_before[c]@.contains(v as usize);
                assert(sccs_after[c] == sccs_before[c]);
            }
        } else {
            let i = choose|i: int| pu <= i < s2.len() && s2[i] as int == v;
            assert(scanned(g, d, l, s2, marks, s2[i] as int));
            assert(scc@.contains(s2[i]));
            if scc@.len() > 1 {
                assert(sccs_after[sccs_before.len() as int] == scc);
            } else {
                assert(scc@.contains(s2[pu]));
                let a = choose|a: int| 0 <= a < scc@.len() && scc@[a] == s2[i];
                let b = choose|b: int| 0 <= b < scc@.len() && scc@[b] == s2[pu];
                assert(v == u);
                assert forall|y: int| y != v && #[trigger] reach(g, v, y) implies !reach(g, y, v) by {
                    lemma_popped_reach(g, d, s3, v, y);
                    if exists|j: int| pu <= j < s2.len() && s2[j] as int == y {
                        let j = choose|j: int| pu <= j < s2.len() && s2[j] as int == y;
                        assert(scc@.contains(s2[j]));
                        let c = choose|c: int| 0 <= c < scc@.len() && scc@[c] == s2[j];
                    } else {
                        assert(popped(d, s2, y));
                        if reach(g, y, v) {
                            lemma_popped_reach(g, d, s2, y, v);
                            assert(s2.contains(s2[pu]));
                        }
                    }
                }
            }
        }
    }
}

/// Each reported group holds every node that reaches one of its nodes and
/// is reached from it.
pub open spec fn sccs_maximal(g: Seq<Vec<usize>>, sccs: Seq<Vec<usize>>) -> bool {
    forall|c: int, x: usize, y: usize|
        0 <= c < sccs.len() && #[trigger] sccs[c]@.contains(x) && #[trigger] reach(g, x as int, y as int) && reach(
            g,
            y as int,
            x as int,
        ) ==> sccs[c]@.contains(y)
}

/// No node lies in two reported groups.
pub open spec fn sccs_disjoint(sccs: Seq<Vec<usize>>) -> bool {
    forall|c1: int, c2: int, x: usize|
        0 <= c1 < c2 < sccs.len() && #[trigger] sccs[c1]@.contains(x) ==> !#[trigger] sccs[c2]@.contains(x)
}

/// Every node of a reported group has been popped.
pub open spec fn sccs_popped(d: Seq<usize>, s: Seq<usize>, sccs: Seq<Vec<usize>>) -> bool {
    forall|c: int, x: usize| 0 <= c < sccs.len() && #[trigger] sccs[c]@.contains(x) ==> popped(d, s, x as int)
}

/// The group popped at `pu` holds every node that reaches one of its nodes
/// and is reached from it, and shares no node with the groups reported
/// before; all reported groups are popped afterwards.
proof fn lemma_pop_structure(
    g: Seq<Vec<usize>>,
    d: Seq<usize>,
    s2: Seq<usize>,
    sccs_before: Seq<Vec<usize>>,
    sccs_after: Seq<Vec<usize>>,
    scc: Vec<usize>,
    pu: int,
    u: int,
)
    requires
        d.len() == g.len(),
        g.len() <= usize::MAX,
        0 <= pu < s2.len(),
        s2[pu] as int == u,
        forall|i: int| 0 <= i < s2.len() ==> (#[trigger] s2[i] as int) < g.len() && d[s2[i] as int] > 0,
        forall|i: int, j: int| 0 <= i < j < s2.len() ==> d[#[trigger] s2[i] as int] < d[#[trigger] s2[j] as int],
        forall|i: int, j: int| 0 <= i < j < s2.len() ==> reach(g, #[trigger] s2[i] as int, #[trigger] s2[j] as int),
        forall|i: int| pu <= i < s2.len() ==> reach(g, #[trigger] s2[i] as int, u),
        popped_closed(g, d, s2),
        popped_closed(g, d, s2.subrange(0, pu)),
        sccs_maximal(g, sccs_before),
        sccs_disjoint(sccs_before),
        sccs_popped(d, s2, sccs_before),
        forall|x: usize| scc@.contains(x) ==> exists|i: int| pu <= i < s2.len() && s2[i] == x,
        forall|i: int| pu <= i < s2.len() ==> scc@.contains(#[trigger] s2[i]),
        sccs_after == (if scc@.len() > 1 {
            sccs_before.push(scc)
        } else {
            sccs_before
        }),
    ensures
        sccs_maximal(g, sccs_after),
        sccs_disjoint(sccs_after),
        sccs_popped(d, s2.subrange(0, pu), sccs_after),
{
    let s3 = s2.subrange(0, pu);
    assert forall|i: int, j: int| 0 <= i < j < s2.len() implies #[trigger] s2[i] != #[trigger] s2[j] by {
        assert(d[s2[i] as int] < d[s2[j] as int]);
    }
    assert forall|i: int| pu <= i < s2.len() implies !s3.contains(#[trigger] s2[i]) by {
        if s3.contains(s2[i]) {
            let q = choose|q: int| 0 <= q < s3.len() && s3[q] == s2[i];
            assert(s2[q] == s2[i]);
        }
    }
    assert forall|x: usize| scc@.contains(x) implies popped(d, s3, x as int) by {
        let i = choose|i: int| pu <= i < s2.len() && s2[i] == x;
        assert(!s3.contains(s2[i]));
    }
    assert forall|v: int| #[trigger] popped(d, s2, v) implies popped(d, s3, v) by {
        if s3.contains(v as usize) {
            let q = choose|q: int| 0 <= q < s3.len() && s3[q] == v as usize;
            assert(s2[q] == v as usize);
        }
    }
    assert(s2.contains(s2[pu]));
    assert(!popped(d, s2, u));
    assert(popped(d, s3, u)) by {
        assert(!s3.contains(s2[pu]));
    }
    if scc@.len() > 1 {
        assert forall|x: usize, y: usize|
            #[trigger] scc@.contains(x) && #[trigger] reach(g, x as int, y as int) && reach(g, y as int, x as int)
            implies scc@.contains(y) by {
            let i = choose|i: int| pu <= i < s2.len() && s2[i] == x;
            if i == pu {
                lemma_reach_refl(g, u);
            }
            assert(reach(g, u, x as int));
            assert(reach(g, x as int, u));
            lemma_reach_trans(g, u, x as int, y as int);
            lemma_reach_trans(g, y as int, x as int, u);
            lemma_popped_reach(g, d, s3, u, y as int);
            if s2.contains(y) {
                let q = choose|q: int| 0 <= q < s2.len() && s2[q] == y;
                if q < pu {
                    assert(s3[q] == y);
                } else {
                    assert(scc@.contains(s2[q]));
                }
            } else {
                assert(popped(d, s2, y as int));
                lemma_popped_reach(g, d, s2, y as int, u);
            }
        }
        assert forall|c: int, x: usize, y: usize|
            0 <= c < sccs_after.len() && #[trigger] sccs_after[c]@.contains(x) && #[trigger] reach(g, x as int, y as int)
                && reach(g, y as int, x as int) implies sccs_after[c]@.contains(y) by {
            if c < sccs_before.len() {
                assert(sccs_after[c] == sccs_before[c]);
            } else {
                assert(sccs_after[c] == scc);
            }
        }
        assert forall|c1: int, c2: int, x: usize|
            0 <= c1 < c2 < sccs_after.len() && #[trigger] sccs_after[c1]@.contains(x) implies !#[trigger] sccs_after[c2]@.contains(x) by {
            assert(sccs_after[c1] == sccs_before[c1]);
            if c2 < sccs_before.len() {
                assert(sccs_after[c2] == sccs_before[c2]);
            } else {
                assert(popped(d, s2, x as int));
                if scc@.contains(x) {
                    let i = choose|i: int| pu <= i < s2.len() && s2[i] == x;
                    assert(s2.contains(s2[i]));
                }
            }
        }
        assert forall|c: int, x: usize| 0 <= c < sccs_after.len() && #[trigger] sccs_after[c]@.contains(x) implies popped(
            d,
            s3,
            x as int,
        ) by {
            if c < sccs_before.len() {
                assert(sccs_after[c] == sccs_before[c]);
                assert(popped(d, s2, x as int));
            }
        }
    } else {
        assert forall|c: int, x: usize| 0 <= c < sccs_after.len() && #[trigger] sccs_after[c]@.contains(x) implies popped(
            d,
            s3,
            x as int,
        ) by {
            assert(popped(d, s2, x as int));
        }
    }
}

/// Visiting a new node and pushing it changes no node's being popped.
proof fn lemma_push_keeps_popped(
    g: Seq<Vec<usize>>,
    d0: Seq<usize>,
    s0: Seq<usize>,
    d1: Seq<usize>,
    s1: Seq<usize>,
    sccs: Seq<Vec<usize>>,
    marks: Seq<bool>,
    u: int,
    t: usize,
)
    requires
        0 <= u < d0.len(),
        d0.len() <= usize::MAX,
        d0[u] == 0,
        t > 0,
        d1 == d0.update(u, t),
        s1 == s0.push(u as usize),
        popped_closed(g, d0, s0),
        popped_accounted(g, d0, s0, sccs, marks),
    ensures
        forall|v: int| #[trigger] popped(d1, s1, v) == popped(d0, s0, v),
        popped_closed(g, d1, s1),
        popped_accounted(g, d1, s1, sccs, marks),
{
    assert forall|v: int| #[trigger] popped(d1, s1, v) == popped(d0, s0, v) by {
        if 0 <= v < d0.len() {
            if v == u {
                assert(s1[s0.len() as int] == u as usize);
                assert(s1.contains(u as usize));
            } else {
                if s0.contains(v as usize) {
                    let q = choose|q: int| 0 <= q < s0.len() && s0[q] == v as usize;
                    assert(s1[q] == v as usize);
                }
                if s1.contains(v as usize) {
                    let q = choose|q: int| 0 <= q < s1.len() && s1[q] == v as usize;
                    if q < s0.len() {
                        assert(s0[q] == v as usize);
                    } else {
                        assert(s1[q] == u as usize);
                    }
                }
            }
        }
    }
    assert forall|v: int, w: int| #[trigger] popped(d1, s1, v) && #[trigger] edge(g, v, w) implies popped(d1, s1, w) by {
        assert(popped(d0, s0, v));
        assert(popped(d0, s0, w));
    }
    assert forall|v: int| #[trigger] popped(d1, s1, v) implies (covered(sccs, v) || alone(g, v)) && (edge(g, v, v)
        ==> marks[v]) by {
        assert(popped(d0, s0, v));
    }
}

/// Finds the recursive struct types of a project.
#[derive(Debug)]
pub struct RecursiveTypeChecker {
    /// For each struct, the structs that it holds by value (each struct once).
    pub edge: Vec<(StructID, Vec<StructID>)>,
    /// The struct that each node number stands for.
    pub nodes: Vec<StructID>,
    /// The edges by node number.
    pub adj: Vec<Vec<usize>>,
    /// The visit time of each node; 0 for a node not visited yet.
    pub dfn: Vec<usize>,
    /// The earliest visit time that each node is known to reach on the stack.
    pub low: Vec<usize>,
    /// Whether each node is on the stack.
    pub in_stack: Vec<bool>,
    /// The search stack, bottom first.
    pub stack: Vec<usize>,
    /// The last visit time handed out.
    pub timestamp: usize,
}

impl RecursiveTypeChecker {
    /// The bookkeeping of Tarjan's algorithm over the numbered graph is consistent.
    pub open spec fn wf(&self) -> bool {
        let g = self.adj@;
        let n = g.len();
        let s = self.stack@;
        let d = self.dfn@;
        let l = self.low@;
        &&& d.len() == n
        &&& l.len() == n
        &&& self.in_stack@.len() == n
        &&& forall|a: int, k: int| 0 <= a < n && 0 <= k < g[a].len() ==> (#[trigger] g[a]@[k] as int) < n
        &&& forall|i: int| 0 <= i < s.len() ==> (#[trigger] s[i] as int) < n && d[s[i] as int] > 0
        &&& forall|i: int, j: int| 0 <= i < j < s.len() ==> d[#[trigger] s[i] as int] < d[#[trigger] s[j] as int]
        &&& forall|v: int| 0 <= v < n ==> #[trigger] self.in_stack@[v] == s.contains(v as usize)
        &&& forall|v: int| 0 <= v < n ==> #[trigger] d[v] <= self.timestamp && l[v] <= d[v]
        &&& visited_count(d) == self.timestamp
        &&& forall|i: int, j: int| 0 <= i < j < s.len() ==> reach(g, #[trigger] s[i] as int, #[trigger] s[j] as int)
        &&& forall|i: int| 0 <= i < s.len() ==> #[trigger] low_witness(g, s, d, l, i)
    }

    /// Pops the stack down to the node `u` at position `pu`, and returns the popped nodes.
    fn pop_until(&mut self, u: usize, pu: usize) -> (scc: Vec<usize>)
        requires
            old(self).wf(),
            pu < old(self).stack@.len(),
            old(self).stack@[pu as int] == u,
        ensures
            final(self).wf(),
            final(self).stack@ == old(self).stack@.subrange(0, pu as int),
            final(self).adj@ == old(self).adj@,
            final(self).dfn@ == old(self).dfn@,
            final(self).low@ == old(self).low@,
            final(self).timestamp == old(self).timestamp,
            final(self).edge@ == old(self).edge@,
            final(self).nodes@ == old(self).nodes@,
            forall|x: usize|
                scc@.contains(x) ==> exists|i: int|
                    pu <= i < old(self).stack@.len() && old(self).stack@[i] == x,
            forall|i: int| pu <= i < old(self).stack@.len() ==> scc@.contains(#[trigger] old(self).stack@[i]),
            scc@.no_duplicates(),
    {
        let ghost s2 = self.stack@;
        let ghost g = self.adj@;
        let ghost n = g.len();
        let ghost d = self.dfn@;
        let ghost l = self.low@;
        let ghost e = self.edge@;
        let ghost nd = self.nodes@;
        let ghost ts = self.timestamp;
        let n_exec = self.in_stack.len();
        proof {
            assert forall|i: int, j: int| 0 <= i < j < s2.len() implies #[trigger] s2[i] != #[trigger] s2[j] by {
                assert(d[s2[i] as int] < d[s2[j] as int]);
            }
        }
        let mut scc: Vec<usize> = Vec::new();
        let mut done = false;
        while !done
            invariant
                self.adj@ == g,
                n == g.len(),
                self.dfn@ == d,
                self.low@ == l,
                self.timestamp == ts,
                self.edge@ == e,
                self.nodes@ == nd,
                self.in_stack@.len() == n,
                n <= usize::MAX,
                forall|i: int| 0 <= i < s2.len() ==> (#[trigger] s2[i] as int) < n,
                forall|i: int, j: int| 0 <= i < j < s2.len() ==> #[trigger] s2[i] != #[trigger] s2[j],
                pu < s2.len(),
                s2[pu as int] == u,
                pu <= self.stack@.len() <= s2.len(),
                !done ==> self.stack@.len() > pu,
                done ==> self.stack@.len() == pu,
                self.stack@ == s2.subrange(0, self.stack@.len() as int),
                forall|v: int| 0 <= v < n ==> #[trigger] self.in_stack@[v] == self.stack@.contains(v as usize),
                forall|x: usize| scc@.contains(x) ==> exists|i: int| pu <= i < s2.len() && s2[i] == x,
                forall|x: usize| scc@.contains(x) ==> !self.stack@.contains(x),
                forall|i: int| self.stack@.len() <= i < s2.len() ==> scc@.contains(#[trigger] s2[i]),
                scc@.no_duplicates(),
            decreases self.stack@.len(),
        {
            let ghost before = self.stack@;
            let ghost scc_before = scc@;
            let v = self.stack.pop().unwrap();
            self.in_stack.set(v, false);
            scc.push(v);
            proof {
                let m = before.len() - 1;
                assert(v == s2[m]);
                let after = self.stack@;
                assert(after =~= s2.subrange(0, m));
                assert forall|w: int| 0 <= w < n implies #[trigger] self.in_stack@[w] == self.stack@.contains(w as usize) by {
                    if w == v as int {
                        if after.contains(v) {
                            let k = choose|k: int| 0 <= k < after.len() && after[k] == v;
                            assert(s2[k] == s2[m]);
                        }
                    } else {
                        assert(before.contains(w as usize) == after.contains(w as usize)) by {
                            if before.contains(w as usize) {
                                let k = choose|k: int| 0 <= k < before.len() && before[k] == w as usize;
                                assert(before[m] == v);
                                assert(k != m);
                                assert(after[k] == w as usize);
                            }
                            if after.contains(w as usize) {
                                let k = choose|k: int| 0 <= k < after.len() && after[k] == w as usize;
                                assert(before[k] == w as usize);
                            }
                        }
                    }
                }
                assert forall|x: usize| scc@.contains(x) implies exists|i: int| pu <= i < s2.len() && s2[i] == x by {
                    if x == v {
                        assert(pu <= m < s2.len() && s2[m] == x);
                    } else {
                        assert(scc_before.contains(x));
                    }
                }
                assert(before.contains(v)) by {
                    assert(before[m] == v);
                }
                assert forall|i: int| self.stack@.len() <= i < s2.len() implies scc@.contains(#[trigger] s2[i]) by {
                    if i == m {
                        assert(scc@[scc@.len() - 1] == v);
                    } else {
                        assert(scc_before.contains(s2[i]));
                        let q = choose|q: int| 0 <= q < scc_before.len() && scc_before[q] == s2[i];
                        assert(scc@[q] == s2[i]);
                    }
                }
                assert(!scc_before.contains(v));
                assert forall|x: usize| scc@.contains(x) implies !self.stack@.contains(x) by {
                    if x == v {
                        if after.contains(v) {
                            let k = choose|k: int| 0 <= k < after.len() && after[k] == v;
                            assert(s2[k] == s2[m]);
                        }
                    } else {
                        assert(scc_before.contains(x));
                        if after.contains(x) {
                            let k = choose|k: int| 0 <= k < after.len() && after[k] == x;
                            assert(before[k] == x);
                        }
                    }
                }
                assert forall|a: int, b: int| 0 <= a < b < scc@.len() implies scc@[a] != scc@[b] by {
                    if b == scc@.len() - 1 {
                        assert(scc@[a] == scc_before[a]);
                        assert(scc_before.contains(scc_before[a]));
                    } else {
                        assert(scc@[a] == scc_before[a] && scc@[b] == scc_before[b]);
                    }
                }
            }
            if v == u {
                done = true;
                proof {
                    assert(before.len() - 1 == pu) by {
                        if before.len() - 1 != pu as int {
                            assert(s2[before.len() - 1] != s2[pu as int]);
                        }
                    }
                }
            }
        }
        proof {
            let s = self.stack@;
            assert(s =~= s2.subrange(0, pu as int));
            assert forall|i: int, j: int| 0 <= i < j < s.len() implies reach(g, #[trigger] s[i] as int, #[trigger] s[j] as int) by {
                assert(s[i] == s2[i] && s[j] == s2[j]);
            }
            assert forall|i: int| 0 <= i < s.len() implies #[trigger] low_witness(g, s, d, l, i) by {
                assert(low_witness(g, s2, d, l, i));
                let j = choose|j: int| 0 <= j <= i && #[trigger] d[s2[j] as int] == l[s2[i] as int] && reach(g, s2[i] as int, s2[j] as int);
                assert(s[j] == s2[j] && s[i] == s2[i]);
            }
            assert forall|i: int, j: int| 0 <= i < j < s.len() implies d[#[trigger] s[i] as int] < d[#[trigger] s[j] as int] by {
                assert(s[i] == s2[i] && s[j] == s2[j]);
            }
        }
        scc
    }

    /// One depth-first visit of Tarjan's algorithm from the unvisited node `u`:
    /// numbers the nodes it reaches, records the components that close, and
    /// marks the nodes with an edge to themselves.
    #[verifier::spinoff_prover]
    #[verifier::rlimit(100)]
    pub fn dfs(&mut self, u: usize, sccs: &mut Vec<Vec<usize>>, self_loop: &mut Vec<bool>)
        requires
            old(self).wf(),
            u < old(self).adj@.len(),
            old(self).dfn@[u as int] == 0,
            forall|i: int|
                0 <= i < old(self).stack@.len() ==> reach(
                    old(self).adj@,
                    #[trigger] old(self).stack@[i] as int,
                    u as int,
                ),
            sccs_sound(old(self).adj@, old(sccs)@),
            old(self_loop)@.len() == old(self).adj@.len(),
            loops_sound(old(self).adj@, old(self_loop)@),
            popped_closed(old(self).adj@, old(self).dfn@, old(self).stack@),
            popped_accounted(old(self).adj@, old(self).dfn@, old(self).stack@, old(sccs)@, old(self_loop)@),
            sccs_maximal(old(self).adj@, old(sccs)@),
            sccs_disjoint(old(sccs)@),
            sccs_popped(old(self).dfn@, old(self).stack@, old(sccs)@),
        ensures
            final(self).wf(),
            final(self).adj@ == old(self).adj@,
            final(self).edge@ == old(self).edge@,
            final(self).nodes@ == old(self).nodes@,
            final(self).dfn@[u as int] > old(self).timestamp,
            final(self).timestamp > old(self).timestamp,
            forall|v: int|
                0 <= v < old(self).adj@.len() && old(self).dfn@[v] > 0 ==> #[trigger] final(self).dfn@[v]
                    == old(self).dfn@[v] && final(self).low@[v] == old(self).low@[v],
            final(self).stack@.len() >= old(self).stack@.len(),
            forall|i: int|
                0 <= i < old(self).stack@.len() ==> #[trigger] final(self).stack@[i]
                    == old(self).stack@[i],
            forall|i: int|
                old(self).stack@.len() <= i < final(self).stack@.len() ==> final(self).low@[
                    #[trigger] final(self).stack@[i] as int] < final(self).dfn@[final(self).stack@[i] as int]
                    && final(self).dfn@[final(self).stack@[i] as int] > old(self).timestamp,
            !final(self).stack@.contains(u) ==> final(self).low@[u as int] == final(self).dfn@[u as int],
            final(self).stack@.len() > old(self).stack@.len() ==> final(self).stack@[old(self).stack@.len() as int] == u,
            sccs_sound(old(self).adj@, final(sccs)@),
            final(self_loop)@.len() == old(self_loop)@.len(),
            loops_sound(old(self).adj@, final(self_loop)@),
            popped_closed(old(self).adj@, final(self).dfn@, final(self).stack@),
            popped_accounted(old(self).adj@, final(self).dfn@, final(self).stack@, final(sccs)@, final(self_loop)@),
            sccs_maximal(old(self).adj@, final(sccs)@),
            sccs_disjoint(final(sccs)@),
            sccs_popped(final(self).dfn@, final(self).stack@, final(sccs)@),
            forall|i: int|
                old(self).stack@.len() <= i < final(self).stack@.len() ==> scanned(
                    old(self).adj@,
                    final(self).dfn@,
                    final(self).low@,
                    final(self).stack@,
                    final(self_loop)@,
                    #[trigger] final(self).stack@[i] as int,
                ),
            forall|i: int|
                old(self).stack@.len() < i < final(self).stack@.len() ==> final(self).low@[u as int]
                    <= final(self).low@[#[trigger] final(self).stack@[i] as int],
            forall|v: int| 0 <= v < old(self_loop)@.len() && #[trigger] old(self_loop)@[v] ==> final(self_loop)@[v],
            final(sccs)@.len() >= old(sccs)@.len(),
            forall|c: int| 0 <= c < old(sccs)@.len() ==> #[trigger] final(sccs)@[c] == old(sccs)@[c],
            forall|v: int|
                #[trigger] popped(old(self).dfn@, old(self).stack@, v) ==> popped(final(self).dfn@, final(self).stack@, v),
        decreases old(self).adj@.len() - old(self).timestamp,
    {
        let ghost g = self.adj@;
        let ghost n = g.len();
        let ghost d0 = self.dfn@;
        let ghost l0 = self.low@;
        let ghost s0 = self.stack@;
        let ghost ts0 = self.timestamp;
        let ghost e0 = self.edge@;
        let ghost nodes0 = self.nodes@;
        let ghost pu = s0.len() as int;
        let ghost m0 = self_loop@;
        let ghost sc0 = sccs@;
        let n_exec = self.dfn.len();
        proof {
            lemma_count_bound(self.dfn@, u as int);
            assert(ts0 < n_exec);
            lemma_count_visit(self.dfn@, u as int, (ts0 + 1) as usize);
        }
        let pu_exec = self.stack.len();
        self.timestamp = self.timestamp + 1;
        let t = self.timestamp;
        self.dfn.set(u, t);
        self.low.set(u, t);
        self.stack.push(u);
        self.in_stack.set(u, true);
        proof {
            let s = self.stack@;
            assert(s == s0.push(u));
            assert forall|v: int| 0 <= v < n implies #[trigger] self.in_stack@[v] == s.contains(
                v as usize,
            ) by {
                if v == u as int {
                    assert(s[pu] == u);
                } else {
                    assert(s0.contains(v as usize) ==> s.contains(v as usize)) by {
                        if s0.contains(v as usize) {
                            let j = choose|j: int| 0 <= j < s0.len() && s0[j] == v as usize;
                            assert(s[j] == v as usize);
                        }
                    }
                    assert(s.contains(v as usize) ==> s0.contains(v as usize)) by {
                        if s.contains(v as usize) {
                            let j = choose|j: int| 0 <= j < s.len() && s[j] == v as usize;
                            assert(j != pu);
                            assert(s0[j] == v as usize);
                        }
                    }
                }
            }
            assert forall|i: int, j: int| 0 <= i < j < s.len() implies reach(
                g,
                #[trigger] s[i] as int,
                #[trigger] s[j] as int,
            ) by {
                if j == pu {
                    assert(s[i] == s0[i]);
                } else {
                    assert(s[i] == s0[i] && s[j] == s0[j]);
                }
            }
            assert forall|i: int| 0 <= i < s.len() implies #[trigger] low_witness(
                g,
                s,
                self.dfn@,
                self.low@,
                i,
            ) by {
                if i == pu {
                    lemma_reach_refl(g, u as int);
                    assert(self.dfn@[s[pu] as int] == self.low@[s[i] as int]);
                } else {
                    assert(low_witness(g, s0, d0, l0, i));
                    let j = choose|j: int| 0 <= j <= i && #[trigger] d0[s0[j] as int] == l0[s0[i] as int]
                        && reach(g, s0[i] as int, s0[j] as int);
                    assert(s[j] == s0[j] && s[i] == s0[i]);
                    assert(self.dfn@[s[j] as int] == self.low@[s[i] as int]);
                }
            }
            assert(self.wf());
            lemma_push_keeps_popped(g, d0, s0, self.dfn@, self.stack@, sccs@, self_loop@, u as int, t);
            assert forall|c: int, x: usize| 0 <= c < sccs@.len() && #[trigger] sccs@[c]@.contains(x) implies popped(
                self.dfn@,
                self.stack@,
                x as int,
            ) by {
                assert(popped(d0, s0, x as int));
            }
        }
        let neighbors = self.adj[u].clone();
        assert(neighbors@ == g[u as int]@);
        let mut k: usize = 0;
        while k < neighbors.len()
            invariant
                self.wf(),
                self.adj@ == g,
                self.edge@ == e0,
                self.nodes@ == nodes0,
                pu_exec == pu,
                n == g.len(),
                u < n,
                neighbors@ == g[u as int]@,
                k <= neighbors.len(),
                self.stack@.len() > pu,
                forall|i: int| 0 <= i < pu ==> #[trigger] self.stack@[i] == s0[i],
                self.stack@[pu] == u,
                forall|i: int|
                    pu < i < self.stack@.len() ==> self.low@[#[trigger] self.stack@[i] as int]
                        < self.dfn@[self.stack@[i] as int] && self.dfn@[self.stack@[i] as int] > ts0,
                self.dfn@[u as int] == ts0 + 1,
                self.timestamp > ts0,
                g == old(self).adj@,
                ts0 == old(self).timestamp,
                d0[u as int] == 0,
                d0.len() == n,
                l0.len() == n,
                forall|v: int|
                    0 <= v < n && d0[v] > 0 ==> #[trigger] self.dfn@[v] == d0[v] && self.low@[v]
                        == l0[v],
                sccs_sound(g, sccs@),
                self_loop@.len() == n,
                loops_sound(g, self_loop@),
                n <= usize::MAX,
                popped_closed(g, self.dfn@, self.stack@),
                popped_accounted(g, self.dfn@, self.stack@, sccs@, self_loop@),
                sccs_maximal(g, sccs@),
                sccs_disjoint(sccs@),
                sccs_popped(self.dfn@, self.stack@, sccs@),
                forall|i: int|
                    pu < i < self.stack@.len() ==> scanned(
                        g,
                        self.dfn@,
                        self.low@,
                        self.stack@,
                        self_loop@,
                        #[trigger] self.stack@[i] as int,
                    ),
                forall|i: int|
                    pu < i < self.stack@.len() ==> self.low@[u as int] <= self.low@[#[trigger] self.stack@[i] as int],
                forall|k2: int|
                    0 <= k2 < k ==> popped(self.dfn@, self.stack@, #[trigger] neighbors@[k2] as int) || (
                    self.stack@.contains(neighbors@[k2]) && self.low@[u as int] <= self.dfn@[neighbors@[k2] as int]),
                forall|k2: int| 0 <= k2 < k && #[trigger] neighbors@[k2] == u ==> self_loop@[u as int],
                m0.len() == n,
                forall|v: int| 0 <= v < n && #[trigger] m0[v] ==> self_loop@[v],
                sccs@.len() >= sc0.len(),
                forall|c: int| 0 <= c < sc0.len() ==> #[trigger] sccs@[c] == sc0[c],
                forall|v: int| #[trigger] popped(d0, s0, v) ==> popped(self.dfn@, self.stack@, v),
            decreases neighbors.len() - k,
        {
            let ghost d_top = self.dfn@;
            let ghost l_top = self.low@;
            assert(forall|w: int| 0 <= w < n && d0[w] > 0 ==> d_top[w] == d0[w]);
            assert(forall|w: int| 0 <= w < n && d0[w] > 0 ==> l_top[w] == l0[w]);
            let ghost s_top = self.stack@;
            let ghost m_top = self_loop@;
            let ghost sc_top = sccs@;
            let v = neighbors[k];
            assert(edge(g, u as int, v as int));
            if u == v {
                self_loop.set(u, true);
            }
            let ghost m_mid = self_loop@;
            proof {
                assert forall|i: int| pu < i < s_top.len() implies scanned(g, d_top, l_top, s_top, m_mid, #[trigger] s_top[i] as int) by {
                    lemma_scanned_stable(g, d_top, l_top, s_top, m_top, d_top, l_top, s_top, m_mid, s_top[i] as int);
                }
                assert forall|w: int| #[trigger] popped(d_top, s_top, w) implies (covered(sccs@, w) || alone(g, w))
                    && (edge(g, w, w) ==> m_mid[w]) by {
                    assert(popped_accounted(g, d_top, s_top, sc_top, m_top));
                }
            }
            if self.dfn[v] == 0 {
                proof {
                    assert forall|i: int| 0 <= i < self.stack@.len() implies reach(
                        g,
                        #[trigger] self.stack@[i] as int,
                        v as int,
                    ) by {
                        lemma_reach_down(g, self.stack@, self.dfn@, self.low@, pu, i);
                        lemma_reach_edge(g, u as int, v as int);
                        lemma_reach_trans(g, self.stack@[i] as int, u as int, v as int);
                    }
                }
                let ghost s1 = self.stack@;
                let ghost ts1 = self.timestamp;
                let ghost d1 = self.dfn@;
                let ghost l1b = self.low@;
                proof {
                    lemma_count_le(self.dfn@);
                    assert(self.timestamp <= self.adj@.len());
                    assert(self.adj@.len() - self.timestamp < g.len() - ts0);
                }
                self.dfs(v, sccs, self_loop);
                let ghost d_after = self.dfn@;
                let ghost l_after = self.low@;
                let low_v = self.low[v];
                proof {
                    assert forall|w: int| 0 <= w < n && d1[w] > 0 implies #[trigger] self.dfn@[w] == d1[w]
                        && self.low@[w] == l1b[w] by {}
                    assert forall|w: int| 0 <= w < n && d1[w] > 0 implies #[trigger] d_after[w] == d1[w]
                        && l_after[w] == l1b[w] by {
                        assert(self.dfn@[w] == d1[w]);
                    }
                    assert(d1 == d_top && l1b == l_top);
                    assert(d1[u as int] > 0);
                    assert(self.dfn@[u as int] == d1[u as int]);
                    assert(self.low@[u as int] == l1b[u as int]);
                }
                if low_v < self.low[u] {
                    proof {
                        assert(self.stack@.contains(v));
                        let pv = s1.len() as int;
                        assert(self.stack@[pv] == v);
                        assert(low_witness(g, self.stack@, self.dfn@, self.low@, pv));
                        let j = choose|j: int| 0 <= j <= pv && #[trigger] self.dfn@[self.stack@[j] as int]
                            == self.low@[self.stack@[pv] as int] && reach(
                            g,
                            self.stack@[pv] as int,
                            self.stack@[j] as int,
                        );
                        assert(j < pu) by {
                            if j >= pu {
                                assert(self.dfn@[self.stack@[pu] as int] <= self.dfn@[self.stack@[j] as int]);
                            }
                        }
                        lemma_reach_edge(g, u as int, v as int);
                        lemma_reach_trans(g, u as int, v as int, self.stack@[j] as int);
                    }
                    let ghost l1 = self.low@;
                    self.low.set(u, low_v);
                    proof {
                        let s = self.stack@;
                        assert forall|i: int| 0 <= i < s.len() implies #[trigger] low_witness(
                            g,
                            s,
                            self.dfn@,
                            self.low@,
                            i,
                        ) by {
                            assert(low_witness(g, s, self.dfn@, l1, i));
                            if i == pu {
                                let pv = s1.len() as int;
                                let j = choose|j: int| 0 <= j <= pv && #[trigger] self.dfn@[s[j] as int]
                                    == l1[s[pv] as int] && reach(g, s[pv] as int, s[j] as int);
                                assert(j < pu) by {
                                    if j >= pu {
                                        assert(self.dfn@[s[pu] as int] <= self.dfn@[s[j] as int]);
                                    }
                                }
                                lemma_reach_edge(g, u as int, v as int);
                                lemma_reach_trans(g, u as int, v as int, s[j] as int);
                            } else {
                                assert(s[i] != u) by {
                                    if s[i] == u {
                                        assert(self.dfn@[s[i] as int] == self.dfn@[s[pu] as int]);
                                    }
                                }
                                let j = choose|j: int| 0 <= j <= i && #[trigger] self.dfn@[s[j] as int]
                                    == l1[s[i] as int] && reach(g, s[i] as int, s[j] as int);
                                assert(self.dfn@[s[j] as int] == self.low@[s[i] as int]);
                            }
                        }
                    }
                }
                proof {
                    assert(self.dfn@ == d_after);
                    assert forall|w: int| 0 <= w < n && d_top[w] > 0 && w != u as int implies #[trigger] self.dfn@[w]
                        == d_top[w] && self.low@[w] == l_top[w] by {
                        assert(d1[w] > 0);
                        assert(d_after[w] == d1[w]);
                        assert(self.low@[w] == l_after[w]);
                    }
                    let d = self.dfn@;
                    let l = self.low@;
                    let st = self.stack@;
                    let m = self_loop@;
                    assert(s1 == s_top && d1 == d_top && l1b == l_top);
                    assert(l[u as int] <= l_top[u as int]);
                    assert(st.len() > s1.len() ==> st[s1.len() as int] == v && l[u as int] <= l_after[v as int]);
                    assert forall|w: int| 0 <= w < n && #[trigger] s1.contains(w as usize) implies st.contains(
                        w as usize,
                    ) || popped(d, st, w) by {
                        let q = choose|q: int| 0 <= q < s1.len() && s1[q] == w as usize;
                        assert(st[q] == s1[q]);
                    }
                    assert forall|w: int| 0 <= w < n && #[trigger] s1.contains(w as usize) implies d[w] == d1[w] by {
                        let q = choose|q: int| 0 <= q < s1.len() && s1[q] == w as usize;
                        assert(d1[s1[q] as int] > 0);
                    }
                    assert forall|i: int| pu < i < st.len() implies scanned(g, d, l, st, m, #[trigger] st[i] as int) by {
                        if i < s1.len() {
                            assert(st[i] == s1[i]);
                            assert(d1[s1[pu] as int] < d1[s1[i] as int]);
                            assert(scanned(g, d1, l1b, s1, m_mid, s1[i] as int));
                            lemma_scanned_stable(g, d1, l1b, s1, m_mid, d, l, st, m, s1[i] as int);
                        } else {
                            assert(d_after[st[i] as int] > ts1);
                            assert(scanned(g, d_after, l_after, st, m, st[i] as int));
                            lemma_scanned_stable(g, d_after, l_after, st, m, d, l, st, m, st[i] as int);
                        }
                    }
                    assert forall|i: int| pu < i < st.len() implies l[u as int] <= l[#[trigger] st[i] as int] by {
                        if i < s1.len() {
                            assert(st[i] == s1[i]);
                            assert(d1[s1[pu] as int] < d1[s1[i] as int]);
                            assert(l_top[u as int] <= l_top[s_top[i] as int]);
                        } else if i > s1.len() {
                            assert(d_after[st[i] as int] > ts1);
                            assert(l_after[v as int] <= l_after[st[i] as int]);
                        }
                    }
                    assert forall|k2: int| 0 <= k2 < k + 1 implies popped(d, st, #[trigger] neighbors@[k2] as int) || (
                    st.contains(neighbors@[k2]) && l[u as int] <= d[neighbors@[k2] as int]) by {
                        if k2 < k {
                            let z = neighbors@[k2];
                            if !popped(d_top, s_top, z as int) {
                                assert(s_top.contains(z) && l_top[u as int] <= d_top[z as int]);
                                let q = choose|q: int| 0 <= q < s_top.len() && s_top[q] == z;
                                assert(st[q] == s_top[q]);
                                assert(d_top[s_top[q] as int] > 0);
                            }
                        } else {
                            if st.contains(v) {
                                let q = choose|q: int| 0 <= q < st.len() && st[q] == v;
                                assert(q >= s1.len()) by {
                                    if q < s1.len() {
                                        assert(st[q] == s1[q]);
                                        assert(d1[s1[q] as int] > 0);
                                    }
                                }
                                if q > s1.len() {
                                    assert(st[s1.len() as int] == v);
                                    assert(d[st[s1.len() as int] as int] < d[st[q] as int]);
                                }
                            }
                        }
                    }
                    assert forall|k2: int| 0 <= k2 < k + 1 && #[trigger] neighbors@[k2] == u implies m[u as int] by {
                        assert(m_mid[u as int]);
                    }
                }
            } else if self.in_stack[v] {
                let dfn_v = self.dfn[v];
                if dfn_v < self.low[u] {
                    let ghost l1 = self.low@;
                    self.low.set(u, dfn_v);
                    proof {
                        let s = self.stack@;
                        assert(s.contains(v));
                        let jv = choose|j: int| 0 <= j < s.len() && s[j] == v;
                        assert(jv < pu) by {
                            if jv >= pu {
                                assert(self.dfn@[s[pu] as int] <= self.dfn@[s[jv] as int]);
                            }
                        }
                        lemma_reach_edge(g, u as int, v as int);
                        assert forall|i: int| 0 <= i < s.len() implies #[trigger] low_witness(
                            g,
                            s,
                            self.dfn@,
                            self.low@,
                            i,
                        ) by {
                            assert(low_witness(g, s, self.dfn@, l1, i));
                            if i == pu {
                                assert(self.dfn@[s[jv] as int] == self.low@[s[i] as int]);
                            } else {
                                assert(s[i] != u) by {
                                    if s[i] == u {
                                        assert(self.dfn@[s[i] as int] == self.dfn@[s[pu] as int]);
                                    }
                                }
                                let j = choose|j: int| 0 <= j <= i && #[trigger] self.dfn@[s[j] as int]
                                    == l1[s[i] as int] && reach(g, s[i] as int, s[j] as int);
                                assert(self.dfn@[s[j] as int] == self.low@[s[i] as int]);
                            }
                        }
                    }
                }
                proof {
                    let d = self.dfn@;
                    let l = self.low@;
                    let st = self.stack@;
                    let m = self_loop@;
                    assert(d == d_top && st == s_top && m == m_mid);
                    assert(l[u as int] <= l_top[u as int] && l[u as int] <= d[v as int]);
                    assert forall|i: int| pu < i < st.len() implies scanned(g, d, l, st, m, #[trigger] st[i] as int) by {
                        assert(d[st[pu] as int] < d[st[i] as int]);
                        lemma_scanned_stable(g, d_top, l_top, s_top, m_mid, d, l, st, m, st[i] as int);
                    }
                    assert forall|i: int| pu < i < st.len() implies l[u as int] <= l[#[trigger] st[i] as int] by {
                        assert(d[st[pu] as int] < d[st[i] as int]);
                        assert(l_top[u as int] <= l_top[st[i] as int]);
                    }
                    assert(st.contains(v));
                }
            } else {
                proof {
                    assert(!self.stack@.contains(v));
                    assert(popped(self.dfn@, self.stack@, v as int));
                }
            }
            proof {
                assert forall|w: int| 0 <= w < n && d0[w] > 0 implies #[trigger] self.dfn@[w] == d0[w]
                    && self.low@[w] == l0[w] by {
                    assert(d_top[w] == d0[w] && l_top[w] == l0[w]);
                    assert(w != u as int);
                }
            }
            k += 1;
        }
        proof {
            let d = self.dfn@;
            let l = self.low@;
            let st = self.stack@;
            let m = self_loop@;
            assert forall|w: int| #[trigger] edge(g, u as int, w) implies popped(d, st, w) || (st.contains(w as usize)
                && l[u as int] <= d[w]) by {
                let kk = choose|kk: int| 0 <= kk < g[u as int].len() && g[u as int]@[kk] as int == w;
                assert(neighbors@[kk] as int == w);
            }
            if edge(g, u as int, u as int) {
                let kk = choose|kk: int| 0 <= kk < g[u as int].len() && g[u as int]@[kk] as int == u as int;
                assert(neighbors@[kk] == u);
            }
            assert(scanned(g, d, l, st, m, u as int));
        }
        if self.dfn[u] == self.low[u] {
            let ghost s2 = self.stack@;
            proof {
                assert forall|i: int| pu <= i < s2.len() implies reach(g, #[trigger] s2[i] as int, u as int) by {
                    lemma_reach_down(g, s2, self.dfn@, self.low@, pu, i);
                }
            }
            let ghost sccs_before = sccs@;
            let scc = self.pop_until(u, pu_exec);
            let ghost scc_g = scc;
            proof {
                assert(scc@.no_duplicates());
                assert forall|x: usize| scc@.contains(x) implies (x as int) < g.len() by {
                    let i = choose|i: int| pu <= i < s2.len() && s2[i] == x;
                }
                assert forall|x: usize, y: usize| scc@.contains(x) && scc@.contains(y) implies reach(g, x as int, y as int) by {
                    let i = choose|i: int| pu <= i < s2.len() && s2[i] == x;
                    let j = choose|j: int| pu <= j < s2.len() && s2[j] == y;
                    if j == pu {
                        lemma_reach_refl(g, u as int);
                    }
                    lemma_reach_trans(g, x as int, u as int, y as int);
                }
            }
            if scc.len() > 1 {
                sccs.push(scc);
                proof {
                    let ss = sccs@;
                    assert forall|c: int| 0 <= c < ss.len() implies #[trigger] ss[c]@.len() > 1 && component_ok(g, ss[c]@) by {
                        if c < ss.len() - 1 {
                            assert(ss[c] == sccs_before[c]);
                        }
                    }
                }
            }
            proof {
                assert forall|i: int| pu <= i < s2.len() implies scanned(g, self.dfn@, self.low@, s2, self_loop@, #[trigger] s2[i] as int) by {
                }
                lemma_pop_component(g, self.dfn@, self.low@, s2, self_loop@, sccs_before, sccs@, scc_g, pu, u as int);
                lemma_pop_structure(g, self.dfn@, s2, sccs_before, sccs@, scc_g, pu, u as int);
                assert(self.stack@ == s2.subrange(0, pu));
            }
        }
    }
}

// ---------------------------------------------------------------------------
// Graphs over structs
// ---------------------------------------------------------------------------

/// Whether the recorded edges say that struct `a` holds struct `b` by value.
pub open spec fn struct_edge(e: Seq<(StructID, Vec<StructID>)>, a: StructID, b: StructID) -> bool {
    exists|k: int| 0 <= k < e.len() && e[k].0 == a && #[trigger] e[k].1@.contains(b)
}

/// Whether `p` follows recorded edges from its first struct to its last.
pub open spec fn is_struct_path(e: Seq<(StructID, Vec<StructID>)>, p: Seq<StructID>) -> bool {
    &&& p.len() >= 1
    &&& forall|k: int| 0 <= k < p.len() - 1 ==> #[trigger] struct_edge(e, p[k], p[k + 1])
}

/// Whether struct `a` holds struct `b` by value, directly or through other structs.
pub open spec fn struct_reach(e: Seq<(StructID, Vec<StructID>)>, a: StructID, b: StructID) -> bool {
    exists|p: Seq<StructID>| #[trigger] is_struct_path(e, p) && p[0] == a && p.last() == b
}

/// Whether struct `a` holds itself by value: a path of at least one recorded edge from `a` back to `a`.
pub open spec fn struct_on_cycle(e: Seq<(StructID, Vec<StructID>)>, a: StructID) -> bool {
    exists|p: Seq<StructID>| #[trigger] is_struct_path(e, p) && p.len() >= 2 && p[0] == a && p.last() == a
}

/// Each struct is the source of at most one entry of the recorded edges.
pub open spec fn keys_unique(e: Seq<(StructID, Vec<StructID>)>) -> bool {
    forall|a: int, b: int| 0 <= a < b < e.len() ==> #[trigger] e[a].0 != #[trigger] e[b].0
}

/// The numbered graph holds every recorded edge: node `a` below the number of
/// entries stands for the source of entry `a`, its edges lead, in order, to
/// the nodes of that entry's targets, and the other nodes have no edges; the
/// numbers are distinct when the sources are.
pub open spec fn numbering_complete(
    e: Seq<(StructID, Vec<StructID>)>,
    nodes: Seq<StructID>,
    g: Seq<Vec<usize>>,
) -> bool {
    &&& nodes.len() == g.len()
    &&& e.len() <= g.len()
    &&& forall|a: int| 0 <= a < e.len() ==> #[trigger] nodes[a] == e[a].0
    &&& forall|a: int| 0 <= a < e.len() ==> (#[trigger] g[a]).len() == e[a].1@.len()
    &&& forall|a: int, k: int|
        0 <= a < e.len() && 0 <= k < e[a].1@.len() ==> nodes[(#[trigger] g[a]@[k]) as int] == e[a].1@[k]
    &&& forall|a: int| e.len() <= a < g.len() ==> (#[trigger] g[a]).len() == 0
    &&& keys_unique(e) ==> nodes.no_duplicates()
}

/// Every edge of the numbered graph is a recorded edge between the structs the numbers stand for.
pub open spec fn numbering_faithful(
    e: Seq<(StructID, Vec<StructID>)>,
    nodes: Seq<StructID>,
    g: Seq<Vec<usize>>,
) -> bool {
    &&& nodes.len() == g.len()
    &&& forall|a: int, k: int|
        0 <= a < g.len() && 0 <= k < g[a].len() ==> (#[trigger] g[a]@[k] as int) < g.len()
            && struct_edge(e, nodes[a], nodes[g[a]@[k] as int])
}

proof fn lemma_map_path(
    e: Seq<(StructID, Vec<StructID>)>,
    nodes: Seq<StructID>,
    g: Seq<Vec<usize>>,
    p: Seq<int>,
) -> (q: Seq<StructID>)
    requires
        numbering_faithful(e, nodes, g),
        is_path(g, p),
        0 <= p.last() < g.len(),
    ensures
        is_struct_path(e, q),
        q.len() == p.len(),
        forall|i: int| 0 <= i < p.len() ==> q[i] == nodes[p[i]],
{
    assert forall|k: int| 0 <= k < p.len() implies 0 <= #[trigger] p[k] < g.len() by {
        if k < p.len() - 1 {
            assert(edge(g, p[k], p[k + 1]));
        }
    }
    let q = Seq::new(p.len(), |i: int| nodes[p[i]]);
    assert forall|k: int| 0 <= k < q.len() - 1 implies #[trigger] struct_edge(e, q[k], q[k + 1]) by {
        assert(edge(g, p[k], p[k + 1]));
        let j = choose|j: int| 0 <= j < g[p[k]].len() && g[p[k]]@[j] as int == p[k + 1];
        assert(struct_edge(e, nodes[p[k]], nodes[g[p[k]]@[j] as int]));
    }
    q
}

proof fn lemma_map_cycle(
    e: Seq<(StructID, Vec<StructID>)>,
    nodes: Seq<StructID>,
    g: Seq<Vec<usize>>,
    a: int,
)
    requires
        numbering_faithful(e, nodes, g),
        0 <= a < g.len(),
        on_cycle(g, a),
    ensures
        struct_on_cycle(e, nodes[a]),
{
    let p = choose|p: Seq<int>| #[trigger] is_path(g, p) && p.len() >= 2 && p[0] == a && p.last() == a;
    let q = lemma_map_path(e, nodes, g, p);
    assert(is_struct_path(e, q) && q.len() >= 2 && q[0] == nodes[a] && q.last() == nodes[a]);
}

proof fn lemma_map_reach(
    e: Seq<(StructID, Vec<StructID>)>,
    nodes: Seq<StructID>,
    g: Seq<Vec<usize>>,
    a: int,
    b: int,
)
    requires
        numbering_faithful(e, nodes, g),
        0 <= a < g.len(),
        0 <= b < g.len(),
        reach(g, a, b),
    ensures
        struct_reach(e, nodes[a], nodes[b]),
{
    let p = choose|p: Seq<int>| #[trigger] is_path(g, p) && p[0] == a && p.last() == b;
    assert forall|k: int| 0 <= k < p.len() implies 0 <= #[trigger] p[k] < g.len() by {
        if k < p.len() - 1 {
            assert(edge(g, p[k], p[k + 1]));
        }
    }
    let q = Seq::new(p.len(), |i: int| nodes[p[i]]);
    assert forall|k: int| 0 <= k < q.len() - 1 implies #[trigger] struct_edge(e, q[k], q[k + 1]) by {
        assert(edge(g, p[k], p[k + 1]));
        let j = choose|j: int| 0 <= j < g[p[k]].len() && g[p[k]]@[j] as int == p[k + 1];
        assert(struct_edge(e, nodes[p[k]], nodes[g[p[k]]@[j] as int]));
    }
    assert(is_struct_path(e, q));
}

impl RecursiveTypeChecker {
    /// The position of `id` among the numbered structs.
    fn index_of(nodes: &Vec<StructID>, id: StructID) -> (r: Option<usize>)
        ensures
            r matches Some(i) ==> i < nodes.len() && nodes@[i as int] == id,
            r is None ==> !nodes@.contains(id),
    {
        let mut i: usize = 0;
        while i < nodes.len()
            invariant
                i <= nodes.len(),
                forall|j: int| 0 <= j < i ==> nodes@[j] != id,
            decreases nodes.len() - i,
        {
            if nodes[i] == id {
                return Some(i);
            }
            i += 1;
        }
        None
    }

    /// Numbers the structs that the edges mention (the sources first, in order)
    /// and resets the search.
    fn number_nodes(&mut self)
        ensures
            final(self).edge@ == old(self).edge@,
            final(self).wf(),
            final(self).stack@.len() == 0,
            forall|v: int| 0 <= v < final(self).adj@.len() ==> #[trigger] final(self).dfn@[v] == 0,
            final(self).adj@.len() >= final(self).edge@.len(),
            numbering_faithful(final(self).edge@, final(self).nodes@, final(self).adj@),
            numbering_complete(final(self).edge@, final(self).nodes@, final(self).adj@),
    {
        let ghost e = self.edge@;
        let mut nodes: Vec<StructID> = Vec::new();
        let mut i: usize = 0;
        while i < self.edge.len()
            invariant
                self.edge@ == e,
                i <= e.len(),
                nodes@.len() == i,
                forall|j: int| 0 <= j < i ==> #[trigger] nodes@[j] == e[j].0,
            decreases e.len() - i,
        {
            nodes.push(self.edge[i].0);
            i += 1;
        }
        let mut i: usize = 0;
        while i < self.edge.len()
            invariant
                self.edge@ == e,
                i <= e.len(),
                nodes@.len() >= e.len(),
                forall|j: int| 0 <= j < e.len() ==> #[trigger] nodes@[j] == e[j].0,
                forall|a: int, b: int|
                    0 <= a < i && 0 <= b < e[a].1@.len() ==> nodes@.contains(#[trigger] e[a].1@[b]),
                keys_unique(e) ==> nodes@.no_duplicates(),
            decreases e.len() - i,
        {
            let targets = &self.edge[i].1;
            let mut k: usize = 0;
            while k < targets.len()
                invariant
                    self.edge@ == e,
                    i < e.len(),
                    *targets == e[i as int].1,
                    k <= targets.len(),
                    nodes@.len() >= e.len(),
                    forall|j: int| 0 <= j < e.len() ==> #[trigger] nodes@[j] == e[j].0,
                    forall|a: int, b: int|
                        0 <= a < i && 0 <= b < e[a].1@.len() ==> nodes@.contains(#[trigger] e[a].1@[b]),
                    forall|b: int| 0 <= b < k ==> nodes@.contains(#[trigger] e[i as int].1@[b]),
                    keys_unique(e) ==> nodes@.no_duplicates(),
                decreases targets.len() - k,
            {
                let t = targets[k];
                let ghost before = nodes@;
                if Self::index_of(&nodes, t).is_none() {
                    nodes.push(t);
                    proof {
                        assert(nodes@[before.len() as int] == t);
                        if keys_unique(e) {
                            assert forall|a: int, b: int| 0 <= a < b < nodes@.len() implies nodes@[a] != nodes@[b] by {
                                if b == before.len() {
                                    assert(before.contains(before[a]));
                                } else {
                                    assert(nodes@[a] == before[a] && nodes@[b] == before[b]);
                                }
                            }
                        }
                        assert forall|x: StructID| before.contains(x) implies nodes@.contains(x) by {
                            let j = choose|j: int| 0 <= j < before.len() && before[j] == x;
                            assert(nodes@[j] == x);
                        }
                    }
                }
                k += 1;
            }
            i += 1;
        }
        let mut adj: Vec<Vec<usize>> = Vec::new();
        let mut v: usize = 0;
        while v < nodes.len()
            invariant
                self.edge@ == e,
                nodes@.len() >= e.len(),
                forall|j: int| 0 <= j < e.len() ==> #[trigger] nodes@[j] == e[j].0,
                forall|a: int, b: int|
                    0 <= a < e.len() && 0 <= b < e[a].1@.len() ==> nodes@.contains(#[trigger] e[a].1@[b]),
                v <= nodes.len(),
                adj@.len() == v,
                forall|a: int, k: int|
                    0 <= a < v && 0 <= k < adj@[a].len() ==> (#[trigger] adj@[a]@[k] as int) < nodes.len()
                        && struct_edge(e, nodes@[a], nodes@[adj@[a]@[k] as int]),
                forall|a: int| 0 <= a < v && a < e.len() ==> (#[trigger] adj@[a]).len() == e[a].1@.len(),
                forall|a: int, k: int|
                    0 <= a < v && a < e.len() && 0 <= k < e[a].1@.len() ==> nodes@[(#[trigger] adj@[a]@[k]) as int] == e[a].1@[k],
                forall|a: int| 0 <= a < v && a >= e.len() ==> (#[trigger] adj@[a]).len() == 0,
            decreases nodes.len() - v,
        {
            let mut list: Vec<usize> = Vec::new();
            if v < self.edge.len() {
                let targets = &self.edge[v].1;
                let mut k: usize = 0;
                while k < targets.len()
                    invariant
                        self.edge@ == e,
                        v < e.len(),
                        v < nodes.len(),
                        *targets == e[v as int].1,
                        nodes@[v as int] == e[v as int].0,
                        forall|b: int| 0 <= b < e[v as int].1@.len() ==> nodes@.contains(#[trigger] e[v as int].1@[b]),
                        k <= targets.len(),
                        list@.len() == k,
                        forall|j: int| 0 <= j < k ==> (#[trigger] list@[j] as int) < nodes.len() && nodes@[list@[j] as int]
                            == e[v as int].1@[j],
                    decreases targets.len() - k,
                {
                    let t = targets[k];
                    assert(nodes@.contains(e[v as int].1@[k as int]));
                    match Self::index_of(&nodes, t) {
                        Some(j) => list.push(j),
                        None => {
                            proof {
                                assert(false);
                            }
                        },
                    }
                    k += 1;
                }
                proof {
                    assert forall|j: int| 0 <= j < list@.len() implies struct_edge(e, nodes@[v as int], nodes@[#[trigger] list@[j] as int]) by {
                        assert(e[v as int].1@.contains(e[v as int].1@[j]));
                    }
                }
            }
            let ghost adj0 = adj@;
            adj.push(list);
            proof {
                assert forall|a: int| 0 <= a < v + 1 && a < e.len() implies (#[trigger] adj@[a]).len() == e[a].1@.len() by {
                    if a < v {
                        assert(adj@[a] == adj0[a]);
                    }
                }
                assert forall|a: int, k: int|
                    0 <= a < v + 1 && a < e.len() && 0 <= k < e[a].1@.len() implies nodes@[(#[trigger] adj@[a]@[k]) as int]
                        == e[a].1@[k] by {
                    if a < v {
                        assert(adj@[a] == adj0[a]);
                    }
                }
                assert forall|a: int| 0 <= a < v + 1 && a >= e.len() implies (#[trigger] adj@[a]).len() == 0 by {
                    if a < v {
                        assert(adj@[a] == adj0[a]);
                    }
                }
                assert forall|a: int, k: int|
                    0 <= a < adj@.len() && 0 <= k < adj@[a].len() implies (#[trigger] adj@[a]@[k] as int) < nodes.len()
                        && struct_edge(e, nodes@[a], nodes@[adj@[a]@[k] as int]) by {
                    if a == v as int {
                        assert(struct_edge(e, nodes@[v as int], nodes@[list@[k] as int]));
                    }
                }
            }
            v += 1;
        }
        let n = nodes.len();
        let mut dfn: Vec<usize> = Vec::new();
        let mut low: Vec<usize> = Vec::new();
        let mut in_stack: Vec<bool> = Vec::new();
        let mut j: usize = 0;
        while j < n
            invariant
                j <= n,
                dfn@.len() == j,
                low@.len() == j,
                in_stack@.len() == j,
                forall|x: int| 0 <= x < j ==> #[trigger] dfn@[x] == 0,
                forall|x: int| 0 <= x < j ==> #[trigger] low@[x] == 0,
                forall|x: int| 0 <= x < j ==> !#[trigger] in_stack@[x],
            decreases n - j,
        {
            dfn.push(0);
            low.push(0);
            in_stack.push(false);
            j += 1;
        }
        self.nodes = nodes;
        self.adj = adj;
        self.dfn = dfn;
        self.low = low;
        self.in_stack = in_stack;
        self.stack = Vec::new();
        self.timestamp = 0;
        proof {
            lemma_count_zero(self.dfn@);
            let s = self.stack@;
            assert(s.len() == 0);
            assert forall|v: int| 0 <= v < n implies #[trigger] self.in_stack@[v] == s.contains(v as usize) by {
                assert(!s.contains(v as usize));
            }
            assert(self.wf());
        }
    }

    /// The components of the graph of recorded edges that make a struct
    /// recursive: each group of more than one struct that hold one another by
    /// value, then each struct that holds itself directly. The order depends on
    /// the order of the recorded edges.
    pub fn tarjan(&mut self) -> (sccs: Vec<Vec<StructID>>)
        ensures
            final(self).edge@ == old(self).edge@,
            struct_components_ok(old(self).edge@, sccs@),
            keys_unique(old(self).edge@) ==> forall|x: StructID|
                #[trigger] struct_on_cycle(old(self).edge@, x) ==> exists|c: int|
                    0 <= c < sccs@.len() && sccs@[c]@.contains(x),
            keys_unique(old(self).edge@) ==> forall|c: int| 0 <= c < sccs@.len() ==> (#[trigger] sccs@[c])@.no_duplicates(),
            keys_unique(old(self).edge@) ==> forall|c1: int, c2: int, x: StructID|
                0 <= c1 < c2 < sccs@.len() && sccs@[c1]@.len() > 1 && sccs@[c2]@.len() > 1 && #[trigger] sccs@[c1]@.contains(x)
                    ==> !#[trigger] sccs@[c2]@.contains(x),
            keys_unique(old(self).edge@) ==> forall|c: int, x: StructID, y: StructID|
                0 <= c < sccs@.len() && sccs@[c]@.len() > 1 && #[trigger] sccs@[c]@.contains(x) && #[trigger] struct_reach(
                    old(self).edge@,
                    x,
                    y,
                ) && struct_reach(old(self).edge@, y, x) ==> sccs@[c]@.contains(y),
            keys_unique(old(self).edge@) ==> forall|c1: int, c2: int|
                0 <= c1 < c2 < sccs@.len() && (#[trigger] sccs@[c1])@.len() == 1 && (#[trigger] sccs@[c2])@.len() == 1
                    ==> sccs@[c1]@[0] != sccs@[c2]@[0],
            keys_unique(old(self).edge@) ==> forall|x: StructID|
                #[trigger] struct_edge(old(self).edge@, x, x) ==> exists|c: int|
                    0 <= c < sccs@.len() && sccs@[c]@ == seq![x],
    {
        self.number_nodes();
        let ghost e = self.edge@;
        let ghost g = self.adj@;
        let ghost nodes = self.nodes@;
        let n = self.adj.len();
        let mut sccs: Vec<Vec<usize>> = Vec::new();
        let mut self_loop: Vec<bool> = Vec::new();
        let mut j: usize = 0;
        while j < n
            invariant
                j <= n,
                self_loop@.len() == j,
                forall|x: int| 0 <= x < j ==> !#[trigger] self_loop@[x],
            decreases n - j,
        {
            self_loop.push(false);
            j += 1;
        }
        proof {
            assert forall|v: int| !#[trigger] popped(self.dfn@, self.stack@, v) by {
                if 0 <= v < self.dfn@.len() {
                    assert(self.dfn@[v] == 0);
                }
            }
        }
        let keys = self.edge.len();
        let mut node: usize = 0;
        while node < keys
            invariant
                self.wf(),
                self.edge@ == e,
                self.adj@ == g,
                self.nodes@ == nodes,
                n == g.len(),
                keys <= n,
                self.stack@.len() == 0,
                numbering_faithful(e, nodes, g),
                sccs_sound(g, sccs@),
                self_loop@.len() == n,
                loops_sound(g, self_loop@),
                popped_closed(g, self.dfn@, self.stack@),
                popped_accounted(g, self.dfn@, self.stack@, sccs@, self_loop@),
                sccs_maximal(g, sccs@),
                sccs_disjoint(sccs@),
                sccs_popped(self.dfn@, self.stack@, sccs@),
                forall|x: int| 0 <= x < node ==> #[trigger] self.dfn@[x] > 0,
                node <= keys,
            decreases keys - node,
        {
            if self.dfn[node] == 0 {
                let ghost dpre = self.dfn@;
                self.dfs(node, &mut sccs, &mut self_loop);
                proof {
                    assert forall|x: int| 0 <= x < node implies #[trigger] self.dfn@[x] > 0 by {
                        assert(dpre[x] > 0);
                    }
                    if self.stack@.len() > 0 {
                        assert(self.stack@[0] == node);
                        assert(low_witness(g, self.stack@, self.dfn@, self.low@, 0));
                    }
                }
            }
            node += 1;
        }
        let ghost sccs_mid = sccs@;
        let ghost marks = self_loop@;
        let ghost dfin = self.dfn@;
        let ghost sfin = self.stack@;
        proof {
            assert(numbering_complete(e, nodes, g));
            assert forall|x: int| 0 <= x < keys implies #[trigger] popped(dfin, sfin, x) by {
                assert(dfin[x] > 0);
            }
        }
        proof {
            assert forall|c: int| 0 <= c < sccs@.len() implies {
                let comp = #[trigger] sccs@[c]@;
                ||| comp.len() == 1 && (comp[0] as int) < g.len() && edge(g, comp[0] as int, comp[0] as int)
                ||| comp.len() > 1 && component_ok(g, comp)
            } by {
                assert(sccs@[c]@.len() > 1 && component_ok(g, sccs@[c]@));
            }
        }
        let mut u: usize = 0;
        while u < n
            invariant
                self.edge@ == e,
                n == g.len(),
                u <= n,
                self.adj@ == g,
                self.nodes@ == nodes,
                numbering_faithful(e, nodes, g),
                self_loop@.len() == n,
                loops_sound(g, self_loop@),
                components_ok(g, sccs@),
                self_loop@ == marks,
                sccs@.len() >= sccs_mid.len(),
                forall|c: int| 0 <= c < sccs_mid.len() ==> #[trigger] sccs@[c] == sccs_mid[c],
                forall|x: int| 0 <= x < u && #[trigger] marks[x] ==> covered(sccs@, x),
                forall|c: int|
                    sccs_mid.len() <= c < sccs@.len() ==> (#[trigger] sccs@[c])@.len() == 1 && (sccs@[c]@[0] as int) < u,
                forall|c1: int, c2: int|
                    sccs_mid.len() <= c1 < c2 < sccs@.len() ==> (#[trigger] sccs@[c1])@[0] < (#[trigger] sccs@[c2])@[0],
                forall|x: int| 0 <= x < u && #[trigger] marks[x] ==> exists|c: int|
                    sccs_mid.len() <= c < sccs@.len() && sccs@[c]@ == seq![x as usize],
            decreases n - u,
        {
            if self_loop[u] {
                let mut single: Vec<usize> = Vec::new();
                single.push(u);
                let ghost before = sccs@;
                sccs.push(single);
                proof {
                    assert(single@[0] == u);
                    assert forall|c: int| 0 <= c < sccs@.len() implies {
                        let comp = #[trigger] sccs@[c]@;
                        ||| comp.len() == 1 && (comp[0] as int) < g.len() && edge(g, comp[0] as int, comp[0] as int)
                        ||| comp.len() > 1 && component_ok(g, comp)
                    } by {
                        if c < before.len() {
                            assert(sccs@[c] == before[c]);
                        }
                    }
                    assert(sccs@[before.len() as int]@.contains(u));
                    assert(sccs@[before.len() as int]@ =~= seq![u]);
                    assert forall|c1: int, c2: int|
                        sccs_mid.len() <= c1 < c2 < sccs@.len() implies (#[trigger] sccs@[c1])@[0] < (#[trigger] sccs@[c2])@[0] by {
                        if c2 < before.len() {
                            assert(sccs@[c1] == before[c1] && sccs@[c2] == before[c2]);
                        } else {
                            assert(sccs@[c1] == before[c1]);
                        }
                    }
                    assert forall|x: int| 0 <= x < u + 1 && #[trigger] marks[x] implies exists|c: int|
                        sccs_mid.len() <= c < sccs@.len() && sccs@[c]@ == seq![x as usize] by {
                        if x < u {
                            let c = choose|c: int| sccs_mid.len() <= c < before.len() && before[c]@ == seq![x as usize];
                            assert(sccs@[c] == before[c]);
                        } else {
                            assert(sccs@[before.len() as int]@ == seq![x as usize]);
                        }
                    }
                    assert forall|x: int| 0 <= x < u + 1 && #[trigger] marks[x] implies covered(sccs@, x) by {
                        if x < u {
                            let c = choose|c: int| 0 <= c < before.len() && #[trigger] before[c]@.contains(x as usize);
                            assert(sccs@[c] == before[c]);
                        } else {
                            assert(sccs@[before.len() as int]@.contains(x as usize));
                        }
                    }
                }
            }
            u += 1;
        }
        proof {
            assert forall|x: int| 0 <= x < n && on_cycle(g, x) implies #[trigger] covered(sccs@, x) by {
                let p = choose|p: Seq<int>| #[trigger] is_path(g, p) && p.len() >= 2 && p[0] == x && p.last() == x;
                let k0: int = 0;
                assert(edge(g, p[k0], p[k0 + 1]));
                assert(x < keys);
                assert(popped(dfin, sfin, x));
                if edge(g, x, x) {
                    assert(marks[x]);
                } else {
                    lemma_cycle_not_alone(g, x);
                    assert(covered(sccs_mid, x));
                    let c = choose|c: int| 0 <= c < sccs_mid.len() && #[trigger] sccs_mid[c]@.contains(x as usize);
                    assert(sccs@[c] == sccs_mid[c]);
                }
            }
        }
        let r = self.map_components(&sccs);
        proof {
            if keys_unique(e) {
                assert forall|sx: StructID| #[trigger] struct_on_cycle(e, sx) implies exists|c: int|
                    0 <= c < r@.len() && r@[c]@.contains(sx) by {
                    let q = choose|q: Seq<StructID>| #[trigger] is_struct_path(e, q) && q.len() >= 2 && q[0] == sx
                        && q.last() == sx;
                    let p = lemma_struct_path_to_nodes(e, nodes, g, q);
                    assert(p[0] == p.last()) by {
                        assert(nodes[p[0]] == nodes[p[p.len() - 1]]);
                        if p[0] != p.last() {
                            assert(nodes.no_duplicates());
                        }
                    }
                    assert(on_cycle(g, p[0]));
                    assert(covered(sccs@, p[0]));
                    let c = choose|c: int| 0 <= c < sccs@.len() && #[trigger] sccs@[c]@.contains(p[0] as usize);
                    let j = choose|j: int| 0 <= j < sccs@[c]@.len() && sccs@[c]@[j] == p[0] as usize;
                    assert(r@[c]@.contains(nodes[sccs@[c]@[j] as int]));
                }
                assert(nodes.no_duplicates());
                let mid = sccs_mid.len() as int;
                // the groups of more than one node are those found by the search
                assert forall|c: int| 0 <= c < sccs@.len() && (#[trigger] sccs@[c])@.len() > 1 implies c < mid
                    && sccs@[c] == sccs_mid[c] && component_ok(g, sccs_mid[c]@) by {
                    if c >= mid {
                        assert(sccs@[c]@.len() == 1);
                    } else {
                        assert(sccs_mid[c]@.len() > 1 && component_ok(g, sccs_mid[c]@));
                    }
                }
                assert forall|c: int| 0 <= c < r@.len() implies (#[trigger] r@[c])@.no_duplicates() by {
                    assert forall|a: int, b: int| 0 <= a < b < r@[c]@.len() implies r@[c]@[a] != r@[c]@[b] by {
                        assert(r@[c]@[a] == nodes[sccs@[c]@[a] as int]);
                        assert(r@[c]@[b] == nodes[sccs@[c]@[b] as int]);
                        assert(sccs@[c]@.len() > 1);
                        assert(sccs_mid[c]@.contains(sccs@[c]@[a]) && sccs_mid[c]@.contains(sccs@[c]@[b]));
                        assert(sccs@[c]@[a] != sccs@[c]@[b]);
                    }
                }
                assert forall|c1: int, c2: int, x: StructID|
                    0 <= c1 < c2 < r@.len() && r@[c1]@.len() > 1 && r@[c2]@.len() > 1 && #[trigger] r@[c1]@.contains(x)
                        implies !#[trigger] r@[c2]@.contains(x) by {
                    if r@[c2]@.contains(x) {
                        assert(sccs@[c1]@.len() > 1 && sccs@[c2]@.len() > 1);
                        let a = choose|a: int| 0 <= a < r@[c1]@.len() && r@[c1]@[a] == x;
                        let b = choose|b: int| 0 <= b < r@[c2]@.len() && r@[c2]@[b] == x;
                        assert(r@[c1]@[a] == nodes[sccs@[c1]@[a] as int]);
                        assert(r@[c2]@[b] == nodes[sccs@[c2]@[b] as int]);
                        assert(sccs_mid[c1]@.contains(sccs@[c1]@[a]));
                        assert(sccs_mid[c2]@.contains(sccs@[c2]@[b]));
                        assert(sccs@[c1]@[a] == sccs@[c2]@[b]);
                        assert(sccs_mid[c1]@.contains(sccs@[c2]@[b]));
                    }
                }
                assert forall|c: int, x: StructID, y: StructID|
                    0 <= c < r@.len() && r@[c]@.len() > 1 && #[trigger] r@[c]@.contains(x) && #[trigger] struct_reach(e, x, y)
                        && struct_reach(e, y, x) implies r@[c]@.contains(y) by {
                    assert(sccs@[c]@.len() > 1);
                    let a = choose|a: int| 0 <= a < r@[c]@.len() && r@[c]@[a] == x;
                    assert(r@[c]@[a] == nodes[sccs@[c]@[a] as int]);
                    let xn = sccs@[c]@[a];
                    assert(sccs_mid[c]@.contains(xn));
                    let yn = lemma_struct_reach_to_nodes(e, nodes, g, x, y, xn as int);
                    let xn2 = lemma_struct_reach_to_nodes(e, nodes, g, y, x, yn);
                    assert(xn2 == xn as int);
                    assert(reach(g, xn as int, (yn as usize) as int));
                    assert(sccs_mid[c]@.contains(yn as usize));
                    let b = choose|b: int| 0 <= b < sccs@[c]@.len() && sccs@[c]@[b] == yn as usize;
                    assert(r@[c]@[b] == nodes[sccs@[c]@[b] as int]);
                }
                assert forall|c1: int, c2: int|
                    0 <= c1 < c2 < r@.len() && (#[trigger] r@[c1])@.len() == 1 && (#[trigger] r@[c2])@.len() == 1
                        implies r@[c1]@[0] != r@[c2]@[0] by {
                    assert(sccs@[c1]@.len() == 1 && sccs@[c2]@.len() == 1);
                    assert(c1 >= mid) by {
                        if c1 < mid {
                            assert(sccs_mid[c1]@.len() > 1);
                        }
                    }
                    assert(sccs@[c1]@[0] < sccs@[c2]@[0]);
                    assert(r@[c1]@[0] == nodes[sccs@[c1]@[0] as int]);
                    assert(r@[c2]@[0] == nodes[sccs@[c2]@[0] as int]);
                }
                assert forall|x: StructID| #[trigger] struct_edge(e, x, x) implies exists|c: int|
                    0 <= c < r@.len() && r@[c]@ == seq![x] by {
                    let q = seq![x, x];
                    assert forall|k: int| 0 <= k < q.len() - 1 implies #[trigger] struct_edge(e, q[k], q[k + 1]) by {
                        assert(k == 0);
                    }
                    let p = lemma_struct_path_to_nodes(e, nodes, g, q);
                    let k0: int = 0;
                    assert(edge(g, p[k0], p[k0 + 1]));
                    assert(p[0] == p[1]) by {
                        if p[0] != p[1] {
                            assert(nodes[p[0]] == nodes[p[1]]);
                        }
                    }
                    let xn = p[0];
                    assert(edge(g, xn, xn));
                    assert(xn < keys);
                    assert(popped(dfin, sfin, xn));
                    assert(marks[xn]);
                    let c = choose|c: int| mid <= c < sccs@.len() && sccs@[c]@ == seq![xn as usize];
                    assert(r@[c]@.len() == 1);
                    assert(r@[c]@[0] == nodes[xn]);
                    assert(r@[c]@ =~= seq![x]);
                }
            }
        }
        r
    }
}

impl RecursiveTypeChecker {
    /// The components, with each node number replaced by the struct it stands for.
    fn map_components(&self, sccs: &Vec<Vec<usize>>) -> (r: Vec<Vec<StructID>>)
        requires
            numbering_faithful(self.edge@, self.nodes@, self.adj@),
            components_ok(self.adj@, sccs@),
        ensures
            struct_components_ok(self.edge@, r@),
            r@.len() == sccs@.len(),
            forall|c: int| 0 <= c < sccs@.len() ==> (#[trigger] r@[c])@.len() == sccs@[c]@.len(),
            forall|c: int, j: int|
                0 <= c < sccs@.len() && 0 <= j < sccs@[c]@.len() ==> #[trigger] r@[c]@[j] == self.nodes@[sccs@[c]@[j] as int],
            forall|c: int, j: int|
                0 <= c < sccs@.len() && 0 <= j < sccs@[c]@.len() ==> #[trigger] r@[c]@.contains(
                    self.nodes@[sccs@[c]@[j] as int],
                ),
    {
        let ghost e = self.edge@;
        let ghost g = self.adj@;
        let ghost nodes = self.nodes@;
        let mut out: Vec<Vec<StructID>> = Vec::new();
        let mut c: usize = 0;
        while c < sccs.len()
            invariant
                e == self.edge@,
                g == self.adj@,
                nodes == self.nodes@,
                numbering_faithful(e, nodes, g),
                components_ok(g, sccs@),
                c <= sccs.len(),
                out@.len() == c,
                struct_components_ok(e, out@),
                forall|c2: int, j: int|
                    0 <= c2 < c && 0 <= j < sccs@[c2]@.len() ==> #[trigger] out@[c2]@.contains(
                        nodes[sccs@[c2]@[j] as int],
                    ),
                forall|c2: int| 0 <= c2 < c ==> (#[trigger] out@[c2])@.len() == sccs@[c2]@.len(),
                forall|c2: int, j: int|
                    0 <= c2 < c && 0 <= j < sccs@[c2]@.len() ==> #[trigger] out@[c2]@[j] == nodes[sccs@[c2]@[j] as int],
            decreases sccs.len() - c,
        {
            let comp = &sccs[c];
            assert({
                let cc = sccs@[c as int]@;
                ||| cc.len() == 1 && (cc[0] as int) < g.len() && edge(g, cc[0] as int, cc[0] as int)
                ||| cc.len() > 1 && component_ok(g, cc)
            });
            let mut ids: Vec<StructID> = Vec::new();
            let mut k: usize = 0;
            while k < comp.len()
                invariant
                    nodes == self.nodes@,
                    nodes.len() == g.len(),
                    *comp == sccs@[c as int],
                    forall|x: usize| comp@.contains(x) ==> (x as int) < g.len(),
                    k <= comp.len(),
                    ids@.len() == k,
                    forall|j: int| 0 <= j < k ==> #[trigger] ids@[j] == nodes[comp@[j] as int],
                decreases comp.len() - k,
            {
                assert(comp@.contains(comp@[k as int]));
                ids.push(self.nodes[comp[k]]);
                k += 1;
            }
            proof {
                let cc = comp@;
                if cc.len() == 1 {
                    let x = cc[0] as int;
                    let j = choose|j: int| 0 <= j < g[x].len() && g[x]@[j] as int == x;
                    assert(struct_edge(e, nodes[x], nodes[g[x]@[j] as int]));
                    assert(ids@[0] == nodes[x]);
                    let q = seq![nodes[x], nodes[x]];
                    assert forall|k: int| 0 <= k < q.len() - 1 implies #[trigger] struct_edge(e, q[k], q[k + 1]) by {
                        assert(k == 0);
                    }
                    assert(is_struct_path(e, q));
                    assert forall|xx: StructID| ids@.contains(xx) implies struct_on_cycle(e, xx) by {
                        let i = choose|i: int| 0 <= i < ids@.len() && ids@[i] == xx;
                        assert(i == 0);
                    }
                } else {
                    assert forall|xx: StructID| ids@.contains(xx) implies struct_on_cycle(e, xx) by {
                        let i = choose|i: int| 0 <= i < ids@.len() && ids@[i] == xx;
                        let j = if i == 0 { 1int } else { 0int };
                        assert(cc[i] != cc[j]);
                        assert(cc.contains(cc[i]) && cc.contains(cc[j]));
                        lemma_mutual_reach_cycle(g, cc[i] as int, cc[j] as int);
                        lemma_map_cycle(e, nodes, g, cc[i] as int);
                    }
                    assert forall|x: StructID, y: StructID| ids@.contains(x) && ids@.contains(y) implies struct_reach(e, x, y) by {
                        let i = choose|i: int| 0 <= i < ids@.len() && ids@[i] == x;
                        let j = choose|j: int| 0 <= j < ids@.len() && ids@[j] == y;
                        assert(cc.contains(cc[i]) && cc.contains(cc[j]));
                        lemma_map_reach(e, nodes, g, cc[i] as int, cc[j] as int);
                    }
                }
            }
            let ghost before = out@;
            out.push(ids);
            proof {
                assert forall|d: int| 0 <= d < out@.len() implies {
                    let comp2 = #[trigger] out@[d]@;
                    &&& comp2.len() == 1 ==> struct_edge(e, comp2[0], comp2[0])
                    &&& comp2.len() != 1 ==> comp2.len() > 1 && forall|x: StructID, y: StructID|
                        comp2.contains(x) && comp2.contains(y) ==> struct_reach(e, x, y)
                    &&& forall|x: StructID| comp2.contains(x) ==> struct_on_cycle(e, x)
                } by {
                    if d < before.len() {
                        assert(out@[d] == before[d]);
                    }
                }
                assert forall|c2: int, j: int|
                    0 <= c2 < c + 1 && 0 <= j < sccs@[c2]@.len() implies #[trigger] out@[c2]@.contains(
                        nodes[sccs@[c2]@[j] as int],
                    ) by {
                    if c2 < c {
                        assert(out@[c2] == before[c2]);
                    } else {
                        assert(out@[c2]@[j] == nodes[sccs@[c2]@[j] as int]);
                    }
                }
                assert forall|c2: int| 0 <= c2 < c + 1 implies (#[trigger] out@[c2])@.len() == sccs@[c2]@.len() by {
                    if c2 < c {
                        assert(out@[c2] == before[c2]);
                    }
                }
                assert forall|c2: int, j: int|
                    0 <= c2 < c + 1 && 0 <= j < sccs@[c2]@.len() implies #[trigger] out@[c2]@[j] == nodes[sccs@[c2]@[j] as int] by {
                    if c2 < c {
                        assert(out@[c2] == before[c2]);
                    }
                }
            }
            c += 1;
        }
        out
    }
}

/// A node on a cycle without an edge to itself has another node that it
/// reaches and that reaches it back.
proof fn lemma_cycle_not_alone(g: Seq<Vec<usize>>, x: int)
    requires
        on_cycle(g, x),
        !edge(g, x, x),
    ensures
        !alone(g, x),
{
    let p = choose|p: Seq<int>| #[trigger] is_path(g, p) && p.len() >= 2 && p[0] == x && p.last() == x;
    let y = p[1];
    let k0: int = 0;
    assert(edge(g, p[k0], p[k0 + 1]));
    lemma_reach_edge(g, x, y);
    let q = p.subrange(1, p.len() as int);
    assert forall|k: int| 0 <= k < q.len() - 1 implies #[trigger] edge(g, q[k], q[k + 1]) by {
        assert(q[k] == p[k + 1] && q[k + 1] == p[k + 2]);
        assert(edge(g, p[k + 1], p[k + 2]));
    }
    assert(is_path(g, q) && q[0] == y && q.last() == x);
    assert(reach(g, y, x));
}

/// The node that stands for struct `sid`.
spec fn node_of(nodes: Seq<StructID>, sid: StructID) -> int {
    choose|x: int| 0 <= x < nodes.len() && nodes[x] == sid
}

/// A path of recorded edges gives a path of the numbered graph through the
/// nodes that stand for its structs, when each struct is the source of one
/// entry at most.
proof fn lemma_struct_path_to_nodes(
    e: Seq<(StructID, Vec<StructID>)>,
    nodes: Seq<StructID>,
    g: Seq<Vec<usize>>,
    q: Seq<StructID>,
) -> (p: Seq<int>)
    requires
        numbering_faithful(e, nodes, g),
        numbering_complete(e, nodes, g),
        keys_unique(e),
        is_struct_path(e, q),
        q.len() >= 2,
    ensures
        is_path(g, p),
        p.len() == q.len(),
        forall|i: int| 0 <= i < q.len() ==> 0 <= #[trigger] p[i] < g.len() && nodes[p[i]] == q[i],
{
    let p = Seq::new(q.len(), |i: int| node_of(nodes, q[i]));
    assert forall|i: int| 0 <= i < q.len() implies 0 <= #[trigger] p[i] < g.len() && nodes[p[i]] == q[i] by {
        if i < q.len() - 1 {
            assert(struct_edge(e, q[i], q[i + 1]));
            let k = choose|k: int| 0 <= k < e.len() && e[k].0 == q[i] && #[trigger] e[k].1@.contains(q[i + 1]);
            assert(nodes[k] == e[k].0);
        } else {
            let i0 = i - 1;
            assert(struct_edge(e, q[i0], q[i0 + 1]));
            assert(q[i0 + 1] == q[i]);
            let k = choose|k: int| 0 <= k < e.len() && e[k].0 == q[i - 1] && #[trigger] e[k].1@.contains(q[i]);
            let j = choose|j: int| 0 <= j < e[k].1@.len() && e[k].1@[j] == q[i];
            assert(nodes[g[k]@[j] as int] == e[k].1@[j]);
            assert((g[k]@[j] as int) < g.len());
        }
        assert(exists|x: int| 0 <= x < nodes.len() && nodes[x] == q[i]);
    }
    assert forall|k: int| 0 <= k < p.len() - 1 implies #[trigger] edge(g, p[k], p[k + 1]) by {
        assert(struct_edge(e, q[k], q[k + 1]));
        let a = choose|a: int| 0 <= a < e.len() && e[a].0 == q[k] && #[trigger] e[a].1@.contains(q[k + 1]);
        let j = choose|j: int| 0 <= j < e[a].1@.len() && e[a].1@[j] == q[k + 1];
        assert(nodes[a] == q[k]);
        assert(p[k] == a) by {
            assert(nodes[p[k]] == q[k]);
            if p[k] != a {
                assert(nodes.no_duplicates());
            }
        }
        let y = g[a]@[j] as int;
        assert(y < g.len());
        assert(nodes[y] == q[k + 1]);
        assert(p[k + 1] == y) by {
            assert(nodes[p[k + 1]] == q[k + 1]);
            if p[k + 1] != y {
                assert(nodes.no_duplicates());
            }
        }
    }
    p
}

/// A struct reached by recorded edges from the struct of node `xn` is the
/// struct of a node that `xn` reaches in the numbered graph.
proof fn lemma_struct_reach_to_nodes(
    e: Seq<(StructID, Vec<StructID>)>,
    nodes: Seq<StructID>,
    g: Seq<Vec<usize>>,
    x: StructID,
    y: StructID,
    xn: int,
) -> (yn: int)
    requires
        numbering_faithful(e, nodes, g),
        numbering_complete(e, nodes, g),
        keys_unique(e),
        struct_reach(e, x, y),
        0 <= xn < g.len(),
        nodes[xn] == x,
    ensures
        0 <= yn < g.len(),
        nodes[yn] == y,
        reach(g, xn, yn),
{
    let q = choose|q: Seq<StructID>| #[trigger] is_struct_path(e, q) && q[0] == x && q.last() == y;
    if q.len() == 1 {
        lemma_reach_refl(g, xn);
        xn
    } else {
        let p = lemma_struct_path_to_nodes(e, nodes, g, q);
        assert(p[0] == xn) by {
            if p[0] != xn {
                assert(nodes[p[0]] == nodes[xn]);
                assert(nodes.no_duplicates());
            }
        }
        let yn = p[p.len() - 1];
        assert(is_path(g, p) && p[0] == xn && p.last() == yn);
        yn
    }
}

proof fn lemma_count_zero(d: Seq<usize>)
    requires
        forall|v: int| 0 <= v < d.len() ==> #[trigger] d[v] == 0,
    ensures
        visited_count(d) == 0,
    decreases d.len(),
{
    if d.len() > 0 {
        lemma_count_zero(d.drop_last());
    }
}

// ---------------------------------------------------------------------------
// The graph of a project
// ---------------------------------------------------------------------------

/// The struct that a field of type `t` holds by value: through `const` and
/// arrays, not through pointers.
pub open spec fn held_struct(t: TyView) -> Option<StructID>
    decreases t,
{
    match t {
        TyView::Const(inner) => held_struct(*inner),
        TyView::Array(inner, _) => held_struct(*inner),
        TyView::Struct { id, .. } => Some(id),
        _ => None,
    }
}

/// Whether field `k` of struct `i` of module `m` holds struct `b` by value.
pub open spec fn field_holds(m: Module, i: int, k: int, b: StructID) -> bool {
    &&& 0 <= i < m.structs@.len()
    &&& 0 <= k < m.structs@[i].fields@.len()
    &&& m.field_at(m.structs@[i].fields@[k]) matches Some(f) && held_struct(f.ty) == Some(b)
}

/// Whether struct `a` has a field that holds struct `b` by value, as the modules record it.
pub open spec fn holds_by_value(ms: Seq<Module>, a: StructID, b: StructID) -> bool {
    exists|j: int, k: int|
        0 <= j < ms.len() && ms[j].file_id == a.module && #[trigger] field_holds(ms[j], a.index as int, k, b)
}

fn held_struct_of(ty: &Ty) -> (r: Option<StructID>)
    ensures
        r == held_struct(ty@),
    decreases ty,
{
    match ty {
        Ty::Const(inner) => held_struct_of(inner),
        Ty::Pointer { .. } => None,
        Ty::Struct { id, .. } => Some(*id),
        Ty::Array(inner, _) => held_struct_of(inner),
        _ => None,
    }
}

impl RecursiveTypeChecker {
    /// Records, for each struct of each module, the structs that its fields hold by value.
    pub fn build_graph(&mut self, modules: &Vec<Module>)
        requires
            forall|j: int| 0 <= j < modules@.len() ==> #[trigger] modules@[j].structs@.len() <= u32::MAX,
        ensures
            forall|a: StructID, b: StructID|
                #[trigger] struct_edge(final(self).edge@, a, b) <==> holds_by_value(modules@, a, b),
            distinct_files(modules@) ==> keys_unique(final(self).edge@),
    {
        let ghost ms = modules@;
        self.edge = Vec::new();
        let mut j: usize = 0;
        while j < modules.len()
            invariant
                ms == modules@,
                j <= modules.len(),
                forall|j2: int| 0 <= j2 < modules@.len() ==> #[trigger] modules@[j2].structs@.len() <= u32::MAX,
                forall|x: int, t: StructID|
                    0 <= x < self.edge@.len() && #[trigger] self.edge@[x].1@.contains(t) ==> holds_by_value(
                        ms,
                        self.edge@[x].0,
                        t,
                    ),
                forall|j2: int, i2: int, k2: int, b: StructID|
                    0 <= j2 < j && #[trigger] field_holds(ms[j2], i2, k2, b) ==> struct_edge(
                        self.edge@,
                        StructID { module: ms[j2].file_id, index: i2 as u32 },
                        b,
                    ),
                distinct_files(ms) ==> keys_unique(self.edge@),
                distinct_files(ms) ==> forall|x: int, j3: int|
                    0 <= x < self.edge@.len() && j <= j3 < ms.len() ==> #[trigger] self.edge@[x].0.module
                        != #[trigger] ms[j3].file_id,
            decreases modules.len() - j,
        {
            let module = &modules[j];
            assert(module.structs@.len() <= u32::MAX);
            let mut i: usize = 0;
            while i < module.structs.len()
                invariant
                    ms == modules@,
                    j < ms.len(),
                    *module == ms[j as int],
                    module.structs@.len() <= u32::MAX,
                    i <= module.structs.len(),
                    forall|x: int, t: StructID|
                        0 <= x < self.edge@.len() && #[trigger] self.edge@[x].1@.contains(t) ==> holds_by_value(
                            ms,
                            self.edge@[x].0,
                            t,
                        ),
                    forall|j2: int, i2: int, k2: int, b: StructID|
                        0 <= j2 < j && #[trigger] field_holds(ms[j2], i2, k2, b) ==> struct_edge(
                            self.edge@,
                            StructID { module: ms[j2].file_id, index: i2 as u32 },
                            b,
                        ),
                    forall|i2: int, k2: int, b: StructID|
                        0 <= i2 < i && #[trigger] field_holds(ms[j as int], i2, k2, b) ==> struct_edge(
                            self.edge@,
                            StructID { module: ms[j as int].file_id, index: i2 as u32 },
                            b,
                        ),
                    distinct_files(ms) ==> keys_unique(self.edge@),
                    distinct_files(ms) ==> forall|x: int, j3: int|
                        0 <= x < self.edge@.len() && j < j3 < ms.len() ==> #[trigger] self.edge@[x].0.module
                            != #[trigger] ms[j3].file_id,
                    distinct_files(ms) ==> forall|x: int|
                        0 <= x < self.edge@.len() && (#[trigger] self.edge@[x]).0.module == ms[j as int].file_id
                            ==> self.edge@[x].0.index < i,
                decreases module.structs.len() - i,
            {
                let from = StructID::new(module.file_id, i as u32);
                let sc = &module.structs[i];
                let mut targets: Vec<StructID> = Vec::new();
                let mut k: usize = 0;
                while k < sc.fields.len()
                    invariant
                        ms == modules@,
                        j < ms.len(),
                        *module == ms[j as int],
                        i < module.structs@.len(),
                        *sc == module.structs@[i as int],
                        from == (StructID { module: module.file_id, index: i as u32 }),
                        (i as u32) as int == i,
                        k <= sc.fields.len(),
                        forall|t: StructID| #[trigger] targets@.contains(t) ==> holds_by_value(ms, from, t),
                        forall|k2: int, b: StructID|
                            0 <= k2 < k && #[trigger] field_holds(ms[j as int], i as int, k2, b) ==> targets@.contains(b),
                    decreases sc.fields.len() - k,
                {
                    let ghost t0 = targets@;
                    let fo = module.get_field_by_id(sc.fields[k]);
                    if let Some(field) = fo {
                        if let Some(to) = held_struct_of(&field.ty) {
                            proof {
                                assert(field_holds(ms[j as int], from.index as int, k as int, to));
                            }
                            let ghost before = targets@;
                            targets.push(to);
                            proof {
                                assert forall|t: StructID| #[trigger] targets@.contains(t) implies holds_by_value(ms, from, t) by {
                                    if t != to {
                                        let q = choose|q: int| 0 <= q < targets@.len() && targets@[q] == t;
                                        assert(before[q] == t);
                                        assert(before.contains(t));
                                    } else {
                                        assert(field_holds(ms[j as int], from.index as int, k as int, to));
                                        assert(ms[j as int].file_id == from.module);
                                    }
                                }
                            }
                        }
                    }
                    proof {
                        assert forall|k2: int, b: StructID|
                            0 <= k2 < k + 1 && #[trigger] field_holds(ms[j as int], i as int, k2, b) implies targets@.contains(b) by {
                            if k2 < k {
                                assert(t0.contains(b));
                                let q = choose|q: int| 0 <= q < t0.len() && t0[q] == b;
                                assert(targets@[q] == b);
                            } else {
                                assert(fo is Some);
                                assert(targets@.last() == b);
                            }
                        }
                    }
                    k += 1;
                }
                let ghost tg = targets@;
                let ghost before_edges = self.edge@;
                if targets.len() > 0 {
                    let ghost before = self.edge@;
                    self.edge.push((from, targets));
                    proof {
                        assert(self.edge@[before.len() as int].1@ == tg);
                        assert forall|x: int, t: StructID|
                            0 <= x < self.edge@.len() && #[trigger] self.edge@[x].1@.contains(t) implies holds_by_value(
                                ms,
                                self.edge@[x].0,
                                t,
                            ) by {
                            if x < before.len() {
                                assert(self.edge@[x] == before[x]);
                            }
                        }
                        if distinct_files(ms) {
                            assert forall|a: int, b: int| 0 <= a < b < self.edge@.len() implies #[trigger] self.edge@[a].0
                                != #[trigger] self.edge@[b].0 by {
                                if b < before.len() {
                                    assert(self.edge@[a] == before[a] && self.edge@[b] == before[b]);
                                } else {
                                    assert(self.edge@[a] == before[a]);
                                    assert(self.edge@[b].0 == from);
                                }
                            }
                            assert forall|x: int, j3: int|
                                0 <= x < self.edge@.len() && j < j3 < ms.len() implies #[trigger] self.edge@[x].0.module
                                    != #[trigger] ms[j3].file_id by {
                                if x < before.len() {
                                    assert(self.edge@[x] == before[x]);
                                } else {
                                    assert(ms[j as int].file_id != ms[j3].file_id);
                                }
                            }
                            assert forall|x: int|
                                0 <= x < self.edge@.len() && (#[trigger] self.edge@[x]).0.module == ms[j as int].file_id
                                    implies self.edge@[x].0.index < i + 1 by {
                                if x < before.len() {
                                    assert(self.edge@[x] == before[x]);
                                }
                            }
                        }
                    }
                }
                proof {
                    assert forall|a: StructID, b: StructID| #[trigger] struct_edge(before_edges, a, b) implies struct_edge(
                        self.edge@,
                        a,
                        b,
                    ) by {
                        let x = choose|x: int| 0 <= x < before_edges.len() && before_edges[x].0 == a
                            && #[trigger] before_edges[x].1@.contains(b);
                        assert(self.edge@[x] == before_edges[x]);
                    }
                    assert forall|k2: int, b: StructID| #[trigger] field_holds(ms[j as int], i as int, k2, b) implies struct_edge(
                        self.edge@,
                        from,
                        b,
                    ) by {
                        assert(tg.contains(b));
                        let x = before_edges.len() as int;
                        assert(self.edge@[x].0 == from);
                        assert(self.edge@[x].1@.contains(b));
                    }
                }
                i += 1;
            }
            j += 1;
        }
        proof {
            assert forall|a: StructID, b: StructID| #[trigger] struct_edge(self.edge@, a, b) implies holds_by_value(ms, a, b) by {
                let x = choose|x: int| 0 <= x < self.edge@.len() && self.edge@[x].0 == a && #[trigger] self.edge@[x].1@.contains(b);
            }
            assert forall|a: StructID, b: StructID| holds_by_value(ms, a, b) implies #[trigger] struct_edge(self.edge@, a, b) by {
                let (j2, k2) = choose|j2: int, k2: int|
                    0 <= j2 < ms.len() && ms[j2].file_id == a.module && #[trigger] field_holds(ms[j2], a.index as int, k2, b);
                assert(StructID { module: ms[j2].file_id, index: (a.index as int) as u32 } == a);
            }
        }
    }
}

/// No two modules belong to the same file.
pub open spec fn distinct_files(ms: Seq<Module>) -> bool {
    forall|i: int, j: int| 0 <= i < j < ms.len() ==> #[trigger] ms[i].file_id != #[trigger] ms[j].file_id
}

/// The position of the first module of file `f`.
pub open spec fn module_position(ms: Seq<Module>, f: u32) -> Option<int>
    decreases ms.len(),
{
    if ms.len() == 0 {
        None
    } else if ms[0].file_id == f {
        Some(0)
    } else {
        match module_position(ms.drop_first(), f) {
            Some(i) => Some(i + 1),
            None => None,
        }
    }
}

proof fn lemma_module_position(ms: Seq<Module>, f: u32)
    ensures
        module_position(ms, f) matches Some(j) ==> 0 <= j < ms.len() && ms[j].file_id == f && forall|k: int|
            0 <= k < j ==> ms[k].file_id != f,
        module_position(ms, f) is None ==> forall|k: int| 0 <= k < ms.len() ==> ms[k].file_id != f,
    decreases ms.len(),
{
    if ms.len() > 0 && ms[0].file_id != f {
        lemma_module_position(ms.drop_first(), f);
        assert forall|k: int| 1 <= k < ms.len() implies ms[k] == ms.drop_first()[k - 1] by {}
    }
}

/// The struct `s` as the modules define it: in the first module of its file.
pub open spec fn struct_def(ms: Seq<Module>, s: StructID) -> Option<crate::module::StructView> {
    match module_position(ms, s.module) {
        Some(j) => if s.index < ms[j].structs@.len() {
            Some(ms[j].structs@[s.index as int]@)
        } else {
            None
        },
        None => None,
    }
}

/// Whether struct `s` holds itself by value, through at least one field.
pub open spec fn holds_cycle(ms: Seq<Module>, s: StructID) -> bool {
    exists|p: Seq<StructID>|
        p.len() >= 2 && p[0] == s && p.last() == s && forall|k: int|
            0 <= k < p.len() - 1 ==> #[trigger] holds_by_value(ms, p[k], p[k + 1])
}

/// Whether `e` reports, as a struct of file `f`, a struct of one of the components.
pub open spec fn error_from(ms: Seq<Module>, sccs: Seq<Vec<StructID>>, f: u32, e: AnalyzeError) -> bool {
    &&& exists|c: int, i: int|
        0 <= c < sccs.len() && 0 <= i < sccs[c]@.len() && #[trigger] sccs[c]@[i].module == f && reports(ms, e, sccs[c]@[i])
    &&& cycle_closed(e)
}

/// The cycle that a recursive-type error carries is not empty, and it ends
/// with the name it starts with.
pub open spec fn cycle_closed(e: AnalyzeError) -> bool {
    e matches AnalyzeError::RecursiveType { cycle, .. } ==> cycle@.len() > 0 && cycle@[0]@ == cycle@.last()@
}

/// Some error filed under the file of struct `s` reports it.
pub open spec fn reported_struct(ms: Seq<Module>, r: Seq<(u32, Vec<AnalyzeError>)>, s: StructID) -> bool {
    exists|k: int| 0 <= k < listed(r, s.module).len() && reports(ms, listed(r, s.module)[k], s)
}

/// Every error, filed under a file, reports a struct of that file that holds itself by value.
pub open spec fn recursive_errors_sound(ms: Seq<Module>, r: Seq<(u32, Vec<AnalyzeError>)>) -> bool {
    forall|f: u32, k: int| 0 <= k < listed(r, f).len() ==> #[trigger] reports_cycle_at(ms, r, f, k)
}

/// The error at position `k` among those filed under file `f` reports a
/// struct of that file that holds itself by value.
pub open spec fn reports_cycle_at(ms: Seq<Module>, r: Seq<(u32, Vec<AnalyzeError>)>, f: u32, k: int) -> bool {
    exists|s: StructID| s.module == f && reports(ms, listed(r, f)[k], s) && #[trigger] holds_cycle(ms, s)
}

/// Whether `e` is the error that reports the struct `s` of the modules as recursive.
pub open spec fn reports(ms: Seq<Module>, e: AnalyzeError, s: StructID) -> bool {
    e matches AnalyzeError::RecursiveType { struct_name, range, .. } && struct_def(ms, s) matches Some(d)
        && struct_name@ == d.name && range == d.range
}

proof fn lemma_errors_sound(
    ms: Seq<Module>,
    r: Seq<(u32, Vec<AnalyzeError>)>,
    comps: Seq<Vec<StructID>>,
    e: Seq<(StructID, Vec<StructID>)>,
)
    requires
        forall|f: u32, k: int| 0 <= k < listed(r, f).len() ==> error_from(ms, comps, f, #[trigger] listed(r, f)[k]),
        struct_components_ok(e, comps),
        forall|a: StructID, b: StructID| #[trigger] struct_edge(e, a, b) ==> holds_by_value(ms, a, b),
    ensures
        recursive_errors_sound(ms, r),
{
    assert forall|f: u32, k: int| 0 <= k < listed(r, f).len() implies #[trigger] reports_cycle_at(ms, r, f, k) by {
        assert(error_from(ms, comps, f, listed(r, f)[k]));
        let (c, i) = choose|c: int, i: int|
            0 <= c < comps.len() && 0 <= i < comps[c]@.len() && #[trigger] comps[c]@[i].module == f && reports(
                ms,
                listed(r, f)[k],
                comps[c]@[i],
            );
        let s = comps[c]@[i];
        assert(comps[c]@.contains(s));
        lemma_cycle_holds(ms, e, s);
        assert(s.module == f && reports(ms, listed(r, f)[k], s) && holds_cycle(ms, s));
    }
}

proof fn lemma_cycle_holds(ms: Seq<Module>, e: Seq<(StructID, Vec<StructID>)>, s: StructID)
    requires
        struct_on_cycle(e, s),
        forall|a: StructID, b: StructID| #[trigger] struct_edge(e, a, b) ==> holds_by_value(ms, a, b),
    ensures
        holds_cycle(ms, s),
{
    let p = choose|p: Seq<StructID>| #[trigger] is_struct_path(e, p) && p.len() >= 2 && p[0] == s && p.last() == s;
    assert forall|k: int| 0 <= k < p.len() - 1 implies #[trigger] holds_by_value(ms, p[k], p[k + 1]) by {
        assert(struct_edge(e, p[k], p[k + 1]));
    }
}

fn find_module(modules: &Vec<Module>, f: u32) -> (r: Option<usize>)
    ensures
        r matches Some(j) ==> module_position(modules@, f) == Some(j as int) && j < modules@.len(),
        r is None ==> module_position(modules@, f) is None,
{
    proof {
        lemma_module_position(modules@, f);
    }
    let mut j: usize = 0;
    while j < modules.len()
        invariant
            j <= modules.len(),
            forall|k: int| 0 <= k < j ==> modules@[k].file_id != f,
            module_position(modules@, f) matches Some(x) ==> 0 <= x < modules@.len() && modules@[x].file_id == f
                && forall|k: int| 0 <= k < x ==> modules@[k].file_id != f,
            module_position(modules@, f) is None ==> forall|k: int| 0 <= k < modules@.len() ==> modules@[k].file_id != f,
        decreases modules.len() - j,
    {
        if modules[j].file_id == f {
            return Some(j);
        }
        j += 1;
    }
    None
}

fn find_struct(modules: &Vec<Module>, s: StructID) -> (r: Option<&crate::module::Struct>)
    ensures
        r matches Some(d) ==> struct_def(modules@, s) == Some(d@),
        r is None ==> struct_def(modules@, s) is None,
{
    match find_module(modules, s.module) {
        Some(j) => {
            if (s.index as usize) < modules[j].structs.len() {
                Some(&modules[j].structs[s.index as usize])
            } else {
                None
            }
        },
        None => None,
    }
}

impl RecursiveTypeChecker {
    /// One error per struct of each component, filed under the struct's file; each
    /// error carries the names of the component's structs, with the first repeated at the end.
    pub fn generate_errors(&self, sccs: Vec<Vec<StructID>>, modules: &Vec<Module>) -> (r: Vec<(u32, Vec<AnalyzeError>)>)
        ensures
            forall|f: u32, k: int|
                0 <= k < listed(r@, f).len() ==> error_from(modules@, sccs@, f, #[trigger] listed(r@, f)[k]),
            forall|c: int, i: int|
                0 <= c < sccs@.len() && 0 <= i < sccs@[c]@.len() && struct_def(modules@, #[trigger] sccs@[c]@[i])
                    is Some ==> reported_struct(modules@, r@, sccs@[c]@[i]),
    {
        let mut errors: Vec<(u32, Vec<AnalyzeError>)> = Vec::new();
        let mut c: usize = 0;
        while c < sccs.len()
            invariant
                c <= sccs.len(),
                forall|f: u32, k: int|
                    0 <= k < listed(errors@, f).len() ==> error_from(modules@, sccs@, f, #[trigger] listed(errors@, f)[k]),
                forall|c2: int, i2: int|
                    0 <= c2 < c && 0 <= i2 < sccs@[c2]@.len() && struct_def(modules@, #[trigger] sccs@[c2]@[i2])
                        is Some ==> reported_struct(modules@, errors@, sccs@[c2]@[i2]),
            decreases sccs.len() - c,
        {
            let scc = &sccs[c];
            let mut cycle_names: Vec<String> = Vec::new();
            let mut i: usize = 0;
            while i < scc.len()
                invariant
                    i <= scc.len(),
                    forall|f: u32, k: int|
                        0 <= k < listed(errors@, f).len() ==> error_from(modules@, sccs@, f, #[trigger] listed(errors@, f)[k]),
                    forall|c2: int, i2: int|
                        0 <= c2 < c && 0 <= i2 < sccs@[c2]@.len() && struct_def(modules@, #[trigger] sccs@[c2]@[i2])
                            is Some ==> reported_struct(modules@, errors@, sccs@[c2]@[i2]),
                    c < sccs.len(),
                    *scc == sccs@[c as int],
                    forall|i2: int|
                        0 <= i2 < i && struct_def(modules@, #[trigger] sccs@[c as int]@[i2]) is Some
                            ==> cycle_names@.len() > 0,
                decreases scc.len() - i,
            {
                if let Some(d) = find_struct(modules, scc[i]) {
                    cycle_names.push(d.name.clone());
                }
                i += 1;
            }
            let ghost found_any = cycle_names@.len() > 0;
            if cycle_names.len() > 0 {
                let first = cycle_names[0].clone();
                cycle_names.push(first);
            }
            assert(found_any ==> cycle_names@.len() > 0 && cycle_names@[0]@ == cycle_names@.last()@);
            let mut i: usize = 0;
            while i < scc.len()
                invariant
                    c < sccs.len(),
                    *scc == sccs@[c as int],
                    i <= scc.len(),
                    forall|f: u32, k: int|
                        0 <= k < listed(errors@, f).len() ==> error_from(modules@, sccs@, f, #[trigger] listed(errors@, f)[k]),
                    forall|c2: int, i2: int|
                        0 <= c2 < c && 0 <= i2 < sccs@[c2]@.len() && struct_def(modules@, #[trigger] sccs@[c2]@[i2])
                            is Some ==> reported_struct(modules@, errors@, sccs@[c2]@[i2]),
                    forall|i2: int|
                        0 <= i2 < i && struct_def(modules@, #[trigger] sccs@[c as int]@[i2]) is Some
                            ==> reported_struct(modules@, errors@, sccs@[c as int]@[i2]),
                    forall|i2: int|
                        0 <= i2 < scc@.len() && struct_def(modules@, #[trigger] sccs@[c as int]@[i2]) is Some
                            ==> found_any,
                    found_any ==> cycle_names@.len() > 0 && cycle_names@[0]@ == cycle_names@.last()@,
                decreases scc.len() - i,
            {
                let struct_id = scc[i];
                if let Some(d) = find_struct(modules, struct_id) {
                    let error = AnalyzeError::RecursiveType {
                        struct_name: d.name.clone(),
                        cycle: clone_names(&cycle_names),
                        range: d.range,
                    };
                    let ghost before = errors@;
                    let ghost e = error;
                    proof {
                        assert(sccs@[c as int]@[i as int] == struct_id);
                        assert(reports(modules@, e, struct_id));
                        assert(found_any);
                        assert(cycle_closed(e));
                        assert(error_from(modules@, sccs@, struct_id.module, e));
                    }
                    push_listed(&mut errors, struct_id.module, error);
                    proof {
                        assert forall|f: u32, k: int|
                            0 <= k < listed(errors@, f).len() implies error_from(modules@, sccs@, f, #[trigger] listed(errors@, f)[k]) by {
                            if f == struct_id.module && k == listed(before, f).len() {
                                assert(listed(errors@, f)[k] == e);
                            } else {
                                assert(listed(errors@, f)[k] == listed(before, f)[k]);
                            }
                        }
                        assert forall|sx: StructID| #[trigger] reported_struct(modules@, before, sx) implies reported_struct(
                            modules@,
                            errors@,
                            sx,
                        ) by {
                            let k = choose|k: int| 0 <= k < listed(before, sx.module).len() && reports(
                                modules@,
                                listed(before, sx.module)[k],
                                sx,
                            );
                            assert(listed(errors@, sx.module)[k] == listed(before, sx.module)[k]);
                        }
                        let kk = listed(before, struct_id.module).len() as int;
                        assert(listed(errors@, struct_id.module)[kk] == e);
                        assert(reported_struct(modules@, errors@, struct_id));
                        assert forall|c2: int, i2: int|
                            0 <= c2 < c && 0 <= i2 < sccs@[c2]@.len() && struct_def(modules@, #[trigger] sccs@[c2]@[i2])
                                is Some implies reported_struct(modules@, errors@, sccs@[c2]@[i2]) by {
                            assert(reported_struct(modules@, before, sccs@[c2]@[i2]));
                        }
                        assert forall|i2: int|
                            0 <= i2 < i + 1 && struct_def(modules@, #[trigger] sccs@[c as int]@[i2]) is Some
                                implies reported_struct(modules@, errors@, sccs@[c as int]@[i2]) by {
                            if i2 < i {
                                assert(reported_struct(modules@, before, sccs@[c as int]@[i2]));
                            }
                        }
                    }
                }
                i += 1;
            }
            proof {
                assert forall|c2: int, i2: int|
                    0 <= c2 < c + 1 && 0 <= i2 < sccs@[c2]@.len() && struct_def(modules@, #[trigger] sccs@[c2]@[i2])
                        is Some implies reported_struct(modules@, errors@, sccs@[c2]@[i2]) by {
                }
            }
            c += 1;
        }
        errors
    }

    /// Finds the recursive struct types of a project and returns the errors for
    /// them, by file.
    pub fn check_project(&mut self, modules: &Vec<Module>) -> (r: Vec<(u32, Vec<AnalyzeError>)>)
        requires
            forall|j: int| 0 <= j < modules@.len() ==> #[trigger] modules@[j].structs@.len() <= u32::MAX,
        ensures
            recursive_errors_sound(modules@, r@),
            forall|f: u32, k: int| 0 <= k < listed(r@, f).len() ==> cycle_closed(#[trigger] listed(r@, f)[k]),
            distinct_files(modules@) ==> forall|s: StructID|
                #[trigger] holds_cycle(modules@, s) && struct_def(modules@, s) is Some ==> reported_struct(
                    modules@,
                    r@,
                    s,
                ),
    {
        self.build_graph(modules);
        let ghost e = self.edge@;
        let sccs = self.tarjan();
        let ghost comps = sccs@;
        let r = self.generate_errors(sccs, modules);
        proof {
            lemma_errors_sound(modules@, r@, comps, e);
            if distinct_files(modules@) {
                assert forall|s: StructID| #[trigger] holds_cycle(modules@, s) && struct_def(modules@, s) is Some
                    implies reported_struct(modules@, r@, s) by {
                    let p = choose|p: Seq<StructID>|
                        p.len() >= 2 && p[0] == s && p.last() == s && forall|k: int|
                            0 <= k < p.len() - 1 ==> #[trigger] holds_by_value(modules@, p[k], p[k + 1]);
                    assert forall|k: int| 0 <= k < p.len() - 1 implies #[trigger] struct_edge(e, p[k], p[k + 1]) by {
                        assert(holds_by_value(modules@, p[k], p[k + 1]));
                    }
                    assert(is_struct_path(e, p));
                    assert(struct_on_cycle(e, s));
                    let c = choose|c: int| 0 <= c < comps.len() && comps[c]@.contains(s);
                    let i = choose|i: int| 0 <= i < comps[c]@.len() && comps[c]@[i] == s;
                    assert(struct_def(modules@, comps[c]@[i]) is Some);
                }
            }
        }
        r
    }
}

impl Default for RecursiveTypeChecker {
    /// A checker with no recorded edges.
    fn default() -> (r: RecursiveTypeChecker)
        ensures
            r.edge@.len() == 0,
            r.wf(),
            r.stack@.len() == 0,
    {
        let r = RecursiveTypeChecker {
            edge: Vec::new(),
            nodes: Vec::new(),
            adj: Vec::new(),
            dfn: Vec::new(),
            low: Vec::new(),
            in_stack: Vec::new(),
            stack: Vec::new(),
            timestamp: 0,
        };
        assert(visited_count(r.dfn@) == 0);
        r
    }
}

/// A copy of a list of names.
fn clone_names(names: &Vec<String>) -> (r: Vec<String>)
    ensures
        r@ == names@,
{
    let mut out: Vec<String> = Vec::new();
    let mut i: usize = 0;
    while i < names.len()
        invariant
            i <= names.len(),
            out@ == names@.take(i as int),
        decreases names.len() - i,
    {
        out.push(names[i].clone());
        assert(out@ =~= names@.take(i + 1));
        i += 1;
    }
    assert(names@.take(names@.len() as int) =~= names@);
    out
}

} // verus!
