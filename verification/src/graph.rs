//! Reachability over an adjacency list whose nodes are indices: node `a` has
//! the successors `adj[a]`; an index past the end is a node without successors.
use vstd::prelude::*;

verus! {

pub open spec fn edge(adj: Seq<Seq<usize>>, a: usize, b: usize) -> bool {
    (a as int) < adj.len() && adj[a as int].contains(b)
}

/// The `i`-th step of `p` follows an edge.
pub open spec fn step(adj: Seq<Seq<usize>>, p: Seq<usize>, i: int) -> bool {
    edge(adj, p[i], p[i + 1])
}

/// `p` is a walk: at least one node, each step along an edge.
pub open spec fn is_path(adj: Seq<Seq<usize>>, p: Seq<usize>) -> bool {
    p.len() >= 1 && forall|i: int| 0 <= i < p.len() - 1 ==> #[trigger] step(adj, p, i)
}

/// `b` can be reached from `a` in zero or more steps.
pub open spec fn reach(adj: Seq<Seq<usize>>, a: usize, b: usize) -> bool {
    exists|p: Seq<usize>| #[trigger] is_path(adj, p) && p[0] == a && p.last() == b
}

/// `b` can be reached from `a` in one or more steps.
pub open spec fn reach_plus(adj: Seq<Seq<usize>>, a: usize, b: usize) -> bool {
    exists|p: Seq<usize>| #[trigger] is_path(adj, p) && p.len() >= 2 && p[0] == a && p.last() == b
}

/// Every node reachable from `f` is a node of `marks` and marked.
pub open spec fn all_reachable_marked(adj: Seq<Seq<usize>>, marks: Seq<bool>, f: usize) -> bool {
    forall|g: usize| #[trigger] reach(adj, f, g) ==> (g as int) < marks.len() && marks[g as int]
}

/// Some node reachable from `f` is a node of `marks` and marked.
pub open spec fn some_reachable_marked(adj: Seq<Seq<usize>>, marks: Seq<bool>, f: usize) -> bool {
    exists|g: usize| #[trigger] reach(adj, f, g) && (g as int) < marks.len() && marks[g as int]
}

/// The successor lists as sequences.
pub open spec fn views(edges: Seq<Vec<usize>>) -> Seq<Seq<usize>> {
    edges.map_values(|v: Vec<usize>| v@)
}

/// How many entries of `s` equal `v`.
pub open spec fn count(s: Seq<bool>, v: bool) -> nat
    decreases s.len(),
{
    if s.len() == 0 {
        0
    } else {
        count(s.drop_last(), v) + if s.last() == v {
            1nat
        } else {
            0nat
        }
    }
}

pub proof fn lemma_count_flip(s: Seq<bool>, i: int, v: bool)
    requires
        0 <= i < s.len(),
        s[i] == v,
    ensures
        count(s.update(i, !v), v) + 1 == count(s, v),
    decreases s.len(),
{
    if i == s.len() - 1 {
        assert(s.update(i, !v).drop_last() =~= s.drop_last());
    } else {
        assert(s.update(i, !v).drop_last() =~= s.drop_last().update(i, !v));
        lemma_count_flip(s.drop_last(), i, v);
    }
}

pub proof fn lemma_reach_refl(adj: Seq<Seq<usize>>, a: usize)
    ensures
        reach(adj, a, a),
{
    let p = seq![a];
    assert(is_path(adj, p));
}

pub proof fn lemma_edge_reach(adj: Seq<Seq<usize>>, a: usize, b: usize)
    requires
        edge(adj, a, b),
    ensures
        reach(adj, a, b),
        reach_plus(adj, a, b),
{
    let p = seq![a, b];
    assert(step(adj, p, 0));
    assert(is_path(adj, p));
}

/// A walk followed by one more edge is a walk of at least one step.
pub proof fn lemma_reach_extend(adj: Seq<Seq<usize>>, a: usize, b: usize, c: usize)
    requires
        reach(adj, a, b),
        edge(adj, b, c),
    ensures
        reach(adj, a, c),
        reach_plus(adj, a, c),
{
    let p = choose|p: Seq<usize>| #[trigger] is_path(adj, p) && p[0] == a && p.last() == b;
    let q = p.push(c);
    assert forall|i: int| 0 <= i < q.len() - 1 implies #[trigger] step(adj, q, i) by {
        if i < p.len() - 1 {
            assert(step(adj, p, i));
        }
    }
    assert(is_path(adj, q));
}

/// One edge followed by a walk.
pub proof fn lemma_reach_prepend(adj: Seq<Seq<usize>>, a: usize, b: usize, c: usize)
    requires
        edge(adj, a, b),
        reach(adj, b, c),
    ensures
        reach(adj, a, c),
        reach_plus(adj, a, c),
{
    let p = choose|p: Seq<usize>| #[trigger] is_path(adj, p) && p[0] == b && p.last() == c;
    let q = seq![a] + p;
    assert forall|i: int| 0 <= i < q.len() - 1 implies #[trigger] step(adj, q, i) by {
        if i > 0 {
            assert(step(adj, p, i - 1));
            assert(q[i] == p[i - 1] && q[i + 1] == p[i]);
        }
    }
    assert(is_path(adj, q));
}

/// A walk of at least one step starts with an edge and goes on with a walk.
pub proof fn lemma_reach_plus_split(adj: Seq<Seq<usize>>, a: usize, c: usize)
    requires
        reach_plus(adj, a, c),
    ensures
        exists|b: usize| edge(adj, a, b) && #[trigger] reach(adj, b, c),
{
    let p = choose|p: Seq<usize>|
        #[trigger] is_path(adj, p) && p.len() >= 2 && p[0] == a && p.last() == c;
    let q = p.drop_first();
    assert(step(adj, p, 0));
    assert forall|i: int| 0 <= i < q.len() - 1 implies #[trigger] step(adj, q, i) by {
        assert(step(adj, p, i + 1));
    }
    assert(is_path(adj, q));
    assert(reach(adj, p[1], c));
}

proof fn lemma_path_forward(adj: Seq<Seq<usize>>, inside: spec_fn(usize) -> bool, p: Seq<usize>, i: int)
    requires
        is_path(adj, p),
        0 <= i < p.len(),
        inside(p[0]),
        forall|x: usize, y: usize| inside(x) && #[trigger] edge(adj, x, y) ==> inside(y),
    ensures
        inside(p[i]),
    decreases i,
{
    if i > 0 {
        lemma_path_forward(adj, inside, p, i - 1);
        assert(step(adj, p, i - 1));
    }
}

proof fn lemma_path_backward(adj: Seq<Seq<usize>>, inside: spec_fn(usize) -> bool, p: Seq<usize>, i: int)
    requires
        is_path(adj, p),
        0 <= i < p.len(),
        inside(p.last()),
        forall|x: usize, y: usize| inside(y) && #[trigger] edge(adj, x, y) ==> inside(x),
    ensures
        inside(p[i]),
    decreases p.len() - i,
{
    if i < p.len() - 1 {
        lemma_path_backward(adj, inside, p, i + 1);
        assert(step(adj, p, i));
    }
}

/// A set of nodes that holds `a` and is closed under edges holds everything
/// reachable from `a`.
pub proof fn lemma_closed_forward(adj: Seq<Seq<usize>>, inside: spec_fn(usize) -> bool, a: usize, b: usize)
    requires
        inside(a),
        forall|x: usize, y: usize| inside(x) && #[trigger] edge(adj, x, y) ==> inside(y),
        reach(adj, a, b),
    ensures
        inside(b),
{
    let p = choose|p: Seq<usize>| #[trigger] is_path(adj, p) && p[0] == a && p.last() == b;
    lemma_path_forward(adj, inside, p, p.len() - 1);
}

/// A set of nodes that holds `b` and holds every node with an edge into it
/// holds everything from which `b` is reachable.
pub proof fn lemma_closed_backward(adj: Seq<Seq<usize>>, inside: spec_fn(usize) -> bool, a: usize, b: usize)
    requires
        inside(b),
        forall|x: usize, y: usize| inside(y) && #[trigger] edge(adj, x, y) ==> inside(x),
        reach(adj, a, b),
    ensures
        inside(a),
{
    let p = choose|p: Seq<usize>| #[trigger] is_path(adj, p) && p[0] == a && p.last() == b;
    lemma_path_backward(adj, inside, p, 0);
}

} // verus!
