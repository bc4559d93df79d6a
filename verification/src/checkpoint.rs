//! Where a host checkpoint is injected: walking back from the checkpoint's
//! source through the unassigned `Pair`/`Proj` routing that feeds it, the
//! earliest (in topological order) routing morphism whose own source is
//! produced by an assigned morphism; the checkpoint itself when there is none.
use vstd::prelude::*;
use crate::graph;
use crate::ir::{CategoryIr, Operation};

verus! {

/// `m` is in the assigned set (ids past the end are not).
pub open spec fn is_assigned(assigned: Seq<bool>, m: usize) -> bool {
    (m as int) < assigned.len() && assigned[m as int]
}

/// A routing morphism: a `Pair` or a `Proj`.
pub open spec fn is_route(op: Operation) -> bool {
    op is Pair || op is Proj
}

/// Some producer of object `x` is assigned.
pub open spec fn fed_by_assigned(ir: CategoryIr, assigned: Seq<bool>, x: usize) -> bool {
    exists|j: int|
        0 <= j < ir.in_edges@[x as int].len() && #[trigger] is_assigned(
            assigned,
            ir.in_edges@[x as int]@[j],
        )
}

/// An unassigned routing morphism whose source is fed by nothing assigned:
/// the walk goes on through it.
pub open spec fn passes(ir: CategoryIr, assigned: Seq<bool>, m: usize) -> bool {
    !is_assigned(assigned, m) && is_route(ir.morphisms@[m as int].op) && !fed_by_assigned(
        ir,
        assigned,
        ir.morphisms@[m as int].source,
    )
}

/// An unassigned routing morphism whose source is fed by an assigned one:
/// a boundary of the walk.
pub open spec fn stops(ir: CategoryIr, assigned: Seq<bool>, m: usize) -> bool {
    !is_assigned(assigned, m) && is_route(ir.morphisms@[m as int].op) && fed_by_assigned(
        ir,
        assigned,
        ir.morphisms@[m as int].source,
    )
}

/// The sources of the first `k` producers of `x` that the walk passes through.
pub open spec fn passed_sources(ir: CategoryIr, assigned: Seq<bool>, x: usize, k: int) -> Seq<
    usize,
>
    decreases k,
{
    if k <= 0 {
        Seq::empty()
    } else {
        let prev = passed_sources(ir, assigned, x, k - 1);
        let m = ir.in_edges@[x as int]@[k - 1];
        if passes(ir, assigned, m) {
            prev.push(ir.morphisms@[m as int].source)
        } else {
            prev
        }
    }
}

/// The walk's steps: from each object back to the sources it passes through.
pub open spec fn walk_graph(ir: CategoryIr, assigned: Seq<bool>) -> Seq<Seq<usize>> {
    Seq::new(
        ir.objects.len() as nat,
        |x: int|
            passed_sources(ir, assigned, x as usize, ir.in_edges@[x].len() as int),
    )
}

/// `m` is a boundary morphism of the walk from object `start`.
pub open spec fn is_boundary(ir: CategoryIr, assigned: Seq<bool>, start: usize, m: usize) -> bool {
    exists|x: usize| #[trigger]
        graph::reach(walk_graph(ir, assigned), start, x) && ir.in_edges@[x as int]@.contains(m)
            && stops(ir, assigned, m)
}

/// The first index of `m` in `topo`, scanning from `i`; `usize::MAX` when absent.
pub open spec fn position_from(topo: Seq<usize>, m: usize, i: int) -> int
    decreases topo.len() - i,
{
    if i < 0 || i >= topo.len() {
        usize::MAX as int
    } else if topo[i] == m {
        i
    } else {
        position_from(topo, m, i + 1)
    }
}

/// The first index of `m` in `topo`; `usize::MAX` when absent.
pub open spec fn position(topo: Seq<usize>, m: usize) -> int {
    position_from(topo, m, 0)
}

fn topo_position(topo: &[usize], m: usize) -> (r: usize)
    ensures
        r as int == position(topo@, m),
{
    let mut i: usize = 0;
    while i < topo.len()
        invariant
            0 <= i <= topo.len(),
            position(topo@, m) == position_from(topo@, m, i as int),
        decreases topo.len() - i,
    {
        if topo[i] == m {
            return i;
        }
        i += 1;
    }
    usize::MAX
}

fn any_assigned(ir: &CategoryIr, assigned: &Vec<bool>, x: usize) -> (r: bool)
    requires
        ir.wf(),
        x < ir.objects.len(),
    ensures
        r == fed_by_assigned(*ir, assigned@, x),
{
    let es = &ir.in_edges[x];
    let mut j: usize = 0;
    while j < es.len()
        invariant
            ir.wf(),
            x < ir.objects.len(),
            es@ == ir.in_edges@[x as int]@,
            0 <= j <= es.len(),
            forall|i: int| 0 <= i < j ==> !#[trigger] is_assigned(assigned@, es@[i]),
        decreases es.len() - j,
    {
        let p = es[j];
        if p < assigned.len() && assigned[p] {
            assert(is_assigned(assigned@, ir.in_edges@[x as int]@[j as int]));
            return true;
        }
        j += 1;
    }
    false
}

/// The morphism a checkpoint is injected before: of the boundary morphisms of
/// the walk back from the checkpoint's source, the one first in `topo`; the
/// checkpoint itself when the walk finds none.
pub fn checkpoint_injection(
    ir: &CategoryIr,
    checkpoint: usize,
    assigned: &Vec<bool>,
    topo: &[usize],
) -> (r: usize)
    requires
        ir.wf(),
        checkpoint < ir.morphisms.len(),
    ensures
        ({
            let start = ir.morphisms@[checkpoint as int].source;
            &&& (forall|m: usize| !#[trigger] is_boundary(*ir, assigned@, start, m)) ==> r
                == checkpoint
            &&& (exists|m: usize| #[trigger] is_boundary(*ir, assigned@, start, m)) ==> {
                &&& is_boundary(*ir, assigned@, start, r)
                &&& forall|m: usize| #[trigger]
                    is_boundary(*ir, assigned@, start, m) ==> position(topo@, r) <= position(
                        topo@,
                        m,
                    )
                &&& position(topo@, r) < topo@.len() ==> topo@[position(topo@, r)] == r
            }
        }),
{
    let n = ir.objects.len();
    let ghost adj = walk_graph(*ir, assigned@);
    let start = ir.morphisms[checkpoint].source;
    let mut seen: Vec<bool> = Vec::new();
    while seen.len() < n
        invariant
            seen.len() <= n,
            forall|i: int| 0 <= i < seen.len() ==> !seen@[i],
        decreases n - seen.len(),
    {
        seen.push(false);
    }
    let mut stack: Vec<usize> = Vec::new();
    stack.push(start);
    assert(stack@[0] == start);
    let mut boundary: Vec<usize> = Vec::new();
    proof {
        graph::lemma_reach_refl(adj, start);
    }
    loop
        invariant
            ir.wf(),
            n == ir.objects.len(),
            start < n,
            start == ir.morphisms@[checkpoint as int].source,
            adj == walk_graph(*ir, assigned@),
            seen.len() == n,
            seen@[start as int] || stack@.contains(start),
            forall|i: int|
                0 <= i < stack.len() ==> (#[trigger] stack@[i] as int) < n && graph::reach(
                    adj,
                    start,
                    stack@[i],
                ),
            forall|x: usize| (x as int) < n && #[trigger] seen@[x as int] ==> graph::reach(adj, start, x),
            forall|x: usize, y: usize|
                (x as int) < n && seen@[x as int] && #[trigger] adj[x as int].contains(y)
                    ==> seen@[y as int] || stack@.contains(y),
            forall|i: int|
                0 <= i < boundary.len() ==> is_boundary(*ir, assigned@, start, #[trigger] boundary@[i]),
            forall|x: usize, m: usize|
                (x as int) < n && seen@[x as int] && #[trigger] ir.in_edges@[x as int]@.contains(m)
                    && stops(*ir, assigned@, m) ==> boundary@.contains(m),
        ensures
            stack@.len() == 0,
            seen.len() == n,
            seen@[start as int],
            forall|x: usize, y: usize|
                (x as int) < n && seen@[x as int] && #[trigger] adj[x as int].contains(y)
                    ==> seen@[y as int],
            forall|i: int|
                0 <= i < boundary.len() ==> is_boundary(*ir, assigned@, start, #[trigger] boundary@[i]),
            forall|x: usize, m: usize|
                (x as int) < n && seen@[x as int] && #[trigger] ir.in_edges@[x as int]@.contains(m)
                    && stops(*ir, assigned@, m) ==> boundary@.contains(m),
        decreases graph::count(seen@, false), stack.len(),
    {
        let ghost old_stack = stack@;
        let ghost old_seen = seen@;
        let object = match stack.pop() {
            None => {
                assert(stack@.len() == 0);
                assert forall|x: usize, y: usize|
                    (x as int) < n && seen@[x as int] && #[trigger] adj[x as int].contains(y)
                        implies seen@[y as int] by {
                    assert(!stack@.contains(y));
                }
                assert(!stack@.contains(start));
                break ;
            },
            Some(object) => object,
        };
        assert(old_stack.last() == object);
        assert(stack@ =~= old_stack.drop_last());
        if seen[object] {
            proof {
                assert forall|x: usize, y: usize|
                    (x as int) < n && seen@[x as int] && #[trigger] adj[x as int].contains(y)
                        implies seen@[y as int] || stack@.contains(y) by {
                    assert(seen@[y as int] || old_stack.contains(y));
                    if !seen@[y as int] {
                        let i = choose|i: int| 0 <= i < old_stack.len() && old_stack[i] == y;
                        if i < old_stack.len() - 1 {
                            assert(stack@[i] == y);
                        }
                    }
                }
                if !seen@[start as int] {
                    let i = choose|i: int| 0 <= i < old_stack.len() && old_stack[i] == start;
                    if i < old_stack.len() - 1 {
                        assert(stack@[i] == start);
                    }
                }
            }
            continue ;
        }
        proof {
            graph::lemma_count_flip(seen@, object as int, false);
        }
        seen.set(object, true);
        let ghost mid = stack@;
        let es = &ir.in_edges[object];
        let mut j: usize = 0;
        while j < es.len()
            invariant
                ir.wf(),
                n == ir.objects.len(),
                object < n,
                start < n,
                adj == walk_graph(*ir, assigned@),
                es@ == ir.in_edges@[object as int]@,
                0 <= j <= es.len(),
                seen.len() == n,
                seen@ == old_seen.update(object as int, true),
                graph::reach(adj, start, object),
                stack@ == mid + passed_sources(*ir, assigned@, object, j as int),
                forall|i: int|
                    0 <= i < boundary.len() ==> is_boundary(
                        *ir,
                        assigned@,
                        start,
                        #[trigger] boundary@[i],
                    ),
                forall|x: usize, m: usize|
                    (x as int) < n && x != object && seen@[x as int]
                        && #[trigger] ir.in_edges@[x as int]@.contains(m) && stops(*ir, assigned@, m)
                        ==> boundary@.contains(m),
                forall|i: int|
                    0 <= i < j && stops(*ir, assigned@, #[trigger] es@[i]) ==> boundary@.contains(
                        es@[i],
                    ),
            decreases es.len() - j,
        {
            let m = es[j];
            let ghost before = stack@;
            let ghost bbefore = boundary@;
            assert(ir.in_edges@[object as int]@.contains(m));
            if !(m < assigned.len() && assigned[m]) {
                let morph = &ir.morphisms[m];
                let route = match &morph.op {
                    Operation::Pair { .. } | Operation::Proj { .. } => true,
                    _ => false,
                };
                if route {
                    if any_assigned(ir, assigned, morph.source) {
                        boundary.push(m);
                        proof {
                            assert(is_boundary(*ir, assigned@, start, m));
                            assert(boundary@.contains(m) ==> true);
                            assert(boundary@[boundary.len() - 1] == m);
                        }
                    } else {
                        stack.push(morph.source);
                    }
                }
            }
            proof {
                assert(passed_sources(*ir, assigned@, object, j + 1) == if passes(
                    *ir,
                    assigned@,
                    m,
                ) {
                    passed_sources(*ir, assigned@, object, j as int).push(
                        ir.morphisms@[m as int].source,
                    )
                } else {
                    passed_sources(*ir, assigned@, object, j as int)
                });
                assert(stack@ =~= mid + passed_sources(*ir, assigned@, object, j + 1));
                assert forall|x: usize, mm: usize|
                    (x as int) < n && x != object && seen@[x as int]
                        && #[trigger] ir.in_edges@[x as int]@.contains(mm) && stops(
                        *ir,
                        assigned@,
                        mm,
                    ) implies boundary@.contains(mm) by {
                    assert(bbefore.contains(mm));
                    let i = choose|i: int| 0 <= i < bbefore.len() && bbefore[i] == mm;
                    assert(boundary@[i] == mm);
                }
                assert forall|i: int|
                    0 <= i < j + 1 && stops(*ir, assigned@, #[trigger] es@[i]) implies boundary@.contains(
                    es@[i],
                ) by {
                    if i < j {
                        assert(bbefore.contains(es@[i]));
                        let k = choose|k: int| 0 <= k < bbefore.len() && bbefore[k] == es@[i];
                        assert(boundary@[k] == es@[i]);
                    } else {
                        assert(boundary@[boundary.len() - 1] == m);
                    }
                }
            }
            j += 1;
        }
        proof {
            let srcs = passed_sources(*ir, assigned@, object, es.len() as int);
            assert(adj[object as int] == srcs);
            assert(stack@ =~= mid + srcs);
            lemma_passed_sources_valid(*ir, assigned@, object, es.len() as int);
            assert forall|i: int|
                0 <= i < stack.len() implies (#[trigger] stack@[i] as int) < n && graph::reach(
                adj,
                start,
                stack@[i],
            ) by {
                if i < mid.len() {
                    assert(stack@[i] == old_stack[i]);
                } else {
                    let y = stack@[i];
                    assert(srcs[i - mid.len()] == y);
                    assert(adj[object as int].contains(y));
                    graph::lemma_reach_extend(adj, start, object, y);
                }
            }
            assert forall|x: usize, y: usize|
                (x as int) < n && seen@[x as int] && #[trigger] adj[x as int].contains(y)
                    implies seen@[y as int] || stack@.contains(y) by {
                lemma_passed_sources_valid(*ir, assigned@, x, ir.in_edges@[x as int].len() as int);
                let kk = choose|kk: int| 0 <= kk < adj[x as int].len() && adj[x as int][kk] == y;
                assert((y as int) < n);
                if x == object {
                    assert(srcs.contains(y));
                    let k = choose|k: int| 0 <= k < srcs.len() && srcs[k] == y;
                    assert(stack@[mid.len() + k] == y);
                    assert(stack@.contains(y));
                } else {
                    assert(old_seen[x as int]);
                    assert(old_seen[y as int] || old_stack.contains(y));
                    if !old_seen[y as int] {
                        let i = choose|i: int| 0 <= i < old_stack.len() && old_stack[i] == y;
                        if i < old_stack.len() - 1 {
                            assert(mid[i] == y);
                            assert(stack@[i] == y);
                            assert(stack@.contains(y));
                        } else {
                            assert(y == object);
                            assert(seen@[y as int]);
                        }
                    } else {
                        assert(seen@[y as int]);
                    }
                }
            }
            if !old_seen[start as int] {
                let i = choose|i: int| 0 <= i < old_stack.len() && old_stack[i] == start;
                if i < old_stack.len() - 1 {
                    assert(mid[i] == start);
                    assert(stack@[i] == start);
                }
            }
            assert forall|x: usize, m: usize|
                (x as int) < n && seen@[x as int] && #[trigger] ir.in_edges@[x as int]@.contains(m)
                    && stops(*ir, assigned@, m) implies boundary@.contains(m) by {
                if x == object {
                    let i = choose|i: int| 0 <= i < es@.len() && es@[i] == m;
                    assert(stops(*ir, assigned@, es@[i]));
                }
            }
        }
    }
    proof {
        assert forall|m: usize| #[trigger] is_boundary(*ir, assigned@, start, m) implies boundary@.contains(
            m,
        ) by {
            let x = choose|x: usize| #[trigger]
                graph::reach(adj, start, x) && ir.in_edges@[x as int]@.contains(m) && stops(
                    *ir,
                    assigned@,
                    m,
                );
            let sn = seen@;
            let inside = |v: usize| (v as int) < n && sn[v as int];
            assert forall|a: usize, b: usize| inside(a) && #[trigger] graph::edge(adj, a, b) implies inside(
                b,
            ) by {
                assert((a as int) < n && seen@[a as int]);
                assert(adj[a as int].contains(b));
                lemma_passed_sources_valid(*ir, assigned@, a, ir.in_edges@[a as int].len() as int);
                assert(seen@[b as int]);
            }
            graph::lemma_closed_forward(adj, inside, start, x);
        }
    }
    let mut best: usize = checkpoint;
    let mut best_pos: usize = 0;
    let mut found = false;
    let mut i: usize = 0;
    while i < boundary.len()
        invariant
            0 <= i <= boundary.len(),
            forall|k: int|
                0 <= k < boundary.len() ==> is_boundary(
                    *ir,
                    assigned@,
                    ir.morphisms@[checkpoint as int].source,
                    #[trigger] boundary@[k],
                ),
            found == (i > 0),
            !found ==> best == checkpoint,
            found ==> best_pos as int == position(topo@, best) && is_boundary(
                *ir,
                assigned@,
                ir.morphisms@[checkpoint as int].source,
                best,
            ),
            found ==> forall|k: int| 0 <= k < i ==> best_pos <= position(topo@, #[trigger] boundary@[k]),
        decreases boundary.len() - i,
    {
        let m = boundary[i];
        let p = topo_position(topo, m);
        if !found || p < best_pos {
            best = m;
            best_pos = p;
            found = true;
        }
        i += 1;
    }
    let topo_len = topo.len();
    proof {
        let start = ir.morphisms@[checkpoint as int].source;
        assert(topo@.len() == topo_len);
        if exists|m: usize| #[trigger] is_boundary(*ir, assigned@, start, m) {
            let m = choose|m: usize| #[trigger] is_boundary(*ir, assigned@, start, m);
            assert(boundary@.contains(m));
            assert forall|m: usize| #[trigger]
                is_boundary(*ir, assigned@, start, m) implies position(topo@, best) <= position(
                topo@,
                m,
            ) by {
                assert(boundary@.contains(m));
                let k = choose|k: int| 0 <= k < boundary.len() && boundary@[k] == m;
            }
            lemma_position_finds(topo@, best, 0);
        }
    }
    best
}

/// Where `m` has a position, `topo` holds `m` there; so two morphisms found
/// at one position are the same morphism, and the earliest boundary morphism
/// that `topo` lists is unique.
pub proof fn lemma_position_finds(topo: Seq<usize>, m: usize, i: int)
    requires
        0 <= i,
        topo.len() <= usize::MAX,
    ensures
        position_from(topo, m, i) < topo.len() ==> topo[position_from(topo, m, i)] == m,
    decreases topo.len() - i,
{
    if i < topo.len() && topo[i] != m {
        lemma_position_finds(topo, m, i + 1);
    }
}

/// Every source the walk passes to is an object of the IR.
proof fn lemma_passed_sources_valid(ir: CategoryIr, assigned: Seq<bool>, x: usize, k: int)
    requires
        ir.wf(),
        (x as int) < ir.objects.len(),
        k <= ir.in_edges@[x as int].len(),
    ensures
        forall|i: int|
            0 <= i < passed_sources(ir, assigned, x, k).len() ==> (#[trigger] passed_sources(
                ir,
                assigned,
                x,
                k,
            )[i] as int) < ir.objects.len(),
    decreases k,
{
    if k > 0 {
        lemma_passed_sources_valid(ir, assigned, x, k - 1);
        let m = ir.in_edges@[x as int]@[k - 1];
        assert(m < ir.morphisms.len());
        assert(ir.morphisms@[m as int].source < ir.objects.len());
        let prev = passed_sources(ir, assigned, x, k - 1);
        let cur = passed_sources(ir, assigned, x, k);
        assert forall|i: int| 0 <= i < cur.len() implies (#[trigger] cur[i] as int) < ir.objects.len() by {
            if i < prev.len() {
                assert(cur[i] == prev[i]);
            }
        }
    }
}

} // verus!
