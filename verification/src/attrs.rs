//! Truthful function attributes: the conservative syntactic capability set.
//!
//! A function is **clean** when it has no trap-capable operation (an integer
//! `Div`/`Mod` whose divisor is not a literal other than 0 and -1, an `Index`
//! its bounds proof does not cover, an `Update`, a `Print`), owns no object
//! whose type mentions the IO token, and every function it calls or runs as a
//! `Map`/`Fold` body is equally clean. A function is **loopy** when something
//! it reaches (itself included) enters a loop or lies on a call cycle. Clean
//! functions get `readonly nounwind`, and `willreturn` only when not loopy.
use vstd::prelude::*;
use crate::graph;
use crate::ir;
use crate::ir::{CategoryIr, ObjectKind, Operation, Ty};

verus! {

// ---------------------------------------------------------------------------
// What the analysis computes
// ---------------------------------------------------------------------------

/// The first component of a product type is an integer.
pub open spec fn first_component_int(ty: Ty) -> bool {
    match ty {
        Ty::Tuple(ts) => ts.len() > 0 && ts@[0] is Int,
        Ty::Struct { fields, .. } => fields.len() > 0 && fields@[0].1 is Int,
        _ => false,
    }
}

/// The divisor (slot 1) of `source` is a literal that can neither be zero nor -1.
pub open spec fn safe_divisor(ir: CategoryIr, source: usize) -> bool {
    match ir::const_int(ir, source, 1) {
        Some(v) => v != 0 && v != -1,
        None => false,
    }
}

/// Morphism `m` of function `f` can trap.
pub open spec fn trap_capable(ir: CategoryIr, f: usize, m: usize) -> bool {
    let morph = ir.morphisms@[m as int];
    match morph.op {
        Operation::Div | Operation::Mod => first_component_int(ir.objects@[morph.source as int].ty)
            && !safe_divisor(ir, morph.source),
        Operation::Index => !ir.funcs@[f as int].proven@.contains(m),
        Operation::Update | Operation::Print { .. } => true,
        _ => false,
    }
}

pub open spec fn is_loop_enter(ir: CategoryIr, m: usize) -> bool {
    ir.morphisms@[m as int].op is LoopEnter
}

/// Function `f` owns an object whose type mentions the IO token.
pub open spec fn owns_token(ir: CategoryIr, f: usize) -> bool {
    exists|o: int|
        0 <= o < ir.objects.len() && ir.objects@[o].owner == Some(f) && #[trigger] ir::has_token(
            ir.objects@[o].ty,
        )
}

/// One of the first `k` morphisms of `f` can trap.
pub open spec fn traps_upto(ir: CategoryIr, f: usize, k: int) -> bool {
    exists|j: int| 0 <= j < k && #[trigger] trap_capable(ir, f, ir.funcs@[f as int].morphisms@[j])
}

/// One of the first `k` morphisms of `f` enters a loop.
pub open spec fn loops_upto(ir: CategoryIr, f: usize, k: int) -> bool {
    exists|j: int| 0 <= j < k && #[trigger] is_loop_enter(ir, ir.funcs@[f as int].morphisms@[j])
}

/// `f` on its own, before looking at what it calls, is not clean.
pub open spec fn locally_unclean(ir: CategoryIr, f: usize) -> bool {
    traps_upto(ir, f, ir.funcs@[f as int].morphisms.len() as int) || owns_token(ir, f)
}

/// `f` itself enters a loop.
pub open spec fn has_loop(ir: CategoryIr, f: usize) -> bool {
    loops_upto(ir, f, ir.funcs@[f as int].morphisms.len() as int)
}

/// The function an operation runs: a `Call`'s callee, a `Map`/`Fold` body.
pub open spec fn callee(op: Operation) -> Option<usize> {
    match op {
        Operation::Call(g) => Some(g),
        Operation::MapEach { body, .. } => Some(body),
        Operation::Fold { body, .. } => Some(body),
        _ => None,
    }
}

/// The functions run by the first `k` morphisms of `f`, in order.
pub open spec fn callees_upto(ir: CategoryIr, f: usize, k: int) -> Seq<usize>
    decreases k,
{
    if k <= 0 {
        Seq::empty()
    } else {
        let prev = callees_upto(ir, f, k - 1);
        match callee(ir.morphisms@[ir.funcs@[f as int].morphisms@[k - 1] as int].op) {
            Some(g) => prev.push(g),
            None => prev,
        }
    }
}

/// The functions `f` runs, in the order of its morphisms.
pub open spec fn callees(ir: CategoryIr, f: usize) -> Seq<usize> {
    callees_upto(ir, f, ir.funcs@[f as int].morphisms.len() as int)
}

/// Call and body edges between the IR's functions.
pub open spec fn call_graph(ir: CategoryIr) -> Seq<Seq<usize>> {
    Seq::new(ir.funcs.len() as nat, |f: int| callees(ir, f as usize))
}

/// `f` can reach itself through calls and bodies.
pub open spec fn call_cycle(ir: CategoryIr, f: usize) -> bool {
    graph::reach_plus(call_graph(ir), f, f)
}

/// Everything `f` reaches (itself included) is a function of the IR and locally clean.
pub open spec fn clean_fn(ir: CategoryIr, f: usize) -> bool {
    forall|g: usize| #[trigger]
        graph::reach(call_graph(ir), f, g) ==> (g as int) < ir.funcs.len() && !locally_unclean(ir, g)
}

/// Something `f` reaches (itself included) enters a loop or lies on a call cycle.
pub open spec fn loopy_fn(ir: CategoryIr, f: usize) -> bool {
    exists|g: usize| #[trigger]
        graph::reach(call_graph(ir), f, g) && (g as int) < ir.funcs.len() && (has_loop(ir, g)
            || call_cycle(ir, g))
}

// ---------------------------------------------------------------------------
// The analysis
// ---------------------------------------------------------------------------

/// The clean and loopy verdict of every function of an IR.
pub struct FnAttrs {
    clean: Vec<bool>,
    loopy: Vec<bool>,
}

fn contains_id(v: &Vec<usize>, x: usize) -> (r: bool)
    ensures
        r == v@.contains(x),
{
    let mut i: usize = 0;
    while i < v.len()
        invariant
            0 <= i <= v.len(),
            forall|j: int| 0 <= j < i ==> v@[j] != x,
        decreases v.len() - i,
    {
        if v[i] == x {
            return true;
        }
        i += 1;
    }
    false
}

/// What `f` is on its own: (locally unclean, enters a loop, the functions it runs).
fn local_facts(ir: &CategoryIr, f: usize) -> (r: (bool, bool, Vec<usize>))
    requires
        ir.wf(),
        f < ir.funcs.len(),
    ensures
        r.0 == locally_unclean(*ir, f),
        r.1 == has_loop(*ir, f),
        r.2@ == callees(*ir, f),
{
    let fd = &ir.funcs[f];
    let mut unclean = false;
    let mut has_loop = false;
    let mut edges: Vec<usize> = Vec::new();
    let mut j: usize = 0;
    while j < fd.morphisms.len()
        invariant
            ir.wf(),
            f < ir.funcs.len(),
            *fd == ir.funcs@[f as int],
            0 <= j <= fd.morphisms.len(),
            unclean == traps_upto(*ir, f, j as int),
            has_loop == loops_upto(*ir, f, j as int),
            edges@ == callees_upto(*ir, f, j as int),
        decreases fd.morphisms.len() - j,
    {
        let m = fd.morphisms[j];
        let morph = &ir.morphisms[m];
        let ghost was_unclean = unclean;
        let ghost was_loop = has_loop;
        match &morph.op {
            Operation::Div | Operation::Mod => {
                let src_ty = &ir.objects[morph.source].ty;
                let int_first = match src_ty {
                    Ty::Tuple(ts) => ts.len() > 0 && matches!(ts[0], Ty::Int { .. }),
                    Ty::Struct { fields, .. } => fields.len() > 0 && matches!(
                        fields[0].1,
                        Ty::Int { .. }
                    ),
                    _ => false,
                };
                if int_first {
                    let safe = match ir::const_int_operand(ir, morph.source, 1) {
                        Some(v) => v != 0 && v != -1,
                        None => false,
                    };
                    if !safe {
                        unclean = true;
                    }
                }
            },
            Operation::Index => {
                if !contains_id(&fd.proven, m) {
                    unclean = true;
                }
            },
            Operation::Update | Operation::Print { .. } => {
                unclean = true;
            },
            Operation::LoopEnter => {
                has_loop = true;
            },
            Operation::Call(g) => {
                edges.push(*g);
            },
            Operation::MapEach { body, .. } | Operation::Fold { body, .. } => {
                edges.push(*body);
            },
            _ => {},
        }
        proof {
            assert(unclean == (was_unclean || trap_capable(*ir, f, m)));
            if unclean && !was_unclean {
                assert(trap_capable(*ir, f, ir.funcs@[f as int].morphisms@[j as int]));
            }
            if has_loop && !was_loop {
                assert(is_loop_enter(*ir, ir.funcs@[f as int].morphisms@[j as int]));
            }
        }
        j += 1;
    }
    if !unclean {
        let mut o: usize = 0;
        while o < ir.objects.len()
            invariant_except_break
                !unclean,
            invariant
                ir.wf(),
                0 <= o <= ir.objects.len(),
                forall|p: int|
                    0 <= p < o ==> !(ir.objects@[p].owner == Some(f) && #[trigger] ir::has_token(
                        ir.objects@[p].ty,
                    )),
            ensures
                unclean == owns_token(*ir, f),
            decreases ir.objects.len() - o,
        {
            let obj = &ir.objects[o];
            let owned = match obj.owner {
                Some(g) => g == f,
                None => false,
            };
            if owned && ir::ty_has_token(&obj.ty) {
                assert(ir::has_token(ir.objects@[o as int].ty));
                unclean = true;
                break ;
            }
            o += 1;
        }
    }
    (unclean, has_loop, edges)
}

proof fn lemma_plus_is_reach(adj: Seq<Seq<usize>>, a: usize, b: usize)
    requires
        graph::reach_plus(adj, a, b),
    ensures
        graph::reach(adj, a, b),
{
    let p = choose|p: Seq<usize>|
        #[trigger] graph::is_path(adj, p) && p.len() >= 2 && p[0] == a && p.last() == b;
    assert(graph::is_path(adj, p) && p[0] == a && p.last() == b);
}

/// `true` when `f` can reach itself through `edges` (a call/body cycle).
fn reaches_self(ir: &CategoryIr, edges: &Vec<Vec<usize>>, f: usize) -> (r: bool)
    requires
        edges.len() == ir.funcs.len(),
        f < edges.len(),
    ensures
        r == graph::reach_plus(graph::views(edges@), f, f),
{
    let n = edges.len();
    let ghost adj = graph::views(edges@);
    let mut seen: Vec<bool> = Vec::new();
    while seen.len() < n
        invariant
            seen.len() <= n,
            forall|i: int| 0 <= i < seen.len() ==> !seen@[i],
        decreases n - seen.len(),
    {
        seen.push(false);
    }
    let mut stack: Vec<usize> = Vec::new();
    let first = &edges[f];
    let mut j: usize = 0;
    while j < first.len()
        invariant
            adj == graph::views(edges@),
            f < n == edges.len(),
            first@ == adj[f as int],
            0 <= j <= first.len(),
            stack@ == first@.subrange(0, j as int),
        decreases first.len() - j,
    {
        stack.push(first[j]);
        j += 1;
    }
    assert(stack@ =~= adj[f as int]);
    assert forall|i: int| 0 <= i < stack.len() implies graph::reach_plus(
        adj,
        f,
        #[trigger] stack@[i],
    ) by {
        graph::lemma_edge_reach(adj, f, stack@[i]);
    }
    loop
        invariant
            n == ir.funcs.len(),
            edges.len() == n,
            f < n,
            adj == graph::views(edges@),
            seen.len() == n,
            !seen@[f as int],
            forall|i: int| 0 <= i < stack.len() ==> graph::reach_plus(adj, f, #[trigger] stack@[i]),
            forall|h: usize|
                #[trigger] adj[f as int].contains(h) ==> h >= n || seen@[h as int]
                    || stack@.contains(h),
            forall|s: usize, h: usize|
                s < n && seen@[s as int] && #[trigger] adj[s as int].contains(h) ==> h >= n
                    || seen@[h as int] || stack@.contains(h),
        decreases graph::count(seen@, false), stack.len(),
    {
        let ghost old_stack = stack@;
        let ghost old_seen = seen@;
        match stack.pop() {
            None => {
                proof {
                    assert(stack@.len() == 0);
                    if graph::reach_plus(adj, f, f) {
                        graph::lemma_reach_plus_split(adj, f, f);
                        let b = choose|b: usize|
                            graph::edge(adj, f, b) && #[trigger] graph::reach(adj, b, f);
                        let inside = |x: usize| x >= n || seen@[x as int];
                        assert forall|x: usize, y: usize|
                            inside(x) && #[trigger] graph::edge(adj, x, y) implies inside(y) by {
                            assert(adj[x as int].contains(y));
                        }
                        assert(inside(b));
                        graph::lemma_closed_forward(adj, inside, b, f);
                        assert(false);
                    }
                }
                return false;
            },
            Some(g) => {
                assert(old_stack.last() == g);
                assert(stack@ =~= old_stack.drop_last());
                assert(graph::reach_plus(adj, f, old_stack[old_stack.len() - 1]));
                if g == f {
                    return true;
                }
                if g < n && !seen[g] {
                    proof {
                        graph::lemma_count_flip(seen@, g as int, false);
                    }
                    seen.set(g, true);
                    let succ = &edges[g];
                    let ghost mid = stack@;
                    let mut k: usize = 0;
                    while k < succ.len()
                        invariant
                            adj == graph::views(edges@),
                            g < n == edges.len(),
                            succ@ == adj[g as int],
                            0 <= k <= succ.len(),
                            stack@ == mid + succ@.subrange(0, k as int),
                        decreases succ.len() - k,
                    {
                        stack.push(succ[k]);
                        k += 1;
                    }
                    proof {
                        assert(stack@ =~= mid + adj[g as int]);
                        lemma_plus_is_reach(adj, f, g);
                        assert forall|i: int| 0 <= i < stack.len() implies graph::reach_plus(
                            adj,
                            f,
                            #[trigger] stack@[i],
                        ) by {
                            if i >= mid.len() {
                                assert(stack@[i] == adj[g as int][i - mid.len()]);
                                assert(adj[g as int].contains(stack@[i]));
                                graph::lemma_reach_extend(adj, f, g, stack@[i]);
                            } else {
                                assert(stack@[i] == old_stack[i]);
                            }
                        }
                        assert forall|h: usize| old_stack.contains(h) implies h >= n || seen@[h as int]
                            || stack@.contains(h) by {
                            let i = choose|i: int| 0 <= i < old_stack.len() && old_stack[i] == h;
                            if i < old_stack.len() - 1 {
                                assert(stack@[i] == h);
                            }
                        }
                        assert forall|h: usize| #[trigger] adj[g as int].contains(h) implies stack@.contains(h) by {
                            let i = choose|i: int| 0 <= i < adj[g as int].len() && adj[g as int][i] == h;
                            assert(stack@[mid.len() + i] == h);
                        }
                    }
                } else {
                    proof {
                        assert forall|h: usize| old_stack.contains(h) implies h >= n || seen@[h as int]
                            || stack@.contains(h) by {
                            let i = choose|i: int| 0 <= i < old_stack.len() && old_stack[i] == h;
                            if i < old_stack.len() - 1 {
                                assert(stack@[i] == h);
                            }
                        }
                    }
                }
            },
        }
    }
}

/// One propagation test: `f` stays clean only if callee `g` is a known clean
/// function, and a loopy known callee makes `f` loopy.
pub open spec fn settled(clean: Seq<bool>, loopy: Seq<bool>, f: usize, g: usize) -> bool {
    &&& clean[f as int] ==> (g as int) < clean.len() && clean[g as int]
    &&& (g as int) < loopy.len() && loopy[g as int] ==> loopy[f as int]
}

/// Propagate uncleanness and loopiness callerward until nothing changes: the
/// clean marks end as "everything reachable was clean", the loopy marks as
/// "something reachable was loopy".
fn close_over_callees(edges: &Vec<Vec<usize>>, clean: &mut Vec<bool>, loopy: &mut Vec<bool>)
    requires
        old(clean).len() == edges.len(),
        old(loopy).len() == edges.len(),
    ensures
        final(clean).len() == edges.len(),
        final(loopy).len() == edges.len(),
        forall|f: usize|
            (f as int) < edges.len() ==> #[trigger] final(clean)@[f as int]
                == graph::all_reachable_marked(graph::views(edges@), old(clean)@, f),
        forall|f: usize|
            (f as int) < edges.len() ==> #[trigger] final(loopy)@[f as int]
                == graph::some_reachable_marked(graph::views(edges@), old(loopy)@, f),
{
    let n = edges.len();
    let ghost adj = graph::views(edges@);
    let ghost c0 = clean@;
    let ghost l0 = loopy@;
    assert forall|f: usize| (f as int) < n && !#[trigger] clean@[f as int] implies !graph::all_reachable_marked(adj, c0, f) by {
        graph::lemma_reach_refl(adj, f);
    }
    assert forall|f: usize| (f as int) < n && #[trigger] loopy@[f as int] implies graph::some_reachable_marked(adj, l0, f) by {
        graph::lemma_reach_refl(adj, f);
    }
    loop
        invariant
            c0 == old(clean)@,
            l0 == old(loopy)@,
            n == edges.len(),
            adj == graph::views(edges@),
            clean.len() == n,
            loopy.len() == n,
            c0.len() == n,
            l0.len() == n,
            forall|f: usize|
                (f as int) < n && !#[trigger] clean@[f as int] ==> !graph::all_reachable_marked(
                    adj,
                    c0,
                    f,
                ),
            forall|f: usize| (f as int) < n && #[trigger] clean@[f as int] ==> c0[f as int],
            forall|f: usize|
                (f as int) < n && #[trigger] loopy@[f as int] ==> graph::some_reachable_marked(
                    adj,
                    l0,
                    f,
                ),
            forall|f: usize| (f as int) < n && #[trigger] l0[f as int] ==> loopy@[f as int],
        decreases graph::count(clean@, true) + graph::count(loopy@, false),
    {
        let mut changed = false;
        let ghost cs = clean@;
        let ghost ls = loopy@;
        let mut f: usize = 0;
        while f < n
            invariant
                n == edges.len(),
                adj == graph::views(edges@),
                clean.len() == n,
                loopy.len() == n,
                c0.len() == n,
                l0.len() == n,
                0 <= f <= n,
                forall|f: usize|
                    (f as int) < n && !#[trigger] clean@[f as int] ==> !graph::all_reachable_marked(
                        adj,
                        c0,
                        f,
                    ),
                forall|f: usize| (f as int) < n && #[trigger] clean@[f as int] ==> c0[f as int],
                forall|f: usize|
                    (f as int) < n && #[trigger] loopy@[f as int] ==> graph::some_reachable_marked(
                        adj,
                        l0,
                        f,
                    ),
                forall|f: usize| (f as int) < n && #[trigger] l0[f as int] ==> loopy@[f as int],
                !changed ==> clean@ == cs && loopy@ == ls,
                changed ==> graph::count(clean@, true) + graph::count(loopy@, false) < graph::count(
                    cs,
                    true,
                ) + graph::count(ls, false),
                !changed ==> forall|x: usize, y: usize|
                    (x as int) < f && #[trigger] adj[x as int].contains(y) ==> settled(
                        clean@,
                        loopy@,
                        x,
                        y,
                    ),
            decreases n - f,
        {
            let gs = &edges[f];
            let mut j: usize = 0;
            while j < gs.len()
                invariant
                    n == edges.len(),
                    adj == graph::views(edges@),
                    (f as int) < n,
                    gs@ == adj[f as int],
                    clean.len() == n,
                    loopy.len() == n,
                    c0.len() == n,
                    l0.len() == n,
                    0 <= j <= gs.len(),
                    forall|f: usize|
                        (f as int) < n && !#[trigger] clean@[f as int]
                            ==> !graph::all_reachable_marked(adj, c0, f),
                    forall|f: usize| (f as int) < n && #[trigger] clean@[f as int] ==> c0[f as int],
                    forall|f: usize|
                        (f as int) < n && #[trigger] loopy@[f as int]
                            ==> graph::some_reachable_marked(adj, l0, f),
                    forall|f: usize| (f as int) < n && #[trigger] l0[f as int] ==> loopy@[f as int],
                    !changed ==> clean@ == cs && loopy@ == ls,
                    changed ==> graph::count(clean@, true) + graph::count(loopy@, false)
                        < graph::count(cs, true) + graph::count(ls, false),
                    !changed ==> forall|x: usize, y: usize|
                        (x as int) < f && #[trigger] adj[x as int].contains(y) ==> settled(
                            clean@,
                            loopy@,
                            x,
                            y,
                        ),
                    !changed ==> forall|i: int|
                        0 <= i < j ==> settled(clean@, loopy@, f, #[trigger] gs@[i]),
                decreases gs.len() - j,
            {
                let g = gs[j];
                assert(adj[f as int].contains(g));
                assert(graph::edge(adj, f, g));
                let g_clean = g < n && clean[g];
                if clean[f] && !g_clean {
                    proof {
                        if g < n {
                            assert(!graph::all_reachable_marked(adj, c0, g));
                            let h = choose|h: usize| #[trigger]
                                graph::reach(adj, g, h) && !((h as int) < c0.len() && c0[h as int]);
                            graph::lemma_reach_prepend(adj, f, g, h);
                        } else {
                            graph::lemma_edge_reach(adj, f, g);
                        }
                        graph::lemma_count_flip(clean@, f as int, true);
                    }
                    clean.set(f, false);
                    changed = true;
                }
                let g_loopy = g < n && loopy[g];
                if !loopy[f] && g_loopy {
                    proof {
                        let h = choose|h: usize| #[trigger]
                            graph::reach(adj, g, h) && (h as int) < l0.len() && l0[h as int];
                        graph::lemma_reach_prepend(adj, f, g, h);
                        graph::lemma_count_flip(loopy@, f as int, false);
                    }
                    loopy.set(f, true);
                    changed = true;
                }
                j += 1;
            }
            proof {
                if !changed {
                    assert forall|x: usize, y: usize|
                        (x as int) < f + 1 && #[trigger] adj[x as int].contains(y) implies settled(
                        clean@,
                        loopy@,
                        x,
                        y,
                    ) by {
                        if x == f {
                            let i = choose|i: int| 0 <= i < gs@.len() && gs@[i] == y;
                            assert(settled(clean@, loopy@, f, gs@[i]));
                        }
                    }
                }
            }
            f += 1;
        }
        if !changed {
            proof {
                assert forall|f: usize| (f as int) < n implies #[trigger] clean@[f as int]
                    == graph::all_reachable_marked(adj, c0, f) by {
                    if clean@[f as int] {
                        let cl = clean@;
                        let inside = |x: usize| (x as int) < n && cl[x as int];
                        assert forall|x: usize, y: usize|
                            inside(x) && #[trigger] graph::edge(adj, x, y) implies inside(y) by {
                            assert(settled(clean@, loopy@, x, y));
                        }
                        assert forall|g: usize| #[trigger] graph::reach(adj, f, g) implies (g as int)
                            < c0.len() && c0[g as int] by {
                            graph::lemma_closed_forward(adj, inside, f, g);
                        }
                    }
                }
                assert forall|f: usize| (f as int) < n implies #[trigger] loopy@[f as int]
                    == graph::some_reachable_marked(adj, l0, f) by {
                    if graph::some_reachable_marked(adj, l0, f) {
                        let g = choose|g: usize| #[trigger]
                            graph::reach(adj, f, g) && (g as int) < l0.len() && l0[g as int];
                        let lp = loopy@;
                        let inside = |x: usize| (x as int) < n && lp[x as int];
                        assert forall|x: usize, y: usize|
                            inside(y) && #[trigger] graph::edge(adj, x, y) implies inside(x) by {
                            assert(settled(clean@, loopy@, x, y));
                        }
                        graph::lemma_closed_backward(adj, inside, f, g);
                    }
                }
            }
            return ;
        }
    }
}

// ---------------------------------------------------------------------------
// Laws of the verdicts
// ---------------------------------------------------------------------------

/// A clean function is a function of the IR that is clean on its own.
pub proof fn lemma_clean_is_locally_clean(ir: CategoryIr, f: usize)
    requires
        clean_fn(ir, f),
    ensures
        (f as int) < ir.funcs.len(),
        !locally_unclean(ir, f),
{
    graph::lemma_reach_refl(call_graph(ir), f);
}

/// Everything a clean function calls, or runs as a body, is a clean function.
pub proof fn lemma_clean_callee_clean(ir: CategoryIr, f: usize, g: usize)
    requires
        (f as int) < ir.funcs.len(),
        clean_fn(ir, f),
        callees(ir, f).contains(g),
    ensures
        (g as int) < ir.funcs.len(),
        clean_fn(ir, g),
{
    let adj = call_graph(ir);
    assert(graph::edge(adj, f, g));
    graph::lemma_edge_reach(adj, f, g);
    assert forall|h: usize| #[trigger] graph::reach(adj, g, h) implies (h as int) < ir.funcs.len()
        && !locally_unclean(ir, h) by {
        graph::lemma_reach_prepend(adj, f, g, h);
    }
}

/// A function that calls, or runs as a body, a loopy function is loopy.
pub proof fn lemma_loopy_caller_loopy(ir: CategoryIr, f: usize, g: usize)
    requires
        (f as int) < ir.funcs.len(),
        loopy_fn(ir, g),
        callees(ir, f).contains(g),
    ensures
        loopy_fn(ir, f),
{
    let adj = call_graph(ir);
    assert(graph::edge(adj, f, g));
    let h = choose|h: usize| #[trigger]
        graph::reach(adj, g, h) && (h as int) < ir.funcs.len() && (has_loop(ir, h) || call_cycle(
            ir,
            h,
        ));
    graph::lemma_reach_prepend(adj, f, g, h);
}

/// A function that enters a loop, or lies on a call cycle, is loopy.
pub proof fn lemma_loop_or_cycle_loopy(ir: CategoryIr, f: usize)
    requires
        (f as int) < ir.funcs.len(),
        has_loop(ir, f) || call_cycle(ir, f),
    ensures
        loopy_fn(ir, f),
{
    graph::lemma_reach_refl(call_graph(ir), f);
}

impl FnAttrs {
    pub closed spec fn clean_view(self) -> Seq<bool> {
        self.clean@
    }

    pub closed spec fn loopy_view(self) -> Seq<bool> {
        self.loopy@
    }

    /// These are the verdicts of `ir`'s functions.
    pub open spec fn describes(self, ir: CategoryIr) -> bool {
        &&& self.clean_view().len() == ir.funcs.len()
        &&& self.loopy_view().len() == ir.funcs.len()
        &&& forall|f: usize|
            (f as int) < ir.funcs.len() ==> #[trigger] self.clean_view()[f as int] == clean_fn(ir, f)
        &&& forall|f: usize|
            (f as int) < ir.funcs.len() ==> #[trigger] self.loopy_view()[f as int] == loopy_fn(ir, f)
    }

    /// Analyse every function of `ir`: its own operations first, then call
    /// cycles, then the callerward propagation to a fixpoint.
    pub fn analyze(ir: &CategoryIr) -> (r: FnAttrs)
        requires
            ir.wf(),
        ensures
            r.clean_view().len() == ir.funcs.len(),
            r.loopy_view().len() == ir.funcs.len(),
            forall|f: usize|
                (f as int) < ir.funcs.len() ==> #[trigger] r.clean_view()[f as int] == clean_fn(
                    *ir,
                    f,
                ),
            forall|f: usize|
                (f as int) < ir.funcs.len() ==> #[trigger] r.loopy_view()[f as int] == loopy_fn(
                    *ir,
                    f,
                ),
            r.describes(*ir),
    {
        let n = ir.funcs.len();
        let mut clean: Vec<bool> = Vec::new();
        let mut loopy: Vec<bool> = Vec::new();
        let mut edges: Vec<Vec<usize>> = Vec::new();
        let mut f: usize = 0;
        while f < n
            invariant
                ir.wf(),
                n == ir.funcs.len(),
                0 <= f <= n,
                clean.len() == f,
                loopy.len() == f,
                edges.len() == f,
                forall|g: int| 0 <= g < f ==> #[trigger] clean@[g] == !locally_unclean(*ir, g as usize),
                forall|g: int| 0 <= g < f ==> #[trigger] loopy@[g] == has_loop(*ir, g as usize),
                forall|g: int| 0 <= g < f ==> #[trigger] edges@[g]@ == callees(*ir, g as usize),
            decreases n - f,
        {
            let (unclean, has_loop, callees) = local_facts(ir, f);
            clean.push(!unclean);
            loopy.push(has_loop);
            edges.push(callees);
            f += 1;
        }
        let ghost adj = graph::views(edges@);
        assert(adj =~= call_graph(*ir)) by {
            assert forall|g: int| 0 <= g < n implies #[trigger] adj[g] == call_graph(*ir)[g] by {
                assert(edges@[g]@ == callees(*ir, g as usize));
            }
        }
        let mut f: usize = 0;
        while f < n
            invariant
                n == ir.funcs.len(),
                edges.len() == n,
                loopy.len() == n,
                adj == graph::views(edges@),
                0 <= f <= n,
                forall|g: int|
                    0 <= g < f ==> #[trigger] loopy@[g] == (has_loop(*ir, g as usize)
                        || graph::reach_plus(adj, g as usize, g as usize)),
                forall|g: int| f <= g < n ==> #[trigger] loopy@[g] == has_loop(*ir, g as usize),
            decreases n - f,
        {
            if reaches_self(ir, &edges, f) {
                loopy.set(f, true);
            }
            f += 1;
        }
        let ghost c0 = clean@;
        let ghost l0 = loopy@;
        close_over_callees(&edges, &mut clean, &mut loopy);
        proof {
            assert forall|f: usize| (f as int) < n implies #[trigger] clean@[f as int] == clean_fn(
                *ir,
                f,
            ) by {
                assert(clean@[f as int] == graph::all_reachable_marked(adj, c0, f));
                if clean_fn(*ir, f) {
                    assert forall|g: usize| #[trigger] graph::reach(adj, f, g) implies (g as int)
                        < c0.len() && c0[g as int] by {
                        assert(graph::reach(call_graph(*ir), f, g));
                    }
                }
                if graph::all_reachable_marked(adj, c0, f) {
                    assert forall|g: usize| #[trigger]
                        graph::reach(call_graph(*ir), f, g) implies (g as int) < ir.funcs.len()
                        && !locally_unclean(*ir, g) by {
                        assert(graph::reach(adj, f, g));
                    }
                }
            }
            assert forall|f: usize| (f as int) < n implies #[trigger] loopy@[f as int] == loopy_fn(
                *ir,
                f,
            ) by {
                assert(loopy@[f as int] == graph::some_reachable_marked(adj, l0, f));
                if loopy_fn(*ir, f) {
                    let g = choose|g: usize| #[trigger]
                        graph::reach(call_graph(*ir), f, g) && (g as int) < ir.funcs.len() && (
                        has_loop(*ir, g) || call_cycle(*ir, g));
                    assert(graph::reach(adj, f, g) && l0[g as int]);
                }
                if graph::some_reachable_marked(adj, l0, f) {
                    let g = choose|g: usize| #[trigger]
                        graph::reach(adj, f, g) && (g as int) < l0.len() && l0[g as int];
                    assert(graph::reach(call_graph(*ir), f, g));
                }
            }
        }
        FnAttrs { clean, loopy }
    }

    /// `f` is in the clean set (`false` for unknown ids).
    pub fn clean(&self, f: usize) -> (r: bool)
        ensures
            r == ((f as int) < self.clean_view().len() && self.clean_view()[f as int]),
    {
        if f < self.clean.len() {
            self.clean[f]
        } else {
            false
        }
    }

    /// `f`'s transitive closure can loop or recurse (`true` for unknown ids:
    /// the conservative answer).
    pub fn loopy(&self, f: usize) -> (r: bool)
        ensures
            r == (!((f as int) < self.loopy_view().len()) || self.loopy_view()[f as int]),
    {
        if f < self.loopy.len() {
            self.loopy[f]
        } else {
            true
        }
    }
}

} // verus!
