//! The guard plan as the emitter keeps it: which morphisms only one arm of a
//! gated conditional needs, and each gated conditional at its `Phi`.
use vstd::prelude::*;
use crate::ir::GuardSite;

verus! {

/// Among the first `k` sites of a guard plan, a gated one needs morphism `m`
/// in one arm only.
pub open spec fn gated_by(plan: Seq<GuardSite>, m: usize, k: int) -> bool {
    exists|i: int| 0 <= i < k && #[trigger] plan[i].gated && (plan[i].on_true@.contains(m) || plan[i].on_false@.contains(m))
}

/// The last gated site among the first `k` whose `Phi` is `p`.
pub open spec fn site_at(plan: Seq<GuardSite>, p: usize, k: int) -> Option<GuardSite>
    decreases k,
{
    if k <= 0 {
        None
    } else if plan[k - 1].gated && plan[k - 1].phi == p {
        Some(plan[k - 1])
    } else {
        site_at(plan, p, k - 1)
    }
}

/// The gated morphisms and the gated sites by `Phi`, over `n` morphisms.
pub(crate) fn gate_plan(plan: Vec<GuardSite>, n: usize) -> (r: (Vec<bool>, Vec<Option<GuardSite>>))
    ensures
        r.0@.len() == n,
        forall|m: int| 0 <= m < n ==> #[trigger] r.0@[m] == gated_by(plan@, m as usize, plan@.len() as int),
        r.1@.len() == n,
        forall|p: int| 0 <= p < n ==> #[trigger] r.1@[p] == site_at(plan@, p as usize, plan@.len() as int),
{
    let ghost sites = plan@;
    let mut gated: Vec<bool> = Vec::new();
    let mut at: Vec<Option<GuardSite>> = Vec::new();
    while gated.len() < n
        invariant
            gated@.len() == at@.len(),
            gated@.len() <= n,
            forall|m: int| 0 <= m < gated@.len() ==> !#[trigger] gated@[m],
            forall|m: int| 0 <= m < at@.len() ==> #[trigger] at@[m] is None,
        decreases n - gated@.len(),
    {
        gated.push(false);
        at.push(None);
        assert(at@[at@.len() - 1] is None);
    }
    let mut plan = plan;
    let mut k: usize = 0;
    assert(sites.len() == plan.len());
    while plan.len() > 0
        invariant
            sites.len() <= usize::MAX,
            plan@ == sites.subrange(k as int, sites.len() as int),
            k <= sites.len(),
            gated@.len() == n,
            at@.len() == n,
            forall|m: int| 0 <= m < n ==> #[trigger] gated@[m] == gated_by(sites, m as usize, k as int),
            forall|p: int| 0 <= p < n ==> #[trigger] at@[p] == site_at(sites, p as usize, k as int),
        decreases plan.len(),
    {
        let ghost before = plan@;
        let site = plan.remove(0);
        assert(site == sites[k as int]) by {
            assert(before[0] == sites[k as int]);
        }
        assert(plan@ =~= sites.subrange(k + 1, sites.len() as int));
        if site.gated {
            let mut j: usize = 0;
            while j < site.on_true.len()
                invariant
                    gated@.len() == n,
                    site == sites[k as int],
                    site.gated,
                    forall|m: int| 0 <= m < n ==> #[trigger] gated@[m] == (gated_by(sites, m as usize, k as int)
                        || site.on_true@.subrange(0, j as int).contains(m as usize)),
                    0 <= j <= site.on_true.len(),
                decreases site.on_true.len() - j,
            {
                let m = site.on_true[j];
                if m < n {
                    gated.set(m, true);
                }
                assert forall|x: int| 0 <= x < n implies #[trigger] gated@[x] == (gated_by(sites, x as usize, k as int)
                    || site.on_true@.subrange(0, j + 1).contains(x as usize)) by {
                    let pre = site.on_true@.subrange(0, j as int);
                    let post = site.on_true@.subrange(0, j + 1);
                    assert(post =~= pre.push(m));
                    if pre.contains(x as usize) {
                        let q = choose|q: int| 0 <= q < pre.len() && pre[q] == x as usize;
                        assert(post[q] == x as usize);
                    }
                    if post.contains(x as usize) && x as usize != m {
                        let q = choose|q: int| 0 <= q < post.len() && post[q] == x as usize;
                        assert(pre[q] == x as usize);
                    }
                    if x as usize == m {
                        assert(post[j as int] == m);
                    }
                }
                j += 1;
            }
            assert(site.on_true@.subrange(0, site.on_true@.len() as int) =~= site.on_true@);
            let mut j: usize = 0;
            while j < site.on_false.len()
                invariant
                    gated@.len() == n,
                    site == sites[k as int],
                    site.gated,
                    forall|m: int| 0 <= m < n ==> #[trigger] gated@[m] == (gated_by(sites, m as usize, k as int)
                        || site.on_true@.contains(m as usize) || site.on_false@.subrange(0, j as int).contains(m as usize)),
                    0 <= j <= site.on_false.len(),
                decreases site.on_false.len() - j,
            {
                let m = site.on_false[j];
                if m < n {
                    gated.set(m, true);
                }
                assert forall|x: int| 0 <= x < n implies #[trigger] gated@[x] == (gated_by(sites, x as usize, k as int)
                    || site.on_true@.contains(x as usize) || site.on_false@.subrange(0, j + 1).contains(x as usize)) by {
                    let pre = site.on_false@.subrange(0, j as int);
                    let post = site.on_false@.subrange(0, j + 1);
                    assert(post =~= pre.push(m));
                    if pre.contains(x as usize) {
                        let q = choose|q: int| 0 <= q < pre.len() && pre[q] == x as usize;
                        assert(post[q] == x as usize);
                    }
                    if post.contains(x as usize) && x as usize != m {
                        let q = choose|q: int| 0 <= q < post.len() && post[q] == x as usize;
                        assert(pre[q] == x as usize);
                    }
                    if x as usize == m {
                        assert(post[j as int] == m);
                    }
                }
                j += 1;
            }
            proof {
                assert(site.on_false@.subrange(0, site.on_false@.len() as int) =~= site.on_false@);
                assert forall|x: int| 0 <= x < n implies #[trigger] gated@[x] == gated_by(sites, x as usize, k + 1) by {
                    if gated_by(sites, x as usize, k + 1) && !gated_by(sites, x as usize, k as int) {
                        let i = choose|i: int| 0 <= i < k + 1 && #[trigger] sites[i].gated && (sites[i].on_true@.contains(x as usize) || sites[i].on_false@.contains(x as usize));
                        assert(i == k);
                    }
                    if site.on_true@.contains(x as usize) || site.on_false@.contains(x as usize) {
                        assert(sites[k as int].gated);
                    }
                }
            }
            let p = site.phi;
            if p < n {
                at.set(p, Some(site));
            } else {
                proof {
                    assert forall|q: int| 0 <= q < n implies #[trigger] at@[q] == site_at(sites, q as usize, k + 1) by {}
                }
            }
        } else {
            proof {
                assert forall|x: int| 0 <= x < n implies #[trigger] gated@[x] == gated_by(sites, x as usize, k + 1) by {
                    if gated_by(sites, x as usize, k + 1) && !gated_by(sites, x as usize, k as int) {
                        let i = choose|i: int| 0 <= i < k + 1 && #[trigger] sites[i].gated && (sites[i].on_true@.contains(x as usize) || sites[i].on_false@.contains(x as usize));
                        assert(i == k);
                    }
                }
            }
        }
        k += 1;
    }
    (gated, at)
}


} // verus!
