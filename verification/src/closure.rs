//! What resolution computes: the transitive closure of the seed names
//! over the dependency graph the metadata provider answers from.
//!
//! The provider is modelled as a map from a package name to the set of
//! substituted dependency names its record declares.  A batch answer is
//! *faithful* to that graph when it holds one record per queried name and
//! each record's substituted dependencies agree with the graph.  The laws
//! below show that resolution, driven round by round on faithful answers,
//! maintains its invariant, strictly shrinks the unresolved remainder
//! (so it terminates, cycles included), and on an empty frontier has
//! resolved exactly the reachable names, each exactly once.

use crate::resolver::batch_dep_union;
use crate::resolver::dep_set_of;
use crate::resolver::names_of;
use crate::resolver::DependencyResolution;
use crate::metadata::TlPObjInfo;
use vstd::prelude::*;
use vstd::set_lib::lemma_len_subset;

verus! {

/// The dependency names the graph gives a package; none for a name the
/// provider does not know.
pub open spec fn succs(g: Map<Seq<char>, Set<Seq<char>>>, n: Seq<char>) -> Set<Seq<char>> {
    if g.dom().contains(n) {
        g[n]
    } else {
        Set::empty()
    }
}

/// Every dependency of any name in `from`.
pub open spec fn step_set(g: Map<Seq<char>, Set<Seq<char>>>, from: Set<Seq<char>>) -> Set<
    Seq<char>,
> {
    Set::new(
        |d: Seq<char>|
            exists|n: Seq<char>| #[trigger] succs(g, n).contains(d) && from.contains(n),
    )
}

/// The names reachable from the seeds in at most `k` steps.
pub open spec fn reach_n(
    g: Map<Seq<char>, Set<Seq<char>>>,
    seeds: Set<Seq<char>>,
    k: nat,
) -> Set<Seq<char>>
    decreases k,
{
    if k == 0 {
        seeds
    } else {
        let prev = reach_n(g, seeds, (k - 1) as nat);
        prev.union(step_set(g, prev))
    }
}

/// The transitive closure: every name reachable from the seeds.
pub open spec fn reachable(
    g: Map<Seq<char>, Set<Seq<char>>>,
    seeds: Set<Seq<char>>,
) -> Set<Seq<char>> {
    Set::new(|x: Seq<char>| exists|k: nat| #[trigger] reach_n(g, seeds, k).contains(x))
}

pub proof fn lemma_seeds_reachable(g: Map<Seq<char>, Set<Seq<char>>>, seeds: Set<Seq<char>>)
    ensures
        seeds.subset_of(reachable(g, seeds)),
{
    assert forall|x: Seq<char>| seeds.contains(x) implies reachable(g, seeds).contains(
        x,
    ) by {
        assert(reach_n(g, seeds, 0).contains(x));
    }
}

pub proof fn lemma_reachable_closed(
    g: Map<Seq<char>, Set<Seq<char>>>,
    seeds: Set<Seq<char>>,
    n: Seq<char>,
    d: Seq<char>,
)
    requires
        reachable(g, seeds).contains(n),
        succs(g, n).contains(d),
    ensures
        reachable(g, seeds).contains(d),
{
    let k = choose|k: nat| reach_n(g, seeds, k).contains(n);
    assert(step_set(g, reach_n(g, seeds, k)).contains(d));
    assert(reach_n(g, seeds, k + 1).contains(d));
}

proof fn lemma_reach_n_in_closed(
    g: Map<Seq<char>, Set<Seq<char>>>,
    seeds: Set<Seq<char>>,
    t: Set<Seq<char>>,
    k: nat,
)
    requires
        seeds.subset_of(t),
        forall|n: Seq<char>| #[trigger] t.contains(n) ==> succs(g, n).subset_of(t),
    ensures
        reach_n(g, seeds, k).subset_of(t),
    decreases k,
{
    if k > 0 {
        let prev = reach_n(g, seeds, (k - 1) as nat);
        lemma_reach_n_in_closed(g, seeds, t, (k - 1) as nat);
        assert forall|d: Seq<char>| step_set(g, prev).contains(d) implies t.contains(d) by {
            let n = choose|n: Seq<char>|
                #[trigger] succs(g, n).contains(d) && prev.contains(n);
            assert(t.contains(n));
            assert(succs(g, n).subset_of(t));
        }
    }
}

/// The closure is the least set that holds the seeds and is closed under
/// dependencies.
pub proof fn lemma_reachable_least(
    g: Map<Seq<char>, Set<Seq<char>>>,
    seeds: Set<Seq<char>>,
    t: Set<Seq<char>>,
)
    requires
        seeds.subset_of(t),
        forall|n: Seq<char>| #[trigger] t.contains(n) ==> succs(g, n).subset_of(t),
    ensures
        reachable(g, seeds).subset_of(t),
{
    assert forall|x: Seq<char>| reachable(g, seeds).contains(x) implies t.contains(x) by {
        let k = choose|k: nat| reach_n(g, seeds, k).contains(x);
        lemma_reach_n_in_closed(g, seeds, t, k);
    }
}

/// What holds of a resolution throughout its run against graph `g` from
/// seed set `seeds`: nothing is duplicated, everything recorded or owed
/// is reachable, the seeds are accounted for, and every dependency of a
/// resolved package is recorded or owed in turn.
pub open spec fn resolution_invariant(
    state: DependencyResolution,
    g: Map<Seq<char>, Set<Seq<char>>>,
    seeds: Set<Seq<char>>,
) -> bool {
    &&& state.wf()
    &&& seeds.subset_of(state.name_set().union(state.frontier_set()))
    &&& state.name_set().union(state.frontier_set()).subset_of(reachable(g, seeds))
    &&& forall|n: Seq<char>|
        #[trigger] state.name_set().contains(n) ==> succs(g, n).subset_of(
            state.name_set().union(state.frontier_set()),
        )
}

/// A batch answer that is faithful to `g` for the queried frontier: one
/// record for each queried name and no other, each declaring, after
/// substitution, exactly the dependencies `g` gives its name.
pub open spec fn batch_faithful(
    batch: Seq<TlPObjInfo>,
    g: Map<Seq<char>, Set<Seq<char>>>,
    frontier: Set<Seq<char>>,
    platform: Seq<char>,
) -> bool {
    &&& names_of(batch) == frontier
    &&& forall|i: int|
        0 <= i < batch.len() ==> dep_set_of(
            #[trigger] batch[i].dep_names(),
            platform,
        ) == succs(g, batch[i].name@)
}

/// Under a faithful answer, the batch's substituted dependencies are
/// exactly one dependency step from the batch's names.
proof fn lemma_batch_dep_union_is_step(
    batch: Seq<TlPObjInfo>,
    g: Map<Seq<char>, Set<Seq<char>>>,
    platform: Seq<char>,
)
    requires
        forall|i: int|
            0 <= i < batch.len() ==> dep_set_of(
                #[trigger] batch[i].dep_names(),
                platform,
            ) == succs(g, batch[i].name@),
    ensures
        batch_dep_union(batch, platform) == step_set(g, names_of(batch)),
    decreases batch.len(),
{
    if batch.len() == 0 {
        assert(batch_dep_union(batch, platform) =~= step_set(g, names_of(batch))) by {
            assert forall|d: Seq<char>|
                step_set(g, names_of(batch)).contains(d) implies false by {
                let n = choose|n: Seq<char>|
                    #[trigger] succs(g, n).contains(d) && names_of(batch).contains(n);
            }
        }
    } else {
        let prefix = batch.drop_last();
        let last = batch.last();
        assert(forall|i: int|
            0 <= i < prefix.len() ==> prefix[i] == #[trigger] batch[i]);
        lemma_batch_dep_union_is_step(prefix, g, platform);
        assert(batch[batch.len() - 1] == last);
        assert(dep_set_of(last.dep_names(), platform) == succs(g, last.name@));
        assert(batch_dep_union(batch, platform) =~= step_set(g, names_of(batch))) by {
            assert forall|d: Seq<char>|
                batch_dep_union(batch, platform).contains(d) implies step_set(
                g,
                names_of(batch),
            ).contains(d) by {
                if batch_dep_union(prefix, platform).contains(d) {
                    let n = choose|n: Seq<char>|
                        #[trigger] succs(g, n).contains(d) && names_of(prefix).contains(
                            n,
                        );
                    assert(names_of(batch).contains(n));
                } else {
                    assert(succs(g, last.name@).contains(d));
                    assert(names_of(batch).contains(last.name@));
                }
            }
            assert forall|d: Seq<char>|
                step_set(g, names_of(batch)).contains(d) implies batch_dep_union(
                batch,
                platform,
            ).contains(d) by {
                let n = choose|n: Seq<char>|
                    #[trigger] succs(g, n).contains(d) && names_of(batch).contains(n);
                if names_of(prefix).contains(n) {
                    assert(step_set(g, names_of(prefix)).contains(d));
                } else {
                    assert(n == last.name@);
                    assert(dep_set_of(last.dep_names(), platform).contains(d));
                }
            }
        }
    }
}

/// Law: a fresh resolution satisfies the invariant, for any graph, with
/// its initial frontier as the seed set.
pub proof fn lemma_resolution_initial(
    state: DependencyResolution,
    g: Map<Seq<char>, Set<Seq<char>>>,
)
    requires
        state.wf(),
        state.resolved_records() == Seq::<TlPObjInfo>::empty(),
    ensures
        resolution_invariant(state, g, state.frontier_set()),
{
    let seeds = state.frontier_set();
    assert(state.name_set() =~= Set::<Seq<char>>::empty());
    lemma_seeds_reachable(g, seeds);
    assert(seeds.subset_of(state.name_set().union(state.frontier_set())));
    assert(state.name_set().union(state.frontier_set()).subset_of(reachable(g, seeds)));
}

/// Law: absorbing a faithful batch for the current frontier preserves the
/// invariant.  The hypotheses on `post` are exactly what
/// `build_dependency_tree` ensures.
pub proof fn lemma_resolution_step(
    pre: DependencyResolution,
    post: DependencyResolution,
    batch: Seq<TlPObjInfo>,
    g: Map<Seq<char>, Set<Seq<char>>>,
    seeds: Set<Seq<char>>,
)
    requires
        resolution_invariant(pre, g, seeds),
        batch_faithful(batch, g, pre.frontier_set(), pre.platform_name()),
        post.wf(),
        post.name_set() == pre.name_set().union(names_of(batch)),
        post.frontier_set() == batch_dep_union(batch, pre.platform_name()).difference(
            post.name_set(),
        ),
    ensures
        resolution_invariant(post, g, seeds),
{
    let r = pre.name_set();
    let f = pre.frontier_set();
    let r2 = post.name_set();
    let f2 = post.frontier_set();
    lemma_batch_dep_union_is_step(batch, g, pre.platform_name());
    assert(r2 == r.union(f));
    assert(f2 == step_set(g, f).difference(r2));
    assert(seeds.subset_of(r2.union(f2)));
    assert forall|d: Seq<char>| r2.union(f2).contains(d) implies reachable(
        g,
        seeds,
    ).contains(d) by {
        if r2.contains(d) {
            assert(r.union(f).contains(d));
        } else {
            assert(step_set(g, f).contains(d));
            let n = choose|n: Seq<char>|
                #[trigger] succs(g, n).contains(d) && f.contains(n);
            assert(reachable(g, seeds).contains(n));
            lemma_reachable_closed(g, seeds, n, d);
        }
    }
    assert forall|n: Seq<char>| #[trigger] r2.contains(n) implies succs(g, n).subset_of(
        r2.union(f2),
    ) by {
        if r.contains(n) {
            assert(succs(g, n).subset_of(r.union(f)));
            assert(r.union(f).subset_of(r2));
        } else {
            assert(f.contains(n));
            assert forall|d: Seq<char>| succs(g, n).contains(d) implies r2.union(
                f2,
            ).contains(d) by {
                assert(step_set(g, f).contains(d));
            }
        }
    }
}

/// Law: when the frontier is empty, the resolved names are exactly the
/// names reachable from the seeds — the full transitive closure, each
/// name resolved exactly once (`wf`), on cyclic graphs as well as acyclic
/// ones, since nothing here assumes acyclicity.
pub proof fn lemma_resolution_complete(
    state: DependencyResolution,
    g: Map<Seq<char>, Set<Seq<char>>>,
    seeds: Set<Seq<char>>,
)
    requires
        resolution_invariant(state, g, seeds),
        state.frontier_names().len() == 0,
    ensures
        state.name_set() == reachable(g, seeds),
{
    let r = state.name_set();
    assert(state.frontier_set() =~= Set::<Seq<char>>::empty());
    assert(r.union(state.frontier_set()) =~= r);
    assert(seeds.subset_of(r));
    assert(forall|n: Seq<char>| #[trigger] r.contains(n) ==> succs(g, n).subset_of(r));
    lemma_reachable_least(g, seeds, r);
    assert(r =~= reachable(g, seeds));
}

/// Law: every round on a non-empty frontier strictly shrinks the set of
/// reachable names not yet resolved, so a resolution over a finite
/// namespace ends after at most as many rounds as there are reachable
/// names — it terminates on every graph, cyclic ones included.
pub proof fn lemma_resolution_progress(
    pre: DependencyResolution,
    post: DependencyResolution,
    batch: Seq<TlPObjInfo>,
    g: Map<Seq<char>, Set<Seq<char>>>,
    seeds: Set<Seq<char>>,
)
    requires
        resolution_invariant(pre, g, seeds),
        batch_faithful(batch, g, pre.frontier_set(), pre.platform_name()),
        pre.frontier_names().len() > 0,
        reachable(g, seeds).finite(),
        post.name_set() == pre.name_set().union(names_of(batch)),
    ensures
        reachable(g, seeds).difference(post.name_set()).len() < reachable(
            g,
            seeds,
        ).difference(pre.name_set()).len(),
{
    let r = pre.name_set();
    let r2 = post.name_set();
    let f = pre.frontier_set();
    let witness = pre.frontier_names()[0];
    assert(pre.frontier_names().contains(witness));
    assert(f.contains(witness));
    assert(!r.contains(witness));
    assert(r2 == r.union(f));
    let d1 = reachable(g, seeds).difference(r);
    let d2 = reachable(g, seeds).difference(r2);
    assert(reachable(g, seeds).contains(witness));
    assert(d1.contains(witness));
    assert(!d2.contains(witness));
    assert(d1.subset_of(reachable(g, seeds)));
    lemma_len_subset(d1, reachable(g, seeds));
    assert(d2.subset_of(d1.remove(witness)));
    lemma_len_subset(d2, d1.remove(witness));
    assert(d1.remove(witness).len() == d1.len() - 1);
}

} // verus!
