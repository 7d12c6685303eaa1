//! The dependency-closure resolver.
//!
//! Resolution proceeds in rounds.  The resolver holds the set of packages
//! resolved so far and a frontier of names awaiting metadata.  Each round,
//! the caller queries the metadata provider once for the whole frontier
//! and hands the returned batch to [`build_dependency_tree`], which
//! absorbs the records (first write wins) and computes the next frontier:
//! every substituted dependency name not yet resolved.  Resolution is
//! complete when the frontier is empty.

use crate::config::DtMgrConfig;
use crate::metadata::TlPObjInfo;
use crate::platform::is_windows_platform;
use crate::platform::spec_is_windows_platform;
use crate::strings::ends_with;
use crate::strings::str_ends_with;
use crate::strings::str_eq;
use vstd::prelude::*;
use vstd::string::StrSliceExecFns;
use vstd::string::StringExecFns;

verus! {

/// The literal marker that ends a platform-dependent dependency name.
pub open spec fn arch_suffix() -> Seq<char> {
    seq!['.', 'A', 'R', 'C', 'H']
}

/// A dependency name with the trailing marker replaced by the platform
/// identifier; a name without the trailing marker is kept as declared,
/// even when the marker occurs in its middle.
pub open spec fn spec_substitute_arch(dep: Seq<char>, platform: Seq<char>) -> Seq<char> {
    if ends_with(dep, arch_suffix()) {
        dep.take(dep.len() - 5) + seq!['.'] + platform
    } else {
        dep
    }
}

/// Resolves the platform marker in one declared dependency name.
pub fn substitute_arch(dep: &str, platform: &str) -> (r: String)
    ensures
        r@ == spec_substitute_arch(dep@, platform@),
{
    proof {
        reveal_strlit(".ARCH");
        assert(".ARCH"@ =~= arch_suffix());
    }
    if str_ends_with(dep, ".ARCH") {
        let len = dep.unicode_len();
        let mut r = dep.substring_char(0, len - 5).to_owned();
        r.push('.');
        r.append(platform);
        proof {
            assert(r@ =~= dep@.take(dep@.len() - 5) + seq!['.'] + platform@);
        }
        r
    } else {
        dep.to_owned()
    }
}

/// Pairwise distinct names.
pub open spec fn distinct_names(names: Seq<Seq<char>>) -> bool {
    forall|i: int, j: int| 0 <= i < j < names.len() ==> names[i] != names[j]
}

/// Whether a name occurs in the list.
fn name_list_contains(names: &Vec<String>, name: &str) -> (r: bool)
    ensures
        r == names.deep_view().to_set().contains(name@),
{
    let mut i: usize = 0;
    while i < names.len()
        invariant
            i <= names.len(),
            forall|k: int| 0 <= k < i ==> names.deep_view()[k] != name@,
        decreases names.len() - i,
    {
        if str_eq(names[i].as_str(), name) {
            proof {
                assert(names.deep_view()[i as int] == name@);
                assert(names.deep_view().contains(name@));
            }
            return true;
        }
        i = i + 1;
    }
    proof {
        assert(!names.deep_view().contains(name@));
    }
    false
}

/// Adds a name unless it is already present, keeping the list distinct.
fn name_list_add(names: &mut Vec<String>, name: String)
    requires
        distinct_names(old(names).deep_view()),
    ensures
        distinct_names(final(names).deep_view()),
        final(names).deep_view().to_set() == old(names).deep_view().to_set().insert(
            name@,
        ),
{
    if name_list_contains(names, name.as_str()) {
        proof {
            assert(names.deep_view().to_set() =~= names.deep_view().to_set().insert(
                name@,
            ));
        }
        return;
    }
    let ghost old_view = names.deep_view();
    names.push(name);
    proof {
        let new_view = names.deep_view();
        assert(new_view =~= old_view.push(name@));
        assert(forall|k: int| 0 <= k < old_view.len() ==> new_view[k] == old_view[k]);
        assert(!old_view.contains(name@));
        assert(forall|k: int| 0 <= k < old_view.len() ==> old_view[k] != name@);
        assert(new_view.to_set() =~= old_view.to_set().insert(name@)) by {
            assert forall|e: Seq<char>| new_view.to_set().contains(e) implies
                old_view.to_set().contains(e) || e == name@ by {
                let k = choose|k: int| 0 <= k < new_view.len() && new_view[k] == e;
                if k < old_view.len() {
                    assert(old_view[k] == e);
                }
            }
            assert forall|e: Seq<char>|
                old_view.to_set().contains(e) implies new_view.to_set().contains(e) by {
                let k = choose|k: int| 0 <= k < old_view.len() && old_view[k] == e;
                assert(new_view[k] == e);
            }
            assert(new_view[old_view.len() as int] == name@);
            assert(new_view.contains(name@));
        }
    }
}

/// The names of the given records.
pub open spec fn names_of(records: Seq<TlPObjInfo>) -> Set<Seq<char>>
    decreases records.len(),
{
    if records.len() == 0 {
        Set::empty()
    } else {
        names_of(records.drop_last()).insert(records.last().name@)
    }
}

pub proof fn lemma_names_of_contains(records: Seq<TlPObjInfo>, n: Seq<char>)
    ensures
        names_of(records).contains(n) <==> (exists|i: int|
            0 <= i < records.len() && records[i].name@ == n),
    decreases records.len(),
{
    if records.len() > 0 {
        lemma_names_of_contains(records.drop_last(), n);
        if names_of(records).contains(n) {
            if records.last().name@ == n {
                assert(records[records.len() - 1].name@ == n);
            } else {
                let i = choose|i: int|
                    0 <= i < records.drop_last().len() && records.drop_last()[i].name@
                        == n;
                assert(records[i].name@ == n);
            }
        }
        if exists|i: int| 0 <= i < records.len() && records[i].name@ == n {
            let i = choose|i: int| 0 <= i < records.len() && records[i].name@ == n;
            if i < records.len() - 1 {
                assert(records.drop_last()[i].name@ == n);
            }
        }
    }
}

/// The substituted dependency names declared by one record.
pub open spec fn dep_set_of(deps: Seq<Seq<char>>, platform: Seq<char>) -> Set<Seq<char>>
    decreases deps.len(),
{
    if deps.len() == 0 {
        Set::empty()
    } else {
        dep_set_of(deps.drop_last(), platform).insert(
            spec_substitute_arch(deps.last(), platform),
        )
    }
}

/// Every substituted dependency name declared by any record of the batch.
pub open spec fn batch_dep_union(batch: Seq<TlPObjInfo>, platform: Seq<char>) -> Set<
    Seq<char>,
>
    decreases batch.len(),
{
    if batch.len() == 0 {
        Set::empty()
    } else {
        batch_dep_union(batch.drop_last(), platform).union(
            dep_set_of(batch.last().dep_names(), platform),
        )
    }
}

/// The records a batch adds to a resolved set, in batch order: each
/// record whose name is neither resolved already nor carried by an
/// earlier record of the same batch — the first write for a name wins.
pub open spec fn absorbed_records(batch: Seq<TlPObjInfo>, resolved: Set<Seq<char>>) -> Seq<
    TlPObjInfo,
>
    decreases batch.len(),
{
    if batch.len() == 0 {
        Seq::empty()
    } else {
        let rest = absorbed_records(batch.drop_last(), resolved);
        if resolved.contains(batch.last().name@) || names_of(batch.drop_last()).contains(
            batch.last().name@,
        ) {
            rest
        } else {
            rest.push(batch.last())
        }
    }
}

/// The packages resolved so far, each name present at most once; the
/// record stored for a name is the first one returned for it.
pub struct ResolvedSet {
    items: Vec<TlPObjInfo>,
}

impl ResolvedSet {
    /// The resolved records, in the order they were first returned.
    pub closed spec fn records(&self) -> Seq<TlPObjInfo> {
        self.items@
    }

    /// The set of resolved names.
    pub open spec fn name_set(&self) -> Set<Seq<char>> {
        names_of(self.records())
    }

    /// Each name resolved at most once.
    pub open spec fn wf(&self) -> bool {
        forall|i: int, j: int|
            0 <= i < j < self.records().len() ==> self.records()[i].name@
                != self.records()[j].name@
    }

    /// An empty resolved set.
    pub fn new() -> (r: Self)
        ensures
            r.records() == Seq::<TlPObjInfo>::empty(),
            r.wf(),
    {
        ResolvedSet { items: Vec::new() }
    }

    /// Whether a package of this name has been resolved.
    pub fn contains_name(&self, name: &str) -> (r: bool)
        ensures
            r == self.name_set().contains(name@),
    {
        let mut i: usize = 0;
        while i < self.items.len()
            invariant
                i <= self.items.len(),
                forall|k: int| 0 <= k < i ==> self.items@[k].name@ != name@,
            decreases self.items.len() - i,
        {
            if str_eq(self.items[i].name.as_str(), name) {
                proof {
                    lemma_names_of_contains(self.records(), name@);
                    assert(self.records()[i as int].name@ == name@);
                }
                return true;
            }
            i = i + 1;
        }
        proof {
            lemma_names_of_contains(self.records(), name@);
        }
        false
    }

    /// The resolved records.
    pub fn records_list(&self) -> (r: &Vec<TlPObjInfo>)
        ensures
            r@ == self.records(),
    {
        &self.items
    }

    /// Hands the records over to the caller.
    pub fn into_records(self) -> (r: Vec<TlPObjInfo>)
        ensures
            r@ == self.records(),
    {
        self.items
    }
}

/// One resolution in progress: what is resolved, and what is owed a
/// metadata lookup next.
pub struct DependencyResolution {
    resolved: ResolvedSet,
    frontier: Vec<String>,
    platform: String,
}

/// The baseline seed names, the declared dependencies, and — on the
/// Windows target — its extra infrastructure package.
pub open spec fn spec_seed_names(deps: Seq<Seq<char>>, windows: bool) -> Set<Seq<char>> {
    let base = deps.to_set().insert("texlive.infra"@).insert("kpathsea"@);
    if windows {
        base.insert("tlperl.windows"@)
    } else {
        base
    }
}

impl DependencyResolution {
    /// The resolved set held by this resolution.
    pub closed spec fn resolved_set(&self) -> ResolvedSet {
        self.resolved
    }

    /// The records resolved so far.
    pub open spec fn resolved_records(&self) -> Seq<TlPObjInfo> {
        self.resolved_set().records()
    }

    /// The set of resolved names.
    pub open spec fn name_set(&self) -> Set<Seq<char>> {
        names_of(self.resolved_records())
    }

    /// The names owed a metadata lookup, in order.
    pub closed spec fn frontier_names(&self) -> Seq<Seq<char>> {
        self.frontier.deep_view()
    }

    /// The names owed a metadata lookup.
    pub open spec fn frontier_set(&self) -> Set<Seq<char>> {
        self.frontier_names().to_set()
    }

    /// The platform identifier resolution substitutes for the marker.
    pub closed spec fn platform_name(&self) -> Seq<char> {
        self.platform@
    }

    /// Names are resolved at most once, owed at most once, and never both.
    pub open spec fn wf(&self) -> bool {
        &&& self.resolved_set().wf()
        &&& distinct_names(self.frontier_names())
        &&& self.frontier_set().disjoint(self.name_set())
    }

    /// Starts a resolution from the declared configuration: the frontier
    /// holds the seed names, and nothing is resolved.
    pub fn new(config: &DtMgrConfig, platform: String) -> (r: Self)
        ensures
            r.wf(),
            r.resolved_records() == Seq::<TlPObjInfo>::empty(),
            r.platform_name() == platform@,
            r.frontier_set() == spec_seed_names(
                config.deps(),
                spec_is_windows_platform(platform@),
            ),
    {
        let mut frontier: Vec<String> = Vec::new();
        name_list_add(&mut frontier, String::from_str("texlive.infra"));
        name_list_add(&mut frontier, String::from_str("kpathsea"));
        if is_windows_platform(platform.as_str()) {
            name_list_add(&mut frontier, String::from_str("tlperl.windows"));
        }
        let ghost base_set = frontier.deep_view().to_set();
        let deps = config.dependencies();
        let mut i: usize = 0;
        proof {
            assert(deps.deep_view().take(0).to_set() =~= Set::<Seq<char>>::empty());
            assert(frontier.deep_view().to_set() =~= base_set.union(
                deps.deep_view().take(0).to_set(),
            ));
        }
        while i < deps.len()
            invariant
                i <= deps.len(),
                deps.deep_view() == config.deps(),
                distinct_names(frontier.deep_view()),
                frontier.deep_view().to_set() == base_set.union(
                    deps.deep_view().take(i as int).to_set(),
                ),
            decreases deps.len() - i,
        {
            let ghost prefix = deps.deep_view().take(i as int);
            name_list_add(&mut frontier, deps[i].clone());
            proof {
                let next = deps.deep_view().take(i + 1);
                assert(next.drop_last() =~= prefix);
                assert(next.last() == deps.deep_view()[i as int]);
                assert(next.to_set() =~= prefix.to_set().insert(
                    deps.deep_view()[i as int],
                )) by {
                    assert forall|e: Seq<char>| next.to_set().contains(e) implies
                        prefix.to_set().contains(e) || e == deps.deep_view()[i as int] by {
                        let q = choose|q: int| 0 <= q < next.len() && next[q] == e;
                        if q < i {
                            assert(prefix[q] == e);
                        }
                    }
                    assert forall|e: Seq<char>| prefix.to_set().contains(e) implies
                        next.to_set().contains(e) by {
                        let q = choose|q: int| 0 <= q < prefix.len() && prefix[q] == e;
                        assert(next[q] == e);
                    }
                    assert(next[i as int] == deps.deep_view()[i as int]);
                }
                assert(frontier.deep_view().to_set() =~= base_set.union(
                    next.to_set(),
                ));
            }
            i = i + 1;
        }
        proof {
            assert(deps.deep_view().take(deps.len() as int) =~= deps.deep_view());
            assert(base_set.union(config.deps().to_set()) =~= spec_seed_names(
                config.deps(),
                spec_is_windows_platform(platform@),
            ));
        }
        DependencyResolution { resolved: ResolvedSet::new(), frontier, platform }
    }

    /// The names to hand to the next batched metadata query.
    pub fn frontier(&self) -> (r: &Vec<String>)
        ensures
            r.deep_view() == self.frontier_names(),
    {
        &self.frontier
    }

    /// True when nothing is owed a lookup any more.
    pub fn is_complete(&self) -> (r: bool)
        ensures
            r == (self.frontier_names().len() == 0),
    {
        self.frontier.len() == 0
    }

    /// Hands over the resolved set once resolution is complete.
    pub fn into_resolved(self) -> (r: ResolvedSet)
        ensures
            r.records() == self.resolved_records(),
    {
        self.resolved
    }
}

/// Absorbs one batch of metadata records into the resolution: every record
/// of a not-yet-resolved name is kept (first write wins), and the next
/// frontier becomes exactly the substituted dependency names of the batch
/// that remain unresolved.
pub fn build_dependency_tree(resolution: &mut DependencyResolution, batch: Vec<TlPObjInfo>)
    requires
        old(resolution).wf(),
    ensures
        final(resolution).wf(),
        final(resolution).platform_name() == old(resolution).platform_name(),
        final(resolution).resolved_records() == old(resolution).resolved_records()
            + absorbed_records(batch@, old(resolution).name_set()),
        final(resolution).name_set() == old(resolution).name_set().union(names_of(batch@)),
        final(resolution).frontier_set() == batch_dep_union(
            batch@,
            old(resolution).platform_name(),
        ).difference(final(resolution).name_set()),
{
    let ghost all = batch@;
    let ghost platform_view = resolution.platform@;

    // Every substituted dependency name any record of the batch declares.
    let mut candidates: Vec<String> = Vec::new();
    let mut i: usize = 0;
    proof {
        assert(batch_dep_union(all.take(0), platform_view) =~= Set::<Seq<char>>::empty());
        assert(candidates.deep_view().to_set() =~= batch_dep_union(
            all.take(0),
            platform_view,
        ));
    }
    while i < batch.len()
        invariant
            i <= batch.len(),
            batch@ == all,
            platform_view == resolution.platform@,
            distinct_names(candidates.deep_view()),
            candidates.deep_view().to_set() == batch_dep_union(
                all.take(i as int),
                platform_view,
            ),
        decreases batch.len() - i,
    {
        let ghost before = batch_dep_union(all.take(i as int), platform_view);
        match &batch[i].depends {
            None => {
                proof {
                    assert(all.take(i + 1).drop_last() =~= all.take(i as int));
                    assert(all.take(i + 1).last() == all[i as int]);
                    assert(all[i as int].dep_names() == Seq::<Seq<char>>::empty());
                    assert(dep_set_of(all[i as int].dep_names(), platform_view)
                        =~= Set::<Seq<char>>::empty());
                    assert(candidates.deep_view().to_set() =~= batch_dep_union(
                        all.take(i + 1),
                        platform_view,
                    ));
                }
            },
            Some(deps) => {
                let mut j: usize = 0;
                proof {
                    assert(all[i as int].depends is Some);
                    assert(all[i as int].dep_names() == deps.deep_view());
                    assert(dep_set_of(deps.deep_view().take(0), platform_view)
                        =~= Set::<Seq<char>>::empty());
                    assert(candidates.deep_view().to_set() =~= before.union(
                        dep_set_of(deps.deep_view().take(0), platform_view),
                    ));
                }
                while j < deps.len()
                    invariant
                        j <= deps.len(),
                        i < all.len(),
                        platform_view == resolution.platform@,
                        all[i as int].depends is Some,
                        all[i as int].depends->0 == *deps,
                        before == batch_dep_union(all.take(i as int), platform_view),
                        distinct_names(candidates.deep_view()),
                        candidates.deep_view().to_set() == before.union(
                            dep_set_of(deps.deep_view().take(j as int), platform_view),
                        ),
                    decreases deps.len() - j,
                {
                    let ghost dep_prefix = deps.deep_view().take(j as int);
                    let substituted = substitute_arch(
                        deps[j].as_str(),
                        resolution.platform.as_str(),
                    );
                    proof {
                        assert(deps.deep_view().take(j + 1).drop_last() =~= dep_prefix);
                        assert(deps.deep_view().take(j + 1).last() == deps.deep_view()[
                            j as int
                        ]);
                        assert(dep_set_of(deps.deep_view().take(j + 1), platform_view)
                            == dep_set_of(dep_prefix, platform_view).insert(
                            spec_substitute_arch(
                                deps.deep_view()[j as int],
                                platform_view,
                            ),
                        ));
                    }
                    name_list_add(&mut candidates, substituted);
                    proof {
                        assert(candidates.deep_view().to_set() =~= before.union(
                            dep_set_of(
                                deps.deep_view().take(j + 1),
                                platform_view,
                            ),
                        ));
                    }
                    j = j + 1;
                }
                proof {
                    assert(deps.deep_view().take(deps.len() as int) =~= deps.deep_view());
                    assert(all.take(i + 1).drop_last() =~= all.take(i as int));
                    assert(all.take(i + 1).last() == all[i as int]);
                    assert(all[i as int].dep_names() == deps.deep_view());
                    assert(candidates.deep_view().to_set() =~= batch_dep_union(
                        all.take(i + 1),
                        platform_view,
                    ));
                }
            },
        }
        i = i + 1;
    }
    proof {
        assert(all.take(all.len() as int) =~= all);
    }

    // Absorb the records, first write wins.
    let ghost old_records = resolution.resolved.records();
    let ghost old_names = names_of(old_records);
    let mut batch = batch;
    proof {
        assert(names_of(all.take(0)) =~= Set::<Seq<char>>::empty());
        assert(names_of(resolution.resolved.records()) =~= old_names.union(
            names_of(all.take(0)),
        ));
        assert(absorbed_records(all.take(0), old_names) =~= Seq::<TlPObjInfo>::empty());
        assert(resolution.resolved.records() =~= old_records + absorbed_records(
            all.take(0),
            old_names,
        ));
    }
    let ghost mut k: int = 0;
    while batch.len() > 0
        invariant
            0 <= k <= all.len(),
            batch@ == all.skip(k),
            platform_view == resolution.platform@,
            resolution.resolved.wf(),
            resolution.resolved.records() == old_records + absorbed_records(
                all.take(k),
                old_names,
            ),
            names_of(resolution.resolved.records()) == old_names.union(
                names_of(all.take(k)),
            ),
        decreases batch.len(),
    {
        let rec = batch.remove(0);
        proof {
            assert(all.skip(k)[0] == all[k]);
            assert(all.skip(k).remove(0) =~= all.skip(k + 1));
            assert(all.take(k + 1).drop_last() =~= all.take(k));
            assert(all.take(k + 1).last() == all[k]);
        }
        let ghost cur_records = resolution.resolved.records();
        if !resolution.resolved.contains_name(rec.name.as_str()) {
            proof {
                assert(all.contains(all[k]));
            }
            resolution.resolved.items.push(rec);
            proof {
                let new_records = resolution.resolved.records();
                assert(new_records =~= cur_records.push(all[k]));
                assert(new_records.drop_last() =~= cur_records);
                assert(new_records.last() == all[k]);
                assert(names_of(new_records) == names_of(cur_records).insert(
                    all[k].name@,
                ));
                assert(names_of(new_records) =~= old_names.union(
                    names_of(all.take(k + 1)),
                ));
                assert(!old_names.contains(all[k].name@));
                assert(!names_of(all.take(k)).contains(all[k].name@));
                assert(absorbed_records(all.take(k + 1), old_names) == absorbed_records(
                    all.take(k),
                    old_names,
                ).push(all[k]));
                assert(new_records =~= old_records + absorbed_records(
                    all.take(k + 1),
                    old_names,
                ));
                lemma_names_of_contains(cur_records, all[k].name@);
                assert(forall|q: int|
                    0 <= q < cur_records.len() ==> new_records[q] == cur_records[q]);
                assert(forall|q: int|
                    0 <= q < cur_records.len() ==> new_records[q].name@ != all[
                        k
                    ].name@);
            }
        } else {
            proof {
                assert(names_of(cur_records).contains(all[k].name@));
                assert(names_of(cur_records) =~= old_names.union(
                    names_of(all.take(k + 1)),
                ));
                assert(old_names.contains(all[k].name@) || names_of(
                    all.take(k),
                ).contains(all[k].name@));
                assert(absorbed_records(all.take(k + 1), old_names) == absorbed_records(
                    all.take(k),
                    old_names,
                ));
            }
        }
        proof {
            k = k + 1;
        }
    }
    proof {
        assert(all.skip(k).len() == 0);
        assert(k == all.len());
        assert(all.take(k) =~= all);
    }

    // The next frontier: candidate names that remain unresolved.
    let ghost final_names = names_of(resolution.resolved.records());
    let ghost cand_set = candidates.deep_view().to_set();
    let mut new_frontier: Vec<String> = Vec::new();
    let mut candidates = candidates;
    let ghost cand_all = candidates.deep_view();
    let ghost mut c: int = 0;
    proof {
        assert(cand_all.take(0).to_set() =~= Set::<Seq<char>>::empty());
        assert(new_frontier.deep_view().to_set() =~= cand_all.take(
            0,
        ).to_set().difference(final_names));
    }
    while candidates.len() > 0
        invariant
            0 <= c <= cand_all.len(),
            candidates.deep_view() == cand_all.skip(c),
            platform_view == resolution.platform@,
            final_names == names_of(resolution.resolved.records()),
            resolution.resolved.wf(),
            resolution.resolved.records() == old_records + absorbed_records(
                all,
                old_names,
            ),
            distinct_names(new_frontier.deep_view()),
            new_frontier.deep_view().to_set() == cand_all.take(c).to_set().difference(final_names),
        decreases candidates.len(),
    {
        proof {
            assert(candidates.deep_view().len() == candidates@.len());
            assert(c < cand_all.len());
        }
        let cand = candidates.remove(0);
        proof {
            assert(cand_all.skip(c)[0] == cand_all[c]);
            assert(cand_all.skip(c).remove(0) =~= cand_all.skip(c + 1));
            assert(candidates.deep_view() =~= cand_all.skip(c + 1));
        }
        if !resolution.resolved.contains_name(cand.as_str()) {
            name_list_add(&mut new_frontier, cand);
        }
        proof {
            let next = cand_all.take(c + 1);
            assert(next.drop_last() =~= cand_all.take(c));
            assert(next.last() == cand_all[c]);
            assert(next.to_set() =~= cand_all.take(c).to_set().insert(
                cand_all[c],
            )) by {
                assert forall|e: Seq<char>| next.to_set().contains(e) implies
                    cand_all.take(c).to_set().contains(e) || e == cand_all[
                    c
                ] by {
                    let q = choose|q: int| 0 <= q < next.len() && next[q] == e;
                    if q < c {
                        assert(cand_all.take(c)[q] == e);
                    }
                }
                assert forall|e: Seq<char>|
                    cand_all.take(c).to_set().contains(e) implies next.to_set().contains(
                    e,
                ) by {
                    let q = choose|q: int|
                        0 <= q < cand_all.take(c).len() && cand_all.take(c)[q]
                            == e;
                    assert(next[q] == e);
                }
                assert(next[c] == cand_all[c]);
            }
            assert(new_frontier.deep_view().to_set() =~= next.to_set().difference(
                final_names,
            ));
        }
        proof {
            c = c + 1;
        }
    }
    proof {
        assert(cand_all.skip(c).len() == 0);
        assert(c == cand_all.len());
        assert(cand_all.take(c) =~= cand_all);
    }
    resolution.frontier = new_frontier;
    proof {
        assert(resolution.frontier_set() =~= cand_set.difference(final_names));
        assert(resolution.frontier_set().disjoint(resolution.name_set()));
    }
}

} // verus!
