//! The declared configuration: the set of package names a project depends
//! on, held in one canonical (sorted, duplicate-free) form.

use crate::order::canonical_names;
use crate::order::lemma_sorted_unique_seqs_equal;
use crate::order::sorted_unique;
use vstd::prelude::*;

verus! {

/// A project's declared dependency set.
pub struct DtMgrConfig {
    dependencies: Vec<String>,
}

impl DtMgrConfig {
    /// The dependency names, in their canonical order.
    pub closed spec fn deps(&self) -> Seq<Seq<char>> {
        self.dependencies.deep_view()
    }

    /// The dependency names as a set.
    pub open spec fn dep_set(&self) -> Set<Seq<char>> {
        self.deps().to_set()
    }

    /// The canonical-form invariant: strictly sorted, hence duplicate-free.
    pub open spec fn wf(&self) -> bool {
        sorted_unique(self.deps())
    }

    /// Builds a configuration from declared names, in any order and with
    /// duplicates allowed; the stored form is canonical.
    pub fn new(declared: Vec<String>) -> (r: Self)
        ensures
            r.wf(),
            r.dep_set() == declared.deep_view().to_set(),
    {
        DtMgrConfig { dependencies: canonical_names(&declared) }
    }

    /// The canonical dependency list.
    pub fn dependencies(&self) -> (r: &Vec<String>)
        ensures
            r.deep_view() == self.deps(),
    {
        &self.dependencies
    }
}

/// Law: the canonical form depends on the declared set alone.  Two
/// configurations declaring the same names, in whatever order, are equal
/// in every observable way.
pub proof fn lemma_config_canonical(c1: DtMgrConfig, c2: DtMgrConfig)
    requires
        c1.wf(),
        c2.wf(),
        c1.dep_set() == c2.dep_set(),
    ensures
        c1.deps() == c2.deps(),
{
    lemma_sorted_unique_seqs_equal(c1.deps(), c2.deps());
}

} // verus!
