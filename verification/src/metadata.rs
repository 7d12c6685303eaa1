//! The package metadata records returned by the package manager's batch
//! query, and the views the resolver and materializer read from them.

use crate::strings::str_eq;
use vstd::prelude::*;

verus! {

/// One documentation file owned by a package.
#[derive(Clone, Debug)]
pub struct TlPObjDocFile {
    pub file: String,
    pub lang: Option<String>,
    pub detail: Option<String>,
}

/// Catalogue metadata carried along with a package record.
#[derive(Clone, Debug)]
pub struct TlPObjInfoCatalogueData {
    pub topics: Option<String>,
    pub version: Option<String>,
    pub license: Option<String>,
    pub ctan: Option<String>,
    pub date: Option<String>,
    pub related: Option<String>,
}

/// One package's metadata: its name, its declared dependencies, and the
/// files it owns, by category.  Binary files are keyed by platform.
#[derive(Clone, Debug)]
pub struct TlPObjInfo {
    pub name: String,
    pub shortdesc: Option<String>,
    pub longdesc: Option<String>,
    pub category: Option<String>,
    pub catalogue: Option<String>,
    pub containerchecksum: Option<String>,
    pub lrev: Option<u64>,
    pub rrev: Option<u64>,
    pub runsize: Option<u64>,
    pub docsize: Option<u64>,
    pub srcsize: Option<u64>,
    pub containersize: Option<u64>,
    pub srccontainersize: Option<u64>,
    pub doccontainersize: Option<u64>,
    pub available: bool,
    pub installed: Option<bool>,
    pub relocated: Option<bool>,
    pub runfiles: Option<Vec<String>>,
    pub srcfiles: Option<Vec<String>>,
    pub executes: Option<Vec<String>>,
    pub depends: Option<Vec<String>>,
    pub postactions: Option<Vec<String>>,
    pub docfiles: Option<Vec<TlPObjDocFile>>,
    pub binfiles: Option<Vec<(String, Vec<String>)>>,
    pub binsize: Option<Vec<(String, u64)>>,
    pub cataloguedata: Option<TlPObjInfoCatalogueData>,
    pub rcataloguedata: Option<TlPObjInfoCatalogueData>,
}

/// The names in an optional list, an absent list meaning none.
pub open spec fn opt_names(names: Option<Vec<String>>) -> Seq<Seq<char>> {
    match names {
        Some(v) => v.deep_view(),
        None => Seq::empty(),
    }
}

/// The binary file list stored under the first matching platform key.
pub open spec fn bin_lookup(entries: Seq<(String, Vec<String>)>, platform: Seq<char>) -> Option<
    Seq<Seq<char>>,
>
    decreases entries.len(),
{
    if entries.len() == 0 {
        None
    } else if entries[0].0@ == platform {
        Some(entries[0].1.deep_view())
    } else {
        bin_lookup(entries.skip(1), platform)
    }
}

impl TlPObjInfo {
    /// The declared dependency names, an absent list meaning none.
    pub open spec fn dep_names(&self) -> Seq<Seq<char>> {
        opt_names(self.depends)
    }

    /// The run-category file paths.
    pub open spec fn run_file_names(&self) -> Seq<Seq<char>> {
        opt_names(self.runfiles)
    }

    /// The source-category file paths.
    pub open spec fn src_file_names(&self) -> Seq<Seq<char>> {
        opt_names(self.srcfiles)
    }

    /// The documentation-category file paths.
    pub open spec fn doc_file_names(&self) -> Seq<Seq<char>> {
        match self.docfiles {
            Some(v) => v@.map_values(|d: TlPObjDocFile| d.file@),
            None => Seq::empty(),
        }
    }

    /// The binary file paths listed under the given platform.
    pub open spec fn bin_file_names(&self, platform: Seq<char>) -> Option<Seq<Seq<char>>> {
        match self.binfiles {
            Some(entries) => bin_lookup(entries@, platform),
            None => None,
        }
    }

    /// Looks up the binary file list for the given platform key.
    pub fn bin_files_for(&self, platform: &str) -> (r: Option<&Vec<String>>)
        ensures
            match r {
                Some(files) => self.bin_file_names(platform@) == Some(files.deep_view()),
                None => self.bin_file_names(platform@) is None,
            },
    {
        match &self.binfiles {
            None => None,
            Some(entries) => {
                let mut i: usize = 0;
                proof {
                    assert(entries@.skip(0) =~= entries@);
                }
                while i < entries.len()
                    invariant
                        i <= entries@.len(),
                        self.binfiles is Some,
                        self.binfiles->0 == *entries,
                        bin_lookup(entries@, platform@) == bin_lookup(
                            entries@.skip(i as int),
                            platform@,
                        ),
                    decreases entries@.len() - i,
                {
                    if str_eq(entries[i].0.as_str(), platform) {
                        proof {
                            let sk = entries@.skip(i as int);
                            assert(sk[0] == entries@[i as int]);
                            assert(sk[0].0@ == platform@);
                            assert(bin_lookup(sk, platform@) == Some(sk[0].1.deep_view()));
                            assert(sk[0].1 == entries@[i as int].1);
                            assert(self.binfiles is Some);
                            assert(self.binfiles->0 == *entries);
                            assert(self.bin_file_names(platform@) == bin_lookup(
                                entries@,
                                platform@,
                            ));
                        }
                        return Some(&entries[i].1);
                    }
                    proof {
                        assert(entries@.skip(i as int).skip(1) =~= entries@.skip(i + 1));
                        assert(entries@.skip(i as int)[0] == entries@[i as int]);
                    }
                    i = i + 1;
                }
                proof {
                    assert(entries@.skip(i as int).len() == 0);
                }
                None
            },
        }
    }
}

impl Default for TlPObjInfo {
    /// A record with an empty name and nothing declared.
    fn default() -> (r: Self)
        ensures
            r.name@ == Seq::<char>::empty(),
            r.depends is None,
            r.runfiles is None,
            r.srcfiles is None,
            r.docfiles is None,
            r.binfiles is None,
            r.shortdesc is None,
            r.longdesc is None,
            r.category is None,
            r.catalogue is None,
            r.containerchecksum is None,
            r.lrev is None,
            r.rrev is None,
            r.runsize is None,
            r.docsize is None,
            r.srcsize is None,
            r.containersize is None,
            r.srccontainersize is None,
            r.doccontainersize is None,
            !r.available,
            r.installed is None,
            r.relocated is None,
            r.executes is None,
            r.postactions is None,
            r.binsize is None,
            r.cataloguedata is None,
            r.rcataloguedata is None,
    {
        TlPObjInfo {
            name: String::new(),
            shortdesc: None,
            longdesc: None,
            category: None,
            catalogue: None,
            containerchecksum: None,
            lrev: None,
            rrev: None,
            runsize: None,
            docsize: None,
            srcsize: None,
            containersize: None,
            srccontainersize: None,
            doccontainersize: None,
            available: false,
            installed: None,
            relocated: None,
            runfiles: None,
            srcfiles: None,
            executes: None,
            depends: None,
            postactions: None,
            docfiles: None,
            binfiles: None,
            binsize: None,
            cataloguedata: None,
            rcataloguedata: None,
        }
    }
}

} // verus!
