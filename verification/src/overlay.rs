//! The overlay materializer's plan: every file a resolved package owns,
//! with the strategy that reproduces it under the local root.
//!
//! Planning is pure and verified; the binary that drives this library
//! walks the plan and performs the filesystem calls.

use crate::classify::classify;
use crate::classify::spec_classify;
use crate::classify::FileCategory;
use crate::classify::LinkStrategy;
use crate::metadata::TlPObjInfo;
use vstd::prelude::*;

verus! {

/// One planned filesystem action: reproduce `rel_path` under the local
/// root with the given strategy.
pub struct LinkAction {
    pub rel_path: String,
    pub strategy: LinkStrategy,
}

impl View for LinkAction {
    type V = (Seq<char>, LinkStrategy);

    open spec fn view(&self) -> (Seq<char>, LinkStrategy) {
        (self.rel_path@, self.strategy)
    }
}

/// The planned actions for one category's file list, in order.
pub open spec fn spec_actions_for(
    files: Seq<Seq<char>>,
    category: FileCategory,
    platform: Seq<char>,
) -> Seq<(Seq<char>, LinkStrategy)> {
    Seq::new(files.len(), |i: int| (files[i], spec_classify(category, files[i], platform)))
}

/// The whole plan for one package: its binary files under the current
/// platform key (other platforms' files are ignored), then its
/// documentation, runtime and source files.
pub open spec fn spec_package_plan(pkg: TlPObjInfo, platform: Seq<char>) -> Seq<
    (Seq<char>, LinkStrategy),
> {
    let bins = match pkg.bin_file_names(platform) {
        Some(files) => files,
        None => Seq::empty(),
    };
    spec_actions_for(bins, FileCategory::Binary, platform) + spec_actions_for(
        pkg.doc_file_names(),
        FileCategory::Documentation,
        platform,
    ) + spec_actions_for(pkg.run_file_names(), FileCategory::Runtime, platform)
        + spec_actions_for(pkg.src_file_names(), FileCategory::Source, platform)
}

/// Appends the planned actions for one category's files.
fn plan_files(
    out: &mut Vec<LinkAction>,
    files: &Vec<String>,
    category: FileCategory,
    platform: &str,
)
    ensures
        final(out)@.map_values(|a: LinkAction| a@) == old(out)@.map_values(
            |a: LinkAction| a@,
        ) + spec_actions_for(files.deep_view(), category, platform@),
{
    let ghost base = out@.map_values(|a: LinkAction| a@);
    let mut i: usize = 0;
    proof {
        assert(base + spec_actions_for(files.deep_view().take(0), category, platform@)
            =~= base);
    }
    while i < files.len()
        invariant
            i <= files.len(),
            out@.map_values(|a: LinkAction| a@) == base + spec_actions_for(
                files.deep_view().take(i as int),
                category,
                platform@,
            ),
        decreases files.len() - i,
    {
        let strategy = classify(category, files[i].as_str(), platform);
        let action = LinkAction { rel_path: files[i].clone(), strategy };
        let ghost before = out@.map_values(|a: LinkAction| a@);
        out.push(action);
        proof {
            assert(out@.map_values(|a: LinkAction| a@) =~= before.push(
                (files.deep_view()[i as int], spec_classify(
                    category,
                    files.deep_view()[i as int],
                    platform@,
                )),
            ));
            assert(base + spec_actions_for(
                files.deep_view().take(i + 1),
                category,
                platform@,
            ) =~= before.push(
                (files.deep_view()[i as int], spec_classify(
                    category,
                    files.deep_view()[i as int],
                    platform@,
                )),
            ));
        }
        i = i + 1;
    }
    proof {
        assert(files.deep_view().take(files.len() as int) =~= files.deep_view());
    }
}

/// Plans every file the package owns: binary files under the current
/// platform key, then documentation, runtime and source files, each with
/// its classified strategy.  The driver performs the plan in order.
pub fn do_symlinks(pkg: &TlPObjInfo, platform: &str) -> (r: Vec<LinkAction>)
    ensures
        r@.map_values(|a: LinkAction| a@) == spec_package_plan(*pkg, platform@),
{
    let mut out: Vec<LinkAction> = Vec::new();
    proof {
        assert(out@.map_values(|a: LinkAction| a@) =~= Seq::<
            (Seq<char>, LinkStrategy),
        >::empty());
    }
    match pkg.bin_files_for(platform) {
        Some(files) => {
            plan_files(&mut out, files, FileCategory::Binary, platform);
        },
        None => {
            proof {
                assert(spec_actions_for(
                    Seq::<Seq<char>>::empty(),
                    FileCategory::Binary,
                    platform@,
                ) =~= Seq::<(Seq<char>, LinkStrategy)>::empty());
            }
        },
    }
    let ghost after_bins = out@.map_values(|a: LinkAction| a@);
    match &pkg.docfiles {
        Some(docs) => {
            let ghost base = out@.map_values(|a: LinkAction| a@);
            let mut i: usize = 0;
            proof {
                assert(pkg.docfiles is Some);
                assert(pkg.docfiles->0 == *docs);
                assert(pkg.doc_file_names() == docs@.map_values(
                    |d: crate::metadata::TlPObjDocFile| d.file@,
                ));
                assert(base + spec_actions_for(
                    pkg.doc_file_names().take(0),
                    FileCategory::Documentation,
                    platform@,
                ) =~= base);
            }
            while i < docs.len()
                invariant
                    i <= docs.len(),
                    pkg.docfiles is Some,
                    pkg.docfiles->0 == *docs,
                    out@.map_values(|a: LinkAction| a@) == base + spec_actions_for(
                        pkg.doc_file_names().take(i as int),
                        FileCategory::Documentation,
                        platform@,
                    ),
                decreases docs.len() - i,
            {
                let strategy = classify(
                    FileCategory::Documentation,
                    docs[i].file.as_str(),
                    platform,
                );
                let action = LinkAction { rel_path: docs[i].file.clone(), strategy };
                let ghost before = out@.map_values(|a: LinkAction| a@);
                out.push(action);
                proof {
                    let names = pkg.doc_file_names();
                    assert(names[i as int] == docs@[i as int].file@);
                    assert(out@.map_values(|a: LinkAction| a@) =~= before.push(
                        (names[i as int], spec_classify(
                            FileCategory::Documentation,
                            names[i as int],
                            platform@,
                        )),
                    ));
                    assert(base + spec_actions_for(
                        names.take(i + 1),
                        FileCategory::Documentation,
                        platform@,
                    ) =~= before.push(
                        (names[i as int], spec_classify(
                            FileCategory::Documentation,
                            names[i as int],
                            platform@,
                        )),
                    ));
                }
                i = i + 1;
            }
            proof {
                assert(pkg.doc_file_names().take(docs.len() as int) =~= pkg.doc_file_names());
            }
        },
        None => {
            proof {
                assert(pkg.doc_file_names() == Seq::<Seq<char>>::empty());
                assert(spec_actions_for(
                    pkg.doc_file_names(),
                    FileCategory::Documentation,
                    platform@,
                ) =~= Seq::<(Seq<char>, LinkStrategy)>::empty());
            }
        },
    }
    match &pkg.runfiles {
        Some(files) => {
            proof {
                assert(pkg.runfiles is Some);
                assert(pkg.runfiles->0 == *files);
                assert(pkg.run_file_names() == files.deep_view());
            }
            plan_files(&mut out, files, FileCategory::Runtime, platform);
        },
        None => {
            proof {
                assert(pkg.run_file_names() == Seq::<Seq<char>>::empty());
                assert(spec_actions_for(
                    pkg.run_file_names(),
                    FileCategory::Runtime,
                    platform@,
                ) =~= Seq::<(Seq<char>, LinkStrategy)>::empty());
            }
        },
    }
    match &pkg.srcfiles {
        Some(files) => {
            proof {
                assert(pkg.srcfiles is Some);
                assert(pkg.srcfiles->0 == *files);
                assert(pkg.src_file_names() == files.deep_view());
            }
            plan_files(&mut out, files, FileCategory::Source, platform);
        },
        None => {
            proof {
                assert(pkg.src_file_names() == Seq::<Seq<char>>::empty());
                assert(spec_actions_for(
                    pkg.src_file_names(),
                    FileCategory::Source,
                    platform@,
                ) =~= Seq::<(Seq<char>, LinkStrategy)>::empty());
            }
        },
    }
    proof {
        assert(out@.map_values(|a: LinkAction| a@) =~= spec_package_plan(*pkg, platform@));
    }
    out
}

} // verus!
