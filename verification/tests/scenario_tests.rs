//! One run from a declared configuration to a materialization plan.

use dtmgr::classify::LinkStrategy;
use dtmgr::config::DtMgrConfig;
use dtmgr::digest::hash_config;
use dtmgr::digest::should_rebuild;
use dtmgr::metadata::TlPObjDocFile;
use dtmgr::metadata::TlPObjInfo;
use dtmgr::overlay::do_symlinks;
use dtmgr::resolver::build_dependency_tree;
use dtmgr::resolver::DependencyResolution;

#[test]
fn a_declared_package_ends_as_a_linked_overlay_plan() {
    let platform = "x86_64-linux";
    let config = DtMgrConfig::new(vec!["foo".to_string()]);

    // No marker exists yet, so the overlay is stale.
    assert!(should_rebuild(&None, &config).unwrap());

    // The seeds expand to the baseline plus the declared name.
    let mut resolution = DependencyResolution::new(&config, platform.to_string());
    let mut seeds = resolution.frontier().clone();
    seeds.sort();
    assert_eq!(
        seeds,
        vec!["foo".to_string(), "kpathsea".to_string(), "texlive.infra".to_string()]
    );

    // One faithful answer for the whole frontier resolves everything.
    let foo = TlPObjInfo {
        name: "foo".to_string(),
        binfiles: Some(vec![(
            platform.to_string(),
            vec!["bin/x86_64-linux/kpsewhich".to_string()],
        )]),
        docfiles: Some(vec![TlPObjDocFile {
            file: "doc/foo/manual.pdf".to_string(),
            lang: None,
            detail: None,
        }]),
        runfiles: Some(vec!["web2c/updmap.cfg".to_string()]),
        srcfiles: Some(vec!["source/foo/foo.dtx".to_string()]),
        ..Default::default()
    };
    let infra = TlPObjInfo {
        name: "texlive.infra".to_string(),
        ..Default::default()
    };
    let kpathsea = TlPObjInfo {
        name: "kpathsea".to_string(),
        ..Default::default()
    };
    build_dependency_tree(&mut resolution, vec![infra, kpathsea, foo]);
    assert!(resolution.is_complete());
    let resolved = resolution.into_resolved();
    assert_eq!(resolved.records_list().len(), 3);

    // The plan for the declared package: symlinks for documentation and
    // source, the resolver executable hardlinked or copied, the font-map
    // configuration copied.
    let foo_record = resolved
        .records_list()
        .iter()
        .find(|r| r.name == "foo")
        .unwrap();
    let plan = do_symlinks(foo_record, platform);
    let of = |path: &str| {
        plan.iter()
            .find(|a| a.rel_path == path)
            .map(|a| a.strategy)
            .unwrap()
    };
    assert_eq!(of("doc/foo/manual.pdf"), LinkStrategy::Symlink);
    assert_eq!(of("source/foo/foo.dtx"), LinkStrategy::Symlink);
    assert_eq!(of("bin/x86_64-linux/kpsewhich"), LinkStrategy::HardlinkOrCopy);
    assert_eq!(of("web2c/updmap.cfg"), LinkStrategy::Copy);
    assert_eq!(plan.len(), 4);

    // Persisting the digest as the marker makes the next run idempotent.
    let marker = Some(hash_config(&config).unwrap());
    assert!(!should_rebuild(&marker, &config).unwrap());
}
