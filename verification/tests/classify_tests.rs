use dtmgr::classify::classify;
use dtmgr::classify::FileCategory;
use dtmgr::classify::LinkStrategy;
use dtmgr::metadata::TlPObjDocFile;
use dtmgr::metadata::TlPObjInfo;
use dtmgr::overlay::do_symlinks;

#[test]
fn the_resolver_executable_is_hardlinked() {
    assert_eq!(
        classify(FileCategory::Binary, "bin/x86_64-linux/kpsewhich", "x86_64-linux"),
        LinkStrategy::HardlinkOrCopy
    );
}

#[test]
fn the_windows_resolver_executable_is_hardlinked_on_windows_only() {
    assert_eq!(
        classify(FileCategory::Binary, "bin/windows/kpsewhich.exe", "windows"),
        LinkStrategy::HardlinkOrCopy
    );
    assert_eq!(
        classify(FileCategory::Binary, "bin/x86_64-linux/kpsewhich.exe", "x86_64-linux"),
        LinkStrategy::Symlink
    );
}

#[test]
fn windows_backslash_paths_classify_by_their_final_segment() {
    assert_eq!(
        classify(FileCategory::Binary, "bin\\windows\\kpsewhich.exe", "windows"),
        LinkStrategy::HardlinkOrCopy
    );
    assert_eq!(
        classify(FileCategory::Runtime, "web2c\\updmap.cfg", "windows"),
        LinkStrategy::Copy
    );
}

#[test]
fn the_font_map_configuration_is_copied() {
    assert_eq!(
        classify(FileCategory::Runtime, "web2c/updmap.cfg", "x86_64-linux"),
        LinkStrategy::Copy
    );
    assert_eq!(
        classify(FileCategory::Runtime, "web2c/updmap.cfg", "windows"),
        LinkStrategy::Copy
    );
}

#[test]
fn documentation_is_symlinked() {
    assert_eq!(
        classify(FileCategory::Documentation, "doc/foo/readme.txt", "x86_64-linux"),
        LinkStrategy::Symlink
    );
}

#[test]
fn font_containers_are_hardlinked_on_windows_only() {
    assert_eq!(
        classify(FileCategory::Runtime, "fonts/opentype/foo.otf", "windows"),
        LinkStrategy::HardlinkOrCopy
    );
    assert_eq!(
        classify(FileCategory::Runtime, "fonts/opentype/foo.otf", "x86_64-linux"),
        LinkStrategy::Symlink
    );
}

#[test]
fn a_bare_dot_otf_name_has_no_extension() {
    assert_eq!(
        classify(FileCategory::Runtime, "fonts/.otf", "windows"),
        LinkStrategy::Symlink
    );
}

#[test]
fn a_name_merely_ending_in_otf_has_no_extension() {
    assert_eq!(
        classify(FileCategory::Runtime, "fonts/footf", "windows"),
        LinkStrategy::Symlink
    );
}

fn plan_of(pkg: &TlPObjInfo, platform: &str) -> Vec<(String, LinkStrategy)> {
    do_symlinks(pkg, platform)
        .into_iter()
        .map(|a| (a.rel_path, a.strategy))
        .collect()
}

#[test]
fn a_package_plan_covers_every_category_in_order() {
    let pkg = TlPObjInfo {
        name: "foo".to_string(),
        binfiles: Some(vec![
            (
                "x86_64-linux".to_string(),
                vec![
                    "bin/x86_64-linux/kpsewhich".to_string(),
                    "bin/x86_64-linux/tex".to_string(),
                ],
            ),
            (
                "windows".to_string(),
                vec!["bin/windows/kpsewhich.exe".to_string()],
            ),
        ]),
        docfiles: Some(vec![TlPObjDocFile {
            file: "doc/foo/readme.txt".to_string(),
            lang: None,
            detail: None,
        }]),
        runfiles: Some(vec![
            "web2c/updmap.cfg".to_string(),
            "fonts/map/foo.map".to_string(),
        ]),
        srcfiles: Some(vec!["source/foo/foo.dtx".to_string()]),
        ..Default::default()
    };
    let plan = plan_of(&pkg, "x86_64-linux");
    assert_eq!(
        plan,
        vec![
            (
                "bin/x86_64-linux/kpsewhich".to_string(),
                LinkStrategy::HardlinkOrCopy
            ),
            ("bin/x86_64-linux/tex".to_string(), LinkStrategy::Symlink),
            ("doc/foo/readme.txt".to_string(), LinkStrategy::Symlink),
            ("web2c/updmap.cfg".to_string(), LinkStrategy::Copy),
            ("fonts/map/foo.map".to_string(), LinkStrategy::Symlink),
            ("source/foo/foo.dtx".to_string(), LinkStrategy::Symlink),
        ]
    );
}

#[test]
fn other_platforms_binary_files_are_ignored() {
    let pkg = TlPObjInfo {
        name: "foo".to_string(),
        binfiles: Some(vec![(
            "windows".to_string(),
            vec!["bin/windows/tex.exe".to_string()],
        )]),
        ..Default::default()
    };
    assert!(plan_of(&pkg, "x86_64-linux").is_empty());
}
