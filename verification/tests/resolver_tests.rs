use dtmgr::config::DtMgrConfig;
use dtmgr::metadata::TlPObjInfo;
use dtmgr::resolver::build_dependency_tree;
use dtmgr::resolver::substitute_arch;
use dtmgr::resolver::DependencyResolution;

fn record(name: &str, depends: Option<Vec<&str>>) -> TlPObjInfo {
    TlPObjInfo {
        name: name.to_string(),
        depends: depends.map(|d| d.iter().map(|s| s.to_string()).collect()),
        ..Default::default()
    }
}

fn names(strs: &[&str]) -> Vec<String> {
    strs.iter().map(|s| s.to_string()).collect()
}

#[test]
fn arch_suffix_is_substituted_at_the_end() {
    assert_eq!(
        substitute_arch("foo.ARCH", "x86_64-linux"),
        "foo.x86_64-linux"
    );
}

#[test]
fn arch_marker_in_the_middle_is_left_alone() {
    assert_eq!(substitute_arch("foo.ARCH.bar", "x86_64-linux"), "foo.ARCH.bar");
    assert_eq!(substitute_arch("foo", "x86_64-linux"), "foo");
    assert_eq!(substitute_arch("ARCH", "x86_64-linux"), "ARCH");
}

#[test]
fn seeds_are_baseline_plus_declared() {
    let config = DtMgrConfig::new(names(&["foo"]));
    let resolution = DependencyResolution::new(&config, "x86_64-linux".to_string());
    let mut frontier = resolution.frontier().clone();
    frontier.sort();
    assert_eq!(frontier, names(&["foo", "kpathsea", "texlive.infra"]));
    assert!(!resolution.is_complete());
}

#[test]
fn windows_platform_adds_its_extra_seed() {
    let config = DtMgrConfig::new(names(&[]));
    let resolution = DependencyResolution::new(&config, "windows".to_string());
    let mut frontier = resolution.frontier().clone();
    frontier.sort();
    assert_eq!(frontier, names(&["kpathsea", "texlive.infra", "tlperl.windows"]));
}

#[test]
fn resolution_reaches_the_transitive_closure() {
    let config = DtMgrConfig::new(names(&["foo"]));
    let mut resolution = DependencyResolution::new(&config, "x86_64-linux".to_string());

    let round_one = vec![
        record("texlive.infra", None),
        record("kpathsea", Some(vec![])),
        record("foo", Some(vec!["bar", "baz.ARCH"])),
    ];
    build_dependency_tree(&mut resolution, round_one);
    assert!(!resolution.is_complete());
    let mut frontier = resolution.frontier().clone();
    frontier.sort();
    assert_eq!(frontier, names(&["bar", "baz.x86_64-linux"]));

    let round_two = vec![
        record("bar", Some(vec!["foo"])),
        record("baz.x86_64-linux", None),
    ];
    build_dependency_tree(&mut resolution, round_two);
    assert!(resolution.is_complete());

    let resolved = resolution.into_resolved();
    let mut resolved_names: Vec<String> = resolved
        .records_list()
        .iter()
        .map(|r| r.name.clone())
        .collect();
    resolved_names.sort();
    assert_eq!(
        resolved_names,
        names(&["bar", "baz.x86_64-linux", "foo", "kpathsea", "texlive.infra"])
    );
}

#[test]
fn cyclic_graphs_resolve_each_name_once() {
    let config = DtMgrConfig::new(names(&["a"]));
    let mut resolution = DependencyResolution::new(&config, "x86_64-linux".to_string());
    build_dependency_tree(
        &mut resolution,
        vec![
            record("texlive.infra", None),
            record("kpathsea", None),
            record("a", Some(vec!["b"])),
        ],
    );
    build_dependency_tree(&mut resolution, vec![record("b", Some(vec!["a"]))]);
    assert!(resolution.is_complete());
    let resolved = resolution.into_resolved();
    let count_a = resolved
        .records_list()
        .iter()
        .filter(|r| r.name == "a")
        .count();
    assert_eq!(count_a, 1);
    assert_eq!(resolved.records_list().len(), 4);
}

#[test]
fn first_record_wins_for_a_repeated_name() {
    let config = DtMgrConfig::new(names(&["dup"]));
    let mut resolution = DependencyResolution::new(&config, "x86_64-linux".to_string());
    let mut first = record("dup", None);
    first.shortdesc = Some("first".to_string());
    let mut second = record("dup", None);
    second.shortdesc = Some("second".to_string());
    build_dependency_tree(
        &mut resolution,
        vec![
            record("texlive.infra", None),
            record("kpathsea", None),
            first,
            second,
        ],
    );
    assert!(resolution.is_complete());
    let resolved = resolution.into_resolved();
    let dups: Vec<&TlPObjInfo> = resolved
        .records_list()
        .iter()
        .filter(|r| r.name == "dup")
        .collect();
    assert_eq!(dups.len(), 1);
    assert_eq!(dups[0].shortdesc.as_deref(), Some("first"));
}

#[test]
fn already_resolved_names_do_not_return_to_the_frontier() {
    let config = DtMgrConfig::new(names(&["a"]));
    let mut resolution = DependencyResolution::new(&config, "x86_64-linux".to_string());
    build_dependency_tree(
        &mut resolution,
        vec![
            record("texlive.infra", None),
            record("kpathsea", Some(vec!["texlive.infra"])),
            record("a", Some(vec!["kpathsea", "a"])),
        ],
    );
    assert!(resolution.is_complete());
}
