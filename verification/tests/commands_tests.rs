use dtmgr::commands::get_texlive_platform;
use dtmgr::commands::get_texlive_root;
use dtmgr::commands::install_packages_globally;
use dtmgr::config::DtMgrConfig;
use dtmgr::error::DtMgrError;

fn names(strs: &[&str]) -> Vec<String> {
    strs.iter().map(|s| s.to_string()).collect()
}

#[test]
fn the_reported_root_is_trimmed() {
    let root = get_texlive_root(true, None, "/usr/local/texlive/2024\n").unwrap();
    assert_eq!(root, "/usr/local/texlive/2024");
}

#[test]
fn a_failed_root_query_reports_the_command() {
    let err = get_texlive_root(false, Some(2), "").unwrap_err();
    match err {
        DtMgrError::CommandStatus { command, code } => {
            assert_eq!(command, "kpsewhich -var-value=TEXMFROOT");
            assert_eq!(code, Some(2));
        }
        _ => panic!("expected a command status error"),
    }
}

#[test]
fn the_reported_platform_is_trimmed() {
    let platform = get_texlive_platform(true, None, " x86_64-linux \n").unwrap();
    assert_eq!(platform, "x86_64-linux");
}

#[test]
fn a_failed_platform_query_reports_the_command() {
    let err = get_texlive_platform(false, None, "").unwrap_err();
    match err {
        DtMgrError::CommandStatus { command, code } => {
            assert_eq!(command, "tlmgr print-platform");
            assert_eq!(code, None);
        }
        _ => panic!("expected a command status error"),
    }
}

#[test]
fn unicode_whitespace_is_trimmed_from_command_output() {
    let root = get_texlive_root(true, None, "\u{2028}/usr/tex\u{a0}\n").unwrap();
    assert_eq!(root, "/usr/tex");
}

#[test]
fn a_failed_metadata_query_reports_the_full_command_line() {
    let err = dtmgr::commands::info_about_packages(&names(&["foo", "bar"]), false, Some(3))
        .unwrap_err();
    match err {
        DtMgrError::CommandStatus { command, code } => {
            assert_eq!(command, "tlmgr info --json foo bar");
            assert_eq!(code, Some(3));
        }
        _ => panic!("expected a command status error"),
    }
}

#[test]
fn a_successful_metadata_query_reports_nothing() {
    assert!(dtmgr::commands::info_about_packages(&names(&["foo"]), true, Some(0)).is_ok());
}

#[test]
fn a_failed_install_reports_the_full_command_line() {
    let err = install_packages_globally(&names(&["foo", "bar"]), false, Some(1)).unwrap_err();
    match err {
        DtMgrError::CommandStatus { command, code } => {
            assert_eq!(command, "tlmgr install foo bar");
            assert_eq!(code, Some(1));
        }
        _ => panic!("expected a command status error"),
    }
}

#[test]
fn a_successful_install_reports_nothing() {
    assert!(install_packages_globally(&names(&["foo"]), true, Some(0)).is_ok());
}

#[test]
fn the_configuration_is_canonicalised() {
    let config = DtMgrConfig::new(names(&["b", "a", "b", "c", "a"]));
    assert_eq!(config.dependencies().clone(), names(&["a", "b", "c"]));
}
