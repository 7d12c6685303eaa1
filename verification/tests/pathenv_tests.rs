use dtmgr::pathenv::replace_path_env;
use dtmgr::pathenv::texmfcnf_value;

#[test]
fn the_matching_entry_is_redirected() {
    assert_eq!(
        replace_path_env("/a/b:/global/root/bin:/c", "/global/root", "/local/root", false),
        "/a/b:/local/root/bin:/c"
    );
}

#[test]
fn entry_count_and_order_are_preserved() {
    assert_eq!(
        replace_path_env(
            "/global/root/bin::/global/root/sbin:/x",
            "/global/root",
            "/r",
            false
        ),
        "/r/bin::/r/sbin:/x"
    );
}

#[test]
fn an_entry_equal_to_the_root_is_replaced_whole() {
    assert_eq!(replace_path_env("/global/root", "/global/root", "/r", false), "/r");
}

#[test]
fn a_raw_string_prefix_without_a_path_boundary_is_kept() {
    assert_eq!(
        replace_path_env("/global/rootbeer/bin", "/global/root", "/r", false),
        "/global/rootbeer/bin"
    );
}

#[test]
fn a_value_without_matches_passes_through() {
    assert_eq!(replace_path_env("/usr/bin:/bin", "/global/root", "/r", false), "/usr/bin:/bin");
    assert_eq!(replace_path_env("", "/global/root", "/r", false), "");
}

#[test]
fn the_windows_separator_is_honoured() {
    assert_eq!(
        replace_path_env("C:/tex/bin;D:/other", "C:/tex", "C:/proj/.dtmgr", true),
        "C:/proj/.dtmgr/bin;D:/other"
    );
}

#[test]
fn windows_backslash_boundaries_are_honoured() {
    assert_eq!(
        replace_path_env(
            "C:\\tex\\bin;D:\\other",
            "C:\\tex",
            "C:\\proj\\.dtmgr",
            true
        ),
        "C:\\proj\\.dtmgr\\bin;D:\\other"
    );
}

#[test]
fn a_backslash_is_no_boundary_off_windows() {
    assert_eq!(
        replace_path_env("/tex\\bin:/x", "/tex", "/r", false),
        "/tex\\bin:/x"
    );
}

#[test]
fn the_metadata_search_path_lists_the_root_then_web2c() {
    assert_eq!(
        texmfcnf_value("/p/.dtmgr", "/p/.dtmgr/texmf-dist/web2c", ':'),
        "/p/.dtmgr:/p/.dtmgr/texmf-dist/web2c"
    );
}
