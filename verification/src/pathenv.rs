//! The search-path rewriter: redirects entries under the global root to
//! the local root, preserving every entry and their order.

use crate::strings::is_path_separator;
use crate::strings::is_path_separator_exec;
use crate::strings::join_with;
use crate::strings::split_on;
use crate::strings::str_join;
use crate::strings::str_split;
use vstd::prelude::*;
use vstd::string::StrSliceExecFns;
use vstd::string::StringExecFns;

verus! {

/// The list separator of search-path values: `;` on the Windows target,
/// `:` elsewhere.
pub open spec fn path_list_separator(windows: bool) -> char {
    if windows {
        ';'
    } else {
        ':'
    }
}

/// True when `target` is a path-component prefix of `entry`: either the
/// whole entry, or a proper prefix that ends on a separator boundary.
pub open spec fn spec_entry_has_root(entry: Seq<char>, target: Seq<char>, windows: bool) -> bool {
    entry == target || (target.len() < entry.len() && entry.take(target.len() as int)
        == target && is_path_separator(entry[target.len() as int], windows))
}

/// One entry with `target` replaced by `replacement` when `target` is a
/// path-component prefix; any other entry unchanged.
pub open spec fn spec_rewrite_entry(
    entry: Seq<char>,
    target: Seq<char>,
    replacement: Seq<char>,
    windows: bool,
) -> Seq<char> {
    if spec_entry_has_root(entry, target, windows) {
        replacement + entry.skip(target.len() as int)
    } else {
        entry
    }
}

/// The whole search-path value, rewritten entry by entry: same entry
/// count, same order, same separators; only entries under `target` change.
pub open spec fn spec_replace_path_env(
    value: Seq<char>,
    target: Seq<char>,
    replacement: Seq<char>,
    windows: bool,
) -> Seq<char> {
    join_with(
        split_on(value, path_list_separator(windows)).map_values(
            |e: Seq<char>| spec_rewrite_entry(e, target, replacement, windows),
        ),
        path_list_separator(windows),
    )
}

/// Decides whether `target` is a path-component prefix of `entry`.
fn entry_has_root(entry: &str, target: &str, windows: bool) -> (r: bool)
    ensures
        r == spec_entry_has_root(entry@, target@, windows),
{
    let entry_len = entry.unicode_len();
    let target_len = target.unicode_len();
    if entry_len < target_len {
        return false;
    }
    let mut i: usize = 0;
    while i < target_len
        invariant
            entry_len == entry@.len(),
            target_len == target@.len(),
            target_len <= entry_len,
            i <= target_len,
            forall|j: int| 0 <= j < i ==> entry@[j] == target@[j],
        decreases target_len - i,
    {
        if entry.get_char(i) != target.get_char(i) {
            proof {
                assert(entry@.take(target@.len() as int)[i as int] != target@[i as int]);
                assert(entry@ != target@);
            }
            return false;
        }
        i = i + 1;
    }
    proof {
        assert(entry@.take(target@.len() as int) =~= target@);
    }
    if entry_len == target_len {
        proof {
            assert(entry@ =~= target@);
        }
        true
    } else {
        is_path_separator_exec(entry.get_char(target_len), windows)
    }
}

/// Rewrites one entry.
fn rewrite_entry(entry: &str, target: &str, replacement: &str, windows: bool) -> (r: String)
    ensures
        r@ == spec_rewrite_entry(entry@, target@, replacement@, windows),
{
    if entry_has_root(entry, target, windows) {
        let mut r = String::from_str(replacement);
        let target_len = target.unicode_len();
        let entry_len = entry.unicode_len();
        r.append(entry.substring_char(target_len, entry_len));
        proof {
            assert(entry@.subrange(target@.len() as int, entry@.len() as int)
                =~= entry@.skip(target@.len() as int));
        }
        r
    } else {
        entry.to_owned()
    }
}

/// Splits the search-path value on the platform's list separator,
/// replaces the `target` prefix of each entry that has it on a path
/// boundary with `replacement`, and rejoins: no entry is dropped, added,
/// reordered or otherwise changed.
pub fn replace_path_env(old_path_env: &str, target: &str, replacement: &str, windows: bool) -> (r:
    String)
    ensures
        r@ == spec_replace_path_env(old_path_env@, target@, replacement@, windows),
{
    let separator: char = if windows {
        ';'
    } else {
        ':'
    };
    let parts = str_split(old_path_env, separator);
    let ghost split_view = parts.deep_view();
    let mut rewritten: Vec<String> = Vec::new();
    let mut i: usize = 0;
    let ghost f = |e: Seq<char>| spec_rewrite_entry(e, target@, replacement@, windows);
    proof {
        assert(rewritten.deep_view() =~= split_view.map_values(f).take(0));
    }
    while i < parts.len()
        invariant
            separator == path_list_separator(windows),
            i <= parts.len(),
            parts.deep_view() == split_view,
            split_view == split_on(old_path_env@, path_list_separator(windows)),
            f == (|e: Seq<char>| spec_rewrite_entry(e, target@, replacement@, windows)),
            rewritten.deep_view() == split_view.map_values(f).take(i as int),
        decreases parts.len() - i,
    {
        let ghost before = rewritten.deep_view();
        let entry = rewrite_entry(parts[i].as_str(), target, replacement, windows);
        rewritten.push(entry);
        proof {
            assert(rewritten.deep_view() =~= before.push(f(split_view[i as int])));
            assert(split_view.map_values(f).take(i + 1) =~= before.push(
                f(split_view[i as int]),
            ));
        }
        i = i + 1;
    }
    proof {
        assert(split_view.map_values(f).take(parts.len() as int) =~= split_view.map_values(
            f,
        ));
        assert(split_view.map_values(f) =~= split_on(
            old_path_env@,
            path_list_separator(windows),
        ).map_values(
            (|e: Seq<char>| spec_rewrite_entry(e, target@, replacement@, windows)),
        ));
    }
    str_join(&rewritten, separator)
}

/// The metadata-search-path value handed to a child tool: the local root
/// first, then its configuration subdirectory, joined with the
/// platform's metadata-path separator.
pub fn texmfcnf_value(dot_dir: &str, web2c_dir: &str, separator: char) -> (r: String)
    ensures
        r@ == dot_dir@ + seq![separator] + web2c_dir@,
{
    let mut r = String::from_str(dot_dir);
    r.push(separator);
    r.append(web2c_dir);
    proof {
        assert(r@ =~= dot_dir@ + seq![separator] + web2c_dir@);
    }
    r
}

} // verus!
