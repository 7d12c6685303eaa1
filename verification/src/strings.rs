//! Character-level string helpers shared by the resolver, the classifier
//! and the path rewriter.

use vstd::prelude::*;
use vstd::string::StrSliceExecFns;
use vstd::string::StringExecFns;

verus! {

/// Relies on `String::push`: appends exactly the given character at the end.
pub assume_specification[ String::push ](s: &mut String, ch: char)
    ensures
        final(s)@ == old(s)@.push(ch),
;

/// Compares two string slices character by character.
pub fn str_eq(a: &str, b: &str) -> (r: bool)
    ensures
        r == (a@ == b@),
{
    let a_len = a.unicode_len();
    let b_len = b.unicode_len();
    if a_len != b_len {
        assert(a@ != b@);
        return false;
    }
    let mut i: usize = 0;
    while i < a_len
        invariant
            a_len == a@.len(),
            b_len == b@.len(),
            a_len == b_len,
            i <= a_len,
            forall|j: int| 0 <= j < i ==> a@[j] == b@[j],
        decreases a_len - i,
    {
        if a.get_char(i) != b.get_char(i) {
            return false;
        }
        i = i + 1;
    }
    proof {
        assert(a@ =~= b@);
    }
    true
}

/// True when `suffix` is a suffix of `s`.
pub open spec fn ends_with(s: Seq<char>, suffix: Seq<char>) -> bool {
    s.len() >= suffix.len() && s.subrange(s.len() - suffix.len(), s.len() as int)
        == suffix
}

/// Decides whether `s` ends with `suffix`, character by character.
pub fn str_ends_with(s: &str, suffix: &str) -> (r: bool)
    ensures
        r == ends_with(s@, suffix@),
{
    let s_len = s.unicode_len();
    let suf_len = suffix.unicode_len();
    if s_len < suf_len {
        return false;
    }
    let offset = s_len - suf_len;
    let mut i: usize = 0;
    while i < suf_len
        invariant
            s_len == s@.len(),
            suf_len == suffix@.len(),
            suf_len <= s_len,
            offset == s_len - suf_len,
            i <= suf_len,
            forall|j: int| 0 <= j < i ==> s@[offset + j] == suffix@[j],
        decreases suf_len - i,
    {
        if s.get_char(offset + i) != suffix.get_char(i) {
            proof {
                assert(s@.subrange(s@.len() - suffix@.len(), s@.len() as int)[i as int]
                    != suffix@[i as int]);
            }
            return false;
        }
        i = i + 1;
    }
    proof {
        assert(s@.subrange(s@.len() - suffix@.len(), s@.len() as int) =~= suffix@);
    }
    true
}

/// The path separators: `/`, and `\` as well on the Windows target.
pub open spec fn is_path_separator(c: char, windows: bool) -> bool {
    c == '/' || (windows && c == '\\')
}

/// Executable test for `is_path_separator`.
pub fn is_path_separator_exec(c: char, windows: bool) -> (r: bool)
    ensures
        r == is_path_separator(c, windows),
{
    c == '/' || (windows && c == '\\')
}

/// The part of `s` after its last path separator; all of `s` when none
/// occurs.
pub open spec fn last_path_segment(s: Seq<char>, windows: bool) -> Seq<char>
    decreases s.len(),
{
    if s.len() == 0 {
        s
    } else if is_path_separator(s.last(), windows) {
        Seq::empty()
    } else {
        last_path_segment(s.drop_last(), windows).push(s.last())
    }
}

/// Returns the final path segment of `s`.
pub fn str_last_path_segment(s: &str, windows: bool) -> (r: String)
    ensures
        r@ == last_path_segment(s@, windows),
{
    let len = s.unicode_len();
    let mut i: usize = len;
    let mut found = false;
    proof {
        assert(s@.take(len as int) =~= s@);
        assert(last_path_segment(s@, windows) + s@.skip(len as int) =~= last_path_segment(
            s@,
            windows,
        ));
    }
    while i > 0 && !found
        invariant
            len == s@.len(),
            i <= len,
            found ==> last_path_segment(s@, windows) == s@.skip(i as int),
            !found ==> last_path_segment(s@, windows) == last_path_segment(
                s@.take(i as int),
                windows,
            ) + s@.skip(i as int),
        decreases i, (if found { 0int } else { 1int }),
    {
        let c = s.get_char(i - 1);
        if is_path_separator_exec(c, windows) {
            proof {
                assert(is_path_separator(s@.take(i as int).last(), windows));
                assert(last_path_segment(s@.take(i as int), windows) =~= Seq::<
                    char,
                >::empty());
                assert(last_path_segment(s@, windows) =~= s@.skip(i as int));
            }
            found = true;
        } else {
            proof {
                assert(s@.take(i as int).drop_last() =~= s@.take(i - 1));
                assert(s@.take(i as int).last() == s@[i - 1]);
                assert(last_path_segment(s@.take(i as int), windows) == last_path_segment(
                    s@.take(i - 1),
                    windows,
                ).push(s@[i - 1]));
                assert(last_path_segment(s@.take(i - 1), windows).push(s@[i - 1])
                    + s@.skip(i as int) =~= last_path_segment(s@.take(i - 1), windows)
                    + s@.skip(i - 1));
            }
            i = i - 1;
        }
    }
    proof {
        if !found {
            assert(i == 0);
            assert(last_path_segment(s@.take(0), windows) =~= Seq::<char>::empty());
            assert(last_path_segment(s@, windows) =~= s@.skip(0));
        }
    }
    let mut r = String::new();
    proof {
        assert(Seq::<char>::empty() =~= s@.subrange(i as int, i as int));
    }
    let mut j: usize = i;
    while j < len
        invariant
            len == s@.len(),
            i <= j <= len,
            r@ == s@.subrange(i as int, j as int),
        decreases len - j,
    {
        r.push(s.get_char(j));
        proof {
            assert(s@.subrange(i as int, j as int).push(s@[j as int]) =~= s@.subrange(
                i as int,
                j + 1,
            ));
        }
        j = j + 1;
    }
    proof {
        assert(s@.subrange(i as int, len as int) =~= s@.skip(i as int));
    }
    r
}

/// The segments of `s` between occurrences of `sep`, in order, empty
/// segments kept; always at least one segment.
pub open spec fn split_on(s: Seq<char>, sep: char) -> Seq<Seq<char>>
    decreases s.len(),
{
    if s.len() == 0 {
        seq![Seq::empty()]
    } else if s.last() == sep {
        split_on(s.drop_last(), sep).push(Seq::empty())
    } else {
        let rest = split_on(s.drop_last(), sep);
        rest.update(rest.len() - 1, rest.last().push(s.last()))
    }
}

/// Splits `s` at every occurrence of `sep`, keeping empty segments.
pub fn str_split(s: &str, sep: char) -> (r: Vec<String>)
    ensures
        r.deep_view() == split_on(s@, sep),
        r.len() >= 1,
{
    let len = s.unicode_len();
    let mut parts: Vec<String> = Vec::new();
    let mut cur = String::new();
    let mut i: usize = 0;
    proof {
        assert(split_on(s@.take(0), sep) =~= parts.deep_view().push(cur@));
    }
    while i < len
        invariant
            len == s@.len(),
            i <= len,
            split_on(s@.take(i as int), sep) == parts.deep_view().push(cur@),
        decreases len - i,
    {
        let ghost old_parts = parts.deep_view();
        let ghost old_cur = cur@;
        let c = s.get_char(i);
        proof {
            assert(s@.take(i + 1).drop_last() =~= s@.take(i as int));
            assert(s@.take(i + 1).last() == s@[i as int]);
        }
        if c == sep {
            parts.push(cur);
            cur = String::new();
            proof {
                assert(parts.deep_view() =~= old_parts.push(old_cur));
                assert(split_on(s@.take(i + 1), sep) =~= parts.deep_view().push(cur@));
            }
        } else {
            cur.push(c);
            proof {
                let rest = old_parts.push(old_cur);
                assert(split_on(s@.take(i + 1), sep) == rest.update(
                    rest.len() - 1,
                    rest.last().push(s@[i as int]),
                ));
                assert(rest.update(rest.len() - 1, rest.last().push(s@[i as int])) =~=
                    parts.deep_view().push(cur@));
            }
        }
        i = i + 1;
    }
    proof {
        assert(s@.take(len as int) =~= s@);
    }
    let ghost final_parts = parts.deep_view();
    let ghost final_cur = cur@;
    parts.push(cur);
    proof {
        assert(parts.deep_view() =~= final_parts.push(final_cur));
    }
    parts
}

/// The segments of `parts` joined with `sep` between neighbours.
pub open spec fn join_with(parts: Seq<Seq<char>>, sep: char) -> Seq<char>
    decreases parts.len(),
{
    if parts.len() == 0 {
        Seq::empty()
    } else if parts.len() == 1 {
        parts[0]
    } else {
        join_with(parts.drop_last(), sep) + seq![sep] + parts.last()
    }
}

/// Joins the given segments with `sep` between neighbours.
pub fn str_join(parts: &Vec<String>, sep: char) -> (r: String)
    ensures
        r@ == join_with(parts.deep_view(), sep),
{
    let mut r = String::new();
    let mut k: usize = 0;
    proof {
        assert(parts.deep_view().take(0) =~= Seq::<Seq<char>>::empty());
    }
    while k < parts.len()
        invariant
            k <= parts.len(),
            r@ == join_with(parts.deep_view().take(k as int), sep),
        decreases parts.len() - k,
    {
        let ghost prefix = parts.deep_view().take(k as int);
        if k > 0 {
            r.push(sep);
        }
        r.append(parts[k].as_str());
        proof {
            let next = parts.deep_view().take(k + 1);
            assert(next.drop_last() =~= prefix);
            assert(next.last() == parts.deep_view()[k as int]);
            if k > 0 {
                assert(join_with(next, sep) == join_with(prefix, sep) + seq![sep]
                    + parts.deep_view()[k as int]);
                assert(r@ =~= join_with(prefix, sep) + seq![sep]
                    + parts.deep_view()[k as int]);
            } else {
                assert(next.len() == 1);
                assert(r@ =~= parts.deep_view()[0]);
            }
        }
        k = k + 1;
    }
    proof {
        assert(parts.deep_view().take(parts.len() as int) =~= parts.deep_view());
    }
    r
}

/// The Unicode white-space characters, as `str::trim` strips them.
pub open spec fn is_space(c: char) -> bool {
    ||| c == ' '
    ||| c == '\t'
    ||| c == '\n'
    ||| c == '\u{0B}'
    ||| c == '\u{0C}'
    ||| c == '\r'
    ||| c == '\u{85}'
    ||| c == '\u{A0}'
    ||| c == '\u{1680}'
    ||| ((c as u32) >= 0x2000 && (c as u32) <= 0x200A)
    ||| c == '\u{2028}'
    ||| c == '\u{2029}'
    ||| c == '\u{202F}'
    ||| c == '\u{205F}'
    ||| c == '\u{3000}'
}

/// `s` without its leading whitespace.
pub open spec fn trim_front(s: Seq<char>) -> Seq<char>
    decreases s.len(),
{
    if s.len() > 0 && is_space(s[0]) {
        trim_front(s.skip(1))
    } else {
        s
    }
}

/// `s` without its trailing whitespace.
pub open spec fn trim_back(s: Seq<char>) -> Seq<char>
    decreases s.len(),
{
    if s.len() > 0 && is_space(s.last()) {
        trim_back(s.drop_last())
    } else {
        s
    }
}

/// `s` without leading and trailing whitespace.
pub open spec fn trimmed(s: Seq<char>) -> Seq<char> {
    trim_back(trim_front(s))
}

/// Strips leading and trailing whitespace.
pub fn str_trim(s: &str) -> (r: String)
    ensures
        r@ == trimmed(s@),
{
    let len = s.unicode_len();
    let mut lo: usize = 0;
    proof {
        assert(s@.skip(0) =~= s@);
    }
    while lo < len && is_space_exec(s.get_char(lo))
        invariant
            len == s@.len(),
            lo <= len,
            trim_front(s@) == trim_front(s@.skip(lo as int)),
        decreases len - lo,
    {
        proof {
            assert(s@.skip(lo as int).skip(1) =~= s@.skip(lo + 1));
        }
        lo = lo + 1;
    }
    proof {
        if lo < len {
            assert(trim_front(s@.skip(lo as int)) == s@.skip(lo as int));
        } else {
            assert(s@.skip(lo as int).len() == 0);
            assert(trim_front(s@.skip(lo as int)) == s@.skip(lo as int));
        }
    }
    let ghost t = s@.skip(lo as int);
    proof {
        assert(t =~= s@.subrange(lo as int, len as int));
    }
    let mut hi: usize = len;
    while hi > lo && is_space_exec(s.get_char(hi - 1))
        invariant
            len == s@.len(),
            lo <= hi <= len,
            t == s@.skip(lo as int),
            trim_front(s@) == t,
            trim_back(t) == trim_back(s@.subrange(lo as int, hi as int)),
        decreases hi,
    {
        proof {
            let cur = s@.subrange(lo as int, hi as int);
            assert(cur.last() == s@[hi - 1]);
            assert(cur.drop_last() =~= s@.subrange(lo as int, hi - 1));
        }
        hi = hi - 1;
    }
    proof {
        let cur = s@.subrange(lo as int, hi as int);
        if hi > lo {
            assert(cur.last() == s@[hi - 1]);
            assert(!is_space(cur.last()));
            assert(trim_back(cur) == cur);
        } else {
            assert(cur.len() == 0);
            assert(trim_back(cur) == cur);
        }
        assert(s@.skip(lo as int) =~= s@.subrange(lo as int, len as int));
    }
    s.substring_char(lo, hi).to_owned()
}

/// Executable test for the white-space characters of `is_space`.
pub fn is_space_exec(c: char) -> (r: bool)
    ensures
        r == is_space(c),
{
    c == ' ' || c == '\t' || c == '\n' || c == '\u{0B}' || c == '\u{0C}' || c == '\r'
        || c == '\u{85}' || c == '\u{A0}' || c == '\u{1680}' || ((c as u32) >= 0x2000
        && (c as u32) <= 0x200A) || c == '\u{2028}' || c == '\u{2029}' || c == '\u{202F}'
        || c == '\u{205F}' || c == '\u{3000}'
}

} // verus!
