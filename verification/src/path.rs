//! Backend path arithmetic.
//!
//! Backend paths are forward-slash separated UTF-8 strings. The engine keeps
//! them *slash-normalized* (`clean_path`): non-empty, no trailing separator,
//! no empty, `.` or `..` components. On such paths the component-based
//! operations of the path library coincide with plain string arithmetic,
//! which is what the contracts below state.

use vstd::prelude::*;

verus! {

/// A `/` at `i` immediately preceded by another `/` (an empty component).
pub open spec fn double_slash_at(s: Seq<char>, i: int) -> bool {
    1 <= i < s.len() && s[i] == '/' && s[i - 1] == '/'
}

/// A `.` component starting at `i`.
pub open spec fn dot_comp_at(s: Seq<char>, i: int) -> bool {
    &&& 0 <= i < s.len()
    &&& s[i] == '.'
    &&& (i == 0 || s[i - 1] == '/')
    &&& (i == s.len() - 1 || s[i + 1] == '/')
}

/// A `..` component starting at `i`.
pub open spec fn dotdot_comp_at(s: Seq<char>, i: int) -> bool {
    &&& 0 <= i
    &&& i + 1 < s.len()
    &&& s[i] == '.'
    &&& s[i + 1] == '.'
    &&& (i == 0 || s[i - 1] == '/')
    &&& (i + 2 == s.len() || s[i + 2] == '/')
}

/// A slash-normalized backend path: non-empty, no trailing separator, and
/// no empty, `.` or `..` components. Such a path may be absolute (leading
/// `/`) or relative.
pub open spec fn clean_path(s: Seq<char>) -> bool {
    &&& s.len() > 0
    &&& s[s.len() - 1] != '/'
    &&& forall|i: int| !double_slash_at(s, i)
    &&& forall|i: int| !dot_comp_at(s, i)
    &&& forall|i: int| !dotdot_comp_at(s, i)
}

/// Check `clean_path` at run time.
pub fn check_clean_path(s: &str) -> (r: bool)
    ensures
        r == clean_path(s@),
{
    let n = s.unicode_len();
    if n == 0 {
        return false;
    }
    if s.get_char(n - 1) == '/' {
        return false;
    }
    let mut i: usize = 0;
    while i < n
        invariant
            0 <= i <= n,
            n == s@.len(),
            forall|k: int| k < i ==> !double_slash_at(s@, k),
            forall|k: int| k < i ==> !dot_comp_at(s@, k),
            forall|k: int| k < i ==> !dotdot_comp_at(s@, k),
        decreases n - i,
    {
        let c = s.get_char(i);
        if c == '/' && i >= 1 && s.get_char(i - 1) == '/' {
            assert(double_slash_at(s@, i as int));
            return false;
        }
        if c == '.' && (i == 0 || s.get_char(i - 1) == '/') {
            if i + 1 == n || s.get_char(i + 1) == '/' {
                assert(dot_comp_at(s@, i as int));
                return false;
            }
            if s.get_char(i + 1) == '.' && (i + 2 == n || s.get_char(i + 2) == '/') {
                assert(dotdot_comp_at(s@, i as int));
                return false;
            }
        }
        proof {
            if double_slash_at(s@, i as int) {
                assert(false);
            }
            if dot_comp_at(s@, i as int) {
                assert(false);
            }
            if dotdot_comp_at(s@, i as int) {
                assert(false);
            }
        }
        i = i + 1;
    }
    assert forall|k: int| !double_slash_at(s@, k) by {
        if k < n {
        }
    }
    assert forall|k: int| !dot_comp_at(s@, k) by {
        if k < n {
        }
    }
    assert forall|k: int| !dotdot_comp_at(s@, k) by {
        if k < n {
        }
    }
    true
}

/// Result of removing a root `prefix` from `path`, both slash-normalized:
/// the remainder after the prefix and its separator, the empty string when
/// the two are equal, or nothing when `prefix` does not lead `path`.
pub open spec fn spec_strip_prefix(path: Seq<char>, prefix: Seq<char>) -> Option<Seq<char>> {
    if path == prefix {
        Some(Seq::<char>::empty())
    } else if (prefix + seq!['/']).is_prefix_of(path) {
        Some(path.skip(prefix.len() as int + 1))
    } else {
        None
    }
}

/// Relies on `typed_path::Utf8UnixPath::strip_prefix`: it matches whole
/// components, so on slash-normalized inputs it removes the prefix string
/// at a component boundary and returns the remainder without its leading
/// separator, and fails exactly when the prefix does not lead the path.
#[verifier::external_body]
pub(crate) fn unix_strip_prefix(path: &str, prefix: &str) -> (r: Option<String>)
    ensures
        clean_path(path@) && clean_path(prefix@) ==> match r {
            Some(rest) => spec_strip_prefix(path@, prefix@) == Some(rest@),
            None => spec_strip_prefix(path@, prefix@) is None,
        },
{
    match typed_path::Utf8UnixPath::new(path).strip_prefix(prefix) {
        Ok(rest) => Some(rest.as_str().to_owned()),
        Err(_) => None,
    }
}

/// Relies on `typed_path::Utf8UnixPathBuf::push`: pushing a non-empty
/// relative path onto a non-empty base that does not end in a separator
/// appends one separator and the pushed string.
#[verifier::external_body]
pub(crate) fn unix_join(base: &str, name: &str) -> (r: String)
    ensures
        base@.len() > 0 && base@[base@.len() - 1] != '/' && name@.len() > 0 && name@[0] != '/'
            ==> r@ == base@ + seq!['/'] + name@,
{
    let mut p = typed_path::Utf8UnixPathBuf::from(base);
    p.push(name);
    p.into_string()
}

/// Index of the last `/` in `s`, or -1 when there is none.
pub open spec fn last_slash(s: Seq<char>) -> int
    decreases s.len(),
{
    if s.len() == 0 {
        -1
    } else if s.last() == '/' {
        s.len() - 1
    } else {
        last_slash(s.drop_last())
    }
}

/// The final component of a path: everything after the last separator.
pub open spec fn spec_file_name(s: Seq<char>) -> Seq<char> {
    s.skip(last_slash(s) + 1)
}

proof fn lemma_last_slash(s: Seq<char>)
    ensures
        -1 <= last_slash(s) < s.len(),
        last_slash(s) >= 0 ==> s[last_slash(s)] == '/',
        forall|k: int| last_slash(s) < k < s.len() ==> s[k] != '/',
    decreases s.len(),
{
    if s.len() > 0 && s.last() != '/' {
        lemma_last_slash(s.drop_last());
        assert forall|k: int| last_slash(s) < k < s.len() implies s[k] != '/' by {
            if k < s.len() - 1 {
                assert(s.drop_last()[k] == s[k]);
            }
        }
    }
}

/// The final component of a path (the entry name a root path carries).
pub fn path_file_name(s: &str) -> (r: String)
    ensures
        r@ == spec_file_name(s@),
{
    let n = s.unicode_len();
    let mut j: usize = 0;
    let mut i: usize = 0;
    while i < n
        invariant
            0 <= j <= i <= n,
            n == s@.len(),
            j > 0 ==> s@[j - 1] == '/',
            forall|k: int| j <= k < i ==> s@[k] != '/',
        decreases n - i,
    {
        if s.get_char(i) == '/' {
            j = i + 1;
        }
        i = i + 1;
    }
    proof {
        lemma_last_slash(s@);
        if j > 0 {
            assert(s@[j - 1] == '/');
            assert(last_slash(s@) == j - 1) by {
                if last_slash(s@) > j - 1 {
                    assert(s@[last_slash(s@)] != '/');
                }
            }
        } else {
            assert(last_slash(s@) == -1) by {
                if last_slash(s@) >= 0 {
                    assert(s@[last_slash(s@)] != '/');
                }
            }
        }
        assert(s@.subrange(j as int, n as int) =~= spec_file_name(s@));
    }
    let piece = s.substring_char(j, n);
    piece.to_owned()
}

} // verus!
