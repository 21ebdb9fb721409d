//! Verified string helpers used by the synchronization engine.
//!
//! Paths in this engine are normalized forward-slash strings, so the engine's
//! own path arithmetic (relative-path keys, prefix tests) is plain string
//! work, stated over `Seq<char>` views.

use vstd::prelude::*;

verus! {

/// `pat` occurs as a contiguous substring of `s`.
pub open spec fn spec_contains(s: Seq<char>, pat: Seq<char>) -> bool {
    exists|i: int|
        0 <= i && i + pat.len() <= s.len() && #[trigger] s.subrange(i, i + pat.len()) == pat
}

/// Whether `p` is a string prefix of `s`.
pub fn str_starts_with(s: &str, p: &str) -> (r: bool)
    ensures
        r == p@.is_prefix_of(s@),
{
    let sn = s.unicode_len();
    let pn = p.unicode_len();
    if pn > sn {
        return false;
    }
    let mut i: usize = 0;
    while i < pn
        invariant
            0 <= i <= pn,
            pn == p@.len(),
            sn == s@.len(),
            pn <= sn,
            forall|k: int| 0 <= k < i ==> s@[k] == p@[k],
        decreases pn - i,
    {
        if s.get_char(i) != p.get_char(i) {
            assert(!p@.is_prefix_of(s@));
            return false;
        }
        i = i + 1;
    }
    assert(p@ =~= s@.subrange(0, pn as int));
    true
}

/// Whether the views of two string slices are equal.
pub fn str_eq(a: &str, b: &str) -> (r: bool)
    ensures
        r == (a@ == b@),
{
    let an = a.unicode_len();
    let bn = b.unicode_len();
    if an != bn {
        return false;
    }
    let mut i: usize = 0;
    while i < an
        invariant
            0 <= i <= an,
            an == a@.len(),
            bn == b@.len(),
            an == bn,
            forall|k: int| 0 <= k < i ==> a@[k] == b@[k],
        decreases an - i,
    {
        if a.get_char(i) != b.get_char(i) {
            assert(a@ != b@);
            return false;
        }
        i = i + 1;
    }
    assert(a@ =~= b@);
    true
}

/// First index `>= from` at which `c` occurs in `s`.
pub fn find_char_from(s: &str, c: char, from: usize) -> (r: Option<usize>)
    requires
        from <= s@.len(),
    ensures
        match r {
            Some(i) => from <= i < s@.len() && s@[i as int] == c && forall|k: int|
                from <= k < i ==> s@[k] != c,
            None => forall|k: int| from <= k < s@.len() ==> s@[k] != c,
        },
{
    let n = s.unicode_len();
    let mut i: usize = from;
    while i < n
        invariant
            from <= i <= n,
            n == s@.len(),
            forall|k: int| from <= k < i ==> s@[k] != c,
        decreases n - i,
    {
        if s.get_char(i) == c {
            return Some(i);
        }
        i = i + 1;
    }
    None
}

/// Whether `pat` occurs as a substring of `s`.
pub fn str_contains(s: &str, pat: &str) -> (r: bool)
    ensures
        r == spec_contains(s@, pat@),
{
    let sn = s.unicode_len();
    let pn = pat.unicode_len();
    if pn > sn {
        assert(!spec_contains(s@, pat@));
        return false;
    }
    if pn == 0 {
        assert(spec_contains(s@, pat@)) by {
            assert(s@.subrange(0, 0 + pat@.len() as int) =~= pat@);
        }
        return true;
    }
    let last = sn - pn;
    let mut i: usize = 0;
    while i <= last
        invariant
            0 <= i <= last + 1,
            last == sn - pn,
            1 <= pn,
            sn == s@.len(),
            pn == pat@.len(),
            pn <= sn,
            forall|k: int| 0 <= k < i ==> #[trigger] s@.subrange(k, k + pat@.len()) != pat@,
        decreases last + 1 - i,
    {
        let piece = s.substring_char(i, i + pn);
        if str_eq(piece, pat) {
            assert(s@.subrange(i as int, i + pat@.len()) == pat@);
            return true;
        }
        i = i + 1;
    }
    assert forall|k: int| 0 <= k && k + pat@.len() <= s@.len() implies #[trigger] s@.subrange(
        k,
        k + pat@.len(),
    ) != pat@ by {
        assert(k < i);
    }
    false
}

/// The relative-path key of a child entry: the parent's key extended by the
/// child's name, with no leading separator at the root.
pub open spec fn spec_rel_join(parent: Seq<char>, name: Seq<char>) -> Seq<char> {
    if parent.len() == 0 {
        name
    } else {
        parent + seq!['/'] + name
    }
}

/// Extend a relative-path key by one name.
pub fn rel_join(parent: &str, name: &str) -> (r: String)
    ensures
        r@ == spec_rel_join(parent@, name@),
{
    proof {
        reveal_strlit("/");
    }
    if parent.unicode_len() == 0 {
        name.to_owned()
    } else {
        let mut s = parent.to_owned();
        s.append("/");
        s.append(name);
        assert(s@ =~= spec_rel_join(parent@, name@));
        s
    }
}

/// First position at or after `i` holding `c`, or the length of `s` when
/// there is none.
pub open spec fn scan_to(s: Seq<char>, i: int, c: char) -> int
    decreases s.len() - i,
{
    if i >= s.len() {
        s.len() as int
    } else if s[i] == c {
        i
    } else {
        scan_to(s, i + 1, c)
    }
}

pub proof fn lemma_scan_to(s: Seq<char>, i: int, c: char)
    requires
        0 <= i <= s.len(),
    ensures
        i <= scan_to(s, i, c) <= s.len(),
        scan_to(s, i, c) < s.len() ==> s[scan_to(s, i, c)] == c,
        forall|k: int| i <= k < scan_to(s, i, c) ==> s[k] != c,
    decreases s.len() - i,
{
    if i < s.len() && s[i] != c {
        lemma_scan_to(s, i + 1, c);
    }
}

/// Find `scan_to` at run time.
pub fn find_to(s: &str, from: usize, c: char) -> (r: usize)
    requires
        from <= s@.len(),
    ensures
        r == scan_to(s@, from as int, c),
        from <= r <= s@.len(),
{
    proof {
        lemma_scan_to(s@, from as int, c);
    }
    match find_char_from(s, c, from) {
        Some(j) => {
            proof {
                let t = scan_to(s@, from as int, c);
                if t < j {
                    assert(s@[t] == c);
                } else if j < t {
                    assert(s@[j as int] != c);
                }
            }
            j
        },
        None => {
            proof {
                let t = scan_to(s@, from as int, c);
                if t < s@.len() {
                    assert(s@[t] != c);
                }
            }
            s.unicode_len()
        },
    }
}

/// A line with one trailing carriage return removed.
pub open spec fn strip_cr(line: Seq<char>) -> Seq<char> {
    if line.len() > 0 && line.last() == '\r' {
        line.drop_last()
    } else {
        line
    }
}

/// Cut the line `[from, to)` out of `s` and remove one trailing carriage
/// return.
pub fn cut_line(s: &str, from: usize, to: usize) -> (r: String)
    requires
        from <= to <= s@.len(),
    ensures
        r@ == strip_cr(s@.subrange(from as int, to as int)),
{
    let line = s.substring_char(from, to);
    let n = line.unicode_len();
    if n > 0 && line.get_char(n - 1) == '\r' {
        let cut = line.substring_char(0, n - 1);
        proof {
            assert(line@.subrange(0, n - 1) =~= line@.drop_last());
        }
        cut.to_owned()
    } else {
        line.to_owned()
    }
}

/// Some member of `prefixes` is a string prefix of `s`.
pub open spec fn spec_matches_any_prefix(s: Seq<char>, prefixes: Seq<Seq<char>>) -> bool {
    exists|i: int| 0 <= i < prefixes.len() && (#[trigger] prefixes[i]).is_prefix_of(s)
}

/// Whether any of `prefixes` is a string prefix of `s`.
pub fn matches_any_prefix(s: &str, prefixes: &Vec<String>) -> (r: bool)
    ensures
        r == spec_matches_any_prefix(s@, prefixes.deep_view()),
{
    let mut i: usize = 0;
    while i < prefixes.len()
        invariant
            0 <= i <= prefixes@.len(),
            forall|k: int|
                0 <= k < i ==> !(#[trigger] prefixes.deep_view()[k]).is_prefix_of(s@),
        decreases prefixes@.len() - i,
    {
        if str_starts_with(s, prefixes[i].as_str()) {
            assert(prefixes.deep_view()[i as int].is_prefix_of(s@));
            return true;
        }
        i = i + 1;
    }
    false
}

/// A valid entry name: one non-empty path component, no separator, and not
/// one of the two self-referential names.
pub open spec fn valid_name(name: Seq<char>) -> bool {
    &&& name.len() > 0
    &&& forall|i: int| 0 <= i < name.len() ==> name[i] != '/'
    &&& name != seq!['.']
    &&& name != seq!['.', '.']
}

/// Check `valid_name` at run time.
pub fn check_valid_name(name: &str) -> (r: bool)
    ensures
        r == valid_name(name@),
{
    let n = name.unicode_len();
    if n == 0 {
        return false;
    }
    if n == 1 && name.get_char(0) == '.' {
        assert(name@ =~= seq!['.']);
        return false;
    }
    if n == 2 && name.get_char(0) == '.' && name.get_char(1) == '.' {
        assert(name@ =~= seq!['.', '.']);
        return false;
    }
    let mut i: usize = 0;
    while i < n
        invariant
            0 <= i <= n,
            n == name@.len(),
            forall|k: int| 0 <= k < i ==> name@[k] != '/',
        decreases n - i,
    {
        if name.get_char(i) == '/' {
            return false;
        }
        i = i + 1;
    }
    assert(name@ != seq!['.']);
    assert(name@ != seq!['.', '.']);
    true
}

} // verus!
