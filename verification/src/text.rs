//! Character-sequence utilities: the identifier-reference marker, line and
//! whitespace handling, and the path algebra (join, prefix stripping, file
//! names) that the collector and the migration engine share.

use vstd::prelude::*;
use vstd::string::*;

verus! {

/// The marker text that precedes an identifier value, both in metadata
/// files and inside asset payloads.
pub open spec fn guid_marker() -> Seq<char> {
    seq!['g', 'u', 'i', 'd', ':', ' ']
}

/// The suffix that names the sidecar metadata file of an asset.
pub open spec fn meta_suffix() -> Seq<char> {
    seq!['.', 'm', 'e', 't', 'a']
}

/// The marker occurs in `s` at position `i`.
pub open spec fn occ_at(s: Seq<char>, i: int) -> bool {
    0 <= i && i + 6 <= s.len() && s.subrange(i, i + 6) == guid_marker()
}

/// Position of the first marker occurrence at or after `i`, if any.
pub open spec fn find_marker_from(s: Seq<char>, i: int) -> Option<int>
    decreases s.len() - i,
{
    if i < 0 || i + 6 > s.len() {
        None
    } else if occ_at(s, i) {
        Some(i)
    } else {
        find_marker_from(s, i + 1)
    }
}

/// Position of the first newline at or after `i`, or the length of `s`.
pub open spec fn newline_from(s: Seq<char>, i: int) -> int
    decreases s.len() - i,
{
    if i < 0 {
        0
    } else if i >= s.len() {
        s.len() as int
    } else if s[i] == '\n' {
        i
    } else {
        newline_from(s, i + 1)
    }
}

/// The whitespace characters stripped from an identifier value.
pub open spec fn is_space(c: char) -> bool {
    c == ' ' || c == '\t' || c == '\r' || c == '\n' || c == '\u{b}' || c == '\u{c}'
}

/// `s` without its leading whitespace.
pub open spec fn trim_start_spec(s: Seq<char>) -> Seq<char>
    decreases s.len(),
{
    if s.len() == 0 {
        s
    } else if is_space(s[0]) {
        trim_start_spec(s.drop_first())
    } else {
        s
    }
}

/// `s` without its trailing whitespace.
pub open spec fn trim_end_spec(s: Seq<char>) -> Seq<char>
    decreases s.len(),
{
    if s.len() == 0 {
        s
    } else if is_space(s.last()) {
        trim_end_spec(s.drop_last())
    } else {
        s
    }
}

/// `s` without leading and trailing whitespace.
pub open spec fn trim_spec(s: Seq<char>) -> Seq<char> {
    trim_end_spec(trim_start_spec(s))
}

/// `s` ends with `suffix`.
pub open spec fn ends_with_seq(s: Seq<char>, suffix: Seq<char>) -> bool {
    suffix.len() <= s.len() && s.subrange(s.len() - suffix.len(), s.len() as int) == suffix
}

/// `s` starts with `prefix`.
pub open spec fn starts_with_seq(s: Seq<char>, prefix: Seq<char>) -> bool {
    prefix.len() <= s.len() && s.subrange(0, prefix.len() as int) == prefix
}

/// Joining a directory and an entry name with a separator, as the export
/// tree's paths are formed.
pub open spec fn join_seq(a: Seq<char>, b: Seq<char>) -> Seq<char> {
    if a.len() == 0 {
        b
    } else if a.last() == '/' {
        a + b
    } else {
        a + seq!['/'] + b
    }
}

/// The path `dir` relative to the tree root `root`: what remains of `dir`
/// after the root and one following separator are removed.
pub open spec fn strip_root_spec(dir: Seq<char>, root: Seq<char>) -> Seq<char> {
    let rest = dir.skip(root.len() as int);
    if rest.len() > 0 && rest[0] == '/' {
        rest.drop_first()
    } else {
        rest
    }
}

/// The final component of a path: the characters after the last separator.
pub open spec fn file_name_spec(p: Seq<char>) -> Seq<char>
    decreases p.len(),
{
    if p.len() == 0 {
        Seq::empty()
    } else if p.last() == '/' {
        Seq::empty()
    } else {
        file_name_spec(p.drop_last()).push(p.last())
    }
}

/// The path `p` without its final component and the separator before it.
pub open spec fn parent_spec(p: Seq<char>) -> Seq<char>
    decreases p.len(),
{
    if p.len() == 0 {
        Seq::empty()
    } else if p.last() == '/' {
        p.drop_last()
    } else {
        parent_spec(p.drop_last())
    }
}

/// The views of a sequence of strings.
pub open spec fn string_views(s: Seq<String>) -> Seq<Seq<char>> {
    s.map_values(|x: String| x@)
}

/// Whether the marker occurs at position `i` of `s`.
pub fn marker_at(s: &str, i: usize) -> (r: bool)
    requires
        i + 6 <= s@.len(),
        s@.len() <= usize::MAX,
    ensures
        r == occ_at(s@, i as int),
{
    let r = s.get_char(i) == 'g' && s.get_char(i + 1) == 'u' && s.get_char(i + 2) == 'i'
        && s.get_char(i + 3) == 'd' && s.get_char(i + 4) == ':' && s.get_char(i + 5) == ' ';
    proof {
        if r {
            assert(s@.subrange(i as int, i + 6) =~= guid_marker());
        } else {
            assert(s@.subrange(i as int, i + 6) != guid_marker()) by {
                if s@.subrange(i as int, i + 6) == guid_marker() {
                    assert(s@[i as int] == guid_marker()[0]);
                    assert(s@[i + 1] == guid_marker()[1]);
                    assert(s@[i + 2] == guid_marker()[2]);
                    assert(s@[i + 3] == guid_marker()[3]);
                    assert(s@[i + 4] == guid_marker()[4]);
                    assert(s@[i + 5] == guid_marker()[5]);
                }
            }
        }
    }
    r
}

/// Finds the first marker occurrence at or after `from`.
pub fn find_marker(s: &str, from: usize) -> (r: Option<usize>)
    requires
        from <= s@.len(),
    ensures
        s@.len() <= usize::MAX,
        match r {
            Some(p) => find_marker_from(s@, from as int) == Some(p as int) && p + 6 <= s@.len(),
            None => find_marker_from(s@, from as int) is None,
        },
{
    let n = s.unicode_len();
    if n < 6 {
        return None;
    }
    let limit = n - 6;
    let mut i: usize = from;
    while i <= limit
        invariant
            from <= i <= n,
            n == s@.len(),
            n >= 6,
            limit == n - 6,
            find_marker_from(s@, from as int) == find_marker_from(s@, i as int),
        decreases n - i,
    {
        if marker_at(s, i) {
            return Some(i);
        }
        i = i + 1;
    }
    None
}

/// Finds the first newline at or after `from`, or returns the length.
pub fn find_newline(s: &str, from: usize) -> (r: usize)
    requires
        from <= s@.len(),
    ensures
        r == newline_from(s@, from as int),
        from <= r <= s@.len(),
{
    let n = s.unicode_len();
    let mut i: usize = from;
    while i < n
        invariant
            from <= i <= n,
            n == s@.len(),
            newline_from(s@, from as int) == newline_from(s@, i as int),
        decreases n - i,
    {
        if s.get_char(i) == '\n' {
            return i;
        }
        i = i + 1;
    }
    n
}

/// Whether two strings hold the same characters.
pub fn str_eq(a: &str, b: &str) -> (r: bool)
    ensures
        r == (a@ == b@),
{
    let n = a.unicode_len();
    if n != b.unicode_len() {
        return false;
    }
    let mut i: usize = 0;
    while i < n
        invariant
            0 <= i <= n,
            n == a@.len() == b@.len(),
            forall|j: int| 0 <= j < i ==> a@[j] == b@[j],
        decreases n - i,
    {
        if a.get_char(i) != b.get_char(i) {
            return false;
        }
        i = i + 1;
    }
    proof {
        assert(a@ =~= b@);
    }
    true
}

/// Whether `s` ends with `suffix`.
pub fn ends_with(s: &str, suffix: &str) -> (r: bool)
    ensures
        r == ends_with_seq(s@, suffix@),
{
    let n = s.unicode_len();
    let m = suffix.unicode_len();
    if m > n {
        return false;
    }
    let mut i: usize = 0;
    while i < m
        invariant
            0 <= i <= m <= n,
            n == s@.len(),
            m == suffix@.len(),
            forall|j: int| 0 <= j < i ==> s@[n - m + j] == suffix@[j],
        decreases m - i,
    {
        if s.get_char(n - m + i) != suffix.get_char(i) {
            proof {
                assert(s@.subrange(n - m, n as int)[i as int] == s@[n - m + i]);
            }
            return false;
        }
        i = i + 1;
    }
    proof {
        assert(s@.subrange(n - m, n as int) =~= suffix@);
    }
    true
}

/// Whether `s` starts with `prefix`.
pub fn starts_with(s: &str, prefix: &str) -> (r: bool)
    ensures
        r == starts_with_seq(s@, prefix@),
{
    let n = s.unicode_len();
    let m = prefix.unicode_len();
    if m > n {
        return false;
    }
    let mut i: usize = 0;
    while i < m
        invariant
            0 <= i <= m <= n,
            n == s@.len(),
            m == prefix@.len(),
            forall|j: int| 0 <= j < i ==> s@[j] == prefix@[j],
        decreases m - i,
    {
        if s.get_char(i) != prefix.get_char(i) {
            proof {
                assert(s@.subrange(0, m as int)[i as int] == s@[i as int]);
            }
            return false;
        }
        i = i + 1;
    }
    proof {
        assert(s@.subrange(0, m as int) =~= prefix@);
    }
    true
}

/// Joins a directory path and an entry name with a separator.
pub fn join_path(a: &str, b: &str) -> (r: String)
    ensures
        r@ == join_seq(a@, b@),
{
    let n = a.unicode_len();
    if n == 0 {
        return b.to_owned();
    }
    let mut r = a.to_owned();
    if a.get_char(n - 1) != '/' {
        proof {
            reveal_strlit("/");
        }
        r.append("/");
    }
    r.append(b);
    r
}

/// Appends the metadata-file suffix to an asset path.
pub fn append_meta_suffix(s: &str) -> (r: String)
    ensures
        r@ == s@ + meta_suffix(),
{
    proof {
        reveal_strlit(".meta");
        assert(".meta"@ =~= meta_suffix());
    }
    let mut r = s.to_owned();
    r.append(".meta");
    r
}

/// Removes the root prefix and one following separator from `dir`.
pub fn strip_root(dir: &str, root: &str) -> (r: String)
    requires
        starts_with_seq(dir@, root@),
    ensures
        r@ == strip_root_spec(dir@, root@),
{
    let n = dir.unicode_len();
    let m = root.unicode_len();
    if m < n && dir.get_char(m) == '/' {
        let r = dir.substring_char(m + 1, n).to_owned();
        proof {
            assert(r@ =~= strip_root_spec(dir@, root@));
        }
        r
    } else {
        let r = dir.substring_char(m, n).to_owned();
        proof {
            assert(r@ =~= strip_root_spec(dir@, root@));
        }
        r
    }
}

/// The final component of the path `p`.
pub fn file_name(p: &str) -> (r: String)
    ensures
        r@ == file_name_spec(p@),
{
    let n = p.unicode_len();
    let mut k: usize = n;
    while k > 0 && p.get_char(k - 1) != '/'
        invariant
            0 <= k <= n,
            n == p@.len(),
            forall|i: int| k <= i < n ==> p@[i] != '/',
        decreases k,
    {
        k = k - 1;
    }
    let r = p.substring_char(k, n).to_owned();
    proof {
        lemma_file_name_suffix(p@, k as int);
        assert(r@ =~= p@.skip(k as int));
    }
    r
}

/// If no separator stands at or after `k`, and a separator (or the start of
/// the path) stands just before `k`, the final component is the suffix
/// starting at `k`.
proof fn lemma_file_name_suffix(p: Seq<char>, k: int)
    requires
        0 <= k <= p.len(),
        forall|i: int| k <= i < p.len() ==> p[i] != '/',
        k == 0 || p[k - 1] == '/',
    ensures
        file_name_spec(p) =~= p.skip(k),
    decreases p.len(),
{
    if k == p.len() {
        if p.len() == 0 {
        } else {
            assert(p.last() == '/');
        }
        assert(p.skip(k) =~= Seq::<char>::empty());
    } else {
        assert(p.last() != '/');
        lemma_file_name_suffix(p.drop_last(), k);
        assert(p.drop_last().skip(k).push(p.last()) =~= p.skip(k));
    }
}

/// The path `p` without its final component.
pub fn parent_dir(p: &str) -> (r: String)
    ensures
        r@ == parent_spec(p@),
{
    let n = p.unicode_len();
    let mut k: usize = n;
    while k > 0 && p.get_char(k - 1) != '/'
        invariant
            0 <= k <= n,
            n == p@.len(),
            forall|i: int| k <= i < n ==> p@[i] != '/',
        decreases k,
    {
        k = k - 1;
    }
    if k == 0 {
        let r = String::new();
        proof {
            lemma_parent_prefix(p@, 0);
            assert(r@ =~= parent_spec(p@));
        }
        r
    } else {
        let r = p.substring_char(0, k - 1).to_owned();
        proof {
            lemma_parent_prefix(p@, k as int);
            assert(r@ =~= p@.take(k - 1));
        }
        r
    }
}

/// If no separator stands at or after `k`, and a separator (or the start of
/// the path) stands just before `k`, the parent is what precedes that
/// separator.
proof fn lemma_parent_prefix(p: Seq<char>, k: int)
    requires
        0 <= k <= p.len(),
        forall|i: int| k <= i < p.len() ==> p[i] != '/',
        k == 0 || p[k - 1] == '/',
    ensures
        parent_spec(p) =~= if k == 0 {
            Seq::<char>::empty()
        } else {
            p.take(k - 1)
        },
    decreases p.len(),
{
    if k == p.len() {
        if p.len() == 0 {
        } else {
            assert(p.last() == '/');
            assert(p.drop_last() =~= p.take(k - 1));
        }
    } else {
        assert(p.last() != '/');
        lemma_parent_prefix(p.drop_last(), k);
        if k > 0 {
            assert(p.drop_last().take(k - 1) =~= p.take(k - 1));
        }
    }
}

/// The characters of a string, as a vector.
pub fn str_to_chars(s: &str) -> (r: Vec<char>)
    ensures
        r@ == s@,
{
    let n = s.unicode_len();
    let mut r: Vec<char> = Vec::new();
    let mut i: usize = 0;
    while i < n
        invariant
            0 <= i <= n,
            n == s@.len(),
            r@ =~= s@.take(i as int),
        decreases n - i,
    {
        r.push(s.get_char(i));
        proof {
            assert(r@ =~= s@.take(i + 1));
        }
        i = i + 1;
    }
    proof {
        assert(s@.take(n as int) =~= s@);
    }
    r
}

/// Trims the slice of `s` between `from` and `to`, returning it as a string.
pub fn trim_substring(s: &str, from: usize, to: usize) -> (r: String)
    requires
        from <= to <= s@.len(),
    ensures
        r@ == trim_spec(s@.subrange(from as int, to as int)),
{
    let mut lo: usize = from;
    while lo < to && is_space_char(s.get_char(lo))
        invariant
            from <= lo <= to <= s@.len(),
            forall|i: int| from <= i < lo ==> is_space(s@[i]),
        decreases to - lo,
    {
        lo = lo + 1;
    }
    let mut hi: usize = to;
    while hi > lo && is_space_char(s.get_char(hi - 1))
        invariant
            from <= lo <= hi <= to <= s@.len(),
            forall|i: int| from <= i < lo ==> is_space(s@[i]),
            forall|i: int| hi <= i < to ==> is_space(s@[i]),
        decreases hi,
    {
        hi = hi - 1;
    }
    let r = s.substring_char(lo, hi).to_owned();
    proof {
        let t = s@.subrange(from as int, to as int);
        lemma_trim_start_skip(t, lo - from);
        let u = t.skip(lo - from);
        lemma_trim_end_take(u, hi - lo);
        assert(u.take(hi - lo) =~= s@.subrange(lo as int, hi as int));
    }
    r
}

/// Whether one character is whitespace.
pub fn is_space_char(c: char) -> (r: bool)
    ensures
        r == is_space(c),
{
    c == ' ' || c == '\t' || c == '\r' || c == '\n' || c == '\u{b}' || c == '\u{c}'
}

/// Trimming the start removes exactly the leading run of whitespace.
proof fn lemma_trim_start_skip(s: Seq<char>, lo: int)
    requires
        0 <= lo <= s.len(),
        forall|i: int| 0 <= i < lo ==> is_space(s[i]),
        lo == s.len() || !is_space(s[lo]),
    ensures
        trim_start_spec(s) =~= s.skip(lo),
    decreases lo,
{
    if lo == 0 {
        assert(s.skip(0) =~= s);
    } else {
        assert(is_space(s[0]));
        lemma_trim_start_skip(s.drop_first(), lo - 1);
        assert(s.drop_first().skip(lo - 1) =~= s.skip(lo));
    }
}

/// Trimming the end removes exactly the trailing run of whitespace.
proof fn lemma_trim_end_take(s: Seq<char>, hi: int)
    requires
        0 <= hi <= s.len(),
        forall|i: int| hi <= i < s.len() ==> is_space(s[i]),
        hi == 0 || !is_space(s[hi - 1]),
    ensures
        trim_end_spec(s) =~= s.take(hi),
    decreases s.len() - hi,
{
    if hi == s.len() {
        if hi == 0 {
        } else {
            assert(!is_space(s.last()));
        }
        assert(s.take(hi) =~= s);
    } else {
        assert(is_space(s.last()));
        lemma_trim_end_take(s.drop_last(), hi);
        assert(s.drop_last().take(hi) =~= s.take(hi));
    }
}

} // verus!
