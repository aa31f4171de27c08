use vstd::prelude::*;

verus! {

/// A directory separator of either convention.
pub open spec fn is_sep(c: char) -> bool {
    c == '/' || c == '\\'
}

/// Index of the last directory separator in `p`, or -1 when there is none.
pub open spec fn last_sep(p: Seq<char>) -> int
    decreases p.len(),
{
    if p.len() == 0 {
        -1
    } else if is_sep(p.last()) {
        p.len() - 1
    } else {
        last_sep(p.drop_last())
    }
}

/// Index of the last `.` in `s`, or -1 when there is none.
pub open spec fn last_dot(s: Seq<char>) -> int
    decreases s.len(),
{
    if s.len() == 0 {
        -1
    } else if s.last() == '.' {
        s.len() - 1
    } else {
        last_dot(s.drop_last())
    }
}

/// The directory part of a relative path (empty for a file at the root).
pub open spec fn parent_of(p: Seq<char>) -> Seq<char> {
    if last_sep(p) < 0 {
        Seq::empty()
    } else {
        p.subrange(0, last_sep(p))
    }
}

/// The file name: what follows the last separator.
pub open spec fn name_of(p: Seq<char>) -> Seq<char> {
    p.subrange(last_sep(p) + 1, p.len() as int)
}

/// The extension of a file name: what follows its last dot, where that dot
/// is not the first character.
pub open spec fn extension_of(name: Seq<char>) -> Option<Seq<char>> {
    if last_dot(name) > 0 {
        Some(name.subrange(last_dot(name) + 1, name.len() as int))
    } else {
        None
    }
}

/// The base name of a file name: the name without its extension.
pub open spec fn stem_of(name: Seq<char>) -> Seq<char> {
    if last_dot(name) > 0 {
        name.subrange(0, last_dot(name))
    } else {
        name
    }
}

/// `s` with every directory separator turned into `-`.
pub open spec fn dashed(s: Seq<char>) -> Seq<char> {
    s.map_values(|c: char| if is_sep(c) { '-' } else { c })
}

/// The registry key of the file at relative path `p`: its directories joined
/// by `-`, then `-` and its base name; for a file at the root, the base name.
pub open spec fn key_of(p: Seq<char>) -> Seq<char> {
    if parent_of(p).len() == 0 {
        stem_of(name_of(p))
    } else {
        dashed(parent_of(p)) + seq!['-'] + stem_of(name_of(p))
    }
}

proof fn lemma_last_sep_bounds(p: Seq<char>)
    ensures
        -1 <= last_sep(p) < p.len(),
        last_sep(p) >= 0 ==> is_sep(p[last_sep(p)]),
        forall|i: int| last_sep(p) < i < p.len() ==> !is_sep(#[trigger] p[i]),
    decreases p.len(),
{
    if p.len() > 0 && !is_sep(p.last()) {
        lemma_last_sep_bounds(p.drop_last());
        assert(forall|i: int| 0 <= i < p.len() - 1 ==> p.drop_last()[i] == p[i]);
    }
}

proof fn lemma_last_dot_bounds(s: Seq<char>)
    ensures
        -1 <= last_dot(s) < s.len(),
        last_dot(s) >= 0 ==> s[last_dot(s)] == '.',
        forall|i: int| last_dot(s) < i < s.len() ==> #[trigger] s[i] != '.',
    decreases s.len(),
{
    if s.len() > 0 && s.last() != '.' {
        lemma_last_dot_bounds(s.drop_last());
        assert(forall|i: int| 0 <= i < s.len() - 1 ==> s.drop_last()[i] == s[i]);
    }
}

/// `s` holds no `-`.
pub open spec fn no_dash(s: Seq<char>) -> bool {
    forall|i: int| 0 <= i < s.len() ==> #[trigger] s[i] != '-'
}

proof fn lemma_stem_no_dash(p: Seq<char>)
    requires
        no_dash(p),
    ensures
        no_dash(stem_of(name_of(p))),
{
    lemma_last_sep_bounds(p);
    let name = name_of(p);
    lemma_last_dot_bounds(name);
    let stem = stem_of(name);
    assert forall|i: int| 0 <= i < stem.len() implies #[trigger] stem[i] != '-' by {
        assert(stem[i] == name[i]);
        assert(name[i] == p[last_sep(p) + 1 + i]);
    }
}

/// Keys tell element files apart: where no name in two relative paths holds
/// a `-`, the two paths get the same key only if they name the same
/// directory (up to the separator used) and the same base name, the one case
/// in which the later file replaces the earlier.
pub proof fn lemma_key_injective(p: Seq<char>, q: Seq<char>)
    requires
        no_dash(p),
        no_dash(q),
        key_of(p) == key_of(q),
    ensures
        dashed(parent_of(p)) == dashed(parent_of(q)),
        stem_of(name_of(p)) == stem_of(name_of(q)),
{
    lemma_stem_no_dash(p);
    lemma_stem_no_dash(q);
    let sp = stem_of(name_of(p));
    let sq = stem_of(name_of(q));
    let dp = dashed(parent_of(p));
    let dq = dashed(parent_of(q));
    let k = key_of(p);
    if parent_of(p).len() == 0 && parent_of(q).len() == 0 {
        assert(dp =~= dq);
    } else if parent_of(p).len() == 0 {
        assert(k[dq.len() as int] == '-');
        assert(k == sp);
    } else if parent_of(q).len() == 0 {
        assert(k[dp.len() as int] == '-');
        assert(k == sq);
    } else {
        assert(k == dp + seq!['-'] + sp);
        assert(k == dq + seq!['-'] + sq);
        if sp.len() < sq.len() {
            let j = k.len() - sp.len() - 1;
            assert(k[j] == '-');
            assert(k[j] == sq[j - dq.len() - 1]);
        } else if sq.len() < sp.len() {
            let j = k.len() - sq.len() - 1;
            assert(k[j] == '-');
            assert(k[j] == sp[j - dp.len() - 1]);
        } else {
            assert(dp =~= k.subrange(0, dp.len() as int));
            assert(dq =~= k.subrange(0, dq.len() as int));
            assert(sp =~= k.subrange(k.len() - sp.len(), k.len() as int));
            assert(sq =~= k.subrange(k.len() - sq.len(), k.len() as int));
        }
    }
}

proof fn lemma_last_sep_at(p: Seq<char>, j: int)
    requires
        0 <= j < p.len(),
        is_sep(p[j]),
        forall|i: int| j < i < p.len() ==> !is_sep(#[trigger] p[i]),
    ensures
        last_sep(p) == j,
    decreases p.len(),
{
    if j < p.len() - 1 {
        let d = p.drop_last();
        assert(forall|i: int| j < i < d.len() ==> #[trigger] d[i] == p[i]);
        lemma_last_sep_at(d, j);
    }
}

proof fn lemma_no_sep_last_sep(p: Seq<char>)
    requires
        forall|i: int| 0 <= i < p.len() ==> !is_sep(#[trigger] p[i]),
    ensures
        last_sep(p) == -1,
    decreases p.len(),
{
    if p.len() > 0 {
        let d = p.drop_last();
        assert(forall|i: int| 0 <= i < d.len() ==> #[trigger] d[i] == p[i]);
        lemma_no_sep_last_sep(d);
    }
}

/// A file name: no directory separator in it.
pub open spec fn bare_name(f: Seq<char>) -> bool {
    forall|i: int| 0 <= i < f.len() ==> !is_sep(#[trigger] f[i])
}

/// A file under directories `dir` (not empty) with file name `f` is keyed by
/// its directories joined with `-`, then `-` and the base name of `f`:
/// `sub/dir/name.html` gets `sub-dir-name`.
pub proof fn lemma_key_nested(dir: Seq<char>, f: Seq<char>)
    requires
        dir.len() > 0,
        bare_name(f),
    ensures
        key_of(dir + seq!['/'] + f) == dashed(dir) + seq!['-'] + stem_of(f),
{
    let p = dir + seq!['/'] + f;
    assert forall|i: int| dir.len() < i < p.len() implies !is_sep(#[trigger] p[i]) by {
        assert(p[i] == f[i - dir.len() - 1]);
    }
    lemma_last_sep_at(p, dir.len() as int);
    assert(parent_of(p) =~= dir);
    assert(name_of(p) =~= f);
}

/// A file directly at the root with file name `f` is keyed by the base name
/// of `f`, with no `-` added: `name.js` gets `name`.
pub proof fn lemma_key_at_root(f: Seq<char>)
    requires
        bare_name(f),
    ensures
        key_of(f) == stem_of(f),
{
    lemma_no_sep_last_sep(f);
    assert(name_of(f) =~= f);
}

/// Finds the index of the last directory separator in `s`.
fn find_last_sep(s: &str) -> (r: Option<usize>)
    ensures
        match r {
            Some(i) => last_sep(s@) == i as int,
            None => last_sep(s@) == -1,
        },
{
    let n = s.unicode_len();
    let mut i: usize = n;
    assert(s@.subrange(0, n as int) =~= s@);
    while i > 0
        invariant
            i <= n,
            n == s@.len(),
            last_sep(s@) == last_sep(s@.subrange(0, i as int)),
        decreases i,
    {
        let c = s.get_char(i - 1);
        assert(s@.subrange(0, i as int).drop_last() =~= s@.subrange(0, i - 1));
        if c == '/' || c == '\\' {
            return Some(i - 1);
        }
        i = i - 1;
    }
    None
}

/// Finds the index of the last `.` in `s`.
fn find_last_dot(s: &str) -> (r: Option<usize>)
    ensures
        match r {
            Some(i) => last_dot(s@) == i as int,
            None => last_dot(s@) == -1,
        },
{
    let n = s.unicode_len();
    let mut i: usize = n;
    assert(s@.subrange(0, n as int) =~= s@);
    while i > 0
        invariant
            i <= n,
            n == s@.len(),
            last_dot(s@) == last_dot(s@.subrange(0, i as int)),
        decreases i,
    {
        let c = s.get_char(i - 1);
        assert(s@.subrange(0, i as int).drop_last() =~= s@.subrange(0, i - 1));
        if c == '.' {
            return Some(i - 1);
        }
        i = i - 1;
    }
    None
}

/// The file name of a relative path.
pub fn file_name(relative: &str) -> (r: &str)
    ensures
        r@ == name_of(relative@),
{
    proof {
        lemma_last_sep_bounds(relative@);
    }
    let n = relative.unicode_len();
    match find_last_sep(relative) {
        Some(i) => relative.substring_char(i + 1, n),
        None => relative.substring_char(0, n),
    }
}

/// The extension of a file name, if it has one.
pub fn file_extension(name: &str) -> (r: Option<&str>)
    ensures
        match r {
            Some(e) => extension_of(name@) == Some(e@),
            None => extension_of(name@) is None,
        },
{
    proof {
        lemma_last_dot_bounds(name@);
    }
    let n = name.unicode_len();
    match find_last_dot(name) {
        Some(d) => {
            if d > 0 {
                Some(name.substring_char(d + 1, n))
            } else {
                None
            }
        },
        None => None,
    }
}

/// The base name of a file name: the name without its extension.
pub fn file_stem(name: &str) -> (r: &str)
    ensures
        r@ == stem_of(name@),
{
    proof {
        lemma_last_dot_bounds(name@);
    }
    let n = name.unicode_len();
    match find_last_dot(name) {
        Some(d) => {
            if d > 0 {
                name.substring_char(0, d)
            } else {
                name.substring_char(0, n)
            }
        },
        None => name.substring_char(0, n),
    }
}

/// Appends `s` to `out` with every directory separator turned into `-`.
fn push_dashed(out: &mut String, s: &str)
    ensures
        final(out)@ == old(out)@ + dashed(s@),
{
    let n = s.unicode_len();
    let mut i: usize = 0;
    while i < n
        invariant
            i <= n,
            n == s@.len(),
            out@ == old(out)@ + dashed(s@.subrange(0, i as int)),
        decreases n - i,
    {
        let c = s.get_char(i);
        if c == '/' || c == '\\' {
            out.append("-");
            proof {
                reveal_strlit("-");
            }
        } else {
            out.append(s.substring_char(i, i + 1));
        }
        assert(dashed(s@.subrange(0, i + 1)) =~= dashed(s@.subrange(0, i as int)) + dashed(
            s@.subrange(i as int, i + 1),
        ));
        i = i + 1;
    }
    assert(s@.subrange(0, n as int) =~= s@);
}

/// Derives the registry key of the file at `relative`, a path relative to the
/// registry root: its directories joined by `-`, then `-` and its base name;
/// for a file directly at the root, its base name alone.
pub fn generate_key(relative: &str) -> (key: String)
    ensures
        key@ == key_of(relative@),
{
    proof {
        lemma_last_sep_bounds(relative@);
    }
    let n = relative.unicode_len();
    let name = file_name(relative);
    let stem = file_stem(name);
    match find_last_sep(relative) {
        Some(i) if i > 0 => {
            let parent = relative.substring_char(0, i);
            let mut key = String::new();
            push_dashed(&mut key, parent);
            key.append("-");
            key.append(stem);
            proof {
                reveal_strlit("-");
                assert(key@ =~= key_of(relative@));
            }
            key
        },
        _ => {
            let key = String::from_str(stem);
            assert(parent_of(relative@).len() == 0);
            key
        },
    }
}

} // verus!
