//! Common-path-prefix reduction.
//!
//! The receiver may strip the prefix that every manifest path shares, so a
//! tree sent under a deep directory lands relative to the working directory.
//! The prefix is the longest byte-wise common prefix of all paths, truncated
//! backward to end just after the last path separator inside it; without a
//! separator nothing is stripped, so a prefix never splits a path component.
//! Comparison is over raw path bytes, case-sensitive, and both `/` and `\`
//! count as separators.

use vstd::prelude::*;

use crate::manifest::{views_of, EntryModel, FileEntry};

verus! {

/// A path separator byte: forward slash or backslash.
pub open spec fn is_sep(b: u8) -> bool {
    b == 0x2f || b == 0x5c
}

/// The paths of a sequence of entries.
pub open spec fn paths_of(es: Seq<EntryModel>) -> Seq<Seq<u8>> {
    es.map_values(|e: EntryModel| e.path)
}

/// Length of the longest common prefix of two byte strings.
pub open spec fn lcp2_len(a: Seq<u8>, b: Seq<u8>) -> int
    decreases a.len(),
{
    if a.len() == 0 || b.len() == 0 || a[0] != b[0] {
        0
    } else {
        1 + lcp2_len(a.skip(1), b.skip(1))
    }
}

/// The running common prefix of all paths, folded in order: the first path,
/// shrunk against each later path.
pub open spec fn spec_common_prefix(paths: Seq<Seq<u8>>) -> Seq<u8>
    decreases paths.len(),
{
    if paths.len() == 0 {
        Seq::empty()
    } else if paths.len() == 1 {
        paths[0]
    } else {
        let p = spec_common_prefix(paths.drop_last());
        p.take(lcp2_len(p, paths.last()))
    }
}

/// Index just past the last separator of `p`, or 0 when `p` has none.
pub open spec fn spec_boundary_len(p: Seq<u8>) -> int
    decreases p.len(),
{
    if p.len() == 0 {
        0
    } else if is_sep(p.last()) {
        p.len() as int
    } else {
        spec_boundary_len(p.drop_last())
    }
}

/// How many leading bytes the receiver removes from every path: the
/// separator-aligned common prefix when stripping was requested, otherwise
/// nothing.
pub open spec fn spec_strip_len(paths: Seq<Seq<u8>>, strip: bool) -> int {
    if strip {
        spec_boundary_len(spec_common_prefix(paths))
    } else {
        0
    }
}

/// What `lcp2_len` returns: a common-prefix length that cannot be extended.
pub proof fn lemma_lcp2_char(a: Seq<u8>, b: Seq<u8>)
    ensures
        0 <= lcp2_len(a, b) <= a.len(),
        lcp2_len(a, b) <= b.len(),
        forall|k: int| 0 <= k < lcp2_len(a, b) ==> a[k] == b[k],
        lcp2_len(a, b) < a.len() && lcp2_len(a, b) < b.len() ==> a[lcp2_len(a, b)] != b[lcp2_len(
            a,
            b,
        )],
    decreases a.len(),
{
    if !(a.len() == 0 || b.len() == 0 || a[0] != b[0]) {
        lemma_lcp2_char(a.skip(1), b.skip(1));
        let n = lcp2_len(a, b);
        assert(forall|k: int| 1 <= k < n ==> a[k] == a.skip(1)[k - 1] && b[k] == b.skip(1)[k - 1]);
        if n < a.len() && n < b.len() {
            assert(a[n] == a.skip(1)[n - 1] && b[n] == b.skip(1)[n - 1]);
        }
    }
}

/// A length that marks a common prefix and cannot be extended is exactly
/// `lcp2_len`.
pub proof fn lemma_lcp2_unique(a: Seq<u8>, b: Seq<u8>, n: int)
    requires
        0 <= n <= a.len(),
        n <= b.len(),
        forall|k: int| 0 <= k < n ==> a[k] == b[k],
        n == a.len() || n == b.len() || a[n] != b[n],
    ensures
        n == lcp2_len(a, b),
    decreases a.len(),
{
    if a.len() == 0 || b.len() == 0 || a[0] != b[0] {
        if n > 0 {
            assert(a[0] == b[0]);
        }
    } else {
        if n == 0 {
            assert(false);
        } else {
            lemma_lcp2_unique(a.skip(1), b.skip(1), n - 1);
        }
    }
}

/// The folded common prefix is a prefix of every path.
pub proof fn lemma_common_prefix_is_prefix(paths: Seq<Seq<u8>>)
    requires
        paths.len() > 0,
    ensures
        forall|i: int|
            0 <= i < paths.len() ==> spec_common_prefix(paths).len() <= (#[trigger] paths[i]).len()
                && paths[i].take(spec_common_prefix(paths).len() as int) == spec_common_prefix(
                paths,
            ),
    decreases paths.len(),
{
    let c = spec_common_prefix(paths);
    if paths.len() == 1 {
        assert(paths[0].take(paths[0].len() as int) =~= paths[0]);
    } else {
        let front = paths.drop_last();
        let p = spec_common_prefix(front);
        lemma_common_prefix_is_prefix(front);
        lemma_lcp2_char(p, paths.last());
        let n = lcp2_len(p, paths.last());
        assert(c == p.take(n));
        assert forall|i: int|
            0 <= i < paths.len() implies c.len() <= (#[trigger] paths[i]).len() && paths[i].take(
            c.len() as int,
        ) == c by {
            if i < paths.len() - 1 {
                assert(front[i] == paths[i]);
                assert(paths[i].take(p.len() as int) == p);
                assert(paths[i].take(n) =~= p.take(n)) by {
                    assert(forall|k: int| 0 <= k < n ==> paths[i][k] == p[k]);
                }
            } else {
                assert(paths[i] == paths.last());
                assert(paths[i].take(n) =~= p.take(n)) by {
                    assert(forall|k: int| 0 <= k < n ==> paths[i][k] == p[k]);
                }
            }
        }
    }
}

/// No longer common prefix exists: any length on which all paths agree is at
/// most the folded common prefix's length.
pub proof fn lemma_common_prefix_longest(paths: Seq<Seq<u8>>, l2: int)
    requires
        paths.len() > 0,
        0 <= l2,
        forall|i: int|
            0 <= i < paths.len() ==> l2 <= (#[trigger] paths[i]).len() && paths[i].take(l2)
                == paths[0].take(l2),
    ensures
        l2 <= spec_common_prefix(paths).len(),
    decreases paths.len(),
{
    if paths.len() > 1 {
        let front = paths.drop_last();
        let p = spec_common_prefix(front);
        assert(forall|i: int|
            0 <= i < front.len() ==> l2 <= (#[trigger] front[i]).len() && front[i].take(l2)
                == front[0].take(l2)) by {
            assert(forall|i: int| 0 <= i < front.len() ==> front[i] == paths[i]);
        }
        lemma_common_prefix_longest(front, l2);
        lemma_common_prefix_is_prefix(front);
        lemma_lcp2_char(p, paths.last());
        let n = lcp2_len(p, paths.last());
        if n < l2 {
            // the paths still agree at position n, so the fold could not
            // have stopped there
            assert(p.take(l2) =~= paths[0].take(l2)) by {
                assert(paths[0].take(p.len() as int) == p);
                assert(forall|k: int| 0 <= k < l2 ==> p[k] == paths[0][k]);
            }
            assert(paths.last() == paths[paths.len() - 1]);
            assert(paths.last().take(l2) == paths[0].take(l2));
            assert(p[n] == paths[0].take(l2)[n]);
            assert(paths.last()[n] == paths.last().take(l2)[n]);
            assert(false);
        }
    }
}

/// What the separator boundary marks: it sits just past a separator, and no
/// separator follows it.
pub proof fn lemma_boundary_char(p: Seq<u8>)
    ensures
        0 <= spec_boundary_len(p) <= p.len(),
        spec_boundary_len(p) > 0 ==> is_sep(p[spec_boundary_len(p) - 1]),
        forall|k: int| spec_boundary_len(p) <= k < p.len() ==> !is_sep(p[k]),
    decreases p.len(),
{
    if p.len() > 0 && !is_sep(p.last()) {
        lemma_boundary_char(p.drop_last());
        assert(forall|k: int| 0 <= k < p.len() - 1 ==> p.drop_last()[k] == p[k]);
    }
}

/// Law: for any non-empty set of paths, the computed strip length marks a
/// prefix of every path that ends exactly at a separator, no longer
/// separator-aligned common prefix exists, and stripping then re-joining
/// reconstructs every path.
pub proof fn lemma_common_prefix_invariant(paths: Seq<Seq<u8>>)
    requires
        paths.len() > 0,
    ensures
        ({
            let c = spec_common_prefix(paths);
            let l = spec_boundary_len(c);
            &&& 0 <= l <= c.len()
            &&& forall|i: int| 0 <= i < paths.len() ==> l <= (#[trigger] paths[i]).len()
            &&& forall|i: int|
                0 <= i < paths.len() ==> (#[trigger] paths[i]).take(l) == paths[0].take(l)
            &&& (l > 0 ==> is_sep(paths[0][l - 1]))
            &&& forall|l2: int|
                {
                    &&& 0 < l2
                    &&& (forall|i: int|
                        0 <= i < paths.len() ==> l2 <= (#[trigger] paths[i]).len() && paths[i].take(
                            l2,
                        ) == paths[0].take(l2))
                    &&& #[trigger] is_sep(paths[0][l2 - 1])
                } ==> l2 <= l
            &&& forall|i: int|
                0 <= i < paths.len() ==> paths[0].take(l) + (#[trigger] paths[i]).skip(l)
                    == paths[i]
        }),
{
    let c = spec_common_prefix(paths);
    let l = spec_boundary_len(c);
    lemma_common_prefix_is_prefix(paths);
    lemma_boundary_char(c);
    assert forall|i: int| 0 <= i < paths.len() implies (#[trigger] paths[i]).take(l) == paths[0].take(
        l,
    ) by {
        assert(paths[i].take(c.len() as int) == c);
        assert(paths[0].take(c.len() as int) == c);
        assert(paths[i].take(l) =~= paths[0].take(l)) by {
            assert(forall|k: int| 0 <= k < l ==> paths[i][k] == c[k] && paths[0][k] == c[k]);
        }
    }
    if l > 0 {
        assert(paths[0].take(c.len() as int) == c);
        assert(paths[0][l - 1] == c[l - 1]);
    }
    assert forall|l2: int|
        {
            &&& 0 < l2
            &&& (forall|i: int|
                0 <= i < paths.len() ==> l2 <= (#[trigger] paths[i]).len() && paths[i].take(l2)
                    == paths[0].take(l2))
            &&& #[trigger] is_sep(paths[0][l2 - 1])
        } implies l2 <= l by {
        lemma_common_prefix_longest(paths, l2);
        if l2 > l {
            // position l2 - 1 lies inside the common prefix past the last
            // separator, yet holds a separator
            assert(paths[0].take(c.len() as int) == c);
            assert(c[l2 - 1] == paths[0][l2 - 1]);
            assert(!is_sep(c[l2 - 1]));
        }
    }
    assert forall|i: int| 0 <= i < paths.len() implies paths[0].take(l) + (#[trigger] paths[i]).skip(
        l,
    ) == paths[i] by {
        assert(paths[i].take(l) == paths[0].take(l));
        assert(paths[i].take(l) + paths[i].skip(l) =~= paths[i]);
    }
}

/// Separator test on one byte.
fn sep_byte(b: u8) -> (r: bool)
    ensures
        r == is_sep(b),
{
    b == 0x2f || b == 0x5c
}

/// How many leading bytes to strip from every path: the separator-aligned
/// common prefix of all entry paths when stripping was requested, else 0.
pub fn common_prefix_len(entries: &Vec<FileEntry>, strip: bool) -> (n: usize)
    ensures
        n == spec_strip_len(paths_of(views_of(entries@)), strip),
        forall|i: int| 0 <= i < entries@.len() ==> n <= (#[trigger] entries@[i])@.path.len(),
{
    let ghost paths = paths_of(views_of(entries@));
    assert(forall|i: int| 0 <= i < entries@.len() ==> paths[i] == (#[trigger] entries@[i])@.path);
    if !strip || entries.len() == 0 {
        return 0;
    }
    let first = &entries[0].path;
    let mut plen: usize = first.len();
    assert(paths.take(1)[0] == paths[0]);
    assert(first@.take(plen as int) =~= paths[0]);
    let mut j: usize = 1;
    while j < entries.len()
        invariant
            1 <= j <= entries@.len(),
            paths == paths_of(views_of(entries@)),
            paths.len() == entries@.len(),
            forall|i: int| 0 <= i < entries@.len() ==> paths[i] == (#[trigger] entries@[i])@.path,
            first@ == paths[0],
            plen <= first@.len(),
            spec_common_prefix(paths.take(j as int)) == first@.take(plen as int),
        decreases entries@.len() - j,
    {
        let q = &entries[j].path;
        let ghost p = first@.take(plen as int);
        let mut k: usize = 0;
        while k < plen && k < q.len() && first[k] == q[k]
            invariant
                0 <= k <= plen,
                k <= q@.len(),
                plen <= first@.len(),
                forall|t: int| 0 <= t < k ==> first@[t] == q@[t],
            decreases plen - k,
        {
            k = k + 1;
        }
        proof {
            assert(forall|t: int| 0 <= t < k ==> p[t] == q@[t]);
            assert(k == p.len() || k == q@.len() || p[k as int] != q@[k as int]);
            lemma_lcp2_unique(p, q@, k as int);
            assert(paths.take(j + 1).drop_last() =~= paths.take(j as int));
            assert(paths.take(j + 1).last() == paths[j as int]);
            assert(paths[j as int] == q@);
            assert(spec_common_prefix(paths.take(j + 1)) == p.take(k as int));
            assert(p.take(k as int) =~= first@.take(k as int));
        }
        plen = k;
        j = j + 1;
    }
    assert(paths.take(entries@.len() as int) =~= paths);
    // truncate back to just past the last separator
    let ghost c = first@.take(plen as int);
    let mut bnd: usize = plen;
    loop
        invariant
            0 <= bnd <= plen,
            plen <= first@.len(),
            c == first@.take(plen as int),
            spec_boundary_len(c) == spec_boundary_len(first@.take(bnd as int)),
        ensures
            bnd == spec_boundary_len(c),
        decreases bnd,
    {
        if bnd == 0 {
            assert(first@.take(0).len() == 0);
            assert(spec_boundary_len(first@.take(0)) == 0);
            break ;
        }
        if sep_byte(first[bnd - 1]) {
            assert(first@.take(bnd as int).last() == first@[bnd - 1]);
            assert(spec_boundary_len(first@.take(bnd as int)) == bnd);
            break ;
        }
        assert(first@.take(bnd as int).drop_last() =~= first@.take(bnd - 1));
        assert(!is_sep(first@.take(bnd as int).last()));
        bnd = bnd - 1;
    }
    proof {
        lemma_common_prefix_is_prefix(paths);
        assert(forall|i: int| 0 <= i < paths.len() ==> c.len() <= (#[trigger] paths[i]).len());
        lemma_boundary_char(c);
    }
    bnd
}

} // verus!
