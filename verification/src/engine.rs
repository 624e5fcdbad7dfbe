//! The diff engine: a longest-common-subsequence edit script over two line
//! sequences.  Lines present in both sequences along a longest common
//! subsequence are `Equal`; lines only in the old sequence are `Delete`;
//! lines only in the new one are `Insert`.

use vstd::prelude::*;
use vstd::pervasive::VecAdditionalExecFns;
use crate::text::{lines_view, line_eq, copy_chars};

verus! {

/// How one line of the inputs is classified.
#[derive(Clone, Copy, PartialEq, Eq, Structural, Debug)]
pub enum ChangeTag {
    Equal,
    Insert,
    Delete,
}

/// One entry of an edit script: a classification and the line it concerns,
/// terminator included.
pub struct Change {
    pub tag: ChangeTag,
    pub content: Vec<char>,
}

/// The mathematical model of a `Change`.
pub struct SpecChange {
    pub tag: ChangeTag,
    pub content: Seq<char>,
}

impl View for Change {
    type V = SpecChange;

    open spec fn view(&self) -> SpecChange {
        SpecChange { tag: self.tag, content: self.content@ }
    }
}

/// The view of a concrete edit script.
pub open spec fn script_view(s: Seq<Change>) -> Seq<SpecChange> {
    s.map_values(|c: Change| c@)
}

/// Length of a longest common subsequence of two line sequences.
pub open spec fn lcs_len(a: Seq<Seq<char>>, b: Seq<Seq<char>>) -> nat
    decreases a.len() + b.len(),
{
    if a.len() == 0 || b.len() == 0 {
        0
    } else if a[0] == b[0] {
        1 + lcs_len(a.skip(1), b.skip(1))
    } else {
        let del = lcs_len(a.skip(1), b);
        let ins = lcs_len(a, b.skip(1));
        if del >= ins {
            del
        } else {
            ins
        }
    }
}

proof fn lemma_lcs_len_bound(a: Seq<Seq<char>>, b: Seq<Seq<char>>)
    ensures
        lcs_len(a, b) <= a.len(),
        lcs_len(a, b) <= b.len(),
    decreases a.len() + b.len(),
{
    if a.len() == 0 || b.len() == 0 {
    } else if a[0] == b[0] {
        lemma_lcs_len_bound(a.skip(1), b.skip(1));
    } else {
        lemma_lcs_len_bound(a.skip(1), b);
        lemma_lcs_len_bound(a, b.skip(1));
    }
}

/// The edit script of two line sequences.  Matching head lines become
/// `Equal`; otherwise the head of one side is removed, following whichever
/// choice keeps the common subsequence longest, deletions first on a tie.
pub open spec fn script_of(a: Seq<Seq<char>>, b: Seq<Seq<char>>) -> Seq<SpecChange>
    decreases a.len() + b.len(),
{
    if a.len() == 0 && b.len() == 0 {
        Seq::empty()
    } else if a.len() > 0 && b.len() > 0 && a[0] == b[0] {
        seq![SpecChange { tag: ChangeTag::Equal, content: a[0] }] + script_of(
            a.skip(1),
            b.skip(1),
        )
    } else if a.len() > 0 && (b.len() == 0 || lcs_len(a.skip(1), b) >= lcs_len(a, b.skip(1))) {
        seq![SpecChange { tag: ChangeTag::Delete, content: a[0] }] + script_of(a.skip(1), b)
    } else {
        seq![SpecChange { tag: ChangeTag::Insert, content: b[0] }] + script_of(a, b.skip(1))
    }
}

/// The lines a script keeps from the old side: the contents of its `Delete`
/// and `Equal` changes, in order.
pub open spec fn old_side(s: Seq<SpecChange>) -> Seq<Seq<char>>
    decreases s.len(),
{
    if s.len() == 0 {
        Seq::empty()
    } else if s[0].tag is Insert {
        old_side(s.skip(1))
    } else {
        seq![s[0].content] + old_side(s.skip(1))
    }
}

/// The lines a script keeps from the new side: the contents of its `Insert`
/// and `Equal` changes, in order.
pub open spec fn new_side(s: Seq<SpecChange>) -> Seq<Seq<char>>
    decreases s.len(),
{
    if s.len() == 0 {
        Seq::empty()
    } else if s[0].tag is Delete {
        new_side(s.skip(1))
    } else {
        seq![s[0].content] + new_side(s.skip(1))
    }
}

/// Every line of both inputs is covered exactly once, in order: projecting
/// the script to its old side gives back the old lines, and to its new side
/// the new lines.
pub proof fn lemma_script_projections(a: Seq<Seq<char>>, b: Seq<Seq<char>>)
    ensures
        old_side(script_of(a, b)) == a,
        new_side(script_of(a, b)) == b,
    decreases a.len() + b.len(),
{
    if a.len() == 0 && b.len() == 0 {
        assert(old_side(script_of(a, b)) =~= a);
        assert(new_side(script_of(a, b)) =~= b);
    } else if a.len() > 0 && b.len() > 0 && a[0] == b[0] {
        lemma_script_projections(a.skip(1), b.skip(1));
        let c = SpecChange { tag: ChangeTag::Equal, content: a[0] };
        let s = seq![c] + script_of(a.skip(1), b.skip(1));
        assert(s[0] == c);
        assert(s.skip(1) =~= script_of(a.skip(1), b.skip(1)));
        assert(old_side(s) =~= a);
        assert(new_side(s) =~= b);
    } else if a.len() > 0 && (b.len() == 0 || lcs_len(a.skip(1), b) >= lcs_len(a, b.skip(1))) {
        lemma_script_projections(a.skip(1), b);
        let c = SpecChange { tag: ChangeTag::Delete, content: a[0] };
        let s = seq![c] + script_of(a.skip(1), b);
        assert(s[0] == c);
        assert(s.skip(1) =~= script_of(a.skip(1), b));
        assert(old_side(s) =~= a);
        assert(new_side(s) =~= b);
    } else {
        lemma_script_projections(a, b.skip(1));
        let c = SpecChange { tag: ChangeTag::Insert, content: b[0] };
        let s = seq![c] + script_of(a, b.skip(1));
        assert(s[0] == c);
        assert(s.skip(1) =~= script_of(a, b.skip(1)));
        assert(old_side(s) =~= a);
        assert(new_side(s) =~= b);
    }
}

/// Identical inputs produce a script of `Equal` changes only, one per line.
pub proof fn lemma_script_of_same(a: Seq<Seq<char>>)
    ensures
        script_of(a, a).len() == a.len(),
        forall|k: int|
            0 <= k < a.len() ==> script_of(a, a)[k] == (SpecChange {
                tag: ChangeTag::Equal,
                content: a[k],
            }),
    decreases a.len(),
{
    if a.len() > 0 {
        lemma_script_of_same(a.skip(1));
        let c = SpecChange { tag: ChangeTag::Equal, content: a[0] };
        let s = seq![c] + script_of(a.skip(1), a.skip(1));
        assert(script_of(a, a) == s);
        assert forall|k: int| 0 <= k < a.len() implies script_of(a, a)[k] == (SpecChange {
            tag: ChangeTag::Equal,
            content: a[k],
        }) by {
            if k > 0 {
                assert(s[k] == script_of(a.skip(1), a.skip(1))[k - 1]);
                assert(a.skip(1)[k - 1] == a[k]);
            }
        }
    }
}

/// A script never holds more changes than both inputs have lines together.
pub proof fn lemma_script_len(a: Seq<Seq<char>>, b: Seq<Seq<char>>)
    ensures
        script_of(a, b).len() <= a.len() + b.len(),
    decreases a.len() + b.len(),
{
    if a.len() == 0 && b.len() == 0 {
    } else if a.len() > 0 && b.len() > 0 && a[0] == b[0] {
        lemma_script_len(a.skip(1), b.skip(1));
    } else if a.len() > 0 && (b.len() == 0 || lcs_len(a.skip(1), b) >= lcs_len(a, b.skip(1))) {
        lemma_script_len(a.skip(1), b);
    } else {
        lemma_script_len(a, b.skip(1));
    }
}

/// The table of `lcs_len` values over all pairs of suffixes.
fn lcs_table(a: &Vec<Vec<char>>, b: &Vec<Vec<char>>) -> (dp: Vec<Vec<usize>>)
    requires
        a@.len() < usize::MAX,
        b@.len() < usize::MAX,
    ensures
        dp@.len() == a@.len() + 1,
        forall|k: int| 0 <= k <= a@.len() ==> #[trigger] dp@[k]@.len() == b@.len() + 1,
        forall|k: int, j: int|
            0 <= k <= a@.len() && 0 <= j <= b@.len() ==> #[trigger] dp@[k]@[j] == lcs_len(
                lines_view(a@).skip(k),
                lines_view(b@).skip(j),
            ),
{
    let ghost av = lines_view(a@);
    let ghost bv = lines_view(b@);
    let n = a.len();
    let m = b.len();
    let mut dp: Vec<Vec<usize>> = Vec::new();
    let mut p: usize = 0;
    while p < n + 1
        invariant
            p <= n + 1,
            n < usize::MAX,
            m < usize::MAX,
            dp@.len() == p,
            forall|k: int| 0 <= k < p ==> #[trigger] dp@[k]@.len() == m + 1,
        decreases n + 1 - p,
    {
        let row: Vec<usize> = vec![0usize; m + 1];
        dp.push(row);
        p = p + 1;
    }
    let mut ii: usize = 0;
    while ii < n + 1
        invariant
            ii <= n + 1,
            n == a@.len(),
            m == b@.len(),
            n < usize::MAX,
            m < usize::MAX,
            av == lines_view(a@),
            bv == lines_view(b@),
            dp@.len() == n + 1,
            forall|k: int| 0 <= k <= n ==> #[trigger] dp@[k]@.len() == m + 1,
            forall|k: int, j: int|
                n + 1 - ii <= k <= n && 0 <= j <= m ==> #[trigger] dp@[k]@[j] == lcs_len(
                    av.skip(k),
                    bv.skip(j),
                ),
        decreases n + 1 - ii,
    {
        let i = n - ii;
        let mut row: Vec<usize> = vec![0usize; m + 1];
        let mut jj: usize = 0;
        while jj < m + 1
            invariant
                jj <= m + 1,
                i == n - ii,
                ii <= n,
                n == a@.len(),
                m == b@.len(),
                n < usize::MAX,
                m < usize::MAX,
                av == lines_view(a@),
                bv == lines_view(b@),
                dp@.len() == n + 1,
                row@.len() == m + 1,
                forall|k: int| 0 <= k <= n ==> #[trigger] dp@[k]@.len() == m + 1,
                forall|k: int, j: int|
                    n + 1 - ii <= k <= n && 0 <= j <= m ==> #[trigger] dp@[k]@[j] == lcs_len(
                        av.skip(k),
                        bv.skip(j),
                    ),
                forall|j: int|
                    m + 1 - jj <= j <= m ==> #[trigger] row@[j] == lcs_len(
                        av.skip(i as int),
                        bv.skip(j),
                    ),
            decreases m + 1 - jj,
        {
            let j = m - jj;
            let ghost sa = av.skip(i as int);
            let ghost sb = bv.skip(j as int);
            proof {
                assert(sa.len() == n - i);
                assert(sb.len() == m - j);
            }
            let v: usize;
            if i == n || j == m {
                v = 0;
                proof {
                    assert(lcs_len(sa, sb) == 0);
                }
            } else {
                proof {
                    assert(av[i as int] == a@[i as int]@);
                    assert(bv[j as int] == b@[j as int]@);
                    assert(sa[0] == av[i as int]);
                    assert(sb[0] == bv[j as int]);
                    assert(sa.skip(1) =~= av.skip(i + 1));
                    assert(sb.skip(1) =~= bv.skip(j + 1));
                }
                if line_eq(&a[i], &b[j]) {
                    let below = dp[i + 1][j + 1];
                    proof {
                        lemma_lcs_len_bound(av.skip(i + 1), bv.skip(j + 1));
                        assert(below == lcs_len(sa.skip(1), sb.skip(1)));
                        assert(lcs_len(sa, sb) == 1 + lcs_len(sa.skip(1), sb.skip(1)));
                    }
                    v = below + 1;
                } else {
                    let del = dp[i + 1][j];
                    let ins = row[j + 1];
                    proof {
                        assert(sb.skip(0) =~= sb);
                        assert(del == lcs_len(sa.skip(1), sb));
                        assert(ins == lcs_len(sa, sb.skip(1)));
                        assert(sa[0] != sb[0]);
                    }
                    v = if del >= ins {
                        del
                    } else {
                        ins
                    };
                }
            }
            row.set(j, v);
            jj = jj + 1;
        }
        dp.set(i, row);
        ii = ii + 1;
    }
    dp
}

/// Computes the edit script between two line sequences.
pub fn diff_lines(old_lines: &Vec<Vec<char>>, new_lines: &Vec<Vec<char>>) -> (r: Vec<Change>)
    requires
        old_lines@.len() < usize::MAX,
        new_lines@.len() < usize::MAX,
    ensures
        script_view(r@) == script_of(lines_view(old_lines@), lines_view(new_lines@)),
{
    let ghost av = lines_view(old_lines@);
    let ghost bv = lines_view(new_lines@);
    let n = old_lines.len();
    let m = new_lines.len();
    let dp = lcs_table(old_lines, new_lines);
    let mut r: Vec<Change> = Vec::new();
    let mut i: usize = 0;
    let mut j: usize = 0;
    proof {
        assert(av.skip(0) =~= av);
        assert(bv.skip(0) =~= bv);
        assert(script_view(r@) =~= Seq::<SpecChange>::empty());
        assert(script_view(r@) + script_of(av, bv) =~= script_of(av, bv));
    }
    while i < n || j < m
        invariant
            i <= n,
            j <= m,
            n == old_lines@.len(),
            m == new_lines@.len(),
            av == lines_view(old_lines@),
            bv == lines_view(new_lines@),
            dp@.len() == n + 1,
            forall|k: int| 0 <= k <= n ==> #[trigger] dp@[k]@.len() == m + 1,
            forall|k: int, l: int|
                0 <= k <= n && 0 <= l <= m ==> #[trigger] dp@[k]@[l] == lcs_len(
                    av.skip(k),
                    bv.skip(l),
                ),
            script_view(r@) + script_of(av.skip(i as int), bv.skip(j as int)) == script_of(av, bv),
        decreases n - i + m - j,
    {
        let ghost sa = av.skip(i as int);
        let ghost sb = bv.skip(j as int);
        proof {
            assert(sa.len() == n - i);
            assert(sb.len() == m - j);
            if i < n {
                assert(av[i as int] == old_lines@[i as int]@);
                assert(sa[0] == av[i as int]);
                assert(sa.skip(1) =~= av.skip(i + 1));
            }
            if j < m {
                assert(bv[j as int] == new_lines@[j as int]@);
                assert(sb[0] == bv[j as int]);
                assert(sb.skip(1) =~= bv.skip(j + 1));
            }
        }
        let ghost r0 = r@;
        let c: Change;
        let ghost tail: Seq<SpecChange>;
        if i < n && j < m && line_eq(&old_lines[i], &new_lines[j]) {
            c = Change { tag: ChangeTag::Equal, content: copy_chars(&old_lines[i]) };
            proof {
                assert(script_of(sa, sb) =~= seq![c@] + script_of(sa.skip(1), sb.skip(1)));
                tail = script_of(av.skip(i + 1), bv.skip(j + 1));
            }
            i = i + 1;
            j = j + 1;
        } else if i < n && (j == m || dp[i + 1][j] >= dp[i][j + 1]) {
            c = Change { tag: ChangeTag::Delete, content: copy_chars(&old_lines[i]) };
            proof {
                assert(sb.skip(0) =~= sb);
                if j < m {
                    assert(dp@[i + 1]@[j as int] == lcs_len(sa.skip(1), sb));
                    assert(dp@[i as int]@[j + 1] == lcs_len(sa, sb.skip(1)));
                }
                assert(script_of(sa, sb) =~= seq![c@] + script_of(sa.skip(1), sb));
                tail = script_of(av.skip(i + 1), bv.skip(j as int));
            }
            i = i + 1;
        } else {
            proof {
                assert(j < m);
                if i < n {
                    assert(dp@[i + 1]@[j as int] == lcs_len(sa.skip(1), sb));
                    assert(dp@[i as int]@[j + 1] == lcs_len(sa, sb.skip(1)));
                    assert(sb.skip(0) =~= sb);
                }
            }
            c = Change { tag: ChangeTag::Insert, content: copy_chars(&new_lines[j]) };
            proof {
                assert(script_of(sa, sb) =~= seq![c@] + script_of(sa, sb.skip(1)));
                tail = script_of(av.skip(i as int), bv.skip(j + 1));
            }
            j = j + 1;
        }
        r.push(c);
        proof {
            assert(script_view(r@) =~= script_view(r0).push(c@));
            assert(script_view(r0).push(c@) + tail =~= script_view(r0) + (seq![c@] + tail));
        }
    }
    proof {
        assert(av.skip(i as int) =~= Seq::<Seq<char>>::empty());
        assert(bv.skip(j as int) =~= Seq::<Seq<char>>::empty());
        assert(script_of(Seq::empty(), Seq::empty()) =~= Seq::<SpecChange>::empty());
        assert(script_view(r@) + Seq::<SpecChange>::empty() =~= script_view(r@));
    }
    r
}

} // verus!
