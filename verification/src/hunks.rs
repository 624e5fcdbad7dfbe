//! The hunk grouper: clusters the changes of an edit script into hunks,
//! each holding a run of changes together with up to `ctx` surrounding
//! equal lines of context.  Two non-equal changes separated by more than
//! `2 * ctx` equal lines fall into different hunks.

use vstd::prelude::*;
use crate::engine::{Change, ChangeTag, SpecChange, script_view};
use crate::text::copy_chars;

verus! {

/// Whether the change at position `k` belongs in a hunk: it is a non-equal
/// change itself, or lies within `ctx` positions of one.
pub open spec fn kept(s: Seq<SpecChange>, k: int, ctx: int) -> bool {
    exists|i: int| 0 <= i < s.len() && !(s[i].tag is Equal) && i - ctx <= k <= i + ctx
}

/// Two non-equal changes separated by no more than `2 * ctx` equal lines
/// never split a hunk: every position between them is kept.
pub proof fn lemma_small_gap_stays_kept(s: Seq<SpecChange>, i: int, j: int, t: int, ctx: int)
    requires
        0 <= i <= t <= j < s.len(),
        !(s[i].tag is Equal),
        !(s[j].tag is Equal),
        j - i <= 2 * ctx + 1,
        0 <= ctx,
    ensures
        kept(s, t, ctx),
{
    if t - i <= ctx {
        assert(i - ctx <= t <= i + ctx);
    } else {
        assert(j - ctx <= t <= j + ctx);
    }
}

/// A run of more than `2 * ctx` equal lines between two adjacent non-equal
/// changes splits the hunks: the position `ctx + 1` lines after the earlier
/// change belongs to no hunk.
pub proof fn lemma_large_gap_splits(s: Seq<SpecChange>, i: int, j: int, ctx: int)
    requires
        0 <= i < j < s.len(),
        !(s[i].tag is Equal),
        !(s[j].tag is Equal),
        forall|t: int| i < t < j ==> (#[trigger] s[t].tag) is Equal,
        j - i - 1 > 2 * ctx,
        0 <= ctx,
    ensures
        !kept(s, i + ctx + 1, ctx),
{
    let t = i + ctx + 1;
    if kept(s, t, ctx) {
        let w = choose|w: int|
            0 <= w < s.len() && !(s[w].tag is Equal) && w - ctx <= t <= w + ctx;
        if w <= i {
            assert(t - w >= ctx + 1);
            assert(false);
        } else if w < j {
            assert(s[w].tag is Equal);
            assert(false);
        } else {
            assert(w - t >= j - t);
            assert(j - t > ctx);
            assert(false);
        }
    }
}

/// The number of changes in `s` that take a line from the old side
/// (`Delete` and `Equal`).
pub open spec fn old_cnt(s: Seq<SpecChange>) -> int
    decreases s.len(),
{
    if s.len() == 0 {
        0
    } else {
        old_cnt(s.drop_last()) + (if s.last().tag is Insert {
            0int
        } else {
            1int
        })
    }
}

/// The number of changes in `s` that take a line from the new side
/// (`Insert` and `Equal`).
pub open spec fn new_cnt(s: Seq<SpecChange>) -> int
    decreases s.len(),
{
    if s.len() == 0 {
        0
    } else {
        new_cnt(s.drop_last()) + (if s.last().tag is Delete {
            0int
        } else {
            1int
        })
    }
}

/// The mathematical model of a hunk: 1-based starting lines and line counts
/// on both sides, and the run of changes it contains.
pub struct SpecHunk {
    pub old_start: int,
    pub old_count: int,
    pub new_start: int,
    pub new_count: int,
    pub changes: Seq<SpecChange>,
}

/// The hunk covering positions `st .. en` of the script `s`.
pub open spec fn mk_hunk(s: Seq<SpecChange>, st: int, en: int) -> SpecHunk {
    SpecHunk {
        old_start: old_cnt(s.take(st)) + 1,
        old_count: old_cnt(s.subrange(st, en)),
        new_start: new_cnt(s.take(st)) + 1,
        new_count: new_cnt(s.subrange(st, en)),
        changes: s.subrange(st, en),
    }
}

/// Scans the script from position `k` on, with `open_start` holding the
/// start of the run of kept positions currently open, and emits one hunk
/// per maximal run of kept positions.
pub open spec fn hunks_rec(
    s: Seq<SpecChange>,
    ctx: int,
    k: int,
    open_start: Option<int>,
) -> Seq<SpecHunk>
    decreases s.len() - k,
    when 0 <= k <= s.len()
{
    if k >= s.len() {
        match open_start {
            Option::None => Seq::empty(),
            Option::Some(st) => seq![mk_hunk(s, st, k)],
        }
    } else if kept(s, k, ctx) {
        match open_start {
            Option::None => hunks_rec(s, ctx, k + 1, Option::Some(k)),
            Option::Some(st) => hunks_rec(s, ctx, k + 1, Option::Some(st)),
        }
    } else {
        match open_start {
            Option::None => hunks_rec(s, ctx, k + 1, Option::None),
            Option::Some(st) => seq![mk_hunk(s, st, k)] + hunks_rec(s, ctx, k + 1, Option::None),
        }
    }
}

/// The hunks of a script, for a context radius `ctx`.
pub open spec fn hunks_of(s: Seq<SpecChange>, ctx: int) -> Seq<SpecHunk> {
    hunks_rec(s, ctx, 0, Option::None)
}

/// A script without non-equal changes produces no hunks at all.
pub proof fn lemma_all_equal_no_hunks(s: Seq<SpecChange>, ctx: int, k: int)
    requires
        forall|i: int| 0 <= i < s.len() ==> s[i].tag is Equal,
        0 <= k <= s.len(),
    ensures
        hunks_rec(s, ctx, k, Option::None) == Seq::<SpecHunk>::empty(),
    decreases s.len() - k,
{
    if k < s.len() {
        assert(!kept(s, k, ctx));
        lemma_all_equal_no_hunks(s, ctx, k + 1);
    }
}

/// The total number of changes over a sequence of hunks.
pub open spec fn total_changes(hs: Seq<SpecHunk>) -> int
    decreases hs.len(),
{
    if hs.len() == 0 {
        0
    } else {
        hs[0].changes.len() + total_changes(hs.skip(1))
    }
}

pub proof fn lemma_hunks_total_nonneg(hs: Seq<SpecHunk>)
    ensures
        total_changes(hs) >= 0,
    decreases hs.len(),
{
    if hs.len() > 0 {
        lemma_hunks_total_nonneg(hs.skip(1));
    }
}

/// Hunks cover disjoint parts of the script, so together they never hold
/// more changes than the script does.
pub proof fn lemma_hunks_total(s: Seq<SpecChange>, ctx: int, k: int, open_start: Option<int>)
    requires
        0 <= k <= s.len(),
        open_start is Some ==> 0 <= open_start->0 <= k,
    ensures
        total_changes(hunks_rec(s, ctx, k, open_start)) <= s.len() - (match open_start {
            Option::None => k,
            Option::Some(st) => st,
        }),
    decreases s.len() - k,
{
    if k >= s.len() {
        match open_start {
            Option::None => {
                assert(total_changes(Seq::<SpecHunk>::empty()) == 0);
            },
            Option::Some(st) => {
                let hs = seq![mk_hunk(s, st, k)];
                assert(hs.skip(1) =~= Seq::<SpecHunk>::empty());
                assert(total_changes(Seq::<SpecHunk>::empty()) == 0);
                assert(hs[0].changes.len() == k - st);
            },
        }
    } else if kept(s, k, ctx) {
        match open_start {
            Option::None => {
                lemma_hunks_total(s, ctx, k + 1, Option::Some(k));
            },
            Option::Some(st) => {
                lemma_hunks_total(s, ctx, k + 1, Option::Some(st));
            },
        }
    } else {
        match open_start {
            Option::None => {
                lemma_hunks_total(s, ctx, k + 1, Option::None);
            },
            Option::Some(st) => {
                lemma_hunks_total(s, ctx, k + 1, Option::None);
                let hs = seq![mk_hunk(s, st, k)] + hunks_rec(s, ctx, k + 1, Option::None);
                assert(hs.skip(1) =~= hunks_rec(s, ctx, k + 1, Option::None));
                assert(hs[0] == mk_hunk(s, st, k));
                assert(hs[0].changes.len() == k - st);
                assert(total_changes(hs) == hs[0].changes.len() + total_changes(hs.skip(1)));
            },
        }
    }
}

/// A hunk: 1-based starting lines and line counts on the old and new side,
/// and the contiguous run of changes it contains.
pub struct Hunk {
    pub old_start: usize,
    pub old_count: usize,
    pub new_start: usize,
    pub new_count: usize,
    pub changes: Vec<Change>,
}

impl View for Hunk {
    type V = SpecHunk;

    open spec fn view(&self) -> SpecHunk {
        SpecHunk {
            old_start: self.old_start as int,
            old_count: self.old_count as int,
            new_start: self.new_start as int,
            new_count: self.new_count as int,
            changes: script_view(self.changes@),
        }
    }
}

/// The view of a concrete hunk sequence.
pub open spec fn hunks_view(hs: Seq<Hunk>) -> Seq<SpecHunk> {
    hs.map_values(|h: Hunk| h@)
}

/// Whether position `k` of the script belongs in a hunk.
fn is_kept(script: &Vec<Change>, k: usize, ctx: usize) -> (b: bool)
    requires
        k < script@.len(),
    ensures
        b == kept(script_view(script@), k as int, ctx as int),
{
    let ghost sv = script_view(script@);
    let lo: usize = if k > ctx {
        k - ctx
    } else {
        0
    };
    let mut i: usize = lo;
    let mut found = false;
    while i < script.len() && (i <= k || i - k <= ctx)
        invariant
            sv == script_view(script@),
            k < script@.len(),
            lo <= i <= script@.len(),
            lo == (if k > ctx {
                k - ctx
            } else {
                0
            }),
            found == (exists|t: int| lo <= t < i && !(sv[t].tag is Equal)),
            forall|t: int| #![trigger sv[t]] lo <= t < i ==> (t <= k || t - k <= ctx),
        decreases script@.len() - i,
    {
        proof {
            assert(sv[i as int] == script@[i as int]@);
        }
        if !(script[i].tag == ChangeTag::Equal) {
            found = true;
        }
        i = i + 1;
    }
    proof {
        if found {
            let t = choose|t: int| lo <= t < i && !(sv[t].tag is Equal);
            assert(t - ctx <= k <= t + ctx);
            assert(kept(sv, k as int, ctx as int));
        } else {
            if kept(sv, k as int, ctx as int) {
                let t = choose|t: int|
                    0 <= t < sv.len() && !(sv[t].tag is Equal) && t - ctx <= k <= t + ctx;
                assert(lo <= t);
                assert(t < i);
                assert(false);
            }
        }
    }
    found
}

/// Groups the changes of `script` into hunks with context radius `ctx`.
pub fn group_hunks(script: &Vec<Change>, ctx: usize) -> (r: Vec<Hunk>)
    requires
        script@.len() < usize::MAX,
    ensures
        hunks_view(r@) == hunks_of(script_view(script@), ctx as int),
{
    let ghost sv = script_view(script@);
    let len = script.len();
    let mut r: Vec<Hunk> = Vec::new();
    let mut k: usize = 0;
    let mut open = false;
    let mut st: usize = 0;
    let mut cur_changes: Vec<Change> = Vec::new();
    let mut cur_old_count: usize = 0;
    let mut cur_new_count: usize = 0;
    let mut h_old_start: usize = 1;
    let mut h_new_start: usize = 1;
    let mut old_pos: usize = 0;
    let mut new_pos: usize = 0;
    proof {
        assert(sv.take(0) =~= Seq::<SpecChange>::empty());
        assert(hunks_view(r@) =~= Seq::<SpecHunk>::empty());
        assert(hunks_view(r@) + hunks_of(sv, ctx as int) =~= hunks_of(sv, ctx as int));
    }
    while k < len
        invariant
            len == script@.len(),
            len < usize::MAX,
            sv == script_view(script@),
            k <= len,
            old_pos == old_cnt(sv.take(k as int)),
            new_pos == new_cnt(sv.take(k as int)),
            old_pos <= k,
            new_pos <= k,
            !open ==> hunks_view(r@) + hunks_rec(sv, ctx as int, k as int, Option::None)
                == hunks_of(sv, ctx as int),
            open ==> st < k,
            open ==> hunks_view(r@) + hunks_rec(sv, ctx as int, k as int, Option::Some(st as int))
                == hunks_of(sv, ctx as int),
            open ==> script_view(cur_changes@) == sv.subrange(st as int, k as int),
            open ==> cur_old_count == old_cnt(sv.subrange(st as int, k as int)),
            open ==> cur_new_count == new_cnt(sv.subrange(st as int, k as int)),
            open ==> cur_old_count <= k - st,
            open ==> cur_new_count <= k - st,
            open ==> h_old_start == old_cnt(sv.take(st as int)) + 1,
            open ==> h_new_start == new_cnt(sv.take(st as int)) + 1,
        decreases len - k,
    {
        let kp = is_kept(script, k, ctx);
        if kp {
            if !open {
                open = true;
                st = k;
                h_old_start = old_pos + 1;
                h_new_start = new_pos + 1;
                cur_changes = Vec::new();
                cur_old_count = 0;
                cur_new_count = 0;
                proof {
                    assert(sv.subrange(k as int, k as int) =~= Seq::<SpecChange>::empty());
                    assert(script_view(cur_changes@) =~= Seq::<SpecChange>::empty());
                }
            }
            let ghost cc0 = cur_changes@;
            let tag = script[k].tag;
            cur_changes.push(Change { tag, content: copy_chars(&script[k].content) });
            if tag != ChangeTag::Insert {
                cur_old_count = cur_old_count + 1;
            }
            if tag != ChangeTag::Delete {
                cur_new_count = cur_new_count + 1;
            }
            proof {
                assert(sv[k as int] == script@[k as int]@);
                assert(script_view(cur_changes@) =~= script_view(cc0).push(sv[k as int]));
                assert(sv.subrange(st as int, k + 1).drop_last() =~= sv.subrange(
                    st as int,
                    k as int,
                ));
                assert(sv.subrange(st as int, k + 1).last() == sv[k as int]);
                assert(script_view(cur_changes@) =~= sv.subrange(st as int, k + 1));
                assert(old_cnt(sv.subrange(st as int, k + 1)) == old_cnt(
                    sv.subrange(st as int, k as int),
                ) + (if sv[k as int].tag is Insert {
                    0int
                } else {
                    1int
                }));
                assert(new_cnt(sv.subrange(st as int, k + 1)) == new_cnt(
                    sv.subrange(st as int, k as int),
                ) + (if sv[k as int].tag is Delete {
                    0int
                } else {
                    1int
                }));
            }
        } else {
            if open {
                let h = Hunk {
                    old_start: h_old_start,
                    old_count: cur_old_count,
                    new_start: h_new_start,
                    new_count: cur_new_count,
                    changes: cur_changes,
                };
                let ghost r0 = r@;
                proof {
                    assert(h@ == mk_hunk(sv, st as int, k as int));
                }
                r.push(h);
                cur_changes = Vec::new();
                open = false;
                proof {
                    assert(hunks_view(r@) =~= hunks_view(r0).push(mk_hunk(sv, st as int, k as int)));
                    assert(hunks_view(r0).push(mk_hunk(sv, st as int, k as int)) + hunks_rec(
                        sv,
                        ctx as int,
                        k + 1,
                        Option::None,
                    ) =~= hunks_view(r0) + (seq![mk_hunk(sv, st as int, k as int)] + hunks_rec(
                        sv,
                        ctx as int,
                        k + 1,
                        Option::None,
                    )));
                }
            }
        }
        let tag = script[k].tag;
        proof {
            assert(sv[k as int] == script@[k as int]@);
            assert(sv.take(k + 1).drop_last() =~= sv.take(k as int));
            assert(sv.take(k + 1).last() == sv[k as int]);
            assert(old_cnt(sv.take(k + 1)) == old_cnt(sv.take(k as int)) + (if sv[k as int].tag
                is Insert {
                0int
            } else {
                1int
            }));
            assert(new_cnt(sv.take(k + 1)) == new_cnt(sv.take(k as int)) + (if sv[k as int].tag
                is Delete {
                0int
            } else {
                1int
            }));
        }
        if tag != ChangeTag::Insert {
            old_pos = old_pos + 1;
        }
        if tag != ChangeTag::Delete {
            new_pos = new_pos + 1;
        }
        k = k + 1;
    }
    if open {
        let h = Hunk {
            old_start: h_old_start,
            old_count: cur_old_count,
            new_start: h_new_start,
            new_count: cur_new_count,
            changes: cur_changes,
        };
        let ghost r0 = r@;
        proof {
            assert(h@ == mk_hunk(sv, st as int, k as int));
        }
        r.push(h);
        proof {
            assert(hunks_rec(sv, ctx as int, k as int, Option::Some(st as int)) =~= seq![
                mk_hunk(sv, st as int, k as int),
            ]);
            assert(hunks_view(r@) =~= hunks_view(r0).push(mk_hunk(sv, st as int, k as int)));
            assert(hunks_view(r0).push(mk_hunk(sv, st as int, k as int)) =~= hunks_view(r0)
                + seq![mk_hunk(sv, st as int, k as int)]);
        }
    } else {
        proof {
            assert(hunks_rec(sv, ctx as int, k as int, Option::None) =~= Seq::<SpecHunk>::empty());
            assert(hunks_view(r@) + Seq::<SpecHunk>::empty() =~= hunks_view(r@));
        }
    }
    r
}

} // verus!
