//! The renderer: serializes the two file headers and the hunks into
//! unified-diff text.  Every rendered change line counts towards the
//! `max` bound (when it is nonzero); on reaching the bound a truncation
//! marker is emitted and rendering stops, mid-hunk if necessary.  The
//! addition and deletion tallies cover only the changes rendered before
//! truncation.

use vstd::prelude::*;
use vstd::string::StringExecFns;
use crate::engine::{Change, ChangeTag, SpecChange, script_view};
use crate::hunks::{Hunk, SpecHunk, hunks_view, total_changes};
use crate::text::{append_chars, push_char};

verus! {

/// The decimal digit character for `d`.
pub open spec fn digit_char(d: int) -> char {
    if d == 0 {
        '0'
    } else if d == 1 {
        '1'
    } else if d == 2 {
        '2'
    } else if d == 3 {
        '3'
    } else if d == 4 {
        '4'
    } else if d == 5 {
        '5'
    } else if d == 6 {
        '6'
    } else if d == 7 {
        '7'
    } else if d == 8 {
        '8'
    } else {
        '9'
    }
}

/// The decimal digits of `n`, most significant first.
pub open spec fn dec_of(n: int) -> Seq<char>
    decreases n,
    when n >= 0
{
    if n < 10 {
        seq![digit_char(n)]
    } else {
        dec_of(n / 10).push(digit_char(n % 10))
    }
}

/// The marker a rendered change line starts with.
pub open spec fn marker_of(t: ChangeTag) -> char {
    match t {
        ChangeTag::Delete => '-',
        ChangeTag::Insert => '+',
        ChangeTag::Equal => ' ',
    }
}

/// One rendered change line: the marker, the line content, and a terminator
/// appended purely for rendering when the content lacks one.
pub open spec fn render_change(c: SpecChange) -> Seq<char> {
    let base = seq![marker_of(c.tag)] + c.content;
    if c.content.len() == 0 || c.content.last() != '\n' {
        base.push('\n')
    } else {
        base
    }
}

/// The marker line appended when rendering stops early.
pub open spec fn trunc_marker() -> Seq<char> {
    "... (diff truncated)\n"@
}

/// A hunk's header line.
pub open spec fn hunk_header_text(h: SpecHunk) -> Seq<char> {
    "@@ -"@ + dec_of(h.old_start) + ","@ + dec_of(h.old_count) + " +"@ + dec_of(h.new_start)
        + ","@ + dec_of(h.new_count) + " @@\n"@
}

/// The two header lines naming the file before and after.
pub open spec fn header_text(path: Seq<char>) -> Seq<char> {
    "--- [before] "@ + path + "\n"@ + "+++ [after]  "@ + path + "\n"@
}

/// The outcome of rendering a part of the diff: the text produced, the
/// additions and deletions tallied, the rendered-line counter afterwards,
/// and whether rendering stopped at the size bound.
pub struct RenderStep {
    pub text: Seq<char>,
    pub adds: int,
    pub dels: int,
    pub count: int,
    pub truncated: bool,
}

/// Renders the changes `cs` with the line counter at `count`; when `max`
/// is nonzero and the counter has reached it, only the truncation marker
/// is emitted.
pub open spec fn render_changes_rec(cs: Seq<SpecChange>, max: int, count: int) -> RenderStep
    decreases cs.len(),
{
    if cs.len() == 0 {
        RenderStep { text: Seq::empty(), adds: 0, dels: 0, count, truncated: false }
    } else if max > 0 && count >= max {
        RenderStep { text: trunc_marker(), adds: 0, dels: 0, count, truncated: true }
    } else {
        let rest = render_changes_rec(cs.skip(1), max, count + 1);
        RenderStep {
            text: render_change(cs[0]) + rest.text,
            adds: (if cs[0].tag is Insert {
                1int
            } else {
                0int
            }) + rest.adds,
            dels: (if cs[0].tag is Delete {
                1int
            } else {
                0int
            }) + rest.dels,
            count: rest.count,
            truncated: rest.truncated,
        }
    }
}

pub proof fn lemma_render_changes_bounds(cs: Seq<SpecChange>, max: int, count: int)
    ensures
        ({
            let step = render_changes_rec(cs, max, count);
            &&& 0 <= step.adds
            &&& 0 <= step.dels
            &&& step.adds + step.dels <= cs.len()
            &&& count <= step.count <= count + cs.len()
        }),
    decreases cs.len(),
{
    if cs.len() == 0 {
    } else if max > 0 && count >= max {
    } else {
        lemma_render_changes_bounds(cs.skip(1), max, count + 1);
    }
}

/// Renders the hunks `hs` in order, each with its header line first;
/// rendering stops for good as soon as one hunk's changes hit the bound.
pub open spec fn render_hunks_rec(hs: Seq<SpecHunk>, max: int, count: int) -> RenderStep
    decreases hs.len(),
{
    if hs.len() == 0 {
        RenderStep { text: Seq::empty(), adds: 0, dels: 0, count, truncated: false }
    } else {
        let step = render_changes_rec(hs[0].changes, max, count);
        let head = hunk_header_text(hs[0]) + step.text;
        if step.truncated {
            RenderStep {
                text: head,
                adds: step.adds,
                dels: step.dels,
                count: step.count,
                truncated: true,
            }
        } else {
            let rest = render_hunks_rec(hs.skip(1), max, step.count);
            RenderStep {
                text: head + rest.text,
                adds: step.adds + rest.adds,
                dels: step.dels + rest.dels,
                count: rest.count,
                truncated: rest.truncated,
            }
        }
    }
}

pub proof fn lemma_render_hunks_bounds(hs: Seq<SpecHunk>, max: int, count: int)
    ensures
        ({
            let step = render_hunks_rec(hs, max, count);
            &&& 0 <= step.adds
            &&& 0 <= step.dels
            &&& step.adds + step.dels <= total_changes(hs)
            &&& count <= step.count <= count + total_changes(hs)
        }),
    decreases hs.len(),
{
    if hs.len() == 0 {
    } else {
        let step = render_changes_rec(hs[0].changes, max, count);
        lemma_render_changes_bounds(hs[0].changes, max, count);
        assert(total_changes(hs) == hs[0].changes.len() + total_changes(hs.skip(1)));
        crate::hunks::lemma_hunks_total_nonneg(hs.skip(1));
        if !step.truncated {
            lemma_render_hunks_bounds(hs.skip(1), max, step.count);
        }
    }
}

/// The digit character for a digit below ten.
fn digit_of(d: usize) -> (c: char)
    requires
        d < 10,
    ensures
        c == digit_char(d as int),
{
    if d == 0 {
        '0'
    } else if d == 1 {
        '1'
    } else if d == 2 {
        '2'
    } else if d == 3 {
        '3'
    } else if d == 4 {
        '4'
    } else if d == 5 {
        '5'
    } else if d == 6 {
        '6'
    } else if d == 7 {
        '7'
    } else if d == 8 {
        '8'
    } else {
        '9'
    }
}

/// Appends the decimal form of `n` to `out`.
fn push_decimal(out: &mut String, n: usize)
    ensures
        final(out)@ == old(out)@ + dec_of(n as int),
    decreases n,
{
    if n < 10 {
        let d = digit_of(n);
        push_char(out, d);
        proof {
            assert(old(out)@.push(d) =~= old(out)@ + seq![d]);
            assert(dec_of(n as int) =~= seq![d]);
        }
    } else {
        push_decimal(out, n / 10);
        let d = digit_of(n % 10);
        push_char(out, d);
        proof {
            assert((old(out)@ + dec_of(n as int / 10)).push(d) =~= old(out)@ + dec_of(
                n as int / 10,
            ).push(d));
        }
    }
}

/// Appends the header line of `h` to `out`.
fn push_hunk_header(out: &mut String, h: &Hunk)
    ensures
        final(out)@ == old(out)@ + hunk_header_text(h@),
{
    out.append("@@ -");
    push_decimal(out, h.old_start);
    out.append(",");
    push_decimal(out, h.old_count);
    out.append(" +");
    push_decimal(out, h.new_start);
    out.append(",");
    push_decimal(out, h.new_count);
    out.append(" @@\n");
}

/// Renders the changes of one hunk into `out`, starting with the line
/// counter at `count`; returns the additions and deletions tallied, the
/// counter afterwards, and whether the size bound was hit.
fn render_changes(out: &mut String, changes: &Vec<Change>, max: usize, count: usize) -> (r: (
    usize,
    usize,
    usize,
    bool,
))
    requires
        count + changes@.len() <= u32::MAX,
    ensures
        ({
            let step = render_changes_rec(script_view(changes@), max as int, count as int);
            &&& final(out)@ == old(out)@ + step.text
            &&& r.0 == step.adds
            &&& r.1 == step.dels
            &&& r.2 == step.count
            &&& r.3 == step.truncated
        }),
{
    let ghost cs = script_view(changes@);
    let ghost full = render_changes_rec(cs, max as int, count as int);
    let len = changes.len();
    let mut adds: usize = 0;
    let mut dels: usize = 0;
    let mut cnt: usize = count;
    let mut ci: usize = 0;
    let mut trunc = false;
    let ghost mut done: Seq<char> = Seq::empty();
    proof {
        assert(cs.skip(0) =~= cs);
        assert(out@ =~= old(out)@ + done);
    }
    while ci < len && !trunc
        invariant
            len == changes@.len(),
            cs == script_view(changes@),
            full == render_changes_rec(cs, max as int, count as int),
            ci <= len,
            count + len <= u32::MAX,
            adds + dels <= ci,
            count <= cnt <= count + ci,
            !trunc ==> ({
                let rest = render_changes_rec(cs.skip(ci as int), max as int, cnt as int);
                &&& out@ == old(out)@ + done
                &&& full.text == done + rest.text
                &&& full.adds == adds + rest.adds
                &&& full.dels == dels + rest.dels
                &&& full.count == rest.count
                &&& full.truncated == rest.truncated
            }),
            trunc ==> ({
                &&& out@ == old(out)@ + full.text
                &&& adds == full.adds
                &&& dels == full.dels
                &&& cnt == full.count
                &&& full.truncated
            }),
        decreases len - ci + (if trunc {
            0int
        } else {
            1int
        }),
    {
        let ghost rest = render_changes_rec(cs.skip(ci as int), max as int, cnt as int);
        proof {
            assert(cs.skip(ci as int).len() == len - ci);
            assert(cs.skip(ci as int)[0] == cs[ci as int]);
            assert(cs.skip(ci as int).skip(1) =~= cs.skip(ci as int + 1));
            assert(cs[ci as int] == changes@[ci as int]@);
        }
        if max > 0 && cnt >= max {
            out.append("... (diff truncated)\n");
            trunc = true;
            proof {
                assert(rest.text == trunc_marker());
                assert(out@ =~= old(out)@ + (done + trunc_marker()));
                done = done + trunc_marker();
            }
        } else {
            let ghost out0 = out@;
            let c = &changes[ci];
            let marker: char;
            if c.tag == ChangeTag::Delete {
                marker = '-';
                dels = dels + 1;
            } else if c.tag == ChangeTag::Insert {
                marker = '+';
                adds = adds + 1;
            } else {
                marker = ' ';
            }
            push_char(out, marker);
            append_chars(out, &c.content);
            let clen = c.content.len();
            if clen == 0 || c.content[clen - 1] != '\n' {
                push_char(out, '\n');
                proof {
                    assert(((out0.push(marker)) + c.content@).push('\n') =~= out0 + render_change(
                        cs[ci as int],
                    ));
                }
            } else {
                proof {
                    assert(c.content@.last() == '\n');
                    assert((out0.push(marker)) + c.content@ =~= out0 + render_change(
                        cs[ci as int],
                    ));
                }
            }
            cnt = cnt + 1;
            ci = ci + 1;
            proof {
                done = done + render_change(cs[ci as int - 1]);
                assert(out@ =~= old(out)@ + done);
            }
        }
    }
    proof {
        if !trunc {
            assert(cs.skip(ci as int) =~= Seq::<SpecChange>::empty());
            let rest = render_changes_rec(cs.skip(ci as int), max as int, cnt as int);
            assert(rest.text =~= Seq::<char>::empty());
            assert(full.text =~= done);
        }
    }
    (adds, dels, cnt, trunc)
}

/// Renders the full diff text: the two file headers followed by the hunks,
/// stopping at the `max` rendered-line bound when it is nonzero.  Returns
/// the text together with the additions and deletions tallied over the
/// rendered changes.
pub fn render_unified(path: &Vec<char>, hs: &Vec<Hunk>, max: usize) -> (r: (String, usize, usize))
    requires
        total_changes(hunks_view(hs@)) <= u32::MAX,
    ensures
        ({
            let step = render_hunks_rec(hunks_view(hs@), max as int, 0);
            &&& r.0@ == header_text(path@) + step.text
            &&& r.1 == step.adds
            &&& r.2 == step.dels
        }),
{
    let ghost hv = hunks_view(hs@);
    let ghost full = render_hunks_rec(hv, max as int, 0);
    let mut out = String::new();
    out.append("--- [before] ");
    append_chars(&mut out, path);
    out.append("\n");
    out.append("+++ [after]  ");
    append_chars(&mut out, path);
    out.append("\n");
    let ghost header = header_text(path@);
    proof {
        assert(out@ =~= header);
    }
    let len = hs.len();
    let mut adds: usize = 0;
    let mut dels: usize = 0;
    let mut cnt: usize = 0;
    let mut hi: usize = 0;
    let mut trunc = false;
    let ghost mut done: Seq<char> = Seq::empty();
    proof {
        assert(hv.skip(0) =~= hv);
        assert(out@ =~= header + done);
        crate::hunks::lemma_hunks_total_nonneg(hv);
    }
    while hi < len && !trunc
        invariant
            len == hs@.len(),
            hv == hunks_view(hs@),
            full == render_hunks_rec(hv, max as int, 0),
            total_changes(hv) <= u32::MAX,
            hi <= len,
            !trunc ==> ({
                let rest = render_hunks_rec(hv.skip(hi as int), max as int, cnt as int);
                &&& out@ == header + done
                &&& cnt + total_changes(hv.skip(hi as int)) <= total_changes(hv)
                &&& 0 <= cnt
                &&& full.text == done + rest.text
                &&& full.adds == adds + rest.adds
                &&& full.dels == dels + rest.dels
                &&& full.count == rest.count
                &&& full.truncated == rest.truncated
            }),
            trunc ==> ({
                &&& out@ == header + full.text
                &&& adds == full.adds
                &&& dels == full.dels
            }),
            adds + dels <= total_changes(hv),
        decreases len - hi + (if trunc {
            0int
        } else {
            1int
        }),
    {
        let ghost rest = render_hunks_rec(hv.skip(hi as int), max as int, cnt as int);
        let ghost step = render_changes_rec(hv[hi as int].changes, max as int, cnt as int);
        let ghost hh = hunk_header_text(hv[hi as int]);
        let ghost out0 = out@;
        let ghost done0 = done;
        let ghost adds0 = adds;
        let ghost dels0 = dels;
        let ghost cnt0 = cnt;
        proof {
            assert(hv.skip(hi as int).len() == len - hi);
            assert(hv.skip(hi as int)[0] == hv[hi as int]);
            assert(hv.skip(hi as int).skip(1) =~= hv.skip(hi as int + 1));
            assert(hv[hi as int] == hs@[hi as int]@);
            assert(total_changes(hv.skip(hi as int)) == hv[hi as int].changes.len()
                + total_changes(hv.skip(hi as int + 1)));
            crate::hunks::lemma_hunks_total_nonneg(hv.skip(hi as int + 1));
            lemma_render_changes_bounds(hv[hi as int].changes, max as int, cnt as int);
            lemma_render_hunks_bounds(hv, max as int, 0);
            if step.truncated {
                assert(rest.adds == step.adds);
                assert(rest.dels == step.dels);
            } else {
                let rest2 = render_hunks_rec(hv.skip(hi as int + 1), max as int, step.count);
                lemma_render_hunks_bounds(hv.skip(hi as int + 1), max as int, step.count);
                assert(rest.adds == step.adds + rest2.adds);
                assert(rest.dels == step.dels + rest2.dels);
            }
            assert(adds + step.adds <= full.adds);
            assert(dels + step.dels <= full.dels);
            assert(full.adds + full.dels <= total_changes(hv));
        }
        let h = &hs[hi];
        push_hunk_header(&mut out, h);
        let cr = render_changes(&mut out, &h.changes, max, cnt);
        adds = adds + cr.0;
        dels = dels + cr.1;
        cnt = cr.2;
        if cr.3 {
            trunc = true;
        }
        hi = hi + 1;
        proof {
            done = done0 + (hh + step.text);
            assert(out@ =~= ((header + done0) + hh) + step.text);
            assert(((header + done0) + hh) + step.text =~= header + (done0 + (hh + step.text)));
            if step.truncated {
                assert(rest.text == hh + step.text);
                assert(full.text =~= done0 + rest.text);
                assert(done0 + (hh + step.text) =~= done0 + rest.text);
                assert(out@ =~= header + full.text);
            } else {
                let rest2 = render_hunks_rec(hv.skip(hi as int), max as int, cnt as int);
                assert(rest.text == (hh + step.text) + rest2.text);
                assert(done0 + ((hh + step.text) + rest2.text) =~= (done0 + (hh + step.text))
                    + rest2.text);
            }
        }
    }
    proof {
        if !trunc {
            assert(hv.skip(hi as int) =~= Seq::<SpecHunk>::empty());
            let rest = render_hunks_rec(hv.skip(hi as int), max as int, cnt as int);
            assert(rest.text =~= Seq::<char>::empty());
            assert(full.text =~= done);
        }
    }
    (out, adds, dels)
}

} // verus!
