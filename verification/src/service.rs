//! The diff service: configuration defaults, the result record, the full
//! pipeline from two texts to a rendered unified diff, and the laws the
//! pipeline obeys.

use vstd::prelude::*;
use crate::text::{
    cat, chars_of, lemma_cat_lines_of, lemma_lines_of_count, lines_of, lines_view, split_lines,
};
use crate::engine::{
    diff_lines, lemma_script_len, lemma_script_of_same, lemma_script_projections, new_side,
    old_side, script_of, script_view,
};
use crate::hunks::{
    group_hunks, hunks_of, hunks_view, lemma_all_equal_no_hunks, lemma_hunks_total, SpecHunk,
};
use crate::render::{header_text, lemma_render_hunks_bounds, render_hunks_rec, render_unified};

verus! {

/// Options for a diff: the context radius around changes and the bound on
/// rendered change lines (zero meaning unlimited); a missing value selects
/// the default.
pub struct DiffConfig {
    pub context_lines: Option<u32>,
    pub max_lines_per_file: Option<u32>,
}

/// The outcome of a diff: the path the texts belong to, the rendered
/// unified-diff text, and the additions and deletions tallied over the
/// rendered changes.
pub struct FileDiff {
    pub path: String,
    pub diff_text: String,
    pub additions: u32,
    pub deletions: u32,
}

/// The mathematical model of a `FileDiff`.
pub struct SpecFileDiff {
    pub path: Seq<char>,
    pub diff_text: Seq<char>,
    pub additions: u32,
    pub deletions: u32,
}

impl View for FileDiff {
    type V = SpecFileDiff;

    open spec fn view(&self) -> SpecFileDiff {
        SpecFileDiff {
            path: self.path@,
            diff_text: self.diff_text@,
            additions: self.additions,
            deletions: self.deletions,
        }
    }
}

/// The failure of dispatching the diff computation to a background task;
/// the diff computation itself cannot fail.
pub enum DiffError {
    TaskScheduling(String),
}

/// The context radius selected by `config`: its value, or 3 when absent.
pub open spec fn spec_context_lines(config: Option<DiffConfig>) -> int {
    match config {
        Option::None => 3,
        Option::Some(c) => match c.context_lines {
            Option::None => 3,
            Option::Some(v) => v as int,
        },
    }
}

/// The rendered-line bound selected by `config`: its value, or 500 when
/// absent.
pub open spec fn spec_max_lines(config: Option<DiffConfig>) -> int {
    match config {
        Option::None => 500,
        Option::Some(c) => match c.max_lines_per_file {
            Option::None => 500,
            Option::Some(v) => v as int,
        },
    }
}

/// What `generate_diff` returns, as a function of its inputs alone.
pub open spec fn diff_result_spec(
    path: Seq<char>,
    original: Seq<char>,
    modified: Seq<char>,
    ctx: int,
    max: int,
) -> SpecFileDiff {
    let script = script_of(lines_of(original), lines_of(modified));
    let hs = hunks_of(script, ctx);
    let step = render_hunks_rec(hs, max, 0);
    SpecFileDiff {
        path,
        diff_text: header_text(path) + step.text,
        additions: step.adds as u32,
        deletions: step.dels as u32,
    }
}

/// Computes the unified diff of `original` against `modified` for the file
/// at `file_path`: lines are split with their terminators kept, classified
/// along a longest common subsequence, grouped into context-bounded hunks,
/// and rendered with a size bound.
pub fn generate_diff(
    file_path: String,
    original: String,
    modified: String,
    config: Option<DiffConfig>,
) -> (r: FileDiff)
    requires
        original@.len() + modified@.len() < u32::MAX,
    ensures
        r@ == diff_result_spec(
            file_path@,
            original@,
            modified@,
            spec_context_lines(config),
            spec_max_lines(config),
        ),
{
    let ctx: u32 = match &config {
        Option::Some(c) => match c.context_lines {
            Option::Some(v) => v,
            Option::None => 3,
        },
        Option::None => 3,
    };
    let max: u32 = match &config {
        Option::Some(c) => match c.max_lines_per_file {
            Option::Some(v) => v,
            Option::None => 500,
        },
        Option::None => 500,
    };
    let oc = chars_of(original.as_str());
    let mc = chars_of(modified.as_str());
    let ol = split_lines(&oc);
    let ml = split_lines(&mc);
    proof {
        lemma_lines_of_count(original@);
        lemma_lines_of_count(modified@);
        assert(lines_view(ol@).len() == ol@.len());
        assert(lines_view(ml@).len() == ml@.len());
    }
    let script = diff_lines(&ol, &ml);
    proof {
        lemma_script_len(lines_of(original@), lines_of(modified@));
        assert(script_view(script@).len() == script@.len());
    }
    let hunks = group_hunks(&script, ctx as usize);
    proof {
        lemma_hunks_total(script_view(script@), ctx as int, 0, Option::None);
    }
    let pc = chars_of(file_path.as_str());
    let rr = render_unified(&pc, &hunks, max as usize);
    proof {
        lemma_render_hunks_bounds(hunks_view(hunks@), max as int, 0);
    }
    FileDiff { path: file_path, diff_text: rr.0, additions: rr.1 as u32, deletions: rr.2 as u32 }
}

/// For identical inputs the edit script holds only `Equal` changes, no
/// hunk is produced, both tallies are zero, and the rendered text is the
/// two header lines alone.
pub proof fn lemma_identical_inputs(path: Seq<char>, text: Seq<char>, ctx: int, max: int)
    ensures
        ({
            let script = script_of(lines_of(text), lines_of(text));
            let r = diff_result_spec(path, text, text, ctx, max);
            &&& forall|k: int| 0 <= k < script.len() ==> (#[trigger] script[k].tag) is Equal
            &&& hunks_of(script, ctx) == Seq::<SpecHunk>::empty()
            &&& r.additions == 0
            &&& r.deletions == 0
            &&& r.diff_text == header_text(path)
        }),
{
    let lines = lines_of(text);
    let script = script_of(lines, lines);
    lemma_script_of_same(lines);
    lemma_all_equal_no_hunks(script, ctx, 0);
    assert(render_hunks_rec(Seq::<SpecHunk>::empty(), max, 0).text =~= Seq::<char>::empty());
    assert(header_text(path) + Seq::<char>::empty() =~= header_text(path));
}

/// Determinism: the result is a function of the inputs and settings alone,
/// so any two results of the diff for identical arguments are identical.
pub proof fn lemma_generate_diff_deterministic(
    r1: SpecFileDiff,
    r2: SpecFileDiff,
    path: Seq<char>,
    original: Seq<char>,
    modified: Seq<char>,
    ctx: int,
    max: int,
)
    requires
        r1 == diff_result_spec(path, original, modified, ctx, max),
        r2 == diff_result_spec(path, original, modified, ctx, max),
    ensures
        r1 == r2,
{
}

/// Reconstruction: concatenating the contents of the `Delete` and `Equal`
/// changes of the edit script gives back the original text exactly, and
/// concatenating the `Insert` and `Equal` contents the modified text.
pub proof fn lemma_reconstruction(original: Seq<char>, modified: Seq<char>)
    ensures
        cat(old_side(script_of(lines_of(original), lines_of(modified)))) == original,
        cat(new_side(script_of(lines_of(original), lines_of(modified)))) == modified,
{
    lemma_script_projections(lines_of(original), lines_of(modified));
    lemma_cat_lines_of(original);
    lemma_cat_lines_of(modified);
}

} // verus!
