//! Global layout parameters of one rendering call: the time extrema of the
//! whole file set, the size-uniformity observation, and the conversion from
//! a time range to a number of character columns.

use vstd::prelude::*;
use crate::files::{FileSizeSeen, ParquetFile, file_wf, files_wf};

verus! {

/// Width, in character columns, of the timeline region of every line.
pub const TIMELINE_WIDTH: usize = 80;

/// Width, in character columns, of the row-heading column of every line.
pub const HEADING_WIDTH: usize = 20;

/// Layout parameters shared by every line of one rendering call, built once
/// from a non-empty file set and never mutated.
#[derive(Clone, Copy, Debug, PartialEq, Eq, Structural)]
pub struct LayoutContext {
    /// Minimum of all `min_time` fields.
    pub min_time: i64,
    /// Maximum of all `max_time` fields.
    pub max_time: i64,
    /// Whether all files of the set share one byte size.
    pub size_observation: FileSizeSeen,
}

/// Minimum of the `min_time` fields of a non-empty sequence.
pub open spec fn seq_min_time(files: Seq<ParquetFile>) -> i64
    recommends
        files.len() > 0,
    decreases files.len(),
{
    if files.len() <= 1 {
        files[0].min_time
    } else {
        let rest = seq_min_time(files.drop_last());
        if files.last().min_time < rest {
            files.last().min_time
        } else {
            rest
        }
    }
}

/// Maximum of the `max_time` fields of a non-empty sequence.
pub open spec fn seq_max_time(files: Seq<ParquetFile>) -> i64
    recommends
        files.len() > 0,
    decreases files.len(),
{
    if files.len() <= 1 {
        files[0].max_time
    } else {
        let rest = seq_max_time(files.drop_last());
        if files.last().max_time > rest {
            files.last().max_time
        } else {
            rest
        }
    }
}

/// The size-uniformity fold over a whole sequence of files.
pub open spec fn fold_sizes(files: Seq<ParquetFile>) -> FileSizeSeen
    decreases files.len(),
{
    if files.len() == 0 {
        FileSizeSeen::Unseen
    } else {
        fold_sizes(files.drop_last()).observe_spec(files.last().file_size_bytes)
    }
}

/// The layout context a non-empty file set determines.
pub open spec fn ctx_of(files: Seq<ParquetFile>) -> LayoutContext {
    LayoutContext {
        min_time: seq_min_time(files),
        max_time: seq_max_time(files),
        size_observation: fold_sizes(files),
    }
}

/// The global minimum is a lower bound on every file's start.
pub proof fn lemma_seq_min_time_le(files: Seq<ParquetFile>, i: int)
    requires
        0 <= i < files.len(),
    ensures
        seq_min_time(files) <= files[i].min_time,
    decreases files.len(),
{
    if files.len() > 1 && i < files.len() - 1 {
        lemma_seq_min_time_le(files.drop_last(), i);
    }
}

/// The global maximum is an upper bound on every file's end.
pub proof fn lemma_seq_max_time_ge(files: Seq<ParquetFile>, i: int)
    requires
        0 <= i < files.len(),
    ensures
        seq_max_time(files) >= files[i].max_time,
    decreases files.len(),
{
    if files.len() > 1 && i < files.len() - 1 {
        lemma_seq_max_time_ge(files.drop_last(), i);
    }
}

/// On a well-formed non-empty set the context's extrema are ordered.
pub proof fn lemma_ctx_wf(files: Seq<ParquetFile>)
    requires
        files.len() > 0,
        files_wf(files),
    ensures
        ctx_of(files).min_time <= ctx_of(files).max_time,
{
    lemma_seq_min_time_le(files, 0);
    lemma_seq_max_time_ge(files, 0);
    assert(file_wf(files[0]));
}

/// Number of character columns that `range` time units occupy on the
/// timeline: `floor(range * TIMELINE_WIDTH / span)` for a positive global
/// span, the full timeline for a positive range against a collapsed span,
/// and zero otherwise.
pub open spec fn spec_time_range_to_chars(ctx: LayoutContext, range: int) -> int {
    let span = ctx.max_time - ctx.min_time;
    if span > 0 {
        range * (TIMELINE_WIDTH as int) / span
    } else if range > 0 {
        TIMELINE_WIDTH as int
    } else {
        0
    }
}

impl LayoutContext {
    /// Builds the layout parameters for a non-empty, well-formed file set:
    /// time extrema over the whole set and the size-uniformity fold.
    pub fn new(files: &Vec<ParquetFile>) -> (ctx: LayoutContext)
        requires
            files@.len() > 0,
            files_wf(files@),
        ensures
            ctx == ctx_of(files@),
            ctx.min_time <= ctx.max_time,
    {
        let first = files[0];
        let mut min_time: i64 = first.min_time;
        let mut max_time: i64 = first.max_time;
        let mut size_observation = FileSizeSeen::Unseen.observe(first.file_size_bytes);
        proof {
            let s1 = files@.subrange(0, 1);
            assert(s1.drop_last() =~= Seq::<ParquetFile>::empty());
            assert(fold_sizes(s1.drop_last()) == FileSizeSeen::Unseen);
            assert(s1.last() == files@[0]);
            assert(fold_sizes(s1) == FileSizeSeen::Unseen.observe_spec(files@[0].file_size_bytes));
        }
        let n = files.len();
        let mut i: usize = 1;
        while i < n
            invariant
                1 <= i <= n,
                n == files@.len(),
                min_time == seq_min_time(files@.subrange(0, i as int)),
                max_time == seq_max_time(files@.subrange(0, i as int)),
                size_observation == fold_sizes(files@.subrange(0, i as int)),
            decreases n - i,
        {
            let f = files[i];
            proof {
                assert(files@.subrange(0, i + 1).drop_last() =~= files@.subrange(0, i as int));
                assert(files@.subrange(0, i + 1).last() == files@[i as int]);
            }
            if f.min_time < min_time {
                min_time = f.min_time;
            }
            if f.max_time > max_time {
                max_time = f.max_time;
            }
            size_observation = size_observation.observe(f.file_size_bytes);
            i = i + 1;
        }
        proof {
            assert(files@.subrange(0, n as int) =~= files@);
            lemma_ctx_wf(files@);
        }
        LayoutContext { min_time, max_time, size_observation }
    }
}

/// Number of character columns `time_range` time units occupy, for ranges
/// inside the global span.
pub fn time_range_to_chars(ctx: &LayoutContext, time_range: i128) -> (r: usize)
    requires
        ctx.min_time <= ctx.max_time,
        0 <= time_range,
        time_range <= ctx.max_time as int - ctx.min_time as int || ctx.min_time == ctx.max_time,
    ensures
        r as int == spec_time_range_to_chars(*ctx, time_range as int),
        r <= TIMELINE_WIDTH,
{
    let span: i128 = ctx.max_time as i128 - ctx.min_time as i128;
    if span > 0 {
        proof {
            vstd::arithmetic::mul::lemma_mul_inequality(
                time_range as int,
                span as int,
                TIMELINE_WIDTH as int,
            );
            vstd::arithmetic::div_mod::lemma_div_is_ordered(
                time_range as int * (TIMELINE_WIDTH as int),
                span as int * (TIMELINE_WIDTH as int),
                span as int,
            );
            vstd::arithmetic::div_mod::lemma_div_multiples_vanish(
                TIMELINE_WIDTH as int,
                span as int,
            );
        }
        let chars: u128 = (time_range as u128) * (TIMELINE_WIDTH as u128) / (span as u128);
        chars as usize
    } else if time_range > 0 {
        TIMELINE_WIDTH
    } else {
        0
    }
}

} // verus!
