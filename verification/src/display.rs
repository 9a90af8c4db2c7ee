//! Top-level formatting: validates the input, groups files by compaction
//! level in rank order, and emits the ordered sequence of output lines.

use vstd::prelude::*;
use crate::files::{
    CompactionLevel, ParquetFile, ValidationError, file_wf, files_wf, first_invalid,
    lemma_first_invalid_at,
};
use crate::layout::{
    LayoutContext, ctx_of, lemma_seq_max_time_ge, lemma_seq_min_time_le,
};
use crate::render::{format_file, format_level, spec_format_file, spec_format_level};

verus! {

/// The views of a sequence of output lines.
pub open spec fn lines_view(v: Seq<String>) -> Seq<Seq<char>> {
    v.map_values(|s: String| s@)
}

/// The view of an optional title.
pub open spec fn title_view(title: Option<String>) -> Option<Seq<char>> {
    match title {
        Some(t) => Some(t@),
        None => None,
    }
}

/// The files of one compaction level, in input order: the stable partition
/// of the input.
pub open spec fn files_at_level(files: Seq<ParquetFile>, level: CompactionLevel) -> Seq<
    ParquetFile,
>
    decreases files.len(),
{
    if files.len() == 0 {
        Seq::empty()
    } else {
        let rest = files_at_level(files.drop_last(), level);
        if files.last().compaction_level == level {
            rest.push(files.last())
        } else {
            rest
        }
    }
}

/// The lines of one level group: nothing when the level has no files, else
/// its header line followed by one line per file in input order.
pub open spec fn spec_group_lines(
    ctx: LayoutContext,
    files: Seq<ParquetFile>,
    level: CompactionLevel,
) -> Seq<Seq<char>> {
    let group = files_at_level(files, level);
    if group.len() == 0 {
        Seq::empty()
    } else {
        seq![spec_format_level(ctx, level)] + group.map_values(
            |f: ParquetFile| spec_format_file(ctx, f),
        )
    }
}

/// All rendered lines of a non-empty set: the three level groups in rank
/// order.
pub open spec fn spec_rendered_lines(ctx: LayoutContext, files: Seq<ParquetFile>) -> Seq<
    Seq<char>,
> {
    spec_group_lines(ctx, files, CompactionLevel::Initial) + spec_group_lines(
        ctx,
        files,
        CompactionLevel::NonOverlapped,
    ) + spec_group_lines(ctx, files, CompactionLevel::Final)
}

/// The whole output of one call: the title line when one is given, then,
/// for a non-empty set, the rendered level groups.
pub open spec fn spec_readable_list(title: Option<Seq<char>>, files: Seq<ParquetFile>) -> Seq<
    Seq<char>,
> {
    let head: Seq<Seq<char>> = match title {
        Some(t) => seq![t],
        None => Seq::empty(),
    };
    if files.len() == 0 {
        head
    } else {
        head + spec_rendered_lines(ctx_of(files), files)
    }
}

/// What the renderer guarantees of an `Err` result: the input holds an
/// ill-formed record and the error names the first one.
pub open spec fn names_first_invalid(e: ValidationError, files: Seq<ParquetFile>) -> bool {
    &&& !files_wf(files)
    &&& 0 <= first_invalid(files) < files.len()
    &&& e.file_id == files[first_invalid(files)].id
}

/// Returns `Err` at the first record with `min_time > max_time` or a
/// negative size, `Ok` when every record is well formed.
fn validate(files: &Vec<ParquetFile>) -> (r: Result<(), ValidationError>)
    ensures
        r is Ok <==> files_wf(files@),
        r is Err ==> names_first_invalid(r->Err_0, files@),
{
    let n = files.len();
    let mut i: usize = 0;
    while i < n
        invariant
            i <= n,
            n == files@.len(),
            forall|j: int| 0 <= j < i ==> file_wf(files@[j]),
        decreases n - i,
    {
        let f = files[i];
        if f.min_time > f.max_time || f.file_size_bytes < 0 {
            proof {
                lemma_first_invalid_at(files@, i as int);
            }
            return Err(ValidationError { file_id: f.id });
        }
        i = i + 1;
    }
    Ok(())
}

/// Appends the lines of one level group: header line, then one line per
/// file of that level in input order.
#[verifier::loop_isolation(false)]
fn append_group(
    output: &mut Vec<String>,
    ctx: &LayoutContext,
    files: &Vec<ParquetFile>,
    level: CompactionLevel,
)
    requires
        files@.len() > 0,
        files_wf(files@),
        *ctx == ctx_of(files@),
    ensures
        lines_view(final(output)@) == lines_view(old(output)@) + spec_group_lines(
            *ctx,
            files@,
            level,
        ),
{
    let mut group: Vec<ParquetFile> = Vec::new();
    let n = files.len();
    let mut i: usize = 0;
    proof {
        assert(files@.subrange(0, 0) =~= Seq::<ParquetFile>::empty());
    }
    while i < n
        invariant
            i <= n,
            n == files@.len(),
            files_wf(files@),
            group@ == files_at_level(files@.subrange(0, i as int), level),
            forall|k: int| 0 <= k < group@.len() ==> file_wf(#[trigger] group@[k])
                && ctx_of(files@).min_time <= group@[k].min_time
                && group@[k].max_time <= ctx_of(files@).max_time,
        decreases n - i,
    {
        let f = files[i];
        proof {
            lemma_seq_min_time_le(files@, i as int);
            lemma_seq_max_time_ge(files@, i as int);
            assert(file_wf(files@[i as int]));
            assert(files@.subrange(0, i + 1).drop_last() =~= files@.subrange(0, i as int));
            assert(files@.subrange(0, i + 1).last() == files@[i as int]);
        }
        if f.compaction_level == level {
            let ghost g_before = group@;
            group.push(f);
            proof {
                assert(group@ =~= files_at_level(files@.subrange(0, i + 1), level));
                assert forall|k: int| 0 <= k < group@.len() implies file_wf(
                    #[trigger] group@[k],
                ) && ctx_of(files@).min_time <= group@[k].min_time && group@[k].max_time
                    <= ctx_of(files@).max_time by {
                    if k < g_before.len() {
                        assert(group@[k] == g_before[k]);
                    } else {
                        assert(group@[k] == files@[i as int]);
                    }
                }
            }
        } else {
            proof {
                assert(group@ == files_at_level(files@.subrange(0, i + 1), level));
            }
        }
        i = i + 1;
    }
    proof {
        assert(files@.subrange(0, n as int) =~= files@);
    }
    if group.len() == 0 {
        proof {
            assert(lines_view(output@) =~= lines_view(output@) + spec_group_lines(
                *ctx,
                files@,
                level,
            ));
        }
        return;
    }
    let header = format_level(ctx, level);
    output.push(header);
    proof {
        assert(lines_view(output@) =~= lines_view(old(output)@) + seq![
            spec_format_level(*ctx, level),
        ]);
    }
    let ghost group_view = group@;
    let ghost line_of = |f: ParquetFile| spec_format_file(*ctx, f);
    let m = group.len();
    let mut j: usize = 0;
    proof {
        assert(group_view.subrange(0, 0) =~= Seq::<ParquetFile>::empty());
        assert(lines_view(output@) =~= lines_view(old(output)@) + seq![
            spec_format_level(*ctx, level),
        ] + group_view.subrange(0, 0).map_values(line_of));
    }
    while j < m
        invariant
            j <= m,
            m == group@.len(),
            group@ == group_view,
            *ctx == ctx_of(files@),
            forall|k: int| 0 <= k < group@.len() ==> file_wf(#[trigger] group@[k])
                && ctx.min_time <= group@[k].min_time && group@[k].max_time <= ctx.max_time,
            line_of == (|f: ParquetFile| spec_format_file(*ctx, f)),
            lines_view(output@) == lines_view(old(output)@) + seq![
                spec_format_level(*ctx, level),
            ] + group_view.subrange(0, j as int).map_values(line_of),
        decreases m - j,
    {
        let f = group[j];
        proof {
            assert(file_wf(group@[j as int]));
        }
        let line = format_file(ctx, &f);
        let ghost out_before = output@;
        output.push(line);
        proof {
            assert(group_view.subrange(0, j + 1) =~= group_view.subrange(0, j as int) + seq![f]);
            assert(group_view.subrange(0, j + 1).map_values(line_of) =~= group_view.subrange(
                0,
                j as int,
            ).map_values(line_of) + seq![line_of(f)]);
            assert(lines_view(output@) =~= lines_view(out_before).push(line@));
            assert(lines_view(output@) =~= lines_view(old(output)@) + seq![
                spec_format_level(*ctx, level),
            ] + group_view.subrange(0, j + 1).map_values(line_of));
        }
        j = j + 1;
    }
    proof {
        assert(group_view.subrange(0, m as int) =~= group_view);
        assert(group_view.map_values(line_of) == files_at_level(files@, level).map_values(
            |f: ParquetFile| spec_format_file(*ctx, f),
        ));
        assert(lines_view(output@) =~= lines_view(old(output)@) + spec_group_lines(
            *ctx,
            files@,
            level,
        ));
    }
}

/// Renders the list of files under an optional title line: nothing more for
/// an empty list, else the level groups in rank order. Rejects the first
/// ill-formed record instead of rendering it.
pub fn readable_list_of_files(title: Option<String>, files: &Vec<ParquetFile>) -> (r: Result<
    Vec<String>,
    ValidationError,
>)
    ensures
        r is Ok <==> files_wf(files@),
        r is Ok ==> lines_view(r->Ok_0@) == spec_readable_list(title_view(title), files@),
        r is Err ==> names_first_invalid(r->Err_0, files@),
{
    match validate(files) {
        Ok(()) => {},
        Err(e) => {
            return Err(e);
        },
    }
    let mut output: Vec<String> = Vec::new();
    let ghost head: Seq<Seq<char>> = match title_view(title) {
        Some(t) => seq![t],
        None => Seq::empty(),
    };
    match title {
        Some(t) => {
            output.push(t);
        },
        None => {},
    }
    proof {
        assert(lines_view(output@) =~= head);
    }
    if files.len() == 0 {
        return Ok(output);
    }
    let ctx = LayoutContext::new(files);
    append_group(&mut output, &ctx, files, CompactionLevel::Initial);
    append_group(&mut output, &ctx, files, CompactionLevel::NonOverlapped);
    append_group(&mut output, &ctx, files, CompactionLevel::Final);
    proof {
        assert(lines_view(output@) =~= spec_readable_list(title_view(title), files@));
    }
    Ok(output)
}

/// Renders one titled list of files.
pub fn format_files(title: String, files: &Vec<ParquetFile>) -> (r: Result<
    Vec<String>,
    ValidationError,
>)
    ensures
        r is Ok <==> files_wf(files@),
        r is Ok ==> lines_view(r->Ok_0@) == spec_readable_list(Some(title@), files@),
        r is Err ==> names_first_invalid(r->Err_0, files@),
{
    readable_list_of_files(Some(title), files)
}

/// Renders two titled lists of files, the second concatenated after the
/// first; the two share no layout.
pub fn format_files_split(
    title1: String,
    files1: &Vec<ParquetFile>,
    title2: String,
    files2: &Vec<ParquetFile>,
) -> (r: Result<Vec<String>, ValidationError>)
    ensures
        r is Ok <==> files_wf(files1@) && files_wf(files2@),
        r is Ok ==> lines_view(r->Ok_0@) == spec_readable_list(Some(title1@), files1@)
            + spec_readable_list(Some(title2@), files2@),
        !files_wf(files1@) ==> r is Err && names_first_invalid(r->Err_0, files1@),
        files_wf(files1@) && !files_wf(files2@) ==> r is Err && names_first_invalid(
            r->Err_0,
            files2@,
        ),
{
    let mut strings1 = match readable_list_of_files(Some(title1), files1) {
        Ok(v) => v,
        Err(e) => {
            return Err(e);
        },
    };
    let mut strings2 = match readable_list_of_files(Some(title2), files2) {
        Ok(v) => v,
        Err(e) => {
            return Err(e);
        },
    };
    strings1.append(&mut strings2);
    proof {
        assert(lines_view(strings1@) =~= spec_readable_list(Some(title1@), files1@)
            + spec_readable_list(Some(title2@), files2@));
    }
    Ok(strings1)
}

} // verus!
