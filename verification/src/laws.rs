//! Properties of the renderer that hold of every input, stated over the
//! spec functions the public contracts use and proved here once.

use vstd::prelude::*;
use crate::files::{CompactionLevel, FileSizeSeen, ParquetFile};
use crate::layout::{
    HEADING_WIDTH, LayoutContext, TIMELINE_WIDTH, ctx_of, fold_sizes, spec_time_range_to_chars,
};
use crate::render::{
    spec_bar, spec_display_file_id, spec_display_format, spec_display_level, spec_field_width,
    spec_format_file, spec_format_level, spec_size_suffix,
};
use crate::display::{
    files_at_level, spec_group_lines, spec_readable_list, spec_rendered_lines,
};
use crate::textfmt::{center, dec_int, dec_nat, pad_right};

verus! {

/// Output line 0 is the title whenever one is given; an empty set renders
/// nothing beyond the optional title line.
pub proof fn lemma_title_first(title: Seq<char>, files: Seq<ParquetFile>)
    ensures
        files.len() > 0 ==> spec_readable_list(Some(title), files).len() > 0
            && spec_readable_list(Some(title), files)[0] == title,
        files.len() == 0 ==> spec_readable_list(Some(title), files) == seq![title],
        files.len() == 0 ==> spec_readable_list(None, files) == Seq::<Seq<char>>::empty(),
{
    if files.len() > 0 {
        assert(spec_readable_list(Some(title), files)[0] == title);
    }
}

/// Tier groups appear in the fixed rank order `Initial`, `NonOverlapped`,
/// `Final`; a level without files contributes no lines at all, and a level
/// with files opens with exactly one header line.
pub proof fn lemma_tier_groups_ordered(ctx: LayoutContext, files: Seq<ParquetFile>)
    ensures
        spec_rendered_lines(ctx, files) == spec_group_lines(
            ctx,
            files,
            CompactionLevel::Initial,
        ) + spec_group_lines(ctx, files, CompactionLevel::NonOverlapped) + spec_group_lines(
            ctx,
            files,
            CompactionLevel::Final,
        ),
        forall|level: CompactionLevel|
            (#[trigger] spec_group_lines(ctx, files, level).len() == 0 <==> files_at_level(
                files,
                level,
            ).len() == 0),
        forall|level: CompactionLevel| files_at_level(files, level).len() > 0
            ==> #[trigger] spec_group_lines(ctx, files, level)[0] == spec_format_level(
            ctx,
            level,
        ),
{
    assert forall|level: CompactionLevel| files_at_level(files, level).len() > 0
        implies #[trigger] spec_group_lines(ctx, files, level)[0] == spec_format_level(
        ctx,
        level,
    ) by {
        let group = files_at_level(files, level);
        assert(spec_group_lines(ctx, files, level)[0] == spec_format_level(ctx, level));
    }
}

/// The rendered lines depend on the input only through its per-level
/// groups: any two inputs with the same stable partition render alike.
pub proof fn lemma_render_depends_only_on_groups(
    ctx: LayoutContext,
    files1: Seq<ParquetFile>,
    files2: Seq<ParquetFile>,
)
    requires
        forall|level: CompactionLevel| #[trigger] files_at_level(files1, level)
            == files_at_level(files2, level),
    ensures
        spec_rendered_lines(ctx, files1) == spec_rendered_lines(ctx, files2),
{
    assert(files_at_level(files1, CompactionLevel::Initial) == files_at_level(
        files2,
        CompactionLevel::Initial,
    ));
    assert(files_at_level(files1, CompactionLevel::NonOverlapped) == files_at_level(
        files2,
        CompactionLevel::NonOverlapped,
    ));
    assert(files_at_level(files1, CompactionLevel::Final) == files_at_level(
        files2,
        CompactionLevel::Final,
    ));
}

/// Line `k + 1` of a non-empty level group is the line of the group's
/// `k`-th file: content lines follow the stable partition one for one.
pub proof fn lemma_group_line_per_file(
    ctx: LayoutContext,
    files: Seq<ParquetFile>,
    level: CompactionLevel,
    k: int,
)
    requires
        0 <= k < files_at_level(files, level).len(),
    ensures
        spec_group_lines(ctx, files, level).len() == files_at_level(files, level).len() + 1,
        spec_group_lines(ctx, files, level)[k + 1] == spec_format_file(
            ctx,
            files_at_level(files, level)[k],
        ),
{
}

/// The group of a single file.
pub proof fn lemma_files_at_level_singleton(f: ParquetFile, level: CompactionLevel)
    ensures
        f.compaction_level == level ==> files_at_level(seq![f], level) == seq![f],
        f.compaction_level != level ==> files_at_level(seq![f], level) == Seq::<
            ParquetFile,
        >::empty(),
{
    assert(seq![f].drop_last() =~= Seq::<ParquetFile>::empty());
    assert(files_at_level(Seq::<ParquetFile>::empty(), level) == Seq::<ParquetFile>::empty());
    assert(seq![f].last() == f);
    if f.compaction_level == level {
        assert(files_at_level(seq![f], level) =~= seq![f]);
    }
}

/// The stable partition distributes over concatenation: files of one level
/// keep their relative input order.
pub proof fn lemma_files_at_level_distributes(
    a: Seq<ParquetFile>,
    b: Seq<ParquetFile>,
    level: CompactionLevel,
)
    ensures
        files_at_level(a + b, level) == files_at_level(a, level) + files_at_level(b, level),
    decreases b.len(),
{
    if b.len() == 0 {
        assert(a + b =~= a);
        assert(files_at_level(a, level) + files_at_level(b, level) =~= files_at_level(a, level));
    } else {
        lemma_files_at_level_distributes(a, b.drop_last(), level);
        assert((a + b).drop_last() =~= a + b.drop_last());
        assert((a + b).last() == b.last());
        if b.last().compaction_level == level {
            assert(files_at_level(a, level) + files_at_level(b.drop_last(), level).push(b.last())
                =~= (files_at_level(a, level) + files_at_level(b.drop_last(), level)).push(
                b.last(),
            ));
        }
    }
}

/// Two files of one level keep their input order inside the level's group.
pub proof fn lemma_group_preserves_input_order(
    files: Seq<ParquetFile>,
    level: CompactionLevel,
    i: int,
    j: int,
)
    requires
        0 <= i < j < files.len(),
        files[i].compaction_level == level,
        files[j].compaction_level == level,
    ensures
        exists|a: int, b: int|
            0 <= a < b < files_at_level(files, level).len() && files_at_level(files, level)[a]
                == files[i] && files_at_level(files, level)[b] == files[j],
{
    let g = files_at_level(files, level);
    let p1 = files.subrange(0, i);
    let si = seq![files[i]];
    let p2 = files.subrange(i + 1, j);
    let sj = seq![files[j]];
    let p3 = files.subrange(j + 1, files.len() as int);
    let q1 = p1 + si;
    let q2 = q1 + p2;
    let q3 = q2 + sj;
    assert(files =~= q3 + p3);
    lemma_files_at_level_distributes(q3, p3, level);
    lemma_files_at_level_distributes(q2, sj, level);
    lemma_files_at_level_distributes(q1, p2, level);
    lemma_files_at_level_distributes(p1, si, level);
    lemma_files_at_level_singleton(files[i], level);
    lemma_files_at_level_singleton(files[j], level);
    let a = files_at_level(p1, level).len() as int;
    let b = files_at_level(q2, level).len() as int;
    assert(g[a] == files[i]);
    assert(g[b] == files[j]);
    assert(0 <= a < b < g.len());
}

/// The size fold reports `Unseen` exactly on an empty set.
pub proof fn lemma_fold_sizes_unseen(files: Seq<ParquetFile>)
    ensures
        fold_sizes(files) == FileSizeSeen::Unseen <==> files.len() == 0,
    decreases files.len(),
{
    if files.len() > 0 {
        lemma_fold_sizes_unseen(files.drop_last());
    }
}

/// The size fold reports `Uniform(v)` exactly when the set is non-empty
/// and every file's size is `v`.
pub proof fn lemma_fold_sizes_uniform(files: Seq<ParquetFile>, v: i64)
    ensures
        fold_sizes(files) == FileSizeSeen::Uniform(v) <==> (files.len() > 0 && forall|i: int|
            0 <= i < files.len() ==> files[i].file_size_bytes == v),
    decreases files.len(),
{
    if files.len() > 0 {
        let rest = files.drop_last();
        let last = files.last();
        lemma_fold_sizes_uniform(rest, v);
        lemma_fold_sizes_unseen(rest);
        assert(forall|i: int| 0 <= i < rest.len() ==> rest[i] == files[i]);
        if fold_sizes(files) == FileSizeSeen::Uniform(v) {
            match fold_sizes(rest) {
                FileSizeSeen::Unseen => {
                    assert(rest.len() == 0);
                    assert(last.file_size_bytes == v);
                    assert(forall|i: int| 0 <= i < files.len() ==> files[i] == last);
                },
                FileSizeSeen::Uniform(u) => {
                    assert(u == v);
                    assert(last.file_size_bytes == v);
                },
                FileSizeSeen::Mixed => {
                    assert(false);
                },
            }
        }
        if forall|i: int| 0 <= i < files.len() ==> files[i].file_size_bytes == v {
            if rest.len() == 0 {
                assert(fold_sizes(files) == FileSizeSeen::Uniform(last.file_size_bytes));
            } else {
                assert(fold_sizes(rest) == FileSizeSeen::Uniform(v));
            }
        }
    }
}

/// The size fold reports `Mixed` exactly when two files' sizes differ.
pub proof fn lemma_fold_sizes_mixed(files: Seq<ParquetFile>)
    ensures
        fold_sizes(files) == FileSizeSeen::Mixed <==> exists|i: int, j: int|
            0 <= i < files.len() && 0 <= j < files.len() && files[i].file_size_bytes
                != files[j].file_size_bytes,
    decreases files.len(),
{
    if files.len() > 0 {
        let rest = files.drop_last();
        let last = files.last();
        lemma_fold_sizes_mixed(rest);
        lemma_fold_sizes_unseen(rest);
        assert(forall|i: int| 0 <= i < rest.len() ==> rest[i] == files[i]);
        if fold_sizes(files) == FileSizeSeen::Mixed {
            match fold_sizes(rest) {
                FileSizeSeen::Unseen => {
                    assert(false);
                },
                FileSizeSeen::Uniform(u) => {
                    assert(last.file_size_bytes != u);
                    lemma_fold_sizes_uniform(rest, u);
                    assert(files[0].file_size_bytes == u);
                    assert(files[files.len() - 1].file_size_bytes != files[0].file_size_bytes);
                },
                FileSizeSeen::Mixed => {
                    let (i, j) = choose|i: int, j: int|
                        0 <= i < rest.len() && 0 <= j < rest.len() && rest[i].file_size_bytes
                            != rest[j].file_size_bytes;
                    assert(files[i].file_size_bytes != files[j].file_size_bytes);
                },
            }
        }
        if exists|i: int, j: int|
            0 <= i < files.len() && 0 <= j < files.len() && files[i].file_size_bytes
                != files[j].file_size_bytes {
            let (i, j) = choose|i: int, j: int|
                0 <= i < files.len() && 0 <= j < files.len() && files[i].file_size_bytes
                    != files[j].file_size_bytes;
            if i < rest.len() && j < rest.len() {
                assert(rest[i].file_size_bytes != rest[j].file_size_bytes);
                assert(fold_sizes(rest) == FileSizeSeen::Mixed);
            } else {
                let k = if i < rest.len() {
                    i
                } else {
                    j
                };
                assert(files[k].file_size_bytes != last.file_size_bytes);
                if rest.len() > 0 {
                    match fold_sizes(rest) {
                        FileSizeSeen::Unseen => {
                            assert(false);
                        },
                        FileSizeSeen::Uniform(u) => {
                            lemma_fold_sizes_uniform(rest, u);
                            assert(rest[k].file_size_bytes == u);
                        },
                        FileSizeSeen::Mixed => {},
                    }
                }
            }
        }
    }
}

/// When every file of the set shares one size `v`, each header line carries
/// the `, all files {v}b` suffix and no file line carries its own size.
pub proof fn lemma_uniform_sizes_header(files: Seq<ParquetFile>, v: i64)
    requires
        files.len() > 0,
        forall|i: int| 0 <= i < files.len() ==> files[i].file_size_bytes == v,
    ensures
        ctx_of(files).size_observation == FileSizeSeen::Uniform(v),
        forall|level: CompactionLevel| #[trigger] spec_format_level(ctx_of(files), level)
            == pad_right(
            spec_display_level(level) + spec_size_suffix(v),
            (HEADING_WIDTH + TIMELINE_WIDTH) as nat,
        ),
        !(ctx_of(files).size_observation is Mixed),
{
    lemma_fold_sizes_uniform(files, v);
}

/// When two files' sizes differ, no header line carries a size suffix and
/// every file line carries its own size.
pub proof fn lemma_mixed_sizes_header(files: Seq<ParquetFile>, i: int, j: int)
    requires
        0 <= i < files.len(),
        0 <= j < files.len(),
        files[i].file_size_bytes != files[j].file_size_bytes,
    ensures
        ctx_of(files).size_observation == FileSizeSeen::Mixed,
        forall|level: CompactionLevel| #[trigger] spec_format_level(ctx_of(files), level)
            == pad_right(spec_display_level(level), (HEADING_WIDTH + TIMELINE_WIDTH) as nat),
        ctx_of(files).size_observation is Mixed,
{
    lemma_fold_sizes_mixed(files);
    assert(exists|a: int, b: int|
        0 <= a < files.len() && 0 <= b < files.len() && files[a].file_size_bytes
            != files[b].file_size_bytes);
}

/// Powers of ten, for digit-count bounds.
pub open spec fn pow10(k: nat) -> nat
    decreases k,
{
    if k == 0 {
        1
    } else {
        10 * pow10((k - 1) as nat)
    }
}

/// A natural below `pow10(k)` prints in at most `k` digits.
pub proof fn lemma_dec_nat_len(n: nat, k: nat)
    requires
        k >= 1,
        n < pow10(k),
    ensures
        dec_nat(n).len() <= k,
    decreases k,
{
    if n >= 10 {
        assert(pow10(k) == 10 * pow10((k - 1) as nat));
        assert(n / 10 < pow10((k - 1) as nat)) by {
            vstd::arithmetic::div_mod::lemma_fundamental_div_mod(n as int, 10);
        }
        assert(k >= 2) by {
            if k == 1 {
                assert(pow10(0) == 1);
            }
        }
        lemma_dec_nat_len(n / 10, (k - 1) as nat);
    }
}

/// Any `i64` prints in at most 20 characters, sign included.
pub proof fn lemma_dec_i64_len(n: i64)
    ensures
        dec_int(n as int).len() <= 20,
{
    assert(pow10(19) == 10000000000000000000) by {
        reveal_with_fuel(pow10, 20);
    }
    if n >= 0 {
        lemma_dec_nat_len(n as nat, 19);
    } else {
        lemma_dec_nat_len((-(n as int)) as nat, 19);
    }
}

/// A file's compact label is at most 23 characters.
pub proof fn lemma_file_id_len(f: ParquetFile)
    ensures
        1 <= spec_display_file_id(f).len() <= 23,
{
    lemma_dec_i64_len(f.id);
    assert(dec_int(f.id as int).len() >= 1);
}

/// Every header line is exactly `HEADING_WIDTH + TIMELINE_WIDTH` columns.
pub proof fn lemma_header_line_width(ctx: LayoutContext, level: CompactionLevel)
    ensures
        spec_format_level(ctx, level).len() == (HEADING_WIDTH + TIMELINE_WIDTH) as int,
{
    match ctx.size_observation {
        FileSizeSeen::Uniform(v) => {
            lemma_dec_i64_len(v);
        },
        _ => {},
    }
}

/// Every bar is framed by a `|` on each side.
pub proof fn lemma_bar_framed(ctx: LayoutContext, f: ParquetFile)
    ensures
        spec_bar(ctx, f).len() >= 2,
        spec_bar(ctx, f)[0] == '|',
        spec_bar(ctx, f)[spec_bar(ctx, f).len() - 1] == '|',
{
}

/// A file spanning the full global time range gets a bar of exactly
/// `TIMELINE_WIDTH - 2` interior columns framed by one `|` on each side.
pub proof fn lemma_full_span_bar(ctx: LayoutContext, f: ParquetFile)
    requires
        ctx.min_time <= ctx.max_time,
        f.min_time == ctx.min_time,
        f.max_time == ctx.max_time,
    ensures
        spec_field_width(ctx, f) == TIMELINE_WIDTH - 2,
        spec_bar(ctx, f).len() == TIMELINE_WIDTH as int,
        spec_bar(ctx, f)[0] == '|',
        spec_bar(ctx, f)[TIMELINE_WIDTH - 1] == '|',
{
    let span = ctx.max_time - ctx.min_time;
    if span > 0 {
        assert(spec_time_range_to_chars(ctx, f.max_time - f.min_time) == TIMELINE_WIDTH as int)
            by {
            vstd::arithmetic::div_mod::lemma_div_multiples_vanish(
                TIMELINE_WIDTH as int,
                span as int,
            );
        }
    }
    assert(spec_field_width(ctx, f) == TIMELINE_WIDTH - 2);
    lemma_file_id_len(f);
    let interior = center(spec_display_file_id(f), (TIMELINE_WIDTH - 2) as nat, '-');
    assert(interior.len() == TIMELINE_WIDTH - 2);
    assert(spec_bar(ctx, f).len() == TIMELINE_WIDTH as int);
    assert(spec_bar(ctx, f)[0] == '|');
    assert(spec_bar(ctx, f)[TIMELINE_WIDTH - 1] == '|');
}

/// When the whole set collapses to one instant, a file line is the padded
/// heading followed by a full-width bar, with no left or right padding.
pub proof fn lemma_collapsed_set_centered(ctx: LayoutContext, f: ParquetFile)
    requires
        ctx.min_time == ctx.max_time,
        f.min_time == ctx.min_time,
        f.max_time == ctx.max_time,
    ensures
        spec_bar(ctx, f).len() == TIMELINE_WIDTH as int,
        spec_format_file(ctx, f) == pad_right(
            spec_display_format(f, ctx.size_observation is Mixed),
            HEADING_WIDTH as nat,
        ) + spec_bar(ctx, f),
{
    lemma_full_span_bar(ctx, f);
    let bar = spec_bar(ctx, f);
    assert(center(bar, TIMELINE_WIDTH as nat, ' ') == bar);
}

} // verus!
