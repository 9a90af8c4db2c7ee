//! Renders single lines: the per-level header line and the per-file bar
//! line, each pinned to an exact `Seq<char>` by its spec function.

use vstd::prelude::*;
use vstd::string::StrSliceExecFns;
use vstd::string::StringExecFns;
use crate::files::{CompactionLevel, FileSizeSeen, ParquetFile, file_wf};
use crate::layout::{
    HEADING_WIDTH, LayoutContext, TIMELINE_WIDTH, spec_time_range_to_chars, time_range_to_chars,
};
use crate::textfmt::{
    center, dec_int, pad_right, pad_to, push_center, push_dec_i64, push_repeat, repeat_char,
};

verus! {

/// Short label of a compaction level: `L0`, `L1` or `L2`.
pub open spec fn spec_display_level(level: CompactionLevel) -> Seq<char> {
    match level {
        CompactionLevel::Initial => seq!['L', '0'],
        CompactionLevel::NonOverlapped => seq!['L', '1'],
        CompactionLevel::Final => seq!['L', '2'],
    }
}

/// Compact label of a file, level then id, like `L0.1`.
pub open spec fn spec_display_file_id(f: ParquetFile) -> Seq<char> {
    spec_display_level(f.compaction_level) + seq!['.'] + dec_int(f.id as int)
}

/// Row heading of a file: compact label, `[min_time,max_time]`, and the
/// file's own size when sizes differ across the set.
pub open spec fn spec_display_format(f: ParquetFile, show_size: bool) -> Seq<char> {
    let base = spec_display_file_id(f) + seq!['['] + dec_int(f.min_time as int) + seq![',']
        + dec_int(f.max_time as int) + seq![']'];
    if show_size {
        base + seq![' '] + dec_int(f.file_size_bytes as int) + seq!['b']
    } else {
        base
    }
}

/// Suffix `, all files {v}b` shown on headers when every file shares size
/// `v`.
pub open spec fn spec_size_suffix(v: i64) -> Seq<char> {
    seq![',', ' ', 'a', 'l', 'l', ' ', 'f', 'i', 'l', 'e', 's', ' '] + dec_int(v as int)
        + seq!['b']
}

/// Header text of a level group before padding.
pub open spec fn spec_level_heading(ctx: LayoutContext, level: CompactionLevel) -> Seq<char> {
    match ctx.size_observation {
        FileSizeSeen::Uniform(v) => spec_display_level(level) + spec_size_suffix(v),
        _ => spec_display_level(level),
    }
}

/// Header line of a level group, left-justified over the full line width.
pub open spec fn spec_format_level(ctx: LayoutContext, level: CompactionLevel) -> Seq<char> {
    pad_right(spec_level_heading(ctx, level), (HEADING_WIDTH + TIMELINE_WIDTH) as nat)
}

/// Clamps an integer at zero, the saturating subtraction of the width
/// arithmetic.
pub open spec fn clamp_zero(n: int) -> int {
    if n > 0 {
        n
    } else {
        0
    }
}

/// Interior width of a file's bar: the file's time range in columns (the
/// full timeline when the whole set collapses to one instant), less the two
/// border characters, never negative.
pub open spec fn spec_field_width(ctx: LayoutContext, f: ParquetFile) -> int {
    let w = if ctx.min_time == ctx.max_time {
        TIMELINE_WIDTH as int
    } else {
        spec_time_range_to_chars(ctx, f.max_time - f.min_time)
    };
    clamp_zero(w - 2)
}

/// A file's bar: the compact label centered in the interior width with `-`
/// fill, framed by `|` on both sides.
pub open spec fn spec_bar(ctx: LayoutContext, f: ParquetFile) -> Seq<char> {
    seq!['|'] + center(spec_display_file_id(f), spec_field_width(ctx, f) as nat, '-')
        + seq!['|']
}

/// A file's full output line: padded row heading, then the bar, centered
/// when the whole set collapses to one instant and otherwise positioned
/// proportionally to the file's start time.
pub open spec fn spec_format_file(ctx: LayoutContext, f: ParquetFile) -> Seq<char> {
    let heading = spec_display_format(f, ctx.size_observation is Mixed);
    let bar = spec_bar(ctx, f);
    if ctx.min_time == ctx.max_time {
        pad_right(heading, HEADING_WIDTH as nat) + center(bar, TIMELINE_WIDTH as nat, ' ')
    } else {
        let prefix = spec_time_range_to_chars(ctx, clamp_zero(f.min_time - ctx.min_time));
        let postfix = clamp_zero(TIMELINE_WIDTH - bar.len() - prefix);
        pad_right(heading, HEADING_WIDTH as nat) + repeat_char(' ', prefix as nat) + bar
            + repeat_char(' ', postfix as nat)
    }
}

/// Appends the short label of a level.
fn push_level(s: &mut String, level: CompactionLevel)
    ensures
        final(s)@ == old(s)@ + spec_display_level(level),
{
    s.push('L');
    match level {
        CompactionLevel::Initial => s.push('0'),
        CompactionLevel::NonOverlapped => s.push('1'),
        CompactionLevel::Final => s.push('2'),
    }
    proof {
        assert(old(s)@.push('L').push('0') =~= old(s)@ + seq!['L', '0']);
        assert(old(s)@.push('L').push('1') =~= old(s)@ + seq!['L', '1']);
        assert(old(s)@.push('L').push('2') =~= old(s)@ + seq!['L', '2']);
    }
}

/// Compact label of a file, like `L0.1`.
pub fn display_file_id(file: &ParquetFile) -> (s: String)
    ensures
        s@ == spec_display_file_id(*file),
{
    let mut s = String::new();
    push_level(&mut s, file.compaction_level);
    s.push('.');
    push_dec_i64(&mut s, file.id);
    proof {
        assert(s@ =~= spec_display_file_id(*file));
    }
    s
}

/// Row heading of a file, like `L0.1[100,200]`, with ` {size}b` appended
/// when `show_size` holds.
pub fn display_format(file: &ParquetFile, show_size: bool) -> (s: String)
    ensures
        s@ == spec_display_format(*file, show_size),
{
    let mut s = display_file_id(file);
    s.push('[');
    push_dec_i64(&mut s, file.min_time);
    s.push(',');
    push_dec_i64(&mut s, file.max_time);
    s.push(']');
    proof {
        assert(s@ =~= spec_display_format(*file, false));
    }
    if show_size {
        s.push(' ');
        push_dec_i64(&mut s, file.file_size_bytes);
        s.push('b');
        proof {
            assert(s@ =~= spec_display_format(*file, true));
        }
    }
    s
}

/// Header line of a level group: its label, the shared size when all files
/// have one, space-padded over the full line width.
pub fn format_level(ctx: &LayoutContext, level: CompactionLevel) -> (s: String)
    ensures
        s@ == spec_format_level(*ctx, level),
{
    let mut s = String::new();
    push_level(&mut s, level);
    match ctx.size_observation {
        FileSizeSeen::Uniform(v) => {
            s.push(',');
            s.push(' ');
            s.push('a');
            s.push('l');
            s.push('l');
            s.push(' ');
            s.push('f');
            s.push('i');
            s.push('l');
            s.push('e');
            s.push('s');
            s.push(' ');
            push_dec_i64(&mut s, v);
            s.push('b');
            proof {
                assert(s@ =~= spec_level_heading(*ctx, level));
            }
        },
        _ => {},
    }
    pad_to(&mut s, HEADING_WIDTH + TIMELINE_WIDTH);
    s
}

/// Output line of one file: the row heading left-justified over the heading
/// width, then the file's bar placed on the timeline.
pub fn format_file(ctx: &LayoutContext, file: &ParquetFile) -> (s: String)
    requires
        file_wf(*file),
        ctx.min_time <= file.min_time,
        file.max_time <= ctx.max_time,
    ensures
        s@ == spec_format_file(*ctx, *file),
{
    let time_width: i128 = file.max_time as i128 - file.min_time as i128;
    let raw_width: usize = if ctx.min_time == ctx.max_time {
        TIMELINE_WIDTH
    } else {
        time_range_to_chars(ctx, time_width)
    };
    let field_width: usize = if raw_width >= 2 {
        raw_width - 2
    } else {
        0
    };
    assert(field_width as int == spec_field_width(*ctx, *file));

    let label = display_file_id(file);
    let mut bar = String::new();
    bar.push('|');
    push_center(&mut bar, label.as_str(), field_width, '-');
    bar.push('|');
    proof {
        assert(bar@ =~= spec_bar(*ctx, *file));
    }

    let show_size = match ctx.size_observation {
        FileSizeSeen::Mixed => true,
        _ => false,
    };
    let mut line = display_format(file, show_size);
    pad_to(&mut line, HEADING_WIDTH);

    if ctx.min_time == ctx.max_time {
        push_center(&mut line, bar.as_str(), TIMELINE_WIDTH, ' ');
        proof {
            assert(line@ =~= spec_format_file(*ctx, *file));
        }
        line
    } else {
        let prefix_range: i128 = file.min_time as i128 - ctx.min_time as i128;
        let prefix: usize = time_range_to_chars(ctx, prefix_range);
        push_repeat(&mut line, ' ', prefix);
        line.append(bar.as_str());
        let bar_len: usize = bar.as_str().unicode_len();
        let used: u128 = bar_len as u128 + prefix as u128;
        let postfix: usize = if (TIMELINE_WIDTH as u128) > used {
            (TIMELINE_WIDTH as u128 - used) as usize
        } else {
            0
        };
        push_repeat(&mut line, ' ', postfix);
        proof {
            assert(line@ =~= spec_format_file(*ctx, *file));
        }
        line
    }
}

} // verus!
