use timeline_display::display::{format_files, format_files_split, readable_list_of_files};
use timeline_display::files::{CompactionLevel, FileSizeSeen, ParquetFile};

fn pf(id: i64, level: CompactionLevel, min_time: i64, max_time: i64, size: i64) -> ParquetFile {
    ParquetFile {
        id,
        compaction_level: level,
        min_time,
        max_time,
        file_size_bytes: size,
    }
}

fn lines(v: &[&str]) -> Vec<String> {
    v.iter().map(|s| s.to_string()).collect()
}

#[test]
fn display_builder() {
    let files = vec![
        pf(1, CompactionLevel::Initial, 0, 0, 1),
        pf(2, CompactionLevel::Initial, 0, 0, 1),
    ];

    assert_eq!(
        format_files("display".to_string(), &files).unwrap(),
        lines(&[
            "display",
            "L0, all files 1b                                                                                    ",
            "L0.1[0,0]           |-------------------------------------L0.1-------------------------------------|",
            "L0.2[0,0]           |-------------------------------------L0.2-------------------------------------|",
        ])
    );
}

#[test]
fn display_builder_multi_levels_with_size() {
    let files = vec![
        pf(1, CompactionLevel::Initial, 0, 0, 1),
        pf(2, CompactionLevel::Initial, 0, 0, 1),
        pf(3, CompactionLevel::Final, 0, 0, 42),
    ];

    assert_eq!(
        format_files("display".to_string(), &files).unwrap(),
        lines(&[
            "display",
            "L0                                                                                                  ",
            "L0.1[0,0] 1b        |-------------------------------------L0.1-------------------------------------|",
            "L0.2[0,0] 1b        |-------------------------------------L0.2-------------------------------------|",
            "L2                                                                                                  ",
            "L2.3[0,0] 42b       |-------------------------------------L2.3-------------------------------------|",
        ])
    );
}

#[test]
fn display_builder_size_time_ranges() {
    let files = vec![
        pf(1, CompactionLevel::Initial, 100, 200, 1),
        pf(2, CompactionLevel::Initial, 300, 400, 1),
        // overlapping file
        pf(11, CompactionLevel::Initial, 150, 350, 44),
    ];

    assert_eq!(
        format_files("display".to_string(), &files).unwrap(),
        lines(&[
            "display",
            "L0                                                                                                  ",
            "L0.1[100,200] 1b    |----------L0.1----------|                                                      ",
            "L0.2[300,400] 1b                                                         |----------L0.2----------| ",
            "L0.11[150,350] 44b               |-----------------------L0.11-----------------------|              ",
        ])
    );
}

#[test]
fn title_only_when_no_files() {
    let files: Vec<ParquetFile> = vec![];
    assert_eq!(
        format_files("display".to_string(), &files).unwrap(),
        lines(&["display"])
    );
}

#[test]
fn no_title_and_no_files_is_empty() {
    let files: Vec<ParquetFile> = vec![];
    let out = readable_list_of_files(None, &files).unwrap();
    assert!(out.is_empty());
}

#[test]
fn tier_groups_come_in_rank_order() {
    // input order Final, Initial, NonOverlapped, Initial: groups must come
    // out L0, L1, L2, files in input order inside each group
    let files = vec![
        pf(3, CompactionLevel::Final, 0, 10, 5),
        pf(1, CompactionLevel::Initial, 0, 10, 5),
        pf(2, CompactionLevel::NonOverlapped, 0, 10, 5),
        pf(4, CompactionLevel::Initial, 0, 10, 5),
    ];

    assert_eq!(
        format_files("t".to_string(), &files).unwrap(),
        lines(&[
            "t",
            "L0, all files 5b                                                                                    ",
            "L0.1[0,10]          |-------------------------------------L0.1-------------------------------------|",
            "L0.4[0,10]          |-------------------------------------L0.4-------------------------------------|",
            "L1, all files 5b                                                                                    ",
            "L1.2[0,10]          |-------------------------------------L1.2-------------------------------------|",
            "L2, all files 5b                                                                                    ",
            "L2.3[0,10]          |-------------------------------------L2.3-------------------------------------|",
        ])
    );
}

#[test]
fn odd_label_centering_puts_extra_fill_right() {
    // interior width 78, label width 5: 36 dashes left, 37 right
    let files = vec![pf(12, CompactionLevel::Initial, 7, 7, 3)];
    assert_eq!(
        format_files("t".to_string(), &files).unwrap(),
        lines(&[
            "t",
            "L0, all files 3b                                                                                    ",
            "L0.12[7,7]          |------------------------------------L0.12-------------------------------------|",
        ])
    );
}

#[test]
fn negative_times_render() {
    let files = vec![
        pf(1, CompactionLevel::Initial, -100, 100, 7),
        pf(2, CompactionLevel::NonOverlapped, -100, 0, 9),
    ];
    assert_eq!(
        format_files("neg".to_string(), &files).unwrap(),
        lines(&[
            "neg",
            "L0                                                                                                  ",
            "L0.1[-100,100] 7b   |-------------------------------------L0.1-------------------------------------|",
            "L1                                                                                                  ",
            "L1.2[-100,0] 9b     |-----------------L1.2-----------------|                                        ",
        ])
    );
}

#[test]
fn split_concatenates_both_lists() {
    let files1 = vec![
        pf(1, CompactionLevel::Initial, 100, 200, 1),
        pf(2, CompactionLevel::Initial, 300, 400, 1),
        pf(11, CompactionLevel::Initial, 150, 350, 44),
    ];
    let files2 = vec![pf(9, CompactionLevel::NonOverlapped, 0, 0, 2)];

    assert_eq!(
        format_files_split(
            "first".to_string(),
            &files1,
            "second".to_string(),
            &files2
        )
        .unwrap(),
        lines(&[
            "first",
            "L0                                                                                                  ",
            "L0.1[100,200] 1b    |----------L0.1----------|                                                      ",
            "L0.2[300,400] 1b                                                         |----------L0.2----------| ",
            "L0.11[150,350] 44b               |-----------------------L0.11-----------------------|              ",
            "second",
            "L1, all files 2b                                                                                    ",
            "L1.9[0,0]           |-------------------------------------L1.9-------------------------------------|",
        ])
    );
}

#[test]
fn reversed_time_range_is_rejected() {
    let files = vec![
        pf(1, CompactionLevel::Initial, 0, 10, 1),
        pf(7, CompactionLevel::Initial, 10, 0, 1),
        pf(8, CompactionLevel::Initial, 20, 5, 1),
    ];
    let err = format_files("t".to_string(), &files).unwrap_err();
    assert_eq!(err.file_id, 7);
}

#[test]
fn negative_size_is_rejected() {
    let files = vec![pf(5, CompactionLevel::Final, 0, 10, -1)];
    let err = format_files("t".to_string(), &files).unwrap_err();
    assert_eq!(err.file_id, 5);
}

#[test]
fn split_rejects_invalid_second_list() {
    let files1 = vec![pf(1, CompactionLevel::Initial, 0, 10, 1)];
    let files2 = vec![pf(2, CompactionLevel::Initial, 10, 0, 1)];
    let err = format_files_split("a".to_string(), &files1, "b".to_string(), &files2)
        .unwrap_err();
    assert_eq!(err.file_id, 2);
}

#[test]
fn observe_follows_the_transition_table() {
    assert_eq!(FileSizeSeen::Unseen.observe(3), FileSizeSeen::Uniform(3));
    assert_eq!(FileSizeSeen::Uniform(3).observe(3), FileSizeSeen::Uniform(3));
    assert_eq!(FileSizeSeen::Uniform(3).observe(4), FileSizeSeen::Mixed);
    assert_eq!(FileSizeSeen::Mixed.observe(3), FileSizeSeen::Mixed);
    assert_eq!(FileSizeSeen::Mixed.observe(4), FileSizeSeen::Mixed);
}
