use cartoon_download::segments::{
    found_order, join_order, segment_file_name, segment_index, FoundSegment, JoinPart, ResumePlan,
};

#[test]
fn segment_names_have_four_digits_at_least() {
    assert_eq!(segment_file_name(0), "segment_0000.ts");
    assert_eq!(segment_file_name(7), "segment_0007.ts");
    assert_eq!(segment_file_name(123), "segment_0123.ts");
    assert_eq!(segment_file_name(12345), "segment_12345.ts");
}

#[test]
fn segment_names_read_back() {
    for i in [0usize, 1, 9, 10, 99, 1000, 9999, 10000, 123456, usize::MAX] {
        assert_eq!(segment_index(&segment_file_name(i)), Some(i));
    }
}

#[test]
fn segment_index_reads_like_parse() {
    assert_eq!(segment_index("segment_7.ts"), Some(7));
    assert_eq!(segment_index("segment_+3.ts"), Some(3));
    assert_eq!(segment_index("segment_.ts"), None);
    assert_eq!(segment_index("segment_+.ts"), None);
    assert_eq!(segment_index("segment_-1.ts"), None);
    assert_eq!(segment_index("segment_1a.ts"), None);
    assert_eq!(segment_index("segment_1.mp4"), None);
    assert_eq!(segment_index("Segment_1.ts"), None);
    assert_eq!(segment_index("segment_99999999999999999999999.ts"), None);
    assert_eq!(segment_index("segment_18446744073709551615.ts"), "18446744073709551615".parse::<usize>().ok());
}

fn found(list: &[(usize, u64)]) -> Vec<FoundSegment> {
    list.iter().map(|&(index, size)| FoundSegment { index, size }).collect()
}

#[test]
fn found_segments_sort_stably_by_index() {
    let f = found(&[(3, 1), (1, 1), (3, 2), (0, 1), (1, 2)]);
    assert_eq!(found_order(&f), vec![3, 1, 4, 0, 2]);
}

#[test]
fn resume_drops_the_last_segment_and_continues_after_it() {
    let f = found(&[(3, 10), (1, 20), (2, 30)]);
    let plan = ResumePlan::new(&f);
    assert_eq!(plan.kept, vec![1, 2]);
    assert_eq!(plan.discard, Some(0));
    assert_eq!(plan.start_index, 3);
    assert_eq!(plan.found_bytes, 60);
    assert_eq!(plan.bytes_on_disk(&f, true), 50);
    assert_eq!(plan.bytes_on_disk(&f, false), 60);
}

#[test]
fn resume_with_one_segment_starts_over() {
    let f = found(&[(5, 10)]);
    let plan = ResumePlan::new(&f);
    assert!(plan.kept.is_empty());
    assert_eq!(plan.discard, Some(0));
    assert_eq!(plan.start_index, 0);
    assert_eq!(plan.bytes_on_disk(&f, true), 0);
}

#[test]
fn resume_with_nothing_found_starts_at_zero() {
    let f = found(&[]);
    let plan = ResumePlan::new(&f);
    assert!(plan.kept.is_empty());
    assert_eq!(plan.discard, None);
    assert_eq!(plan.start_index, 0);
    assert_eq!(plan.bytes_on_disk(&f, true), 0);
}

#[test]
fn resume_with_a_gap_keeps_the_gap() {
    let f = found(&[(0, 1), (2, 1), (5, 1)]);
    let plan = ResumePlan::new(&f);
    assert_eq!(plan.start_index, 3);
    let parts = join_order(&f, &plan, 5);
    let indices: Vec<usize> = parts
        .iter()
        .map(|p| match p {
            JoinPart::Kept { index, .. } => *index,
            JoinPart::Fresh { index } => *index,
        })
        .collect();
    assert_eq!(indices, vec![0, 2, 3, 4]);
}

#[test]
fn join_takes_kept_then_fresh_segments_in_index_order() {
    let f = found(&[(1, 5), (0, 5), (2, 5)]);
    let plan = ResumePlan::new(&f);
    let parts = join_order(&f, &plan, 4);
    assert_eq!(parts.len(), 4);
    assert!(matches!(parts[0], JoinPart::Kept { position: 1, index: 0 }));
    assert!(matches!(parts[1], JoinPart::Kept { position: 0, index: 1 }));
    assert!(matches!(parts[2], JoinPart::Fresh { index: 2 }));
    assert!(matches!(parts[3], JoinPart::Fresh { index: 3 }));
}

#[test]
fn join_after_a_playlist_that_shrank_has_only_kept_parts() {
    let f = found(&[(0, 5), (1, 5), (2, 5), (3, 5)]);
    let plan = ResumePlan::new(&f);
    assert_eq!(plan.start_index, 3);
    let parts = join_order(&f, &plan, 2);
    assert_eq!(parts.len(), 3);
}

#[test]
fn one_segment_with_the_largest_index_is_accepted() {
    let f = found(&[(usize::MAX, 1), (4, 2)]);
    let plan = ResumePlan::new(&f);
    assert_eq!(plan.discard, Some(0));
    assert_eq!(plan.start_index, 5);
}
