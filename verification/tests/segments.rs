use aura_core::models::{Segment, SegmentStatus};
use aura_core::segments::{create_segments, plan_segments};

#[test]
fn plan_of_ten_bytes_in_three_parts() {
    let plan = create_segments(10, 3);
    assert_eq!(plan.len(), 3);
    assert_eq!(
        plan[0],
        Segment { index: 0, start: 0, end: 2, downloaded: 0, status: SegmentStatus::Pending }
    );
    assert_eq!(
        plan[1],
        Segment { index: 1, start: 3, end: 5, downloaded: 0, status: SegmentStatus::Pending }
    );
    assert_eq!(
        plan[2],
        Segment { index: 2, start: 6, end: 9, downloaded: 0, status: SegmentStatus::Pending }
    );
}

#[test]
fn plan_never_has_more_parts_than_bytes() {
    let plan = plan_segments(3, 4);
    assert_eq!(plan.len(), 3);
    assert_eq!(plan[2].end, 2);
    let single = plan_segments(1000, 0);
    assert_eq!(single.len(), 1);
    assert_eq!((single[0].start, single[0].end), (0, 999));
}

use aura_core::segments::{
    all_segments_completed, claim_next, complete_segment, completed_total, part_file_names,
    reconcile, rewind_segment, segment_size,
};

fn range(index: usize, start: u64, end: u64, status: SegmentStatus) -> Segment {
    Segment { index, start, end, downloaded: 0, status }
}

#[test]
fn plan_covers_the_file() {
    for (total, count) in [(1u64, 1usize), (10, 3), (1000, 4), (1000, 1), (7, 7), (8, 3), (1 << 40, 16)]
    {
        let plan = create_segments(total, count);
        assert_eq!(plan.len(), count);
        assert_eq!(plan[0].start, 0);
        assert_eq!(plan[count - 1].end, total - 1);
        for i in 0..count {
            assert_eq!(plan[i].index, i);
            assert!(plan[i].start <= plan[i].end);
            assert_eq!(plan[i].status, SegmentStatus::Pending);
            assert_eq!(plan[i].downloaded, 0);
            if i + 1 < count {
                assert_eq!(plan[i + 1].start, plan[i].end + 1);
                assert_eq!(plan[i].end - plan[i].start + 1, total / count as u64);
            }
        }
    }
}

#[test]
fn plan_of_a_thousand_bytes_in_four_parts() {
    let plan = create_segments(1000, 4);
    let bounds: Vec<(u64, u64)> = plan.iter().map(|s| (s.start, s.end)).collect();
    assert_eq!(bounds, vec![(0, 249), (250, 499), (500, 749), (750, 999)]);
    let uneven = create_segments(1003, 4);
    let bounds: Vec<(u64, u64)> = uneven.iter().map(|s| (s.start, s.end)).collect();
    assert_eq!(bounds, vec![(0, 249), (250, 499), (500, 749), (750, 1002)]);
}

#[test]
fn ranges_have_their_size() {
    assert_eq!(segment_size(&range(0, 0, 0, SegmentStatus::Pending)), 1);
    assert_eq!(segment_size(&range(0, 250, 499, SegmentStatus::Pending)), 250);
    assert_eq!(segment_size(&range(0, 5, 4, SegmentStatus::Pending)), 0);
    assert_eq!(segment_size(&range(0, 0, u64::MAX, SegmentStatus::Pending)), u64::MAX);
}

#[test]
fn first_pending_range_is_claimed() {
    let mut ranges = vec![
        range(0, 0, 9, SegmentStatus::Completed),
        range(1, 10, 19, SegmentStatus::Downloading),
        range(2, 20, 29, SegmentStatus::Pending),
        range(3, 30, 39, SegmentStatus::Pending),
    ];
    let taken = claim_next(&mut ranges);
    assert_eq!(taken, Some(range(2, 20, 29, SegmentStatus::Downloading)));
    assert_eq!(ranges[2].status, SegmentStatus::Downloading);
    assert_eq!(ranges[3].status, SegmentStatus::Pending);
    let taken = claim_next(&mut ranges);
    assert_eq!(taken, Some(range(3, 30, 39, SegmentStatus::Downloading)));
    assert_eq!(claim_next(&mut ranges), None);
    assert_eq!(ranges[0].status, SegmentStatus::Completed);
}

#[test]
fn completed_ranges_add_up() {
    let mut ranges = create_segments(1000, 4);
    assert_eq!(completed_total(&ranges), 0);
    assert!(!all_segments_completed(&ranges));
    let taken = claim_next(&mut ranges).unwrap();
    complete_segment(&mut ranges, &taken);
    assert_eq!(ranges[0].status, SegmentStatus::Completed);
    assert_eq!(ranges[0].downloaded, 250);
    assert_eq!(completed_total(&ranges), 250);
    for _ in 0..3 {
        let taken = claim_next(&mut ranges).unwrap();
        complete_segment(&mut ranges, &taken);
    }
    assert_eq!(completed_total(&ranges), 1000);
    assert!(all_segments_completed(&ranges));
    assert!(all_segments_completed(&Vec::new()));
}

#[test]
fn completed_total_saturates() {
    let ranges = vec![
        range(0, 0, u64::MAX, SegmentStatus::Completed),
        range(1, 0, 9, SegmentStatus::Completed),
    ];
    assert_eq!(completed_total(&ranges), u64::MAX);
}

#[test]
fn a_range_is_put_back_in_line() {
    let mut ranges = create_segments(100, 2);
    let taken = claim_next(&mut ranges).unwrap();
    assert_eq!(ranges[0].status, SegmentStatus::Downloading);
    rewind_segment(&mut ranges, taken.index);
    assert_eq!(ranges[0].status, SegmentStatus::Pending);
    assert_eq!(ranges[0].downloaded, 0);
    rewind_segment(&mut ranges, 7);
    assert_eq!(ranges, create_segments(100, 2));
}

#[test]
fn part_files_on_disk_complete_their_ranges() {
    let mut ranges = create_segments(1000, 4);
    reconcile(&mut ranges, &vec![Some(250), Some(249), None, Some(400)]);
    assert_eq!(ranges[0].status, SegmentStatus::Completed);
    assert_eq!(ranges[0].downloaded, 250);
    assert_eq!(ranges[1].status, SegmentStatus::Pending);
    assert_eq!(ranges[1].downloaded, 0);
    assert_eq!(ranges[2].status, SegmentStatus::Pending);
    assert_eq!(ranges[3].status, SegmentStatus::Completed);
    assert_eq!(ranges[3].downloaded, 250);
    let mut short = create_segments(1000, 4);
    reconcile(&mut short, &vec![Some(250)]);
    assert_eq!(short[0].status, SegmentStatus::Completed);
    assert_eq!(short[1].status, SegmentStatus::Pending);
    assert_eq!(short[3].status, SegmentStatus::Pending);
}

#[test]
fn parts_are_named_by_the_number_of_their_range() {
    assert_eq!(part_file_names(&Vec::new()), Vec::<String>::new());
    assert_eq!(
        part_file_names(&create_segments(1000, 3)),
        vec!["part0.mp4", "part1.mp4", "part2.mp4"]
    );
    assert_eq!(part_file_names(&create_segments(1000, 11))[10], "part10.mp4");
    let odd = vec![
        range(7, 0, 9, SegmentStatus::Completed),
        range(2, 10, 19, SegmentStatus::Pending),
    ];
    assert_eq!(part_file_names(&odd), vec!["part7.mp4", "part2.mp4"]);
}
