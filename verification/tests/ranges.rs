use fetch_extract::ranges::{plan_ranges, ByteRange, WORKER_COUNT};

const MB: u64 = 1024 * 1024;

#[test]
fn forty_megabytes_make_four_ranges_of_ten() {
    let plan = plan_ranges(40 * MB);
    assert_eq!(
        plan,
        vec![
            ByteRange { start: 0, end: 10 * MB - 1 },
            ByteRange { start: 10 * MB, end: 20 * MB - 1 },
            ByteRange { start: 20 * MB, end: 30 * MB - 1 },
            ByteRange { start: 30 * MB, end: 40 * MB - 1 },
        ]
    );
}

#[test]
fn last_range_takes_what_is_left() {
    assert_eq!(
        plan_ranges(10),
        vec![
            ByteRange { start: 0, end: 2 },
            ByteRange { start: 3, end: 5 },
            ByteRange { start: 6, end: 8 },
            ByteRange { start: 9, end: 9 },
        ]
    );
}

#[test]
fn empty_resource_has_no_range() {
    assert_eq!(plan_ranges(0), Vec::<ByteRange>::new());
}

#[test]
fn totals_below_the_worker_count_get_one_byte_each() {
    assert_eq!(plan_ranges(1), vec![ByteRange { start: 0, end: 0 }]);
    assert_eq!(plan_ranges(2), vec![ByteRange { start: 0, end: 0 }, ByteRange { start: 1, end: 1 }]);
    assert_eq!(
        plan_ranges(3),
        vec![
            ByteRange { start: 0, end: 0 },
            ByteRange { start: 1, end: 1 },
            ByteRange { start: 2, end: 2 }
        ]
    );
}

#[test]
fn a_share_that_ends_the_resource_leaves_the_last_worker_idle() {
    assert_eq!(
        plan_ranges(9),
        vec![
            ByteRange { start: 0, end: 2 },
            ByteRange { start: 3, end: 5 },
            ByteRange { start: 6, end: 8 }
        ]
    );
    assert_eq!(
        plan_ranges(5),
        vec![
            ByteRange { start: 0, end: 1 },
            ByteRange { start: 2, end: 3 },
            ByteRange { start: 4, end: 4 }
        ]
    );
}

#[test]
fn largest_total_is_planned_without_overflow() {
    let plan = plan_ranges(u64::MAX);
    assert_eq!(plan.len(), 4);
    assert_eq!(plan[0], ByteRange { start: 0, end: (1u64 << 62) - 1 });
    assert_eq!(plan[3], ByteRange { start: 3 * (1u64 << 62), end: u64::MAX - 1 });
}

#[test]
fn every_byte_lies_in_exactly_one_range() {
    for total in 0u64..300 {
        let plan = plan_ranges(total);
        assert!(plan.len() as u64 <= WORKER_COUNT);
        for offset in 0..total + 3 {
            let hits = plan.iter().filter(|r| r.start <= offset && offset <= r.end).count();
            assert_eq!(hits, if offset < total { 1 } else { 0 }, "total {} offset {}", total, offset);
        }
    }
}

#[test]
fn ranges_lie_end_to_end() {
    for total in [1u64, 4, 7, 8, 1000, 1001, 1002, 1003, 40 * MB + 1] {
        let plan = plan_ranges(total);
        assert_eq!(plan[0].start, 0);
        assert_eq!(plan[plan.len() - 1].end, total - 1);
        for i in 1..plan.len() {
            assert_eq!(plan[i].start, plan[i - 1].end + 1);
        }
        let sum: u64 = plan.iter().map(|r| r.end - r.start + 1).sum();
        assert_eq!(sum, total);
    }
}

#[test]
fn range_header_names_both_ends() {
    assert_eq!(ByteRange { start: 0, end: 1023 }.header_value(), "bytes=0-1023");
    assert_eq!(
        ByteRange { start: 10485760, end: 20971519 }.header_value(),
        "bytes=10485760-20971519"
    );
    assert_eq!(
        ByteRange { start: u64::MAX - 1, end: u64::MAX }.header_value(),
        "bytes=18446744073709551614-18446744073709551615"
    );
}
