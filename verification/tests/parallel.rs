use fetch_extract::parallel::{
    join_workers, plan_download, poll, DownloadPlan, Poll, RangeWorker, WorkerOutcome,
    POLL_INTERVAL_MS, WORKER_CHUNK_SIZE,
};
use fetch_extract::probe::Capability;
use fetch_extract::progress::Progress;
use fetch_extract::ranges::{plan_ranges, ByteRange};

#[test]
fn forty_megabytes_with_range_support_go_in_parallel() {
    let capability = Capability { total_size: 40 * 1024 * 1024, supports_ranges: true };
    match plan_download(&capability) {
        DownloadPlan::Parallel { total_size, ranges } => {
            assert_eq!(total_size, 41943040);
            assert_eq!(ranges.len(), 4);
            for (i, range) in ranges.iter().enumerate() {
                assert_eq!(range.start, i as u64 * 10485760);
                assert_eq!(range.end - range.start + 1, 10485760);
            }
        }
        DownloadPlan::SingleStream => panic!("expected a parallel plan"),
    }
}

#[test]
fn unknown_size_or_no_range_support_falls_back_to_one_stream() {
    let unknown = Capability { total_size: 0, supports_ranges: true };
    assert!(matches!(plan_download(&unknown), DownloadPlan::SingleStream));
    let unsupported = Capability { total_size: 1000, supports_ranges: false };
    assert!(matches!(plan_download(&unsupported), DownloadPlan::SingleStream));
}

#[test]
fn worker_places_chunks_one_after_another() {
    let mut worker = RangeWorker::start(ByteRange { start: 100, end: 199 });
    assert_eq!(worker.on_chunk(40), 100);
    assert_eq!(worker.on_chunk(40), 140);
    assert_eq!(worker.on_chunk(20), 180);
    assert_eq!(worker.offset, 200);
    assert_eq!(worker.range, ByteRange { start: 100, end: 199 });
}

#[test]
fn polling_ends_when_the_counter_reaches_the_total() {
    assert_eq!(poll(200, 0, false), Poll { notice: Progress::Percent(0), finished: false });
    assert_eq!(poll(200, 50, false), Poll { notice: Progress::Percent(2500), finished: false });
    assert_eq!(poll(200, 199, false), Poll { notice: Progress::Percent(9950), finished: false });
    assert_eq!(poll(200, 200, false), Poll { notice: Progress::Percent(10000), finished: true });
    assert_eq!(poll(200, 300, false), Poll { notice: Progress::Percent(10000), finished: true });
}

#[test]
fn polling_ends_when_the_workers_have_ended() {
    assert_eq!(poll(200, 0, true), Poll { notice: Progress::Percent(0), finished: true });
    assert_eq!(poll(200, 150, true), Poll { notice: Progress::Percent(7500), finished: true });
    assert_eq!(poll(200, 200, true), Poll { notice: Progress::Percent(10000), finished: true });
}

#[test]
fn failed_worker_ends_the_download_with_its_error() {
    // One worker fails at once; the others deliver their ranges. The counter stays short
    // of the total, polling ends when all have ended, and the failure is surfaced.
    let polled = poll(400, 300, true);
    assert!(polled.finished);
    let outcomes = vec![
        WorkerOutcome::Finished,
        WorkerOutcome::Failed("Range HTTP error: 500 Internal Server Error".to_string()),
        WorkerOutcome::Finished,
        WorkerOutcome::Finished,
    ];
    assert_eq!(
        join_workers(&outcomes),
        Err("Range HTTP error: 500 Internal Server Error".to_string())
    );
}

#[test]
fn all_workers_finished_closes_with_one_hundred() {
    let outcomes = vec![WorkerOutcome::Finished; 4];
    assert_eq!(join_workers(&outcomes).map(|p| p.label()), Ok("100.00%".to_string()));
    assert_eq!(join_workers(&Vec::new()), Ok(Progress::Percent(10000)));
}

#[test]
fn first_failure_in_worker_order_is_surfaced() {
    let outcomes = vec![
        WorkerOutcome::Finished,
        WorkerOutcome::Failed("Range HTTP error: 416 Range Not Satisfiable".to_string()),
        WorkerOutcome::Panicked,
        WorkerOutcome::Failed("Read error: reset".to_string()),
    ];
    assert_eq!(join_workers(&outcomes), Err("Range HTTP error: 416 Range Not Satisfiable".to_string()));
}

#[test]
fn abnormal_end_of_a_worker_has_its_own_message() {
    let outcomes = vec![
        WorkerOutcome::Finished,
        WorkerOutcome::Panicked,
        WorkerOutcome::Failed("Write error: disk full".to_string()),
    ];
    assert_eq!(join_workers(&outcomes), Err("A download thread panicked".to_string()));
}

#[test]
fn coordinator_constants() {
    assert_eq!(POLL_INTERVAL_MS, 150);
    assert_eq!(WORKER_CHUNK_SIZE, 32 * 1024);
}

#[test]
fn chunks_written_in_any_order_make_up_the_resource() {
    for total in [1u64, 3, 10, 257, 1000] {
        let resource: Vec<u8> = (0..total).map(|i| (i * 7 % 251) as u8).collect();
        let mut writes: Vec<(u64, Vec<u8>)> = Vec::new();
        for (w, range) in plan_ranges(total).into_iter().enumerate() {
            let body = &resource[range.start as usize..=range.end as usize];
            let mut worker = RangeWorker::start(range);
            let mut sent = 0usize;
            let mut size = w + 1;
            while sent < body.len() {
                let n = size.min(body.len() - sent);
                let at = worker.on_chunk(n);
                writes.push((at, body[sent..sent + n].to_vec()));
                sent += n;
                size = size * 2 + 1;
            }
            assert_eq!(worker.offset, range.end + 1);
        }
        for order in 0..3 {
            let mut file = vec![0xffu8; total as usize];
            let mut sequence = writes.clone();
            match order {
                0 => {}
                1 => sequence.reverse(),
                _ => sequence.sort_by_key(|(at, bytes)| (bytes.len(), u64::MAX - at)),
            }
            for (at, bytes) in &sequence {
                file[*at as usize..*at as usize + bytes.len()].copy_from_slice(bytes);
            }
            assert_eq!(file, resource, "total {} order {}", total, order);
        }
    }
}
