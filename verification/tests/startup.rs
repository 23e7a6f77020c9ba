use fetch_extract::probe::HttpStatus;
use fetch_extract::start::{
    done_notice, scrape_percent, starting_notice, StartupNext, StartupNotice, StartupTask,
};
use fetch_extract::status::{get_verdict, head_verdict, TIMEOUT_SECS};

fn notice(percent: u8, message: &str) -> StartupNotice {
    StartupNotice { percent, message: message.to_string() }
}

#[test]
fn tasks_are_announced_with_rising_percentages() {
    assert_eq!(starting_notice(), notice(0, "Starting…"));
    let mut task = StartupTask::first();
    let mut notices = Vec::new();
    loop {
        notices.push(task.announce());
        match task.next(Ok(())) {
            StartupNext::Continue(next) => task = next,
            StartupNext::Completed => break,
            StartupNext::Aborted(message) => panic!("aborted: {}", message),
        }
    }
    assert_eq!(
        notices,
        vec![
            notice(5, "Removing old DB…"),
            notice(15, "Creating DB tables…"),
            notice(25, "Populating consoles…"),
            notice(30, "Scraping…"),
        ]
    );
    assert_eq!(done_notice(), notice(100, "Done!"));
}

#[test]
fn failed_task_is_named_in_the_message() {
    assert_eq!(
        StartupTask::RemoveOldDb.next(Err("denied".to_string())),
        StartupNext::Aborted("remove_old_db failed: denied".to_string())
    );
    assert_eq!(
        StartupTask::Setup.next(Err("locked".to_string())),
        StartupNext::Aborted("setup failed: locked".to_string())
    );
    assert_eq!(
        StartupTask::ConsoleFill.next(Err("full".to_string())),
        StartupNext::Aborted("console_fill failed: full".to_string())
    );
    assert_eq!(
        StartupTask::Scrape.next(Err("offline".to_string())),
        StartupNext::Aborted("scrape failed: offline".to_string())
    );
}

#[test]
fn reading_the_consoles_goes_from_thirty_to_one_hundred() {
    assert_eq!(scrape_percent(0, 16), 30);
    assert_eq!(scrape_percent(1, 16), 34);
    assert_eq!(scrape_percent(8, 16), 65);
    assert_eq!(scrape_percent(15, 16), 95);
    assert_eq!(scrape_percent(16, 16), 100);
    assert_eq!(scrape_percent(1, 1), 100);
    assert_eq!(scrape_percent(usize::MAX, usize::MAX), 100);
    assert_eq!(scrape_percent(usize::MAX - 1, usize::MAX), 99);
    assert_eq!(scrape_percent(0, 0), 100);
    assert_eq!(scrape_percent(5, 3), 100);
}

#[test]
fn answered_metadata_request_decides_the_check() {
    assert_eq!(head_verdict(HttpStatus::new(200)), Some(true));
    assert_eq!(head_verdict(HttpStatus::new(404)), Some(false));
    assert_eq!(head_verdict(None), None);
}

#[test]
fn plain_request_decides_when_the_first_got_no_answer() {
    assert_eq!(get_verdict(Ok(HttpStatus::new(204).unwrap())), Ok(true));
    assert_eq!(get_verdict(Ok(HttpStatus::new(500).unwrap())), Ok(false));
    assert_eq!(get_verdict(Err("timed out".to_string())), Err("Request failed: timed out".to_string()));
    assert_eq!(TIMEOUT_SECS, 5);
}
