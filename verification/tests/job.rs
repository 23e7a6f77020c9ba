use fetch_extract::job::{
    archive_file_name, archive_stem_of, next_action, FetchJob, JobAction, JobNext,
};
use std::path::Path;

#[test]
fn file_name_is_made_to_end_in_zip() {
    assert_eq!(archive_file_name("Game"), "Game.zip");
    assert_eq!(archive_file_name("Game.zip"), "Game.zip");
    assert_eq!(archive_file_name("Game.ZIP"), "Game.ZIP");
    assert_eq!(archive_file_name("Game.Zip"), "Game.Zip");
    assert_eq!(archive_file_name("Game.7z"), "Game.7z.zip");
    assert_eq!(archive_file_name("zip"), "zip.zip");
    assert_eq!(archive_file_name(""), ".zip");
    assert_eq!(archive_file_name(".zip"), ".zip");
    assert_eq!(archive_file_name("Pokémon (USA)"), "Pokémon (USA).zip");
}

#[test]
fn stem_is_the_name_without_the_extension() {
    assert_eq!(archive_stem_of("Game.zip"), "Game");
    assert_eq!(archive_stem_of("Game.v1.2.ZIP"), "Game.v1.2");
    assert_eq!(archive_stem_of(".zip"), ".zip");
    assert_eq!(archive_stem_of("dir/Name.zip"), "Name");
}

#[test]
fn stem_agrees_with_the_host_for_archive_names() {
    for name in ["a", "a.zip", "A.ZIP", ".zip", "x/y", "x/.zip", "a.b.c", "é.zip", "a/b/c.tar.zip", ""] {
        let archive = archive_file_name(name);
        let expected = Path::new(&archive).file_stem().and_then(|s| s.to_str()).unwrap_or("extracted");
        assert_eq!(archive_stem_of(&archive), expected, "name {:?}", name);
    }
}

#[test]
fn job_saves_and_unpacks_beside() {
    let job = FetchJob::new(7, "https://host/files/Game.zip".to_string(), "Game", "/home/u/.rusty-roms/downloads");
    assert_eq!(job.id, 7);
    assert_eq!(job.url, "https://host/files/Game.zip");
    assert_eq!(job.file_name, "Game.zip");
    assert_eq!(job.zip_path, "/home/u/.rusty-roms/downloads/Game.zip");
    assert_eq!(job.extract_dir, "/home/u/.rusty-roms/downloads/Game");
}

#[test]
fn job_paths_agree_with_the_host() {
    for dir in ["/d", "/d/", "d", ""] {
        for name in ["Game", "a/b", "/abs", "x.zip"] {
            let job = FetchJob::new(1, String::new(), name, dir);
            let expected_zip = Path::new(dir).join(&job.file_name);
            assert_eq!(job.zip_path, expected_zip.to_str().unwrap(), "dir {:?} name {:?}", dir, name);
            let stem = Path::new(&job.file_name).file_stem().unwrap().to_str().unwrap().to_string();
            let expected_dir = Path::new(dir).join(stem);
            assert_eq!(job.extract_dir, expected_dir.to_str().unwrap(), "dir {:?} name {:?}", dir, name);
        }
    }
}

#[test]
fn completed_job_says_where_things_went() {
    let job = FetchJob::new(1, String::new(), "Game", "/d");
    assert_eq!(
        job.completion_message(),
        "Downloaded to \"/d/Game.zip\" and extracted to \"/d/Game\""
    );
    let odd = FetchJob::new(1, String::new(), "a\"b", "/d");
    assert_eq!(
        odd.completion_message(),
        "Downloaded to \"/d/a\\\"b.zip\" and extracted to \"/d/a\\\"b\""
    );
}

#[test]
fn actions_follow_one_another() {
    let mut action = JobAction::first();
    let mut taken = vec![action];
    loop {
        match next_action(action, Ok(())) {
            JobNext::Continue(next) => {
                taken.push(next);
                action = next;
            }
            JobNext::Completed => break,
            JobNext::Aborted(message) => panic!("aborted: {}", message),
        }
    }
    assert_eq!(
        taken,
        vec![
            JobAction::PrepareDirectory,
            JobAction::Download,
            JobAction::AnnounceExtracting,
            JobAction::Extract,
            JobAction::AnnounceExtracted,
            JobAction::MarkDownloaded,
            JobAction::AnnounceComplete,
        ]
    );
}

#[test]
fn failure_ends_the_job_with_its_message() {
    for action in [
        JobAction::PrepareDirectory,
        JobAction::Download,
        JobAction::AnnounceExtracting,
        JobAction::Extract,
        JobAction::AnnounceExtracted,
        JobAction::MarkDownloaded,
        JobAction::AnnounceComplete,
    ] {
        assert_eq!(
            next_action(action, Err("Unsafe zip entry path: ../x".to_string())),
            JobNext::Aborted("Unsafe zip entry path: ../x".to_string())
        );
    }
}

#[test]
fn item_is_marked_only_after_extraction() {
    assert_eq!(next_action(JobAction::Extract, Ok(())), JobNext::Continue(JobAction::AnnounceExtracted));
    assert_eq!(
        next_action(JobAction::AnnounceExtracted, Ok(())),
        JobNext::Continue(JobAction::MarkDownloaded)
    );
    assert_eq!(
        next_action(JobAction::Extract, Err("Invalid zip archive".to_string())),
        JobNext::Aborted("Invalid zip archive".to_string())
    );
}
