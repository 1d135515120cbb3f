use highgarden::checksum::{verify_md5, verify_sha256, verify_task_data};
use highgarden::error::DownloadError;
use highgarden::limiter::PermitPool;
use highgarden::manager::{DownloadManager, SizeProbe, StartOutcome};
use highgarden::task::{DownloadStatus, DownloadTask};
use highgarden::transfer::TransferSession;

fn new_task(m: &mut DownloadManager, name: &str, size: u64) -> String {
    m.create_task(
        "arknights".to_string(),
        name.to_string(),
        "https://cdn.example/pack.zip".to_string(),
        format!("/tmp/{name}.zip"),
        SizeProbe::Known(size),
        None,
        None,
        1700000000,
    )
    .expect("create_task")
}

#[test]
fn create_task_initial_record() {
    let mut m = DownloadManager::new(3);
    let id = new_task(&mut m, "a", 1000);
    let t = m.get_task(&id).expect("task");
    assert_eq!(t.status, DownloadStatus::Pending);
    assert_eq!(t.total_size, 1000);
    assert_eq!(t.downloaded_size, 0);
    assert_eq!(t.progress, 0);
    assert_eq!(t.speed, 0);
    assert_eq!(t.chunks.len(), 1);
    assert_eq!(t.chunks[0].start, 0);
    assert_eq!(t.chunks[0].end, 999);
    assert_eq!(t.chunks[0].downloaded, 0);
    assert!(!t.chunks[0].completed);
    assert!(t.error.is_none());
}

#[test]
fn create_task_probe_failed() {
    let mut m = DownloadManager::new(3);
    let r = m.create_task(
        "arknights".to_string(),
        "a".to_string(),
        "https://cdn.example/p.zip".to_string(),
        "/tmp/p.zip".to_string(),
        SizeProbe::Failed,
        None,
        None,
        0,
    );
    assert!(matches!(r, Err(DownloadError::ProbeFailed)));
    assert!(m.get_tasks().is_empty());
}

/// The downloaded-size counter always equals the sum of the chunks'
/// counters, at every quiescent point of the task's life.
#[test]
fn downloaded_size_matches_chunk_sum() {
    let mut m = DownloadManager::new(3);
    let id = new_task(&mut m, "sum", 1000);
    let check = |m: &DownloadManager, id: &str| {
        let t = m.get_task(id).expect("task");
        let sum: u64 = t.chunks.iter().map(|c| c.downloaded).sum();
        assert_eq!(t.downloaded_size, sum);
    };
    check(&m, &id);
    m.start_task(&id, 300).expect("start");
    check(&m, &id);
    m.finish_chunk(&id, 0, 1000);
    check(&m, &id);
    m.finish_task(&id, Ok(()));
    check(&m, &id);
}

/// Round trip: a known-size task started over an empty disk ends
/// Completed with progress 100 and the full byte count.
#[test]
fn round_trip_completes() {
    let mut m = DownloadManager::new(3);
    let id = new_task(&mut m, "round", 1000);
    let outcome = m.start_task(&id, 0).expect("start");
    let job = match outcome {
        StartOutcome::Transfer(job) => job,
        StartOutcome::AlreadyComplete => panic!("expected a transfer"),
    };
    assert_eq!(job.range_start, 0);
    assert_eq!(job.range_end, 999);
    assert!(!job.use_range);
    assert!(!job.has_checksum);
    assert!(m.begin_transfer(&id));
    let mut session = TransferSession::begin(&job);
    let p1 = session.on_buffer(600, 1000);
    assert_eq!(p1.downloaded_size, 600);
    assert_eq!(p1.progress, 60);
    assert_eq!(p1.speed, 600);
    assert_eq!(p1.status, DownloadStatus::Downloading);
    let p2 = session.on_buffer(400, 2000);
    assert_eq!(p2.downloaded_size, 1000);
    assert_eq!(p2.progress, 100);
    m.finish_chunk(&id, 0, session.chunk_downloaded);
    m.finish_task(&id, Ok(()));
    let t = m.get_task(&id).expect("task");
    assert_eq!(t.status, DownloadStatus::Completed);
    assert_eq!(t.progress, 100);
    assert_eq!(t.downloaded_size, 1000);
}

/// Resume correctness: after an interrupted transfer left k bytes on
/// disk and a restart reloaded the persisted state, starting again
/// requests the range from k and ends with the full size.
#[test]
fn resume_after_restart() {
    let mut m = DownloadManager::new(3);
    let id = new_task(&mut m, "resume", 1000);
    m.start_task(&id, 0).expect("start");
    assert!(m.begin_transfer(&id));
    // ... 300 bytes arrive, then the transfer is interrupted ...
    m.pause_task(&id).expect("pause");
    let saved = m.persistable_tasks();
    assert_eq!(saved.len(), 1);

    // Simulated restart: a fresh manager re-populated from the snapshot.
    let mut m2 = DownloadManager::new(3);
    m2.load_persisted(saved);
    let t = m2.get_task(&id).expect("task survives restart");
    assert_eq!(t.status, DownloadStatus::Paused);
    assert_eq!(t.speed, 0);

    let outcome = m2.start_task(&id, 300).expect("start again");
    let job = match outcome {
        StartOutcome::Transfer(job) => job,
        StartOutcome::AlreadyComplete => panic!("expected a transfer"),
    };
    assert_eq!(job.range_start, 300);
    assert_eq!(job.range_end, 999);
    assert!(job.use_range);
    assert_eq!(job.resume_offset, 300);
    let session = TransferSession::begin(&job);
    assert_eq!(session.write_offset, 300);
    let t = m2.get_task(&id).expect("task");
    assert_eq!(t.downloaded_size, 300);
    assert_eq!(t.progress, 30);

    assert!(m2.begin_transfer(&id));
    m2.finish_chunk(&id, 0, 1000);
    m2.finish_task(&id, Ok(()));
    let t = m2.get_task(&id).expect("task");
    assert_eq!(t.status, DownloadStatus::Completed);
    assert_eq!(t.downloaded_size, 1000);
}

/// A file already covering the whole size completes without a transfer.
#[test]
fn start_on_complete_file() {
    let mut m = DownloadManager::new(3);
    let id = new_task(&mut m, "done", 1000);
    let outcome = m.start_task(&id, 1000).expect("start");
    assert!(matches!(outcome, StartOutcome::AlreadyComplete));
    let t = m.get_task(&id).expect("task");
    assert_eq!(t.status, DownloadStatus::Completed);
    assert_eq!(t.progress, 100);
}

#[test]
fn start_unknown_task_fails() {
    let mut m = DownloadManager::new(3);
    match m.start_task("nope", 0) {
        Err(DownloadError::TaskNotFound(id)) => assert_eq!(id, "nope"),
        other => panic!("unexpected: {:?}", other.is_ok()),
    }
}

/// Bounded concurrency: with a pool of two permits, a third concurrent
/// task waits until one finishes, and no permit is lost.
#[test]
fn bounded_concurrency_two_permits() {
    let mut m = DownloadManager::new(2);
    let a = new_task(&mut m, "a", 100);
    let b = new_task(&mut m, "b", 100);
    let c = new_task(&mut m, "c", 100);
    for id in [&a, &b, &c] {
        m.start_task(id, 0).expect("start");
    }
    assert!(m.begin_transfer(&a));
    assert!(m.begin_transfer(&b));
    assert!(!m.begin_transfer(&c), "third transfer must wait");
    assert!(m.pool.in_use <= m.pool.capacity);
    assert!(!m.begin_transfer(&a), "a task cannot hold two permits");
    m.finish_chunk(&a, 0, 100);
    m.finish_task(&a, Ok(()));
    assert!(m.begin_transfer(&c), "freed permit goes to the waiter");
    assert_eq!(m.pool.in_use, 2);
}

#[test]
fn zero_capacity_pool_never_grants() {
    let mut m = DownloadManager::new(0);
    let id = new_task(&mut m, "z", 10);
    m.start_task(&id, 0).expect("start");
    assert!(!m.begin_transfer(&id));
    assert_eq!(m.pool.in_use, 0);
}

#[test]
fn progress_and_byte_boundaries() {
    assert_eq!(highgarden::transfer::compute_progress(u64::MAX, 10), 100);
    assert_eq!(highgarden::transfer::compute_progress(5, 0), 0);
    assert_eq!(highgarden::transfer::compute_progress(50, 200), 25);
    assert_eq!(highgarden::transfer::compute_speed(u64::MAX, 1), u64::MAX);
    assert_eq!(highgarden::text::format_bytes(u64::MAX), "17179869183.99GB");
}

#[test]
fn permit_pool_counts() {
    let mut p = PermitPool::new(1);
    assert!(p.try_acquire());
    assert!(!p.try_acquire());
    p.release();
    assert!(p.try_acquire());
}

/// Checksum enforcement: a digest mismatch ends the task in Error with a
/// message naming both digests.
#[test]
fn checksum_mismatch_sets_error() {
    let mut m = DownloadManager::new(3);
    let id = m
        .create_task(
            "arknights".to_string(),
            "sum".to_string(),
            "https://cdn.example/p.zip".to_string(),
            "/tmp/p.zip".to_string(),
            SizeProbe::Known(5),
            Some("ab".to_string()),
            None,
            0,
        )
        .expect("create");
    let outcome = m.start_task(&id, 0).expect("start");
    let job = match outcome {
        StartOutcome::Transfer(job) => job,
        StartOutcome::AlreadyComplete => panic!("expected a transfer"),
    };
    assert!(job.has_checksum);
    assert!(m.begin_transfer(&id));
    m.finish_chunk(&id, 0, 5);
    m.begin_verification(&id);
    assert_eq!(
        m.get_task(&id).unwrap().status,
        DownloadStatus::Verifying
    );
    let data = b"hello";
    let err = verify_task_data(data, &Some("ab".to_string()), &None).unwrap_err();
    m.finish_task(&id, Err(err));
    let t = m.get_task(&id).expect("task");
    assert_eq!(t.status, DownloadStatus::Error);
    let msg = t.error.expect("error message");
    assert_eq!(
        msg,
        "SHA256 mismatch: expected ab, got \
         2cf24dba5fb0a30e26e83b2ac5b9e29e1b161e5c1fa7425e73043362938b9824"
    );
}

#[test]
fn sha256_verification_is_case_insensitive() {
    let data = b"hello";
    let lower = "2cf24dba5fb0a30e26e83b2ac5b9e29e1b161e5c1fa7425e73043362938b9824";
    let upper = "2CF24DBA5FB0A30E26E83B2AC5B9E29E1B161E5C1FA7425E73043362938B9824";
    assert!(verify_sha256(data, lower).is_ok());
    assert!(verify_sha256(data, upper).is_ok());
    assert!(verify_sha256(data, "deadbeef").is_err());
}

#[test]
fn md5_verification_matches_known_digest() {
    let data = b"hello";
    assert!(verify_md5(data, "5d41402abc4b2a76b9719d911017c592").is_ok());
    match verify_md5(data, "00").unwrap_err() {
        DownloadError::ChecksumMismatch { algorithm, expected, actual } => {
            assert_eq!(algorithm, "MD5");
            assert_eq!(expected, "00");
            assert_eq!(actual, "5d41402abc4b2a76b9719d911017c592");
        },
        _ => panic!("expected a checksum mismatch"),
    }
}

#[test]
fn strong_digest_preferred_over_legacy() {
    let data = b"hello";
    let sha = Some("2cf24dba5fb0a30e26e83b2ac5b9e29e1b161e5c1fa7425e73043362938b9824".to_string());
    let bad_md5 = Some("00".to_string());
    assert!(verify_task_data(data, &sha, &bad_md5).is_ok());
    assert!(verify_task_data(data, &None, &bad_md5).is_err());
    assert!(verify_task_data(data, &None, &None).is_ok());
}

/// Persistence filtering: terminal tasks leave the snapshot, live ones
/// stay with their byte counts.
#[test]
fn persistence_drops_terminal_tasks() {
    let mut m = DownloadManager::new(3);
    let done = new_task(&mut m, "done", 100);
    let failed = new_task(&mut m, "failed", 100);
    let live = new_task(&mut m, "live", 1000);
    m.start_task(&done, 100).expect("start");
    m.start_task(&failed, 0).expect("start");
    m.finish_task(&failed, Err(DownloadError::NetworkError("boom".to_string())));
    m.start_task(&live, 400).expect("start");
    m.pause_task(&live).expect("pause");
    let saved = m.persistable_tasks();
    assert_eq!(saved.len(), 1);
    assert_eq!(saved[0].id, live);
    assert_eq!(saved[0].downloaded_size, 400);
    assert_eq!(saved[0].status, DownloadStatus::Paused);
}

/// Cancel removes the task entirely; pause leaves it Paused with zero
/// speed.
#[test]
fn cancel_vs_pause() {
    let mut m = DownloadManager::new(3);
    let a = new_task(&mut m, "a", 100);
    let b = new_task(&mut m, "b", 100);
    m.start_task(&a, 0).expect("start");
    m.start_task(&b, 0).expect("start");
    m.cancel_task(&a).expect("cancel");
    assert!(m.get_task(&a).is_none());
    assert_eq!(m.get_tasks().len(), 1);
    m.pause_task(&b).expect("pause");
    let t = m.get_task(&b).expect("task");
    assert_eq!(t.status, DownloadStatus::Paused);
    assert_eq!(t.speed, 0);
    // Idempotent on terminal and missing tasks.
    assert!(m.cancel_task(&a).is_ok());
    assert!(m.pause_task(&a).is_ok());
}

#[test]
fn pause_does_not_touch_terminal_tasks() {
    let mut m = DownloadManager::new(3);
    let id = new_task(&mut m, "t", 100);
    m.start_task(&id, 100).expect("start");
    assert_eq!(m.get_task(&id).unwrap().status, DownloadStatus::Completed);
    m.pause_task(&id).expect("pause");
    assert_eq!(m.get_task(&id).unwrap().status, DownloadStatus::Completed);
}

#[test]
fn load_persisted_demotes_and_validates() {
    let mut m = DownloadManager::new(3);
    let id = new_task(&mut m, "x", 1000);
    m.start_task(&id, 250).expect("start");
    let mut saved = m.persistable_tasks();
    assert_eq!(saved[0].status, DownloadStatus::Downloading);
    // A corrupt record: counter out of step with its chunk.
    let mut broken: DownloadTask = saved[0].snapshot();
    broken.id = "broken".to_string();
    broken.downloaded_size = 999999;
    saved.push(broken);
    let mut m2 = DownloadManager::new(3);
    m2.load_persisted(saved);
    let t = m2.get_task(&id).expect("demoted task");
    assert_eq!(t.status, DownloadStatus::Paused);
    assert_eq!(t.speed, 0);
    assert_eq!(t.downloaded_size, 250);
    assert!(m2.get_task("broken").is_none(), "invalid records are dropped");
}

#[test]
fn finish_chunk_clamps_to_range() {
    let mut m = DownloadManager::new(3);
    let id = new_task(&mut m, "clamp", 100);
    m.start_task(&id, 0).expect("start");
    m.finish_chunk(&id, 0, 5000);
    let t = m.get_task(&id).expect("task");
    assert_eq!(t.downloaded_size, 100);
    assert!(t.chunks[0].completed);
}

#[test]
fn progress_of_unknown_size_stays_zero() {
    let mut m = DownloadManager::new(3);
    let id = m
        .create_task(
            "arknights".to_string(),
            "u".to_string(),
            "https://cdn.example/u.bin".to_string(),
            "/tmp/u.bin".to_string(),
            SizeProbe::Probed(0),
            None,
            None,
            0,
        )
        .expect("create");
    let outcome = m.start_task(&id, 0).expect("start");
    let job = match outcome {
        StartOutcome::Transfer(job) => job,
        StartOutcome::AlreadyComplete => panic!("expected a transfer"),
    };
    assert_eq!(job.total_size, 0);
    assert!(!job.use_range);
    let mut session = TransferSession::begin(&job);
    let p = session.on_buffer(1234, 500);
    assert_eq!(p.progress, 0);
    assert_eq!(p.downloaded_size, 1234);
}

#[test]
fn speed_excludes_resume_offset() {
    let mut m = DownloadManager::new(3);
    let id = new_task(&mut m, "speed", 1000);
    let outcome = m.start_task(&id, 500).expect("start");
    let job = match outcome {
        StartOutcome::Transfer(job) => job,
        StartOutcome::AlreadyComplete => panic!("expected a transfer"),
    };
    let mut session = TransferSession::begin(&job);
    let p = session.on_buffer(100, 1000);
    assert_eq!(p.downloaded_size, 600);
    assert_eq!(p.speed, 100, "resumed bytes do not inflate the speed");
    assert_eq!(p.progress, 60);
}
