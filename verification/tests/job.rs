use git_annex_remote_tape::cli::JobCommand;
use git_annex_remote_tape::device::TapeDevice;
use git_annex_remote_tape::error::Error;
use git_annex_remote_tape::job::{run, JobManager, JobState, RetrievalJob, RunOutcome};
use git_annex_remote_tape::tape::Drive;

fn cartridge_with(keys: &[(&[u8], &[u8])]) -> Drive {
    let mut drive = Drive::new(TapeDevice::blank());
    drive.init_media(1, b"h").unwrap();
    let media = drive.load_media().unwrap();
    let mut archive = media.append_archive(&mut drive, 2, b"h").unwrap();
    for (k, v) in keys {
        archive.write_object(&mut drive, k, v).unwrap();
    }
    archive.close(&mut drive).unwrap();
    drive
}

#[test]
fn enqueue_then_drop_empties_the_queue() {
    let mut mgr = JobManager::new();
    let id = mgr.enqueue(b"k", b"/dest/k");
    assert_eq!(mgr.list().len(), 1);
    mgr.drop_job(id).unwrap();
    assert_eq!(mgr.list().len(), 0);
}

#[test]
fn ids_ascend_in_enqueue_order() {
    let mut mgr = JobManager::new();
    let a = mgr.enqueue(b"a", b"/a");
    let b = mgr.enqueue(b"b", b"/b");
    let c = mgr.enqueue(b"c", b"/c");
    assert!(a < b && b < c);
    let listed = mgr.list();
    assert_eq!(listed.len(), 3);
    assert_eq!(listed[0], (a, JobState::Pending));
    assert_eq!(listed[1], (b, JobState::Pending));
    assert_eq!(listed[2], (c, JobState::Pending));
}

#[test]
fn info_reports_detail_and_not_found() {
    let mut mgr = JobManager::new();
    let id = mgr.enqueue(b"key1", b"/dest1");
    let j = mgr.info(id).unwrap();
    assert_eq!(j.id, id);
    assert_eq!(j.key, b"key1".to_vec());
    assert_eq!(j.destination, b"/dest1".to_vec());
    assert_eq!(j.state, JobState::Pending);
    assert!(matches!(mgr.info(id + 1), Err(Error::JobNotFound)));
}

#[test]
fn start_present_key_completes() {
    let mut drive = cartridge_with(&[(b"stored", b"payload")]);
    let mut mgr = JobManager::new();
    let id = mgr.enqueue(b"stored", b"/dest");
    let delivered = mgr.start_job(id, &mut drive).unwrap().expect("payload delivered");
    assert_eq!(delivered.payload, b"payload".to_vec());
    assert_eq!(mgr.info(id).unwrap().state, JobState::Completed);
}

#[test]
fn start_absent_key_fails_key_not_found() {
    let mut drive = cartridge_with(&[(b"other", b"x")]);
    let mut mgr = JobManager::new();
    let id = mgr.enqueue(b"missing", b"/dest");
    assert!(mgr.start_job(id, &mut drive).unwrap().is_none());
    assert_eq!(mgr.info(id).unwrap().state, JobState::Failed(Error::KeyNotFound));
}

#[test]
fn start_all_mixed_outcomes() {
    let mut drive = cartridge_with(&[(b"here", b"x")]);
    let mut mgr = JobManager::new();
    let a = mgr.enqueue(b"gone1", b"/1");
    let b = mgr.enqueue(b"here", b"/2");
    let c = mgr.enqueue(b"gone2", b"/3");
    let deliveries = mgr.start_all(&mut drive);
    assert_eq!(mgr.info(a).unwrap().state, JobState::Failed(Error::KeyNotFound));
    assert_eq!(mgr.info(b).unwrap().state, JobState::Completed);
    assert_eq!(mgr.info(c).unwrap().state, JobState::Failed(Error::KeyNotFound));
    // exactly the completed job delivered its payload
    assert_eq!(deliveries.len(), 1);
    assert_eq!(deliveries[0].0, b);
    assert_eq!(deliveries[0].1.payload, b"x".to_vec());
}

#[test]
fn start_twice_rejects_non_pending() {
    let mut drive = cartridge_with(&[(b"k", b"v")]);
    let mut mgr = JobManager::new();
    let id = mgr.enqueue(b"k", b"/d");
    mgr.start_job(id, &mut drive).unwrap();
    assert!(matches!(mgr.start_job(id, &mut drive), Err(Error::InvalidJobState)));
}

#[test]
fn terminal_jobs_can_be_dropped() {
    let mut drive = cartridge_with(&[(b"k", b"v")]);
    let mut mgr = JobManager::new();
    let id = mgr.enqueue(b"k", b"/d");
    mgr.start_job(id, &mut drive).unwrap();
    mgr.drop_job(id).unwrap();
    assert_eq!(mgr.list().len(), 0);
}

#[test]
fn drop_all_removes_pending_and_terminal() {
    let mut drive = cartridge_with(&[(b"k", b"v")]);
    let mut mgr = JobManager::new();
    let a = mgr.enqueue(b"k", b"/1");
    let _b = mgr.enqueue(b"gone", b"/2");
    mgr.start_job(a, &mut drive).unwrap();
    mgr.drop_all();
    assert_eq!(mgr.list().len(), 0);
}

#[test]
fn start_all_dispatch_delivers() {
    let mut drive = cartridge_with(&[(b"k", b"v")]);
    let mut mgr = JobManager::new();
    let id = mgr.enqueue(b"k", b"/d");
    match run(&JobCommand::Start { job_id: None }, &mut mgr, &mut drive).unwrap() {
        RunOutcome::Delivered(deliveries) => {
            assert_eq!(deliveries.len(), 1);
            assert_eq!(deliveries[0].0, id);
            assert_eq!(deliveries[0].1.payload, b"v".to_vec());
        }
        _ => panic!("expected the batch deliveries"),
    }
}

#[test]
fn drop_unknown_id_not_found() {
    let mut mgr = JobManager::new();
    assert!(matches!(mgr.drop_job(7), Err(Error::JobNotFound)));
}

#[test]
fn restore_rejects_unsorted_ids() {
    let jobs = vec![
        RetrievalJob { id: 5, key: b"a".to_vec(), destination: b"/a".to_vec(), state: JobState::Pending },
        RetrievalJob { id: 3, key: b"b".to_vec(), destination: b"/b".to_vec(), state: JobState::Pending },
    ];
    assert!(matches!(JobManager::restore(jobs), Err(Error::InvalidJobState)));
}

#[test]
fn restore_running_job_refuses_drop() {
    let jobs = vec![RetrievalJob {
        id: 1,
        key: b"k".to_vec(),
        destination: b"/d".to_vec(),
        state: JobState::Running,
    }];
    let mut mgr = JobManager::restore(jobs).unwrap();
    assert!(matches!(mgr.drop_job(1), Err(Error::InvalidJobState)));
    mgr.drop_all();
    // the running job stays: it must finish or fail first
    assert_eq!(mgr.list().len(), 1);
}

#[test]
fn recover_marks_interrupted() {
    let jobs = vec![
        RetrievalJob { id: 1, key: b"k".to_vec(), destination: b"/d".to_vec(), state: JobState::Running },
        RetrievalJob { id: 2, key: b"p".to_vec(), destination: b"/p".to_vec(), state: JobState::Pending },
    ];
    let mut mgr = JobManager::restore(jobs).unwrap();
    mgr.recover();
    assert_eq!(mgr.info(1).unwrap().state, JobState::Failed(Error::Interrupted));
    assert_eq!(mgr.info(2).unwrap().state, JobState::Pending);
}

#[test]
fn restore_continues_id_sequence() {
    let jobs = vec![RetrievalJob {
        id: 41,
        key: b"k".to_vec(),
        destination: b"/d".to_vec(),
        state: JobState::Completed,
    }];
    let mut mgr = JobManager::restore(jobs).unwrap();
    let id = mgr.enqueue(b"new", b"/n");
    assert!(id > 41);
}

#[test]
fn run_dispatches_job_commands() {
    let mut drive = cartridge_with(&[(b"k", b"v")]);
    let mut mgr = JobManager::new();
    let id = mgr.enqueue(b"k", b"/d");
    let id32 = id as u32;

    match run(&JobCommand::List {}, &mut mgr, &mut drive).unwrap() {
        RunOutcome::Listing(l) => assert_eq!(l, vec![(id, JobState::Pending)]),
        _ => panic!("expected a listing"),
    }
    match run(&JobCommand::Info { job_id: id32 }, &mut mgr, &mut drive).unwrap() {
        RunOutcome::Detail(j) => assert_eq!(j.key, b"k".to_vec()),
        _ => panic!("expected job detail"),
    }
    match run(&JobCommand::Start { job_id: Some(id32) }, &mut mgr, &mut drive).unwrap() {
        RunOutcome::Started(Some(obj)) => assert_eq!(obj.payload, b"v".to_vec()),
        _ => panic!("expected a delivered payload"),
    }
    assert_eq!(mgr.info(id).unwrap().state, JobState::Completed);
    match run(&JobCommand::Drop { job_id: None }, &mut mgr, &mut drive).unwrap() {
        RunOutcome::Done => {}
        _ => panic!("expected plain completion"),
    }
    assert_eq!(mgr.list().len(), 0);
}

#[test]
fn serial_starts_share_one_drive() {
    // the drive is exclusive: each start borrows it mutably in turn, so
    // device operations of two jobs can never interleave
    let mut drive = cartridge_with(&[(b"one", b"1"), (b"two", b"2")]);
    let mut mgr = JobManager::new();
    let a = mgr.enqueue(b"one", b"/1");
    let b = mgr.enqueue(b"two", b"/2");
    let first = mgr.start_job(a, &mut drive).unwrap().unwrap();
    let second = mgr.start_job(b, &mut drive).unwrap().unwrap();
    assert_eq!(first.payload, b"1".to_vec());
    assert_eq!(second.payload, b"2".to_vec());
    assert_eq!(mgr.info(a).unwrap().state, JobState::Completed);
    assert_eq!(mgr.info(b).unwrap().state, JobState::Completed);
}
