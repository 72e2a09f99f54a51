use ytdlp_guard::manager::CancelOutcome;
use ytdlp_guard::manager::DownloadManager;
use ytdlp_guard::manager::JobState;
use ytdlp_guard::security::sanitize_output_path;
use ytdlp_guard::security::sanitize_url;

fn request(url: &str) -> (String, String) {
    let u = sanitize_url(url).unwrap();
    let d = sanitize_output_path("/tmp/downloads").unwrap();
    (u, d)
}

#[test]
fn test_fifo_admission_under_bound() {
    let mut m = DownloadManager::new(2);
    let (u1, d1) = request("https://example.com/a");
    let (u2, d2) = request("https://example.com/b");
    let (u3, d3) = request("https://example.com/c");
    let a = m.submit(u1, d1);
    let b = m.submit(u2, d2);
    let c = m.submit(u3, d3);
    assert_eq!(m.get_state(a), Some(JobState::Queued));
    // Admission is FIFO and bounded by the limit of 2.
    assert_eq!(m.next_admission(), Some(a));
    assert_eq!(m.next_admission(), Some(b));
    assert_eq!(m.next_admission(), None);
    assert_eq!(m.count_running(), 2);
    assert_eq!(m.get_state(c), Some(JobState::Queued));
    // A slot frees up; the longest-waiting job is admitted.
    assert!(m.on_process_exit(a, true));
    assert_eq!(m.get_state(a), Some(JobState::Completed));
    assert_eq!(m.next_admission(), Some(c));
    assert_eq!(m.count_running(), 2);
}

#[test]
fn test_running_never_exceeds_limit() {
    let mut m = DownloadManager::new(3);
    let mut ids = Vec::new();
    for i in 0..10 {
        let (u, d) = request(&format!("https://example.com/{}", i));
        ids.push(m.submit(u, d));
        while m.next_admission().is_some() {
            assert!(m.count_running() <= 3);
        }
        assert!(m.count_running() <= 3);
    }
    assert_eq!(m.count_running(), 3);
    assert_eq!(m.job_count(), 10);
}

#[test]
fn test_lowering_limit_never_preempts() {
    let mut m = DownloadManager::new(5);
    for i in 0..5 {
        let (u, d) = request(&format!("https://example.com/{}", i));
        m.submit(u, d);
    }
    while m.next_admission().is_some() {}
    assert_eq!(m.count_running(), 5);
    // Lowering the bound leaves running jobs alone and only throttles
    // new admissions.
    m.set_max_concurrent(2);
    assert_eq!(m.count_running(), 5);
    let (u, d) = request("https://example.com/late");
    let late = m.submit(u, d);
    assert_eq!(m.next_admission(), None);
    assert_eq!(m.get_state(late), Some(JobState::Queued));
}

#[test]
fn test_cancel_queued_is_immediate() {
    let mut m = DownloadManager::new(1);
    let (u1, d1) = request("https://example.com/a");
    let (u2, d2) = request("https://example.com/b");
    let a = m.submit(u1, d1);
    let b = m.submit(u2, d2);
    assert_eq!(m.next_admission(), Some(a));
    assert_eq!(m.cancel(b), CancelOutcome::Dequeued);
    assert_eq!(m.get_state(b), Some(JobState::Cancelled));
    assert_eq!(m.count_running(), 1);
}

#[test]
fn test_cancel_running_waits_for_exit() {
    let mut m = DownloadManager::new(1);
    let (u, d) = request("https://example.com/a");
    let a = m.submit(u, d);
    assert_eq!(m.next_admission(), Some(a));
    // Cancelling a running job only signals; the job stays Running until
    // the process exit is observed, so it is never reported terminal
    // with a live process.
    assert_eq!(m.cancel(a), CancelOutcome::SignalProcess);
    assert_eq!(m.get_state(a), Some(JobState::Running));
    assert!(m.on_process_exit(a, false));
    assert_eq!(m.get_state(a), Some(JobState::Cancelled));
    assert_eq!(m.count_running(), 0);
    // A second cancel finds the job already finished.
    assert_eq!(m.cancel(a), CancelOutcome::AlreadyFinished);
}

#[test]
fn test_failed_process_marks_job_failed() {
    let mut m = DownloadManager::new(2);
    let (u, d) = request("https://example.com/a");
    let a = m.submit(u, d);
    assert_eq!(m.next_admission(), Some(a));
    assert!(m.on_process_exit(a, false));
    assert_eq!(m.get_state(a), Some(JobState::Failed));
    // The exit of an unknown or non-running job is reported back.
    assert!(!m.on_process_exit(a, true));
    assert!(!m.on_process_exit(12345, true));
}

#[test]
fn test_cancel_unknown_job() {
    let mut m = DownloadManager::new(2);
    assert_eq!(m.cancel(7), CancelOutcome::NotFound);
    assert_eq!(m.get_state(7), None);
}
