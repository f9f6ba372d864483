use cbz_edit::batch::{chapter_comic_info, chapter_summary_message, get_title, progress_message, summary_message, BatchAction, BatchScheduler};
use cbz_edit::error::{BatchError, ErrorKind};
use cbz_edit::filename::parse_filename;

/// Drives a batch, finishing running targets oldest first; `fails` says which
/// targets fail. Returns the outcome and the largest number running at once.
fn drive(total: usize, limit: usize, fails: &[usize]) -> (Option<BatchError>, usize, Vec<usize>) {
    let mut s = BatchScheduler::new(total, limit);
    let mut running: Vec<usize> = Vec::new();
    let mut peak = 0;
    let mut finished = Vec::new();
    loop {
        match s.next_action() {
            BatchAction::Start(i) => {
                running.push(i);
                peak = peak.max(s.running());
            }
            BatchAction::Wait => {
                let t = running.remove(0);
                let outcome = if fails.contains(&t) { Err(ErrorKind::Filesystem) } else { Ok(()) };
                assert!(s.complete(t, outcome));
                finished.push(t);
            }
            BatchAction::Done(e) => return (e, peak, finished),
        }
    }
}

#[test]
fn never_more_than_the_limit_run() {
    let (e, peak, finished) = drive(7, 3, &[]);
    assert_eq!(e, None);
    assert_eq!(peak, 3);
    assert_eq!(finished.len(), 7);
}

#[test]
fn one_failure_does_not_stop_the_others() {
    let (e, _, finished) = drive(5, 2, &[3]);
    assert_eq!(e, Some(BatchError { target: 3, kind: ErrorKind::Filesystem }));
    let mut f = finished.clone();
    f.sort();
    assert_eq!(f, vec![0, 1, 2, 3, 4]);
}

#[test]
fn first_of_several_failures_is_reported() {
    let (e, _, _) = drive(6, 1, &[4, 1]);
    assert_eq!(e.map(|e| e.target), Some(1));
}

#[test]
fn empty_batch_is_done_at_once() {
    let mut s = BatchScheduler::new(0, 4);
    assert_eq!(s.next_action(), BatchAction::Done(None));
}

#[test]
fn zero_limit_still_runs_one() {
    let s = BatchScheduler::new(3, 0);
    assert_eq!(s.limit(), 1);
    assert!(BatchScheduler::with_host_parallelism(2).limit() >= 1);
}

#[test]
fn completing_an_unknown_target_is_refused() {
    let mut s = BatchScheduler::new(2, 2);
    assert!(!s.complete(0, Ok(())));
    assert_eq!(s.next_action(), BatchAction::Start(0));
    assert!(s.complete(0, Ok(())));
    assert!(!s.complete(0, Ok(())));
}

#[test]
fn messages() {
    assert_eq!(progress_message(0, 3, "Title"), "Processing 1/3: Title");
    assert_eq!(progress_message(9, 10, ""), "Processing 10/10: ");
    assert_eq!(summary_message(12, "1.50s"), "All done~ processed 12 chapters in 1.50s 🎉");
    assert_eq!(chapter_summary_message("3ms"), "All done~ processed chapter in 3ms 🎉");
}

#[test]
fn chapter_candidate() {
    let c = parse_filename("/lib/s/Vol.2 Ch.3 Name [a, b].cbz".to_string(), "Vol.2 Ch.3 Name [a, b].cbz");
    let info = chapter_comic_info(&c);
    assert_eq!(info.volume, Some(2));
    assert_eq!(info.number.map(|n| n.to_text()), Some("3".to_string()));
    assert_eq!(info.title, "Name");
    assert_eq!(info.translator, Some("a,b".to_string()));
    assert_eq!(info.series, "");
    assert_eq!(get_title(&c), "Name");
    let bare = parse_filename("/lib/s/12.cbz".to_string(), "12.cbz");
    assert_eq!(get_title(&bare), "12");
    let none = parse_filename("/lib/s/.cbz".to_string(), ".cbz");
    assert_eq!(get_title(&none), "/lib/s/.cbz");
    assert_eq!(chapter_comic_info(&none).translator, Some(String::new()));
}
