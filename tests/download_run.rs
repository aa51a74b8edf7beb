use robin_core::chapter::{filter_chapters, Chapter};
use robin_core::download::{Action, ChapterState, DownloadRun};
use robin_core::error::RobinError;
use robin_core::sources::novelfullcom_english::NovelFullComChapter;
use robin_core::staging::{cover_file_name, text_chapter_file_name};

/// Drives a run to its end: tasks complete in admission order, and
/// `fails(i)` says whether chapter `i`'s fetch fails. Returns the outcome,
/// the largest number in flight seen, and the indices written.
fn drive(run: &mut DownloadRun, fails: &dyn Fn(usize) -> bool) -> (usize, Vec<usize>) {
    let mut queue: Vec<usize> = Vec::new();
    let mut most = 0;
    let mut written = Vec::new();
    loop {
        match run.next_action() {
            Action::Start(i) => {
                assert_eq!(run.start(), Some(i));
                queue.push(i);
                most = most.max(run.in_flight);
                assert!(run.in_flight <= run.limit);
            }
            Action::Wait => {
                let i = queue.remove(0);
                if fails(i) {
                    assert!(run.failed(i, RobinError::Network(format!("chapter {}", i))));
                } else {
                    assert!(run.fetched(i));
                    assert!(run.persisted(i));
                    written.push(i);
                }
            }
            Action::Done => break,
        }
    }
    (most, written)
}

#[test]
fn in_flight_never_exceeds_limit() {
    for n in 1..=6usize {
        for limit in 1..=n {
            let mut run = DownloadRun::new(n, limit);
            let (most, _) = drive(&mut run, &|_| false);
            assert!(most <= limit);
            assert_eq!(most, limit);
        }
    }
}

#[test]
fn admission_follows_chapter_order() {
    let mut run = DownloadRun::new(3, 3);
    assert_eq!(run.start(), Some(0));
    assert_eq!(run.start(), Some(1));
    assert_eq!(run.start(), Some(2));
    assert_eq!(run.start(), None);
}

#[test]
fn start_waits_at_limit() {
    let mut run = DownloadRun::new(3, 1);
    assert_eq!(run.start(), Some(0));
    assert_eq!(run.next_action(), Action::Wait);
    assert_eq!(run.start(), None);
    assert!(run.fetched(0));
    assert!(run.persisted(0));
    assert_eq!(run.next_action(), Action::Start(1));
}

#[test]
fn transitions_out_of_order_are_refused() {
    let mut run = DownloadRun::new(2, 1);
    assert!(!run.fetched(0));
    assert!(!run.persisted(0));
    assert!(!run.failed(0, RobinError::Network("x".to_string())));
    assert_eq!(run.start(), Some(0));
    assert!(!run.persisted(0));
    assert!(run.fetched(0));
    assert!(!run.failed(0, RobinError::Network("x".to_string())));
    assert!(!run.fetched(5));
    assert_eq!(run.states[0], ChapterState::Fetched);
}

#[test]
fn empty_run_is_done() {
    let run = DownloadRun::new(0, 1);
    assert_eq!(run.next_action(), Action::Done);
    assert_eq!(run.finish().ok(), Some(0));
}

#[test]
fn five_chapters_limit_two() {
    let titles: Vec<String> = (1..=5).map(|i| format!("Chapter {}", i)).collect();
    let mut staged = vec![cover_file_name("jpg")];
    let mut run = DownloadRun::new(titles.len(), 2);
    let (most, written) = drive(&mut run, &|_| false);
    for i in &written {
        staged.push(text_chapter_file_name(&titles[*i]));
    }
    assert!(most <= 2);
    assert_eq!(run.persisted, 5);
    assert_eq!(staged.len(), 6);
    assert_eq!(staged.iter().filter(|s| s.starts_with("cover.")).count(), 1);
    assert_eq!(run.finish().ok(), Some(5));
}

#[test]
fn filter_three_to_seven_downloads_five() {
    let mut chapters: Vec<NovelFullComChapter> = (1..=10)
        .map(|i| NovelFullComChapter::new(format!("Chapter {}", i), format!("u{}", i)).ok().unwrap())
        .collect();
    assert!(filter_chapters(&mut chapters, "3:7").is_ok());
    let mut run = DownloadRun::new(chapters.len(), 3);
    let (_, written) = drive(&mut run, &|_| false);
    let got: Vec<i64> = written.iter().map(|i| chapters[*i].chapter_num()).collect();
    assert_eq!(got, vec![300, 400, 500, 600, 700]);
    assert_eq!(run.finish().ok(), Some(5));
}

#[test]
fn one_failure_among_four() {
    let mut run = DownloadRun::new(4, 2);
    let (_, written) = drive(&mut run, &|i| i == 2);
    assert_eq!(written, vec![0, 1, 3]);
    assert_eq!(run.persisted, 3);
    assert_eq!(run.states[2], ChapterState::Failed);
    match run.finish() {
        Err(RobinError::Network(m)) => assert_eq!(m, "chapter 2"),
        _ => panic!("the run should report the failed chapter"),
    }
}

#[test]
fn first_failure_by_chapter_order() {
    let mut run = DownloadRun::new(3, 3);
    run.start();
    run.start();
    run.start();
    assert!(run.failed(2, RobinError::Network("two".to_string())));
    assert!(run.failed(0, RobinError::Io("zero".to_string())));
    assert!(run.fetched(1));
    assert!(run.persisted(1));
    match run.finish() {
        Err(RobinError::Io(m)) => assert_eq!(m, "zero"),
        _ => panic!("the lowest failed chapter's error comes first"),
    }
}
