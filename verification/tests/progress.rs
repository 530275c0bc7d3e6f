use ffsend_api::progress::Progress;
use ffsend_api::progress::ProgressError;
use ffsend_api::stream::encrypt_stream;
use ffsend_api::stream::total_len;
use ffsend_api::stream::ContentStream;
use ffsend_api::stream::Direction;
use ffsend_api::stream::StreamError;
use ffsend_api::transfer::encrypt_observed;
use ffsend_api::transfer::pull_observed;
use ffsend_api::transfer::TransferError;

const KEY: [u8; 16] = [5u8; 16];
const IV: [u8; 12] = [6u8; 12];

#[test]
fn a_new_record_has_not_started() {
    let progress = Progress::new();
    assert!(!progress.is_started());
    assert!(!progress.is_finished());
    assert_eq!(progress.total(), 0);
    assert_eq!(progress.transferred(), 0);
}

#[test]
fn reports_add_up_to_the_total() {
    let mut progress = Progress::new();
    assert_eq!(progress.start(10), Ok(()));
    assert_eq!(progress.total(), 10);
    let mut last = 0;
    for step in [4u64, 0, 5, 1] {
        assert_eq!(progress.update(step), Ok(()));
        assert!(progress.transferred() >= last);
        last = progress.transferred();
    }
    assert_eq!(progress.transferred(), 10);
    assert_eq!(progress.finish(), Ok(()));
    assert!(progress.is_finished());
}

#[test]
fn reports_before_the_start_are_refused() {
    let mut progress = Progress::new();
    assert_eq!(progress.update(1), Err(ProgressError::NotStarted));
    assert!(!progress.is_finished());
    assert_eq!(progress.transferred(), 0);
}

#[test]
fn a_transfer_that_never_started_is_finished_too() {
    let mut progress = Progress::new();
    assert_eq!(progress.finish(), Ok(()));
    assert!(progress.is_finished());
    assert!(!progress.is_started());
    assert_eq!(progress.finish(), Err(ProgressError::AlreadyFinished));
    assert_eq!(progress.start(5), Err(ProgressError::AlreadyFinished));
    assert_eq!(progress.update(1), Err(ProgressError::NotStarted));
    assert_eq!(progress.total(), 0);
}

#[test]
fn a_transfer_starts_once() {
    let mut progress = Progress::new();
    assert_eq!(progress.start(10), Ok(()));
    assert_eq!(progress.update(3), Ok(()));
    assert_eq!(progress.start(20), Err(ProgressError::AlreadyStarted));
    assert_eq!(progress.total(), 10);
    assert_eq!(progress.transferred(), 3);
}

#[test]
fn a_transfer_finishes_once() {
    let mut progress = Progress::new();
    progress.start(10).unwrap();
    progress.update(3).unwrap();
    assert_eq!(progress.finish(), Ok(()));
    assert_eq!(progress.finish(), Err(ProgressError::AlreadyFinished));
    assert_eq!(progress.update(1), Err(ProgressError::AlreadyFinished));
    assert_eq!(progress.transferred(), 3);
}

#[test]
fn more_than_the_total_is_refused() {
    let mut progress = Progress::new();
    progress.start(10).unwrap();
    progress.update(8).unwrap();
    assert_eq!(progress.update(3), Err(ProgressError::Overrun));
    assert_eq!(progress.transferred(), 8);
    assert_eq!(progress.update(u64::MAX), Err(ProgressError::Overrun));
    assert_eq!(progress.update(2), Ok(()));
}

#[test]
fn percent_is_rounded_down() {
    let mut progress = Progress::new();
    assert_eq!(progress.percent(), 100);
    progress.start(3).unwrap();
    assert_eq!(progress.percent(), 0);
    progress.update(1).unwrap();
    assert_eq!(progress.percent(), 33);
    progress.update(1).unwrap();
    assert_eq!(progress.percent(), 66);
    progress.update(1).unwrap();
    assert_eq!(progress.percent(), 100);
    let mut large = Progress::new();
    large.start(u64::MAX).unwrap();
    large.update(u64::MAX / 2).unwrap();
    assert_eq!(large.percent(), 49);
}

#[test]
fn an_observed_transfer_reaches_its_total() {
    let plaintext: Vec<u8> = (0..100u8).collect();
    let mut progress = Progress::new();
    let out = encrypt_observed(&plaintext, &KEY, &IV, 8, &mut progress).unwrap();
    assert_eq!(Some(out.len() as u64), total_len(100, 8));
    assert_eq!(out.len(), 100 + 16 * 13);
    assert_eq!(progress.total(), out.len() as u64);
    assert_eq!(progress.transferred(), out.len() as u64);
    assert!(progress.is_started());
    assert!(progress.is_finished());
    assert_eq!(progress.finish(), Err(ProgressError::AlreadyFinished));
}

#[test]
fn observation_does_not_change_the_ciphertext() {
    let plaintext: Vec<u8> = (0..50u8).collect();
    let mut progress = Progress::new();
    let observed = encrypt_observed(&plaintext, &KEY, &IV, 16, &mut progress).unwrap();
    let plain = encrypt_stream(&plaintext, &KEY, &IV, 16).unwrap();
    assert_eq!(observed, plain);
}

#[test]
fn an_observed_transfer_of_nothing_is_complete() {
    let mut progress = Progress::new();
    assert_eq!(encrypt_observed(&[], &KEY, &IV, 8, &mut progress), Ok(vec![]));
    assert_eq!(progress.total(), 0);
    assert!(progress.is_finished());
}

#[test]
fn an_observed_transfer_needs_a_fresh_record() {
    let mut progress = Progress::new();
    progress.start(5).unwrap();
    assert_eq!(
        encrypt_observed(b"abc", &KEY, &IV, 8, &mut progress),
        Err(TransferError::Progress(ProgressError::AlreadyStarted))
    );
    assert_eq!(progress.total(), 5);
    assert!(!progress.is_finished());
    let mut done = Progress::new();
    done.finish().unwrap();
    assert_eq!(
        encrypt_observed(b"abc", &KEY, &IV, 8, &mut done),
        Err(TransferError::Progress(ProgressError::AlreadyFinished))
    );
}

#[test]
fn a_bad_setup_finishes_the_record_that_never_started() {
    let mut progress = Progress::new();
    assert_eq!(
        encrypt_observed(b"abc", &[0u8; 3], &IV, 8, &mut progress),
        Err(TransferError::Stream(StreamError::Setup))
    );
    assert!(!progress.is_started());
    assert!(progress.is_finished());
    assert_eq!(progress.finish(), Err(ProgressError::AlreadyFinished));
}

#[test]
fn every_pull_is_reported() {
    let mut stream = ContentStream::new(&KEY, &IV, 4, Direction::Encrypt).unwrap();
    let mut progress = Progress::new();
    progress.start(100).unwrap();
    let (out, reported) = pull_observed(&mut stream, &mut progress, b"abcd");
    assert_eq!(out.unwrap().len(), 20);
    assert_eq!(reported, Ok(()));
    assert_eq!(progress.transferred(), 20);
    let (out, reported) = pull_observed(&mut stream, &mut progress, b"toolong");
    assert_eq!(out, Err(StreamError::Oversized));
    assert_eq!(reported, Ok(()));
    assert_eq!(progress.transferred(), 20);
    let (out, reported) = pull_observed(&mut stream, &mut progress, b"");
    assert_eq!(out, Ok(vec![]));
    assert_eq!(reported, Ok(()));
    assert_eq!(progress.transferred(), 20);
}

#[test]
fn a_refused_report_leaves_the_stream_as_it_is() {
    let mut stream = ContentStream::new(&KEY, &IV, 4, Direction::Encrypt).unwrap();
    let mut progress = Progress::new();
    let (out, reported) = pull_observed(&mut stream, &mut progress, b"abcd");
    assert_eq!(out.unwrap().len(), 20);
    assert_eq!(reported, Err(ProgressError::NotStarted));
    assert_eq!(stream.counter(), 1);
    assert_eq!(progress.transferred(), 0);
}
