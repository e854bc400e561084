use crab_share::errors::CoreError;
use crab_share::session::{part_number, MultipartSession, PartResult};

fn part(index: u16, etag: &str) -> PartResult {
    PartResult { index, etag: etag.to_string() }
}

#[test]
fn manifest_ordered_despite_arrival_order() {
    let mut s = MultipartSession::new(4);
    assert!(s.record_part(part(2, "c")).is_ok());
    assert!(s.record_part(part(0, "a")).is_ok());
    assert!(s.record_part(part(3, "d")).is_ok());
    assert!(s.record_part(part(1, "b")).is_ok());
    let m = s.finish().expect("complete session");
    let numbers: Vec<u16> = m.iter().map(|e| e.part_number).collect();
    assert_eq!(numbers, vec![1, 2, 3, 4]);
    let etags: Vec<&str> = m.iter().map(|e| e.etag.as_str()).collect();
    assert_eq!(etags, vec!["a", "b", "c", "d"]);
}

#[test]
fn duplicate_part_rejected() {
    let mut s = MultipartSession::new(2);
    assert!(s.record_part(part(0, "a")).is_ok());
    let r = s.record_part(part(0, "again"));
    assert!(matches!(r, Err(CoreError::Protocol(_))));
}

#[test]
fn out_of_range_part_rejected() {
    let mut s = MultipartSession::new(2);
    let r = s.record_part(part(2, "x"));
    assert!(matches!(r, Err(CoreError::Protocol(_))));
}

#[test]
fn missing_part_aborts_completion() {
    let mut s = MultipartSession::new(3);
    assert!(s.record_part(part(0, "a")).is_ok());
    assert!(s.record_part(part(2, "c")).is_ok());
    assert!(matches!(s.finish(), Err(CoreError::Protocol(_))));
}

#[test]
fn worker_failure_aborts_completion() {
    // Even with every part collected, a reported transport failure means
    // no completion manifest is ever produced.
    let mut s = MultipartSession::new(2);
    assert!(s.record_part(part(0, "a")).is_ok());
    assert!(s.record_part(part(1, "b")).is_ok());
    s.record_failure(CoreError::Transport("connection reset".to_string()));
    match s.finish() {
        Err(CoreError::Transport(m)) => assert_eq!(m, "connection reset"),
        other => panic!("expected the transport failure, got {:?}", other.is_ok()),
    }
}

#[test]
fn first_failure_kept() {
    let mut s = MultipartSession::new(1);
    s.record_failure(CoreError::Transport("first".to_string()));
    s.record_failure(CoreError::Protocol("second".to_string()));
    match s.finish() {
        Err(CoreError::Transport(m)) => assert_eq!(m, "first"),
        _ => panic!("expected the first failure"),
    }
}

#[test]
fn empty_transfer_completes_empty() {
    let s = MultipartSession::new(0);
    let m = s.finish().expect("no parts owed");
    assert!(m.is_empty());
}

#[test]
fn part_numbers_are_one_based() {
    assert_eq!(part_number(0), 1);
    assert_eq!(part_number(15), 16);
}
