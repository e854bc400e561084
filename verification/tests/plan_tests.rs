use crab_share::plan::{
    plan_transfer, Strategy, DEFAULT_CHUNK_SIZE, DEFAULT_QUEUE_CAPACITY, DEFAULT_WORKER_COUNT,
    SINGLE_SHOT_THRESHOLD,
};

#[test]
fn threshold_exactly_selects_single_shot() {
    let p = plan_transfer(SINGLE_SHOT_THRESHOLD, DEFAULT_CHUNK_SIZE, DEFAULT_WORKER_COUNT);
    assert_eq!(p.strategy, Strategy::Single);
}

#[test]
fn one_byte_over_threshold_selects_multipart() {
    let p = plan_transfer(SINGLE_SHOT_THRESHOLD + 1, DEFAULT_CHUNK_SIZE, DEFAULT_WORKER_COUNT);
    assert_eq!(p.strategy, Strategy::Multipart);
}

#[test]
fn small_payload_selects_single_shot() {
    let p = plan_transfer(1, DEFAULT_CHUNK_SIZE, DEFAULT_WORKER_COUNT);
    assert_eq!(p.strategy, Strategy::Single);
    assert_eq!(p.payload_size, 1);
    assert_eq!(p.chunk_size, DEFAULT_CHUNK_SIZE);
    assert_eq!(p.worker_count, DEFAULT_WORKER_COUNT);
}

#[test]
fn default_tuning_values() {
    assert_eq!(SINGLE_SHOT_THRESHOLD, 100 * 1024 * 1024);
    assert_eq!(DEFAULT_CHUNK_SIZE, 16 * 1024 * 1024);
    assert_eq!(DEFAULT_WORKER_COUNT, 8);
    assert_eq!(DEFAULT_QUEUE_CAPACITY, 8);
}
