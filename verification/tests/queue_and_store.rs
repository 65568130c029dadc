use audio_relay::config::{FRAME_SIZE, JITTER_FRAMES, JITTER_THRESHOLD, MAX_QUEUE_LEN};
use audio_relay::queue::SampleQueue;
use audio_relay::store::BufferStore;

fn ramp(from: i32, count: usize) -> Vec<i16> {
    (0..count).map(|k| ((from + k as i32) % 30000) as i16).collect()
}

#[test]
fn threshold_is_three_frames() {
    assert_eq!(FRAME_SIZE, 320);
    assert_eq!(JITTER_FRAMES, 3);
    assert_eq!(JITTER_THRESHOLD, 960);
    assert_eq!(MAX_QUEUE_LEN, 16000);
}

#[test]
fn new_queue_is_empty_and_not_ready() {
    let q = SampleQueue::new();
    assert_eq!(q.len(), 0);
    assert!(!q.ready());
    assert_eq!(q.to_vec(), Vec::<i16>::new());
}

#[test]
fn queue_keeps_arrival_order() {
    let mut q = SampleQueue::new();
    q.append(&[1, 2, 3]);
    q.append(&[]);
    q.append(&[4, 5]);
    assert_eq!(q.len(), 5);
    assert_eq!(q.to_vec(), vec![1, 2, 3, 4, 5]);
}

#[test]
fn queue_is_ready_at_the_threshold_exactly() {
    let mut q = SampleQueue::new();
    q.append(&vec![7i16; 959]);
    assert!(!q.ready());
    q.append(&[7]);
    assert!(q.ready());
}

#[test]
fn queue_below_threshold_gives_no_frame() {
    let mut q = SampleQueue::new();
    let held = ramp(0, 959);
    q.append(&held);
    assert_eq!(q.take_frame(), None);
    assert_eq!(q.to_vec(), held);
}

#[test]
fn queue_gives_its_head_frame() {
    let mut q = SampleQueue::new();
    let held = ramp(5, 1000);
    q.append(&held);
    let frame = q.take_frame().unwrap();
    assert_eq!(frame, held[..320].to_vec());
    assert_eq!(q.to_vec(), held[320..].to_vec());
    assert_eq!(q.len(), 680);
    assert_eq!(q.take_frame(), None);
}

#[test]
fn queue_never_exceeds_its_bound() {
    let mut q = SampleQueue::new();
    for round in 0..40 {
        q.append(&ramp(round * 1000, 1000));
        assert!(q.len() <= MAX_QUEUE_LEN);
    }
    assert_eq!(q.len(), MAX_QUEUE_LEN);
}

#[test]
fn queue_trims_the_oldest_samples() {
    let mut q = SampleQueue::new();
    let all = ramp(0, MAX_QUEUE_LEN + 500);
    q.append(&all[..9000]);
    q.append(&all[9000..]);
    assert_eq!(q.len(), MAX_QUEUE_LEN);
    assert_eq!(q.to_vec(), all[500..].to_vec());
}

#[test]
fn one_oversized_chunk_leaves_its_tail() {
    let mut q = SampleQueue::new();
    q.append(&[9, 9, 9]);
    let big = ramp(100, 20000);
    q.append(&big);
    assert_eq!(q.to_vec(), big[4000..].to_vec());
}

#[test]
fn new_store_holds_nothing() {
    let store = BufferStore::new();
    assert_eq!(store.source_count(), 0);
    assert!(!store.contains("10.0.0.1:4000"));
    assert_eq!(store.queue_len("10.0.0.1:4000"), None);
    assert_eq!(store.queue_samples("10.0.0.1:4000"), None);
}

#[test]
fn store_creates_a_queue_on_first_data() {
    let mut store = BufferStore::new();
    store.append("a", &[1, 2]);
    assert!(store.contains("a"));
    assert_eq!(store.source_count(), 1);
    assert_eq!(store.queue_samples("a"), Some(vec![1, 2]));
    store.append("a", &[3]);
    assert_eq!(store.source_count(), 1);
    assert_eq!(store.queue_samples("a"), Some(vec![1, 2, 3]));
}

#[test]
fn store_creates_an_empty_queue_for_an_empty_chunk() {
    let mut store = BufferStore::new();
    store.append("a", &[]);
    assert!(store.contains("a"));
    assert_eq!(store.queue_len("a"), Some(0));
}

#[test]
fn store_keeps_sources_apart() {
    let mut store = BufferStore::new();
    store.append("a", &[1, 2]);
    store.append("b", &[10]);
    store.append("a", &[3]);
    assert_eq!(store.source_count(), 2);
    assert_eq!(store.queue_samples("a"), Some(vec![1, 2, 3]));
    assert_eq!(store.queue_samples("b"), Some(vec![10]));
    assert!(!store.contains("ab"));
    assert!(!store.contains(""));
}

#[test]
fn a_changed_port_is_another_source() {
    let mut store = BufferStore::new();
    store.append("192.168.1.5:5000", &[1]);
    store.append("192.168.1.5:5001", &[2]);
    assert_eq!(store.source_count(), 2);
    assert_eq!(store.queue_samples("192.168.1.5:5000"), Some(vec![1]));
    assert_eq!(store.queue_samples("192.168.1.5:5001"), Some(vec![2]));
}

#[test]
fn store_remove_drops_only_that_source() {
    let mut store = BufferStore::new();
    store.append("a", &[1]);
    store.append("b", &[2]);
    store.append("c", &[3]);
    assert!(store.remove("b"));
    assert!(!store.contains("b"));
    assert_eq!(store.source_count(), 2);
    assert_eq!(store.queue_samples("a"), Some(vec![1]));
    assert_eq!(store.queue_samples("c"), Some(vec![3]));
    assert!(!store.remove("b"));
    assert_eq!(store.source_count(), 2);
}

#[test]
fn a_removed_source_starts_again_empty() {
    let mut store = BufferStore::new();
    store.append("a", &[1, 2, 3]);
    store.remove("a");
    store.append("a", &[4]);
    assert_eq!(store.queue_samples("a"), Some(vec![4]));
}

#[test]
fn store_bounds_every_queue_after_every_append() {
    let mut store = BufferStore::new();
    for round in 0..25 {
        store.append("a", &ramp(round, 1500));
        store.append("b", &ramp(round, 700));
        assert!(store.queue_len("a").unwrap() <= MAX_QUEUE_LEN);
        assert!(store.queue_len("b").unwrap() <= MAX_QUEUE_LEN);
    }
    assert_eq!(store.queue_len("a"), Some(MAX_QUEUE_LEN));
    assert_eq!(store.queue_len("b"), Some(MAX_QUEUE_LEN));
}

#[test]
fn store_takes_frames_by_place() {
    let mut store = BufferStore::new();
    let a = ramp(0, 960);
    store.append("a", &a);
    store.append("b", &[1, 2, 3]);
    assert_eq!(store.take_frame_at(1), None);
    assert_eq!(store.take_frame_at(0), Some(a[..320].to_vec()));
    assert_eq!(store.queue_samples("a"), Some(a[320..].to_vec()));
    assert_eq!(store.queue_samples("b"), Some(vec![1, 2, 3]));
    assert_eq!(store.take_frame_at(0), None);
}

#[test]
fn overflow_by_five_hundred_keeps_the_newest_second() {
    let mut store = BufferStore::new();
    let all = ramp(0, MAX_QUEUE_LEN + 500);
    for chunk in all.chunks(512) {
        store.append("src", chunk);
    }
    assert_eq!(store.queue_len("src"), Some(MAX_QUEUE_LEN));
    assert_eq!(store.queue_samples("src"), Some(all[500..].to_vec()));
}
