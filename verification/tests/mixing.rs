use audio_relay::config::{FRAME_SIZE, MAX_QUEUE_LEN};
use audio_relay::ingest::ingest;
use audio_relay::mixer::{mix_sample, mix_tick};
use audio_relay::pcm::encode_samples;
use audio_relay::store::BufferStore;

fn constant(value: i16, count: usize) -> Vec<i16> {
    vec![value; count]
}

#[test]
fn tick_on_an_empty_store_is_silence() {
    let mut store = BufferStore::new();
    let tick = mix_tick(&mut store);
    assert_eq!(tick.frame, vec![0i16; 320]);
    assert_eq!(tick.active_sources, 0);
    assert_eq!(store.source_count(), 0);
}

#[test]
fn every_tick_gives_one_full_frame() {
    let mut store = BufferStore::new();
    store.append("a", &constant(5, 1000));
    store.append("b", &constant(6, 100));
    for _ in 0..6 {
        let tick = mix_tick(&mut store);
        assert_eq!(tick.frame.len(), FRAME_SIZE);
    }
}

#[test]
fn sole_ready_source_passes_unchanged() {
    let mut store = BufferStore::new();
    let count = ingest(&mut store, "peer", &encode_samples(&constant(1000, 960)));
    assert_eq!(count, 960);
    let tick = mix_tick(&mut store);
    assert_eq!(tick.active_sources, 1);
    assert_eq!(tick.frame, vec![1000i16; 320]);
    assert_eq!(store.queue_len("peer"), Some(640));
}

#[test]
fn sole_ready_source_keeps_sample_order() {
    let mut store = BufferStore::new();
    let samples: Vec<i16> = (0..960).map(|k| (k as i16) - 400).collect();
    store.append("peer", &samples);
    let tick = mix_tick(&mut store);
    assert_eq!(tick.frame, samples[..320].to_vec());
    assert_eq!(store.queue_samples("peer"), Some(samples[320..].to_vec()));
}

#[test]
fn full_scale_and_silence_average_to_half() {
    let mut store = BufferStore::new();
    store.append("a", &constant(32767, 960));
    store.append("b", &constant(0, 960));
    let tick = mix_tick(&mut store);
    assert_eq!(tick.active_sources, 2);
    assert_eq!(tick.frame, vec![16383i16; 320]);
}

#[test]
fn two_full_scale_sources_stay_full_scale() {
    let mut store = BufferStore::new();
    store.append("a", &constant(32767, 960));
    store.append("b", &constant(32767, 960));
    let tick = mix_tick(&mut store);
    assert_eq!(tick.active_sources, 2);
    assert_eq!(tick.frame, vec![32767i16; 320]);
}

#[test]
fn two_lowest_sources_stay_lowest() {
    let mut store = BufferStore::new();
    store.append("a", &constant(-32768, 960));
    store.append("b", &constant(-32768, 960));
    let tick = mix_tick(&mut store);
    assert_eq!(tick.frame, vec![-32768i16; 320]);
}

#[test]
fn negative_average_rounds_toward_zero() {
    let mut store = BufferStore::new();
    store.append("a", &constant(-3, 960));
    store.append("b", &constant(0, 960));
    let tick = mix_tick(&mut store);
    assert_eq!(tick.frame, vec![-1i16; 320]);
}

#[test]
fn two_sources_mix_sample_by_sample() {
    let mut store = BufferStore::new();
    let a: Vec<i16> = (0..960).map(|k| (k * 3) as i16).collect();
    let b: Vec<i16> = (0..960).map(|k| -(k as i16) * 7 + 11).collect();
    store.append("a", &a);
    store.append("b", &b);
    let tick = mix_tick(&mut store);
    let expected: Vec<i16> = (0..320).map(|i| ((a[i] as i32 + b[i] as i32) / 2) as i16).collect();
    assert_eq!(tick.frame, expected);
    assert_eq!(tick.frame[0], 5);
    assert_eq!(tick.frame[1], (3 - 7 + 11) / 2);
    assert_eq!(tick.frame[100], (300 - 700 + 11) / 2);
}

#[test]
fn three_sources_divide_by_three() {
    let mut store = BufferStore::new();
    store.append("a", &constant(10, 960));
    store.append("b", &constant(20, 960));
    store.append("c", &constant(-100, 960));
    let tick = mix_tick(&mut store);
    assert_eq!(tick.active_sources, 3);
    assert_eq!(tick.frame, vec![-23i16; 320]);
}

#[test]
fn source_below_threshold_is_left_out() {
    let mut store = BufferStore::new();
    let waiting = constant(30000, 959);
    store.append("ready", &constant(100, 960));
    store.append("waiting", &waiting);
    let tick = mix_tick(&mut store);
    assert_eq!(tick.active_sources, 1);
    assert_eq!(tick.frame, vec![100i16; 320]);
    assert_eq!(store.queue_len("waiting"), Some(959));
    assert_eq!(store.queue_samples("waiting"), Some(waiting));
    assert_eq!(store.queue_len("ready"), Some(640));
}

#[test]
fn only_unready_sources_give_silence() {
    let mut store = BufferStore::new();
    store.append("a", &constant(500, 959));
    store.append("b", &constant(-500, 320));
    let tick = mix_tick(&mut store);
    assert_eq!(tick.active_sources, 0);
    assert_eq!(tick.frame, vec![0i16; 320]);
    assert_eq!(store.queue_len("a"), Some(959));
    assert_eq!(store.queue_len("b"), Some(320));
}

#[test]
fn a_drained_source_waits_for_the_threshold_again() {
    let mut store = BufferStore::new();
    store.append("a", &constant(8, 960));
    assert_eq!(mix_tick(&mut store).active_sources, 1);
    let second = mix_tick(&mut store);
    assert_eq!(second.active_sources, 0);
    assert_eq!(second.frame, vec![0i16; 320]);
    assert_eq!(store.queue_len("a"), Some(640));
    store.append("a", &constant(9, 320));
    let third = mix_tick(&mut store);
    assert_eq!(third.active_sources, 1);
    assert_eq!(third.frame, vec![8i16; 320]);
}

#[test]
fn tick_does_not_depend_on_arrival_order() {
    let mut first = BufferStore::new();
    first.append("a", &constant(1200, 960));
    first.append("b", &constant(-7, 960));
    first.append("c", &constant(31, 10));
    let mut second = BufferStore::new();
    second.append("c", &constant(31, 10));
    second.append("b", &constant(-7, 960));
    second.append("a", &constant(1200, 960));
    assert_eq!(mix_tick(&mut first).frame, mix_tick(&mut second).frame);
}

#[test]
fn a_full_queue_drains_frame_by_frame() {
    let mut store = BufferStore::new();
    store.append("a", &constant(4, MAX_QUEUE_LEN + 500));
    let mut ticks = 0;
    while mix_tick(&mut store).active_sources == 1 {
        ticks += 1;
    }
    assert_eq!(ticks, 48);
    assert_eq!(store.queue_len("a"), Some(640));
}

#[test]
fn mix_sample_divides_toward_zero_then_clamps() {
    assert_eq!(mix_sample(0, 1), 0);
    assert_eq!(mix_sample(1000, 1), 1000);
    assert_eq!(mix_sample(32767, 2), 16383);
    assert_eq!(mix_sample(65534, 2), 32767);
    assert_eq!(mix_sample(3, 2), 1);
    assert_eq!(mix_sample(-3, 2), -1);
    assert_eq!(mix_sample(-1, 2), 0);
    assert_eq!(mix_sample(-65536, 2), -32768);
    assert_eq!(mix_sample(7, 3), 2);
    assert_eq!(mix_sample(-7, 3), -2);
}

#[test]
fn mix_sample_clamps_out_of_range_averages() {
    assert_eq!(mix_sample(100000, 1), 32767);
    assert_eq!(mix_sample(-100000, 1), -32768);
    assert_eq!(mix_sample(65536, 2), 32767);
    assert_eq!(mix_sample(-65538, 2), -32768);
    assert_eq!(mix_sample(i128::MAX, 1), 32767);
    assert_eq!(mix_sample(i128::MIN, 1), -32768);
    assert_eq!(mix_sample(i128::MIN, usize::MAX), -32768);
}
