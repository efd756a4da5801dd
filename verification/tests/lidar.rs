use lidar_rd::lidar::{Lifecycle, TurnAggregator, TurnSlot};
use lidar_rd::{Sample, Turn};

fn s(angle: i32) -> Sample {
    Sample { angle, distance: 1000, quality: 50 }
}

#[test]
fn turn_last_angle_of_empty_is_zero() {
    let t = Turn::new();
    assert_eq!(t.last_angle(), 0);
}

#[test]
fn turn_push_appends_present_sample() {
    let mut t = Turn::new();
    t.push(s(100));
    t.push(s(200));
    assert_eq!(t.samples, vec![Some(s(100)), Some(s(200))]);
    assert_eq!(t.last_angle(), 200);
}

#[test]
fn aggregator_wrap_seals_prior_samples() {
    let mut agg = TurnAggregator::new();
    // increasing angles: nothing seals
    assert!(agg.push(s(1000)).is_none());
    assert!(agg.push(s(2000)).is_none());
    assert!(agg.push(s(2000)).is_none()); // equal angle does not wrap
    assert!(agg.push(s(3000)).is_none());
    // a smaller angle wraps: the sealed turn holds all prior samples
    let sealed = agg.push(s(500)).expect("wrap should seal");
    assert_eq!(
        sealed.samples,
        vec![Some(s(1000)), Some(s(2000)), Some(s(2000)), Some(s(3000))]
    );
    // and the new turn begins with the wrap sample
    assert_eq!(agg.turn.samples, vec![Some(s(500))]);
}

#[test]
fn aggregator_push_all_matches_single_pushes() {
    let samples = vec![s(10), s(20), s(5), s(7), s(3)];
    let mut one = TurnAggregator::new();
    let mut singly = vec![];
    for x in &samples {
        if let Some(t) = one.push(*x) {
            singly.push(t.samples);
        }
    }
    let mut all = TurnAggregator::new();
    let batch: Vec<_> = all.push_all(&samples).into_iter().map(|t| t.samples).collect();
    assert_eq!(batch, singly);
    assert_eq!(all.turn.samples, one.turn.samples);
}

#[test]
fn slot_take_is_destructive() {
    let mut slot = TurnSlot::new();
    assert!(slot.take().is_none());
    let mut t = Turn::new();
    t.push(s(42));
    slot.publish(t);
    let got = slot.take().expect("published turn should be there");
    assert_eq!(got.samples, vec![Some(s(42))]);
    // a second take finds the slot empty again
    assert!(slot.take().is_none());
}

#[test]
fn slot_publish_overwrites_unread_turn() {
    let mut slot = TurnSlot::new();
    let mut t1 = Turn::new();
    t1.push(s(1));
    let mut t2 = Turn::new();
    t2.push(s(2));
    slot.publish(t1);
    slot.publish(t2);
    let got = slot.take().expect("a turn should be there");
    assert_eq!(got.samples, vec![Some(s(2))]);
    assert!(slot.take().is_none());
}

#[test]
fn lifecycle_start_stop() {
    let mut l = Lifecycle::new();
    assert!(!l.is_running());
    assert!(l.start().is_ok());
    assert!(l.is_running());
    // starting twice is refused
    assert!(l.start().is_err());
    assert!(l.is_running());
    l.stop();
    assert!(!l.is_running());
}

#[test]
fn lifecycle_stop_twice_is_a_no_op() {
    let mut l = Lifecycle::new();
    assert!(l.start().is_ok());
    l.stop();
    l.stop();
    assert!(!l.is_running());
}
