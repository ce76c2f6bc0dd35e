use oja_net::cells::PATCH_SIZE;
use oja_net::network::MtNetwork;
use oja_net::strategy_b::aggregate_results;
use oja_net::strategy_b::batch_work_unit;
use oja_net::strategy_b::RecvOutcome;

fn sentinel(v: u32) -> Vec<u32> {
    vec![v; PATCH_SIZE]
}

fn add_rule(sample: &Vec<u32>, weight: &Vec<u32>, lr: u32) -> Vec<u32> {
    weight
        .iter()
        .zip(sample.iter())
        .map(|(w, s)| w.wrapping_add(*s).wrapping_add(lr))
        .collect()
}

fn shared_samples(count: usize, fill: u32) -> Vec<Vec<u32>> {
    (0..count).map(|_| vec![fill; PATCH_SIZE]).collect()
}

#[test]
fn aggregator_receives_one_message_per_section() {
    // With eight neurons in sections of four, the aggregator performs
    // exactly two receives and then stops.
    let net = MtNetwork::new(4, 3, 8, 0.01f32.to_bits()).unwrap();
    let shared = shared_samples(4, 1);
    let received = net.train_complete_iterations(3, &shared, &add_rule);
    assert_eq!(received, 2);
}

#[test]
fn aggregator_count_is_stable_over_repeated_runs() {
    // The units draw fresh random weights each run, but the message count
    // must not vary.
    let net = MtNetwork::new(2, 4, 10, 0).unwrap();
    let shared = shared_samples(6, 2);
    for _ in 0..5 {
        assert_eq!(net.train_complete_iterations(5, &shared, &add_rule), 5);
    }
}

#[test]
fn batch_work_unit_sizes_and_width() {
    let shared = shared_samples(4, 1);
    let out = batch_work_unit(3, 7, 5, &shared, &add_rule);
    assert_eq!(out.len(), 3);
    for w in &out {
        assert_eq!(w.len(), PATCH_SIZE);
    }
}

#[test]
fn batch_work_unit_single_epoch_applies_no_update() {
    // epoch_count == 1 means zero applications of the rule: the unit hands
    // back its fresh draws untouched, still full width.
    let out = batch_work_unit(2, 3, 1, &shared_samples(0, 0), &add_rule);
    assert_eq!(out.len(), 2);
    for w in &out {
        assert_eq!(w.len(), PATCH_SIZE);
    }
}

#[test]
fn aggregate_appends_delivered_sections_in_arrival_order() {
    let a = vec![sentinel(1), sentinel(2)];
    let b = vec![sentinel(3)];
    let outcomes = vec![RecvOutcome::Delivered(a), RecvOutcome::Delivered(b)];
    let buf = aggregate_results(&outcomes);
    assert_eq!(buf, vec![sentinel(1), sentinel(2), sentinel(3)]);
}

#[test]
fn aggregate_swallows_failed_receives() {
    // A closed channel is treated as benign end-of-work: the buffer is
    // merely shorter, no error is raised.
    let outcomes = vec![
        RecvOutcome::Delivered(vec![sentinel(9)]),
        RecvOutcome::Closed,
        RecvOutcome::Delivered(vec![sentinel(8)]),
    ];
    let buf = aggregate_results(&outcomes);
    assert_eq!(buf, vec![sentinel(9), sentinel(8)]);
}
