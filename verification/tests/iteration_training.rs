use oja_net::cells::PATCH_SIZE;
use oja_net::network::MtNetwork;
use oja_net::reorder::check_arrival_order;
use oja_net::strategy_a::apply_rule_section;

fn sentinel(v: u32) -> Vec<u32> {
    vec![v; PATCH_SIZE]
}

fn sentinel_net(section_size: usize, threads: usize, neurons: usize, lr: u32) -> MtNetwork {
    let weights: Vec<Vec<u32>> = (0..neurons as u32).map(sentinel).collect();
    MtNetwork { section_size, threads, neurons, lr, weights }
}

// A deterministic stand-in for the update rule: adds the sample and the
// learning-rate cell into every weight cell, wrapping.
fn add_rule(sample: &Vec<u32>, weight: &Vec<u32>, lr: u32) -> Vec<u32> {
    weight
        .iter()
        .zip(sample.iter())
        .map(|(w, s)| w.wrapping_add(*s).wrapping_add(lr))
        .collect()
}

fn section_samples(num_sections: usize, per_section: usize, fill: u32) -> Vec<Vec<Vec<u32>>> {
    (0..num_sections).map(|_| (0..per_section).map(|_| vec![fill; PATCH_SIZE]).collect()).collect()
}

#[test]
fn train_iteration_scenario_eight_neurons() {
    // neurons=8, section_size=4, threads=3, lr=0.01: two sections; one pass
    // returns a population of 8 full-width vectors, all differing from the
    // pre-call population since the rule is no no-op on nonzero samples.
    let net = MtNetwork::new(4, 3, 8, 0.01f32.to_bits()).unwrap();
    assert_eq!(net.num_sections(), 2);
    let samples = section_samples(2, 4, 1);
    let arrival = vec![0usize, 1];
    let pop = net.train_iteration(1, &samples, &add_rule, &arrival);
    assert_eq!(pop.len(), 8);
    for (g, w) in pop.iter().enumerate() {
        assert_eq!(w.len(), PATCH_SIZE);
        assert_ne!(*w, net.weights[g]);
    }
}

#[test]
fn train_iteration_known_values_in_arrival_order() {
    let net = sentinel_net(2, 2, 4, 5);
    let samples = section_samples(2, 2, 10);
    // Sections complete in reverse order: section 1 arrives first.
    let pop = net.train_iteration(1, &samples, &add_rule, &vec![1usize, 0]);
    assert_eq!(pop.len(), 4);
    // Updated neuron g holds g + 10 + 5 in every cell.
    assert_eq!(pop[0], sentinel(2 + 15));
    assert_eq!(pop[1], sentinel(3 + 15));
    assert_eq!(pop[2], sentinel(0 + 15));
    assert_eq!(pop[3], sentinel(1 + 15));
}

#[test]
fn train_iteration_completeness_under_any_arrival() {
    // Whatever the arrival order, the result holds exactly the same
    // multiset of updated vectors: count and membership, not position.
    let net = sentinel_net(2, 2, 6, 1);
    let samples = section_samples(3, 2, 3);
    let mut in_order = net.train_iteration(1, &samples, &add_rule, &vec![0usize, 1, 2]);
    let mut scrambled = net.train_iteration(1, &samples, &add_rule, &vec![2usize, 0, 1]);
    assert_eq!(in_order.len(), 6);
    assert_eq!(scrambled.len(), 6);
    in_order.sort();
    scrambled.sort();
    assert_eq!(in_order, scrambled);
}

#[test]
fn train_iteration_single_section_boundary() {
    // section_size == neuron_count: one worker, one message, full result.
    let net = sentinel_net(4, 1, 4, 2);
    let samples = section_samples(1, 4, 7);
    let pop = net.train_iteration(1, &samples, &add_rule, &vec![0usize]);
    assert_eq!(pop.len(), 4);
    for (g, w) in pop.iter().enumerate() {
        assert_eq!(*w, sentinel(g as u32 + 9));
    }
}

#[test]
fn dispatched_unit_matches_direct_update() {
    // One update applied outside the orchestration must match, cell for
    // cell, what a dispatched work unit leaves for the same triple.
    let weights = vec![sentinel(11), sentinel(22)];
    let samples = vec![sentinel(33), sentinel(44)];
    let lr = 0.5f32.to_bits();
    let inside = apply_rule_section(&weights, &samples, lr, &add_rule);
    let outside: Vec<Vec<u32>> =
        weights.iter().zip(samples.iter()).map(|(w, s)| add_rule(s, w, lr)).collect();
    assert_eq!(inside, outside);
}

#[test]
fn arrival_order_checker_accepts_exactly_permutations() {
    assert!(check_arrival_order(&vec![2, 0, 1], 3));
    assert!(check_arrival_order(&vec![0, 1, 2], 3));
    assert!(check_arrival_order(&vec![], 0));
    // Too short, an index twice, an index out of range, one index missing.
    assert!(!check_arrival_order(&vec![0, 1], 3));
    assert!(!check_arrival_order(&vec![0, 1, 1], 3));
    assert!(!check_arrival_order(&vec![0, 1, 3], 3));
    assert!(!check_arrival_order(&vec![0, 0, 1, 2], 3));
}

#[test]
fn train_iteration_empty_population() {
    let net = sentinel_net(1, 1, 0, 0);
    let pop = net.train_iteration(1, &vec![], &add_rule, &vec![]);
    assert_eq!(pop.len(), 0);
}
