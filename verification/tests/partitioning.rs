use oja_net::cells::PATCH_SIZE;
use oja_net::network::MtNetwork;

fn sentinel(v: u32) -> Vec<u32> {
    vec![v; PATCH_SIZE]
}

fn sentinel_net(section_size: usize, neurons: usize) -> MtNetwork {
    let weights: Vec<Vec<u32>> = (0..neurons as u32).map(sentinel).collect();
    MtNetwork { section_size, threads: 1, neurons, lr: 0, weights }
}

#[test]
fn partition_covers_contiguous_ranges() {
    // Six distinct sentinel neurons in sections of two: section i must hold
    // exactly the weight vectors at indices 2*i and 2*i + 1.
    let net = sentinel_net(2, 6);
    let sections = net.partition_sections();
    assert_eq!(sections.len(), 3);
    for (i, sec) in sections.iter().enumerate() {
        assert_eq!(sec.len(), 2);
        assert_eq!(sec[0], sentinel(2 * i as u32));
        assert_eq!(sec[1], sentinel(2 * i as u32 + 1));
    }
}

#[test]
fn partition_is_deterministic() {
    let net = sentinel_net(3, 9);
    let first = net.partition_sections();
    let second = net.partition_sections();
    assert_eq!(first, second);
}

#[test]
fn partition_single_section_boundary() {
    // section_size == neuron_count: one section holding the whole population.
    let net = sentinel_net(4, 4);
    let sections = net.partition_sections();
    assert_eq!(sections.len(), 1);
    assert_eq!(sections[0].len(), 4);
    for (g, w) in sections[0].iter().enumerate() {
        assert_eq!(*w, sentinel(g as u32));
    }
}

#[test]
fn partition_leaves_population_untouched() {
    let net = sentinel_net(2, 4);
    let _ = net.partition_sections();
    for (g, w) in net.weights.iter().enumerate() {
        assert_eq!(*w, sentinel(g as u32));
    }
}
