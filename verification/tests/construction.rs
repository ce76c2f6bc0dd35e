use oja_net::cells::PATCH_SIZE;
use oja_net::network::ConfigError;
use oja_net::network::MtNetwork;

#[test]
fn construction_valid_configuration() {
    let net = MtNetwork::new(4, 3, 8, 0.01f32.to_bits()).unwrap();
    assert_eq!(net.section_size, 4);
    assert_eq!(net.threads, 3);
    assert_eq!(net.neurons, 8);
    assert_eq!(net.lr, 0.01f32.to_bits());
    assert_eq!(net.weights.len(), 8);
    for w in &net.weights {
        assert_eq!(w.len(), PATCH_SIZE);
    }
    assert_eq!(net.num_sections(), 2);
}

#[test]
fn construction_uneven_population_fails_deterministically() {
    // A population of 10 cannot divide into sections of 3.
    let first = MtNetwork::new(3, 2, 10, 0);
    let second = MtNetwork::new(3, 2, 10, 0);
    assert!(matches!(first, Err(ConfigError::UnevenPartition)));
    assert!(matches!(second, Err(ConfigError::UnevenPartition)));
}

#[test]
fn construction_zero_threads_fails() {
    assert!(matches!(MtNetwork::new(4, 0, 8, 0), Err(ConfigError::ZeroThreads)));
}

#[test]
fn construction_zero_section_size_fails() {
    assert!(matches!(MtNetwork::new(0, 2, 8, 0), Err(ConfigError::ZeroSectionSize)));
}

#[test]
fn construction_empty_population_is_valid() {
    let net = MtNetwork::new(1, 1, 0, 0).unwrap();
    assert_eq!(net.weights.len(), 0);
    assert_eq!(net.num_sections(), 0);
}

#[test]
fn construction_divisibility_holds_for_all_accepted_configurations() {
    for section_size in 1..6usize {
        for neurons in 0..13usize {
            match MtNetwork::new(section_size, 2, neurons, 0) {
                Ok(net) => assert_eq!(net.neurons % net.section_size, 0),
                Err(e) => {
                    assert_eq!(e, ConfigError::UnevenPartition);
                    assert_ne!(neurons % section_size, 0);
                }
            }
        }
    }
}
