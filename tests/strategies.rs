use benchmarks::cpu::CPUFeatures;
use benchmarks::strategies::{IdxChunks, OperationStrategy, SelectableEnum, WRITE_PATTERN};

fn all_strategies() -> Vec<OperationStrategy> {
    OperationStrategy::all_values()
}

fn sample_bytes(len: usize) -> Vec<u8> {
    (0..len).map(|i| (i * 7 + 3) as u8).collect()
}

#[test]
fn writes_agree_across_strategies() {
    let len = 4096 + 64 * 3;
    let mut reference: Option<Vec<u8>> = None;
    for strategy in all_strategies() {
        let mut data = sample_bytes(len);
        strategy.write_fn(&mut data);
        assert!(data.iter().all(|&b| b == 0xAA));
        match &reference {
            Some(r) => assert_eq!(r, &data),
            None => reference = Some(data),
        }
    }
}

#[test]
fn write_leaves_the_tail_after_the_last_register() {
    let mut data = sample_bytes(70);
    let before = data.clone();
    OperationStrategy::AVX512.write_fn(&mut data);
    assert!(data[..64].iter().all(|&b| b == WRITE_PATTERN));
    assert_eq!(&data[64..], &before[64..]);

    let mut data = sample_bytes(7);
    OperationStrategy::Int32.write_fn(&mut data);
    assert!(data[..4].iter().all(|&b| b == WRITE_PATTERN));
    assert_eq!(&data[4..], &sample_bytes(7)[4..]);

    let mut data = sample_bytes(3);
    OperationStrategy::Generic.write_fn(&mut data);
    assert_eq!(data, vec![0xAA; 3]);
}

#[test]
fn copy_between_disjoint_regions() {
    for strategy in all_strategies() {
        let width = strategy.register_width();
        for registers in [0usize, 1, 2, 3, 17, 100] {
            let len = registers * width;
            let from = sample_bytes(len + 5);
            let mut to = vec![0u8; len + 9];
            strategy.copy_nonoverlapping_fn(&from, &mut to, len);
            assert_eq!(&to[..len], &from[..len]);
            assert!(to[len..].iter().all(|&b| b == 0));
        }
    }
}

#[test]
fn copy_skips_a_partial_register() {
    let from = sample_bytes(20);
    let mut to = vec![0u8; 20];
    OperationStrategy::Int64.copy_nonoverlapping_fn(&from, &mut to, 20);
    assert_eq!(&to[..16], &from[..16]);
    assert_eq!(&to[16..], &[0, 0, 0, 0]);
}

#[test]
fn read_covers_whole_registers() {
    let data = sample_bytes(100);
    let xor = |n: usize| data[..n].iter().fold(0u8, |a, b| a ^ b);
    assert_eq!(OperationStrategy::Generic.read_fn(&data), (100, xor(100)));
    assert_eq!(OperationStrategy::Int32.read_fn(&data), (100, xor(100)));
    assert_eq!(OperationStrategy::Int64.read_fn(&data), (96, xor(96)));
    assert_eq!(OperationStrategy::Int128.read_fn(&data), (96, xor(96)));
    assert_eq!(OperationStrategy::SSE.read_fn(&data), (96, xor(96)));
    assert_eq!(OperationStrategy::AVX2.read_fn(&data), (96, xor(96)));
    assert_eq!(OperationStrategy::AVX512.read_fn(&data), (64, xor(64)));
    assert_eq!(OperationStrategy::AVX512.read_fn(&[]), (0, 0));
    assert_eq!(OperationStrategy::Generic.read_fn(&[0x0f, 0xf0, 0x01]), (3, 0xfe));
}

#[test]
fn blocks_shrink_towards_single_indices() {
    let mut blocks = IdxChunks::new(45, 16);
    let mut seen = Vec::new();
    while let Some(block) = blocks.next_block() {
        seen.push(block);
    }
    assert_eq!(seen, vec![(0, 16), (16, 16), (32, 8), (40, 4), (44, 1)]);
    let mut empty = IdxChunks::new(0, 64);
    assert_eq!(empty.next_block(), None);
}

#[test]
fn vector_strategies_need_their_features() {
    let none = CPUFeatures { sse: false, avx2: false, avx512: false };
    let all = CPUFeatures { sse: true, avx2: true, avx512: true };
    for strategy in all_strategies() {
        let vector = matches!(
            strategy,
            OperationStrategy::SSE | OperationStrategy::AVX2 | OperationStrategy::AVX512
        );
        assert_eq!(strategy.is_enabled(&none), !vector);
        assert!(strategy.is_enabled(&all));
    }
    let only_sse = CPUFeatures { sse: true, avx2: false, avx512: false };
    assert!(OperationStrategy::SSE.is_enabled(&only_sse));
    assert!(!OperationStrategy::AVX2.is_enabled(&only_sse));
}

#[test]
fn strategy_labels() {
    let labels: Vec<&str> = all_strategies().iter().map(|s| s.as_str()).collect();
    assert_eq!(
        labels,
        vec!["Generic", "32-bit", "64-bit", "128-bit", "128-bit SSE", "256-bit AVX", "512-bit AVX"]
    );
    assert_eq!(OperationStrategy::Int128.register_width(), 16);
}

#[test]
fn default_strategy_is_generic() {
    assert_eq!(OperationStrategy::default(), OperationStrategy::Generic);
}
