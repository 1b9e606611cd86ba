use block_cipher::block::Block;
use block_cipher::block_span::{
    reassemble, run_spans, sequential_ecb, BlockSpan, Payload, XorKey,
};
use block_cipher::errors::CipherError;
use block_cipher::packer::{PackBytes, Packer};

fn sample_message() -> Vec<u64> {
    (0..16u64).map(|i| i.wrapping_mul(0x9E37_79B9).rotate_left(7)).collect()
}

#[test]
fn test_parallel_equals_sequential_for_span_sizes_1_2_4_8() {
    let msg = sample_message();
    let key = vec![0xDEu8, 0xAD, 0xBE, 0xEF, 0x01];
    let expected = sequential_ecb(&msg, &key, &XorKey);
    for span_size in [1usize, 2, 4, 8] {
        let got = run_spans(msg.clone(), &key, &XorKey, span_size).unwrap();
        assert_eq!(got, expected, "span size {span_size}");
    }
}

#[test]
fn test_parallel_equals_sequential_with_the_built_in_mixer() {
    let msg = sample_message();
    let key = vec![9u8, 17, 33];
    let expected = sequential_ecb(&msg, &key, &block_cipher::mixer::Mixer64);
    for span_size in [1usize, 2, 4, 8, 100] {
        let got = run_spans(msg.clone(), &key, &block_cipher::mixer::Mixer64, span_size).unwrap();
        assert_eq!(got, expected, "span size {span_size}");
    }
    // the transform really transforms
    assert_ne!(expected[0], Block { l: msg[0], r: msg[1] });
}

#[test]
fn test_consume_partitions_and_do_work_uses_absolute_indices() {
    let mut msg = sample_message();
    let key = vec![1u8, 2, 3];
    let s0 = BlockSpan::consume(0, 3, 0, &mut msg, &key);
    let s1 = BlockSpan::consume(1, 3, 3, &mut msg, &key);
    let s2 = BlockSpan::consume(2, 3, 6, &mut msg, &key);
    assert_eq!(s0.span.len(), 6);
    assert_eq!(s1.span.len(), 6);
    assert_eq!(s2.span.len(), 4);
    assert!(msg.is_empty());

    let full = sample_message();
    let expected = sequential_ecb(&full, &key, &XorKey);
    let p0 = s0.do_work(&XorKey);
    let p1 = s1.do_work(&XorKey);
    let p2 = s2.do_work(&XorKey);
    let mut joined = p0.1.clone();
    joined.extend(p1.1.clone());
    joined.extend(p2.1.clone());
    assert_eq!(joined, expected);
}

#[test]
fn test_reassemble_is_arrival_order_independent() {
    let msg = sample_message();
    let key = vec![5u8, 9];
    let expected = sequential_ecb(&msg, &key, &XorKey);

    let mut rest = msg.clone();
    let s0 = BlockSpan::consume(0, 4, 0, &mut rest, &key);
    let s1 = BlockSpan::consume(1, 4, 4, &mut rest, &key);
    let in_order = vec![s0.do_work(&XorKey), s1.do_work(&XorKey)];
    let shuffled = vec![in_order[1].clone(), in_order[0].clone()];

    let a = reassemble(in_order, 2).unwrap();
    let b = reassemble(shuffled, 2).unwrap();
    assert_eq!(a, expected);
    assert_eq!(b, expected);
}

#[test]
fn test_missing_span_is_a_worker_failure() {
    let payloads = vec![Payload(0, Vec::new()), Payload(0, Vec::new())];
    let e = reassemble(payloads, 2).unwrap_err();
    assert!(matches!(e, CipherError::WorkerFailure(_)));

    let e = reassemble(vec![Payload(0, Vec::new())], 2).unwrap_err();
    assert!(matches!(e, CipherError::WorkerFailure(_)));

    let e = reassemble(vec![Payload(5, Vec::new()), Payload(0, Vec::new())], 2).unwrap_err();
    assert!(matches!(e, CipherError::WorkerFailure(_)));
}

#[test]
fn test_concrete_scenario_sixteen_zero_bytes() {
    // input: sixteen zero bytes; key [1, 2, 3, 4]; 64-bit registers,
    // so one sixteen-byte unit per block; the test-double transform
    // XORs the key byte of the block's absolute index into both halves
    let data = vec![0u8; 16];
    let key = vec![1u8, 2, 3, 4];

    // already aligned to sixteen bytes: one extra sixteen-byte block of
    // value sixteen is appended
    let padded = Packer::pad_bytes::<16>(data).unwrap();
    assert_eq!(padded.len(), 32);
    assert_eq!(&padded[16..], &[16u8; 16]);

    let subblocks: Vec<u64> =
        <Packer as PackBytes<u64>>::u8s_to_vecdeque(padded).into_iter().collect();
    assert_eq!(subblocks, vec![0, 0, 0x1010_1010_1010_1010, 0x1010_1010_1010_1010]);

    let blocks = sequential_ecb(&subblocks, &key, &XorKey);
    // packed plaintext blocks: {l: 0, r: 0} and the padding block;
    // absolute block indices 0 and 1 select key bytes 1 then 2
    assert_eq!(blocks[0], Block { l: 1u64, r: 1u64 });
    assert_eq!(
        blocks[1],
        Block { l: 0x1010_1010_1010_1012u64, r: 0x1010_1010_1010_1012u64 }
    );

    // exact wire bytes, little-endian halves in order
    let mut wire: Vec<u8> = Vec::new();
    for b in &blocks {
        wire.extend(b.to_bytes());
    }
    let mut expected = vec![1u8, 0, 0, 0, 0, 0, 0, 0, 1, 0, 0, 0, 0, 0, 0, 0];
    expected.extend([0x12, 0x10, 0x10, 0x10, 0x10, 0x10, 0x10, 0x10]);
    expected.extend([0x12, 0x10, 0x10, 0x10, 0x10, 0x10, 0x10, 0x10]);
    assert_eq!(wire, expected);

    // the same scenario through the parallel engine, any span size
    for span_size in [1usize, 2, 4, 8] {
        let got = run_spans(subblocks.clone(), &key, &XorKey, span_size).unwrap();
        assert_eq!(got, blocks);
    }
}
