use uniform_prng::congruential::MultiplicativeCongruentialMethod;
use uniform_prng::generator::{RandGenerator, MODULUS};
use uniform_prng::shuffle::McLarenMarsagliaMethod;

const A1: u32 = 564853681;
const C1: u32 = 790941697;
const A2: u32 = 10449689;
const C2: u32 = 176234371;
const K: usize = 64;

fn unit(r: u32) -> f64 {
    r as f64 / MODULUS as f64
}

fn demo_combiner(
) -> McLarenMarsagliaMethod<MultiplicativeCongruentialMethod, MultiplicativeCongruentialMethod> {
    McLarenMarsagliaMethod::new(
        MultiplicativeCongruentialMethod::new(A1, C1),
        MultiplicativeCongruentialMethod::new(A2, C2),
        K,
    )
}

#[test]
fn modulus_is_two_to_the_31() {
    assert_eq!(MODULUS, 2147483648);
}

#[test]
fn small_constant_gives_complement_multiplier() {
    // c = 3 is below 2^31 - 3, so the multiplier is 2^31 - 3.
    let mut g = MultiplicativeCongruentialMethod::new(1, 3);
    assert_eq!(g.rand(), 2147483645);
    assert_eq!(g.rand(), 9);
    assert_eq!(g.rand(), 2147483621);
    assert_eq!(g.rand(), 81);
}

#[test]
fn large_constant_is_its_own_multiplier() {
    let mut g = MultiplicativeCongruentialMethod::new(5, 2147483645);
    assert_eq!(g.rand(), 2147483633);
    assert_eq!(g.rand(), 45);
    assert_eq!(g.rand(), 2147483513);
}

#[test]
fn constant_at_half_the_modulus() {
    let mut g = MultiplicativeCongruentialMethod::new(3, 1 << 30);
    assert_eq!(g.rand(), 1073741824);
    assert_eq!(g.rand(), 0);
    assert_eq!(g.rand(), 0);
}

#[test]
fn constant_zero_and_constant_at_the_modulus() {
    let mut zero = MultiplicativeCongruentialMethod::new(3, 0);
    let mut full = MultiplicativeCongruentialMethod::new(3, MODULUS);
    for _ in 0..3 {
        assert_eq!(zero.rand(), 0);
        assert_eq!(full.rand(), 0);
    }
}

#[test]
fn seed_and_constant_above_the_modulus_use_the_same_arithmetic() {
    let mut g = MultiplicativeCongruentialMethod::new(u32::MAX, u32::MAX);
    assert_eq!(g.rand(), 1);
    assert_eq!(g.rand(), 2147483647);
    assert_eq!(g.rand(), 1);
}

#[test]
fn product_is_not_truncated_to_32_bits() {
    let mut g = MultiplicativeCongruentialMethod::new(A1, C1);
    let expected = ((A1 as u64 * 1356541951u64) % (1u64 << 31)) as u32;
    assert_eq!(g.rand(), expected);
    assert_eq!(expected, 233911375);
}

#[test]
fn congruential_first_draws() {
    let mut g = MultiplicativeCongruentialMethod::new(A1, C1);
    let draws: Vec<u32> = (0..5).map(|_| g.rand()).collect();
    assert_eq!(draws, vec![233911375, 460495793, 1646892111, 2033859505, 1382151247]);
}

#[test]
fn congruential_first_fifteenth_and_thousandth_draw() {
    let mut g = MultiplicativeCongruentialMethod::new(A1, C1);
    let draws: Vec<u32> = (0..1000).map(|_| g.rand()).collect();
    assert_eq!(draws[0], 233911375);
    assert_eq!(draws[14], 662426703);
    assert_eq!(draws[999], 1938783153);
    assert_eq!(unit(draws[0]).to_bits(), 0.10892347199842334f64.to_bits());
    assert_eq!(unit(draws[14]).to_bits(), 0.30846647126600146f64.to_bits());
    assert_eq!(unit(draws[999]).to_bits(), 0.9028162588365376f64.to_bits());
}

#[test]
fn combiner_first_fifteenth_and_thousandth_draw() {
    let mut g = demo_combiner();
    let draws: Vec<u32> = (0..1000).map(|_| g.rand()).collect();
    assert_eq!(&draws[..5], &[393385039, 706763697, 233911375, 5510223, 725840975]);
    assert_eq!(draws[14], 2004605873);
    assert_eq!(draws[999], 1171240015);
    assert_eq!(unit(draws[0]).to_bits(), 0.1831841836683452f64.to_bits());
    assert_eq!(unit(draws[14]).to_bits(), 0.9334673513658345f64.to_bits());
    assert_eq!(unit(draws[999]).to_bits(), 0.5454011331312358f64.to_bits());
}

#[test]
fn same_seed_gives_the_same_sequence() {
    let mut g1 = MultiplicativeCongruentialMethod::new(A1, C1);
    let mut g2 = MultiplicativeCongruentialMethod::new(A1, C1);
    for _ in 0..1000 {
        assert_eq!(g1.rand(), g2.rand());
    }
    let mut s1 = demo_combiner();
    let mut s2 = demo_combiner();
    for _ in 0..1000 {
        assert_eq!(s1.rand(), s2.rand());
    }
}

#[test]
fn different_seeds_give_different_sequences() {
    let mut g1 = MultiplicativeCongruentialMethod::new(A1, C1);
    let mut g2 = MultiplicativeCongruentialMethod::new(A2, C1);
    let first: Vec<u32> = (0..10).map(|_| g1.rand()).collect();
    let second: Vec<u32> = (0..10).map(|_| g2.rand()).collect();
    assert_ne!(first, second);
}

#[test]
fn every_draw_is_below_the_modulus() {
    let mut plain = MultiplicativeCongruentialMethod::new(A1, C1);
    let mut shuffled = demo_combiner();
    let mut nested = McLarenMarsagliaMethod::new(
        demo_combiner(),
        MultiplicativeCongruentialMethod::new(7, 3),
        5,
    );
    for _ in 0..10000 {
        assert!(plain.rand() < MODULUS);
        assert!(shuffled.rand() < MODULUS);
        assert!(nested.rand() < MODULUS);
    }
}

#[test]
fn every_draw_as_a_fraction_is_in_the_unit_interval() {
    let mut g = demo_combiner();
    for _ in 0..10000 {
        let x = unit(g.rand());
        assert!(0.0 <= x && x < 1.0);
    }
}

#[test]
fn out_of_domain_seed_is_in_range_after_one_draw() {
    let mut g = MultiplicativeCongruentialMethod::new(u32::MAX, 12345);
    for _ in 0..100 {
        assert!(g.rand() < MODULUS);
    }
}

#[test]
fn combiner_reads_the_slot_before_it_replaces_it() {
    // Primary draws: 2147483645, 9, 2147483621, 81, 2147483405, 729.
    // Secondary draws: 2147483613, 245, 2147481933, 12005, picking slots 1, 0, 1, 0.
    let mut g = McLarenMarsagliaMethod::new(
        MultiplicativeCongruentialMethod::new(1, 3),
        MultiplicativeCongruentialMethod::new(5, 7),
        2,
    );
    assert_eq!(g.rand(), 9);
    assert_eq!(g.rand(), 2147483645);
    assert_eq!(g.rand(), 2147483621);
    assert_eq!(g.rand(), 81);
}

#[test]
fn combiner_with_one_slot_replays_the_primary_generator() {
    let mut primary = MultiplicativeCongruentialMethod::new(A1, C1);
    let mut g = McLarenMarsagliaMethod::new(
        MultiplicativeCongruentialMethod::new(A1, C1),
        MultiplicativeCongruentialMethod::new(A2, C2),
        1,
    );
    for _ in 0..200 {
        assert_eq!(g.rand(), primary.rand());
    }
}

#[test]
fn combiner_hands_out_only_draws_of_the_primary_generator() {
    let mut primary = MultiplicativeCongruentialMethod::new(A1, C1);
    let source: Vec<u32> = (0..(K + 500)).map(|_| primary.rand()).collect();
    let mut g = demo_combiner();
    for n in 0..500 {
        let r = g.rand();
        let place = source.iter().position(|&x| x == r);
        assert!(place.is_some());
        assert!(place.unwrap() < K + n);
    }
}

#[test]
fn combiner_differs_from_its_primary_generator() {
    let mut primary = MultiplicativeCongruentialMethod::new(A1, C1);
    let mut g = demo_combiner();
    let plain: Vec<u32> = (0..20).map(|_| primary.rand()).collect();
    let mixed: Vec<u32> = (0..20).map(|_| g.rand()).collect();
    assert_ne!(plain, mixed);
}

#[test]
fn table_size_never_changes() {
    let mut g = demo_combiner();
    assert_eq!(g.table_size(), K);
    for _ in 0..1000 {
        g.rand();
        assert_eq!(g.table_size(), K);
    }
}

#[test]
fn combiner_can_hold_another_combiner() {
    let inner = McLarenMarsagliaMethod::new(
        MultiplicativeCongruentialMethod::new(A1, C1),
        MultiplicativeCongruentialMethod::new(A2, C2),
        4,
    );
    let mut g = McLarenMarsagliaMethod::new(inner, MultiplicativeCongruentialMethod::new(7, 3), 3);
    let draws: Vec<u32> = (0..6).map(|_| g.rand()).collect();
    assert_eq!(
        draws,
        vec![989977521, 2033859505, 1382151247, 1587172431, 1623817137, 1646892111]
    );
}
