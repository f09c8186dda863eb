use sulis::rng::ReproducibleRandom;
use sulis::weighted_list::WeightedList;

#[test]
fn empty_list_yields_no_selection() {
    let list: WeightedList<u32> = WeightedList::new(Vec::new()).unwrap();
    let mut rand = ReproducibleRandom::new(7);
    assert_eq!(list.pick_index(&mut rand), None);
}

#[test]
fn all_zero_weights_yield_no_selection() {
    let entries = vec![(10u32, 0u32), (20u32, 0u32), (30u32, 0u32)];
    let list = WeightedList::new(entries).unwrap();
    let mut rand = ReproducibleRandom::new(99);
    assert_eq!(list.pick_index(&mut rand), None);
    // the random source is untouched by a degenerate pick
    assert_eq!(list.pick_index(&mut rand), None);
}

#[test]
fn zero_weight_entries_are_never_picked() {
    let entries = vec![(1u32, 0u32), (2u32, 5u32), (3u32, 0u32)];
    let list = WeightedList::new(entries).unwrap();
    for seed in 0..50u64 {
        let mut rand = ReproducibleRandom::new(seed);
        assert_eq!(list.pick_index(&mut rand), Some(1));
    }
}

#[test]
fn picks_are_deterministic_for_a_seed() {
    let entries = vec![(0u32, 3u32), (1u32, 1u32), (2u32, 7u32), (3u32, 2u32)];
    let list = WeightedList::new(entries).unwrap();
    let mut a = ReproducibleRandom::new(123456);
    let mut b = ReproducibleRandom::new(123456);
    for _ in 0..200 {
        assert_eq!(list.pick_index(&mut a), list.pick_index(&mut b));
    }
}

#[test]
fn picked_entries_have_positive_weight() {
    let entries = vec![(0u32, 0u32), (1u32, 2u32), (2u32, 0u32), (3u32, 4u32)];
    let list = WeightedList::new(entries).unwrap();
    let mut rand = ReproducibleRandom::new(5);
    for _ in 0..100 {
        let i = list.pick_index(&mut rand).unwrap();
        assert!(i == 1 || i == 3);
    }
}

#[test]
fn unrepresentable_weight_total_is_refused() {
    let entries = vec![(0u32, u32::MAX), (1u32, u32::MAX)];
    match WeightedList::<u32>::new(entries) {
        Err(e) => assert_eq!(e, sulis::errors::GenError::InvalidData),
        Ok(_) => panic!("an unrepresentable total was accepted"),
    }
}

#[test]
fn single_value_range_draw_is_exact() {
    let mut rand = ReproducibleRandom::new(42);
    for _ in 0..10 {
        assert_eq!(rand.gen(5, 6), 5);
    }
}

#[test]
fn draws_stay_in_range_and_replay() {
    let mut a = ReproducibleRandom::new(2024);
    let mut b = ReproducibleRandom::new(2024);
    for _ in 0..500 {
        let va = a.gen(3, 17);
        let vb = b.gen(3, 17);
        assert_eq!(va, vb);
        assert!((3..17).contains(&va));
    }
    assert_eq!(a.seed(), 2024);
}
