use workspace_colours::rng::Rng;

#[test]
fn splitmix_reference_outputs_from_zero() {
    let mut rng = Rng(0);
    assert_eq!(rng.next(), 0xe220a8397b1dcdaf);
    assert_eq!(rng.0, 0x9e3779b97f4a7c15);
    assert_eq!(rng.next(), 0x6e789e6aa1b965f4);
    assert_eq!(rng.next(), 0x06c45d188009454f);
    assert_eq!(rng.0, 0xdaa66d2c7ddf743f);
}

#[test]
fn index_takes_the_high_word_of_the_scaled_draw() {
    assert_eq!(Rng(0).index(10), 8);
    assert_eq!(Rng(42).index(7), 5);
    assert_eq!(Rng(15).index(5), 2);
    let mut rng = Rng(3);
    assert_eq!(rng.index(0), 0);
    assert_eq!(rng.0, Rng(3).0.wrapping_add(0x9e3779b97f4a7c15));
}

#[test]
fn index_stays_below_its_bound() {
    let mut rng = Rng(99);
    for n in 1..200usize {
        assert!(rng.index(n) < n);
    }
    assert!(rng.index(usize::MAX) < usize::MAX);
}

#[test]
fn equal_states_give_equal_streams() {
    let mut a = Rng(12345);
    let mut b = Rng(12345);
    for _ in 0..50 {
        assert_eq!(a.next(), b.next());
        assert_eq!(a.index(17), b.index(17));
    }
}
