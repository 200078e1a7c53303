use mypaint::rng_double::{rng_double_new, rng_double_next_bits};

#[test]
fn rng_follows_the_pcg_steps() {
    let mut rng = rng_double_new(1000);
    assert_eq!((rng.state, rng.inc), (1000, 1000));
    assert_eq!(rng_double_next_bits(&mut rng), 0);
    assert_eq!(rng.state, 9518416997698481);
    assert_eq!(rng_double_next_bits(&mut rng), 3809130);
    assert_eq!(rng.state, 999796877682385158);
    assert_eq!(rng_double_next_bits(&mut rng), 8382487);
    assert_eq!(rng.state, 9186093346110917623);
    assert_eq!(rng.inc, 1000);
}

#[test]
fn rng_draws_stay_below_one() {
    let mut rng = rng_double_new(0xdead_beef);
    let mut other = rng_double_new(0xdead_beef);
    for _ in 0..1000 {
        let bits = rng_double_next_bits(&mut rng);
        assert!(bits < 1 << 23);
        assert_eq!(bits, rng_double_next_bits(&mut other));
    }
}
