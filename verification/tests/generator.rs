use digital_rain::xoshiro256p::{rol64, splitmix64, Xoshiro256pState};

#[test]
fn golden_vector_for_the_engine_seed() {
    let mut rng = Xoshiro256pState::new(0xdeadbeef);
    let drawn: Vec<u64> = (0..6).map(|_| rng.next()).collect();
    assert_eq!(
        drawn,
        vec![
            0xbf468782e4ab532b,
            0xeeb772952711cc71,
            0x06ecba84e8c0ab44,
            0xe297cc89b43e9775,
            0x486889fde24c7308,
            0xfa33934980ba8e48,
        ]
    );
}

#[test]
fn golden_vector_for_seed_zero() {
    let mut rng = Xoshiro256pState::new(0);
    assert_eq!(rng.next(), 0xdaac60e1ed6a4f9b);
    assert_eq!(rng.next(), 0x3156a1da0dc08435);
    assert_eq!(rng.next(), 0xf9ba3e3285d046ab);
}

#[test]
fn equal_seeds_give_equal_streams() {
    let mut a = Xoshiro256pState::new(0x1234_5678_9abc_def0);
    let mut b = Xoshiro256pState::new(0x1234_5678_9abc_def0);
    for _ in 0..1000 {
        assert_eq!(a.next(), b.next());
    }
}

#[test]
fn different_seeds_give_different_streams() {
    let mut a = Xoshiro256pState::new(1);
    let mut b = Xoshiro256pState::new(2);
    let from_a: Vec<u64> = (0..4).map(|_| a.next()).collect();
    let from_b: Vec<u64> = (0..4).map(|_| b.next()).collect();
    assert_ne!(from_a, from_b);
}

#[test]
fn a_copy_continues_the_same_stream() {
    let mut a = Xoshiro256pState::new(99);
    a.next();
    let mut b = a;
    assert_eq!(a.next(), b.next());
    assert_eq!(a.next(), b.next());
}

#[test]
fn default_state_is_all_zero_and_stays_there() {
    let mut rng = Xoshiro256pState::default();
    assert_eq!(rng.next(), 0);
    assert_eq!(rng.next(), 0);
}

#[test]
fn splitmix64_from_zero() {
    let mut state: u64 = 0;
    assert_eq!(splitmix64(&mut state), 0xe220a8397b1dcdaf);
    assert_eq!(state, 0x9e3779b97f4a7c15);
    assert_eq!(splitmix64(&mut state), 0x6e789e6aa1b965f4);
    assert_eq!(state, 0x3c6ef372fe94f82a);
    assert_eq!(splitmix64(&mut state), 0x06c45d188009454f);
    assert_eq!(state, 0xdaa66d2c7ddf743f);
}

#[test]
fn splitmix64_wraps_its_state() {
    let mut state: u64 = u64::MAX;
    splitmix64(&mut state);
    assert_eq!(state, 0x9e3779b97f4a7c14);
}

#[test]
fn rol64_rotates_left() {
    assert_eq!(rol64(1, 1), 2);
    assert_eq!(rol64(0x8000_0000_0000_0000, 1), 1);
    assert_eq!(rol64(0x0123_4567_89ab_cdef, 45), 0x0123_4567_89ab_cdefu64.rotate_left(45));
    assert_eq!(rol64(0xf000_0000_0000_000f, 63), 0xf800_0000_0000_0007);
}
