use nimiq_vanity::entropy::{add_to_entropy, Entropy};

fn entropy_of(bytes: [u8; 32]) -> Entropy {
    Entropy::from_bytes(bytes.to_vec()).expect("32 bytes")
}

#[test]
fn from_bytes_rejects_wrong_lengths() {
    assert!(Entropy::from_bytes(vec![0u8; 31]).is_none());
    assert!(Entropy::from_bytes(vec![0u8; 33]).is_none());
    assert!(Entropy::from_bytes(vec![0u8; 0]).is_none());
    assert!(Entropy::from_bytes(vec![0u8; 32]).is_some());
}

#[test]
fn adding_one_increments_the_last_byte() {
    let e = entropy_of([0u8; 32]);
    let next = add_to_entropy(&e, 1);
    let mut expected = [0u8; 32];
    expected[31] = 1;
    assert_eq!(next.as_bytes(), &expected);
}

#[test]
fn carries_propagate_leftwards() {
    let mut start = [0u8; 32];
    start[31] = 0xff;
    start[30] = 0xff;
    let next = add_to_entropy(&entropy_of(start), 1);
    let mut expected = [0u8; 32];
    expected[29] = 1;
    assert_eq!(next.as_bytes(), &expected);
}

#[test]
fn maximum_value_wraps_to_zero() {
    let next = add_to_entropy(&entropy_of([0xffu8; 32]), 1);
    assert_eq!(next.as_bytes(), &[0u8; 32]);
}

#[test]
fn wrapping_keeps_the_low_bytes() {
    let next = add_to_entropy(&entropy_of([0xffu8; 32]), 0xff);
    let mut expected = [0u8; 32];
    expected[31] = 0xfe;
    assert_eq!(next.as_bytes(), &expected);
}

#[test]
fn sequencing_is_additive() {
    let mut start = [0u8; 32];
    start[31] = 0xf0;
    start[7] = 0xab;
    let e = entropy_of(start);
    let two_steps = add_to_entropy(&add_to_entropy(&e, 5), 7);
    let one_step = add_to_entropy(&e, 12);
    assert_eq!(two_steps.as_bytes(), one_step.as_bytes());
}

#[test]
fn large_deltas_spread_over_many_bytes() {
    let e = entropy_of([0u8; 32]);
    let next = add_to_entropy(&e, u64::MAX);
    let mut expected = [0u8; 32];
    for i in 24..32 {
        expected[i] = 0xff;
    }
    assert_eq!(next.as_bytes(), &expected);
}

#[test]
fn advancing_is_deterministic() {
    let e1 = entropy_of([9u8; 32]);
    let e2 = entropy_of([9u8; 32]);
    assert_eq!(
        add_to_entropy(&e1, 1000).as_bytes(),
        add_to_entropy(&e2, 1000).as_bytes()
    );
}
