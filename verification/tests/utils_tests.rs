use luckypool::utils::Challenge;

#[test]
fn utils_test_challenge() {
    let key = b"secret key";
    let challenge: Vec<u8> = b"challenge".to_vec();
    let expire_at: u64 = 1000;
    let c = challenge.challenge(key, expire_at);
    println!("challenge: {}, {:?}", c.len(), c);
    assert!(challenge.verify(key, expire_at, &c).is_ok());
    assert!(challenge.verify(key, expire_at, &c[1..]).is_err());
    assert!(challenge.verify(&key[1..], expire_at, &c).is_err());
    assert!(challenge.verify(key, expire_at + 1, &c).is_err());
}

#[test]
fn utils_challenge_fresh_floor_passes() {
    let key = b"k";
    let payload: Vec<u8> = vec![9, 9, 9];
    let c = payload.challenge(key, 500);
    assert!(payload.verify(key, 499, &c).is_ok());
    assert!(payload.verify(key, 500, &c).is_ok());
    assert!(payload.verify(key, 501, &c).is_err());
}
