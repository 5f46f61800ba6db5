use luckypool::account::Account;
use luckypool::codec::{Challenge, Cryptogram, Ed25519Message};
use luckypool::prize::Prize;
use luckypool::types::ChallengeState;
use sha3::{Digest, Sha3_256};

#[test]
fn lib_test_challenge() {
    let key = b"secret key";
    let challenge: Vec<u8> = b"challenge".to_vec();
    let expire_at: u64 = 1000;
    let c = challenge.challenge(key, expire_at);
    println!("challenge: {}, {:?}", c.len(), c);
    assert!(c.len() < 24);
    assert!(challenge.verify(key, expire_at, &c).is_ok());
    assert!(challenge.verify(key, expire_at, &c[1..]).is_err());
    assert!(challenge.verify(&key[1..], expire_at, &c).is_err());
    assert!(challenge.verify(key, expire_at + 1, &c).is_err());
}

#[test]
fn challenge_single_byte_tamper_fails() {
    let key = b"secret key";
    let payload: Vec<u8> = b"payload".to_vec();
    let c = payload.challenge(key, 77);
    for i in 0..c.len() {
        let mut t = c.clone();
        t[i] ^= 1;
        assert!(payload.verify(key, 77, &t).is_err(), "byte {} accepted", i);
    }
}

#[test]
fn test_cryptogram() {
    let key = b"secret key";
    let prize = Prize(0, 999, 0, 0, 0);
    let subject = Account::anonymous();
    let cryptogram = prize.encode(key, Some(&subject));
    println!("cryptogram: {}", cryptogram);
    let res = Prize::decode(key, Some(&subject), &cryptogram).unwrap();
    assert_eq!(prize, res);
    assert!(Prize::decode(key, None, &cryptogram).is_err());

    let prize = Prize(u32::MAX, u32::MAX, u16::MAX, u32::MAX, u16::MAX);
    let cryptogram = prize.encode(key, None);
    println!("cryptogram: {}", cryptogram);
    let res = Prize::decode(key, None, &cryptogram).unwrap();
    assert_eq!(prize, res);
    assert!(Prize::decode(key, Some(&subject), &cryptogram).is_err());
    assert!(Prize::decode(&key[1..], None, &cryptogram).is_err());
}

#[test]
fn cryptogram_other_subject_fails() {
    let key = b"prize key";
    let prize = Prize(7, 1234, 60, 5, 2);
    let alice = Account::new(vec![1, 2, 3]);
    let bob = Account::new(vec![4, 5, 6]);
    let c = prize.encode(key, Some(&alice));
    assert!(Prize::decode(key, Some(&alice), &c).is_ok());
    assert!(Prize::decode(key, Some(&bob), &c).is_err());
    assert!(Prize::decode(key, None, &c).is_err());
    let c2 = prize.encode(key, None);
    assert!(Prize::decode(key, None, &c2).is_ok());
    assert!(Prize::decode(key, Some(&alice), &c2).is_err());
}

#[test]
fn test_ed25519_message() {
    let seed: [u8; 32] = Sha3_256::digest(b"secret key").into();
    let sk = ed25519_dalek::SigningKey::from_bytes(&seed);
    let pk = ed25519_dalek::VerifyingKey::from(&sk).to_bytes();
    let state = ChallengeState {
        account: Account::anonymous(),
        id: b"1234567890".to_vec(),
        expire_at: 1000,
    };
    let msg = state.sign_to(&seed);
    println!("message: {}", msg);
    let state2 = ChallengeState::verify_from(&pk, &msg).unwrap();
    assert_eq!(state2.account.bytes, vec![4u8]);
    assert_eq!(state2.id, b"1234567890".to_vec());
    assert_eq!(state2.expire_at, 1000);
}

#[test]
fn ed25519_wrong_key_fails() {
    let seed: [u8; 32] = Sha3_256::digest(b"secret key").into();
    let other: [u8; 32] = Sha3_256::digest(b"another key").into();
    let other_pk = ed25519_dalek::VerifyingKey::from(&ed25519_dalek::SigningKey::from_bytes(
        &other,
    ))
    .to_bytes();
    let state = ChallengeState {
        account: Account::anonymous(),
        id: b"42".to_vec(),
        expire_at: 9,
    };
    let msg = state.sign_to(&seed);
    assert!(ChallengeState::verify_from(&other_pk, &msg).is_err());
}

#[test]
fn bytes32_base64_roundtrip() {
    let mut arr = [0u8; 32];
    for (i, b) in arr.iter_mut().enumerate() {
        *b = i as u8;
    }
    let s = base64::Engine::encode(&base64::engine::general_purpose::URL_SAFE_NO_PAD, arr);
    let r = luckypool::codec::bytes32_from_base64(&s).unwrap();
    assert_eq!(r, arr);
    assert!(luckypool::codec::bytes32_from_base64("abc").is_err());
    assert!(luckypool::codec::bytes32_from_base64(&s[1..]).is_err());
}
