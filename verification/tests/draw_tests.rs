use luckypool::draw::{luckydraw_amount, LUCKYDRAW_DIVISOR};
use luckypool::TOKEN_1;

#[test]
fn test_luckydraw_amount() {
    assert_eq!(LUCKYDRAW_DIVISOR, 344693032001);

    let rt = luckydraw_amount(vec![0u8; 8].as_slice());
    assert_eq!(rt.0, 0);
    assert_eq!(rt.1, 100000 * TOKEN_1);

    let rt = luckydraw_amount(vec![0, 0, 0, 0, 29, 205, 101, 0].as_slice());
    assert_eq!(rt.0, TOKEN_1 * 5);
    assert_eq!(rt.1, 100000 * TOKEN_1);

    let rt = luckydraw_amount(vec![0, 0, 0, 2, 84, 11, 228, 0].as_slice());
    assert_eq!(rt.0, TOKEN_1 * 100);
    assert_eq!(rt.1, 1000 * TOKEN_1);

    let rt = luckydraw_amount(vec![0, 0, 0, 23, 72, 118, 232, 0].as_slice());
    assert_eq!(rt.0, TOKEN_1 * 1000);
    assert_eq!(rt.1, 1000 * TOKEN_1);

    let rt = luckydraw_amount(vec![0, 0, 0, 46, 144, 237, 208, 0].as_slice());
    assert_eq!(rt.0, TOKEN_1 * 2000);
    assert_eq!(rt.1, 2000 * TOKEN_1);

    let rt = luckydraw_amount(vec![0, 0, 0, 80, 59, 194, 182, 0].as_slice());
    assert_eq!(rt.0, TOKEN_1 * 3446);
    assert_eq!(rt.1, 3446 * TOKEN_1);

    let rt = luckydraw_amount(vec![0, 0, 0, 80, 65, 184, 151, 0].as_slice());
    assert_eq!(rt.0, TOKEN_1 * 3447u64 - LUCKYDRAW_DIVISOR);
    assert_eq!(rt.1, 100000 * TOKEN_1);
}

#[test]
fn luckydraw_amount_ignores_trailing_bytes() {
    let mut long = vec![0, 0, 0, 2, 84, 11, 228, 0];
    long.extend_from_slice(&[255u8; 24]);
    let rt = luckydraw_amount(long.as_slice());
    assert_eq!(rt.0, TOKEN_1 * 100);
    assert_eq!(rt.1, 1000 * TOKEN_1);
}
