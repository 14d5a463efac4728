use vidbloq_market::error::StreamError;
use vidbloq_market::key::AccountKey;

#[test]
fn unset_key_is_all_zero() {
    assert_eq!(AccountKey::unset().bytes, [0u8; 32]);
    assert!(AccountKey::unset().is_default());
    let mut bytes = [0u8; 32];
    bytes[31] = 1;
    assert!(!AccountKey::new(bytes).is_default());
    assert_eq!(AccountKey::new(bytes).bytes, bytes);
}

#[test]
fn keys_are_equal_byte_by_byte() {
    let mut bytes = [4u8; 32];
    let a = AccountKey::new(bytes);
    assert!(a.equals(&AccountKey::new([4u8; 32])));
    bytes[17] = 5;
    assert!(!a.equals(&AccountKey::new(bytes)));
    assert!(!AccountKey::new(bytes).equals(&a));
}

#[test]
fn key_is_found_on_a_list() {
    let keys = vec![AccountKey::new([1u8; 32]), AccountKey::new([2u8; 32])];
    assert!(AccountKey::new([2u8; 32]).listed_in(&keys));
    assert!(!AccountKey::new([3u8; 32]).listed_in(&keys));
    assert!(!AccountKey::new([1u8; 32]).listed_in(&Vec::new()));
}

#[test]
fn every_error_has_its_text() {
    assert_eq!(StreamError::InvalidAmount.message(), "Amount must be greater than 0");
    assert_eq!(StreamError::MathOverflow.message(), "Math overflow error");
    assert_eq!(StreamError::SlippageExceeded.message(), "Slippage tolerance exceeded");
    assert_eq!(StreamError::AlreadyClaimed.message(), "Already claimed");
    assert_eq!(StreamError::NoWinnings.message(), "No winnings to claim");
    assert_eq!(StreamError::AlreadyVoted.message(), "Already voted");
    assert_eq!(
        StreamError::NameLengthInvalid.message(),
        "Name must be between 4 and 32 characters"
    );
}
