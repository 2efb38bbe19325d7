use sync_engine::errors::{ErrorStatus, SyncError};
use sync_engine::generator::SortableIdGenerator;
use sync_engine::id128::Id128;
use sync_engine::parse::parse_u16;

#[test]
fn test_monotonicity() {
    for shard in 0..10 {
        let mut gen = SortableIdGenerator::new(shard);
        let mut prev = gen.gen();
        for _ in 0..10_000 {
            let id = gen.gen();
            assert!(prev < id);
            prev = id;
        }
    }
}

#[test]
fn test_to_base62() {
    assert_eq!(Id128::new([0u8; 16]).to_base62(), "0000000000000000000000");
    assert_eq!(
        Id128::new([
            0u8, 0u8, 0u8, 0u8, 0u8, 0u8, 0u8, 0u8, 0u8, 0u8, 0u8, 0u8, 0u8, 0u8, 0u8, 1u8
        ])
        .to_base62(),
        "0000000000000000000001"
    );
    assert_eq!(
        Id128::new([
            0u8, 0u8, 0u8, 0u8, 0u8, 0u8, 0u8, 0u8, 0u8, 0u8, 0u8, 0u8, 0u8, 0u8, 0u8, 61u8
        ])
        .to_base62(),
        "000000000000000000000z"
    );
    assert_eq!(
        Id128::new([
            0u8, 0u8, 0u8, 0u8, 0u8, 0u8, 0u8, 0u8, 0u8, 0u8, 0u8, 0u8, 0u8, 0u8, 0u8, 62u8
        ])
        .to_base62(),
        "0000000000000000000010"
    );
}

#[test]
fn test_to_base62_shape() {
    let mut gen = SortableIdGenerator::new(7);
    for _ in 0..200 {
        let s = gen.gen().to_base62();
        assert_eq!(s.len(), 22);
        assert!(s.chars().all(|c| c.is_ascii_alphanumeric()));
    }
}

#[test]
fn test_to_base62_order_matches_id_order() {
    let mut gen = SortableIdGenerator::new(3);
    let mut prev = gen.gen();
    for _ in 0..1000 {
        let id = gen.gen();
        assert!(prev.to_base62() < id.to_base62());
        prev = id;
    }
}

#[test]
fn test_parse_u16_accepts() {
    assert_eq!(parse_u16("0".to_string()), Some(0));
    assert_eq!(parse_u16("8080".to_string()), Some(8080));
    assert_eq!(parse_u16("+80".to_string()), Some(80));
    assert_eq!(parse_u16("0000065535".to_string()), Some(65535));
    assert_eq!(parse_u16("65535".to_string()), Some(65535));
}

#[test]
fn test_parse_u16_rejects() {
    assert_eq!(parse_u16("".to_string()), None);
    assert_eq!(parse_u16("+".to_string()), None);
    assert_eq!(parse_u16("65536".to_string()), None);
    assert_eq!(parse_u16("999999999999999999".to_string()), None);
    assert_eq!(parse_u16("12a".to_string()), None);
    assert_eq!(parse_u16("-1".to_string()), None);
    assert_eq!(parse_u16(" 1".to_string()), None);
}

#[test]
fn test_error_status_labels() {
    assert_eq!(ErrorStatus::Status400.label(), "Status400");
    assert_eq!(ErrorStatus::Status500.label(), "Status500");
    assert_eq!(ErrorStatus::from_sync(&SyncError::NotFound), ErrorStatus::Status500);
    assert_eq!(ErrorStatus::from_sync(&SyncError::AlreadyExists), ErrorStatus::Status500);
    assert_eq!(ErrorStatus::from_sync(&SyncError::SeqExhausted), ErrorStatus::Status500);
    assert_eq!(ErrorStatus::from_sync(&SyncError::InvalidLimit), ErrorStatus::Status500);
}
