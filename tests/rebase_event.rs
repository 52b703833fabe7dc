use bridge_token::event::{
    EthDetailedRebaseEvent, EthRebasedEvent, RebaseError, RebaseEvent, DETAILED_LOG_LEN,
    REBASED_LOG_LEN,
};
use rand::Rng;

fn sample_rebased() -> EthRebasedEvent {
    EthRebasedEvent {
        rebaser_address: [7u8; 20],
        token: "00112233445566778899aabbccddeeff0a1b2c3d".to_string(),
        epoch: 5,
        total_supply: 1100,
    }
}

fn sample_detailed(adjustment: i128) -> EthDetailedRebaseEvent {
    EthDetailedRebaseEvent {
        rebaser_address: [9u8; 20],
        token: "ffeeddccbbaa99887766554433221100a0b0c0d0".to_string(),
        epoch: 42,
        exchange_rate: 1_000_000,
        consumer_price_index: 109_000,
        requested_adjustment: adjustment,
        timestamp: 1_700_000_000,
    }
}

#[test]
fn test_event_data() {
    let mut rng = rand::thread_rng();
    let event_data = EthRebasedEvent {
        rebaser_address: rng.gen::<[u8; 20]>(),
        token: hex::encode(rng.gen::<[u8; 20]>()),
        epoch: rng.gen::<u128>(),
        total_supply: rng.gen::<u128>(),
    };
    let data = event_data.to_log_entry_data();
    let result = EthRebasedEvent::from_log_entry_data(&data).unwrap();
    assert_eq!(result, event_data);
}

#[test]
fn rebased_log_layout() {
    let e = sample_rebased();
    let data = e.to_log_entry_data();
    assert_eq!(data.len(), REBASED_LOG_LEN);
    assert_eq!(&data[0..20], &[7u8; 20]);
    assert_eq!(data[20], 0x00);
    assert_eq!(data[21], 0x11);
    assert_eq!(data[39], 0x3d);
    assert!(data[40..71].iter().all(|b| *b == 0));
    assert_eq!(data[71], 5);
    assert!(data[72..102].iter().all(|b| *b == 0));
    assert_eq!(data[102], 0x04);
    assert_eq!(data[103], 0x4c);
    assert_eq!(e.indexed_fields(), data[20..72].to_vec());
    assert_eq!(e.data_fields(), data[72..104].to_vec());
}

#[test]
fn rebased_round_trip_extremes() {
    let mut e = sample_rebased();
    e.epoch = u128::MAX;
    e.total_supply = 0;
    let back = EthRebasedEvent::from_log_entry_data(&e.to_log_entry_data()).unwrap();
    assert_eq!(back, e);
}

#[test]
fn decoded_token_is_lower_case_hex() {
    let mut data = sample_rebased().to_log_entry_data();
    for b in data[20..40].iter_mut() {
        *b = 0xab;
    }
    let e = EthRebasedEvent::from_log_entry_data(&data).unwrap();
    assert_eq!(e.token, "ab".repeat(20));
}

#[test]
fn detailed_round_trip_signs() {
    for adj in [0i128, 1, -1, 250, -250, i128::MAX, i128::MIN] {
        let e = sample_detailed(adj);
        let data = e.to_log_entry_data();
        assert_eq!(data.len(), DETAILED_LOG_LEN);
        let back = EthDetailedRebaseEvent::from_log_entry_data(&data).unwrap();
        assert_eq!(back, e);
        let either = RebaseEvent::from_log_entry_data(&data).unwrap();
        assert_eq!(either, RebaseEvent::Detailed(e));
    }
}

#[test]
fn detailed_negative_adjustment_is_twos_complement() {
    let data = sample_detailed(-1).to_log_entry_data();
    assert!(data[136..168].iter().all(|b| *b == 0xff));
    let data = sample_detailed(-256).to_log_entry_data();
    assert!(data[136..166].iter().all(|b| *b == 0xff));
    assert_eq!(data[166], 0xff);
    assert_eq!(data[167], 0x00);
}

#[test]
fn either_schema_by_length() {
    let e = sample_rebased();
    let data = RebaseEvent::Simplified(e.clone()).to_log_entry_data();
    assert_eq!(data, e.to_log_entry_data());
    assert_eq!(
        RebaseEvent::from_log_entry_data(&data),
        Ok(RebaseEvent::Simplified(e))
    );
}

#[test]
fn other_lengths_are_malformed() {
    for len in [0usize, 1, 20, 103, 105, 150, 199, 201, 400] {
        let data = vec![0u8; len];
        assert_eq!(
            RebaseEvent::from_log_entry_data(&data),
            Err(RebaseError::MalformedLog)
        );
    }
    assert_eq!(
        EthRebasedEvent::from_log_entry_data(&vec![0u8; DETAILED_LOG_LEN]),
        Err(RebaseError::MalformedLog)
    );
    assert_eq!(
        EthDetailedRebaseEvent::from_log_entry_data(&vec![0u8; REBASED_LOG_LEN]),
        Err(RebaseError::MalformedLog)
    );
}

#[test]
fn wide_words_are_malformed() {
    let mut data = sample_rebased().to_log_entry_data();
    data[72] = 1;
    assert_eq!(
        EthRebasedEvent::from_log_entry_data(&data),
        Err(RebaseError::MalformedLog)
    );
    let mut data = sample_rebased().to_log_entry_data();
    data[55] = 1;
    assert_eq!(
        RebaseEvent::from_log_entry_data(&data),
        Err(RebaseError::MalformedLog)
    );
    // an adjustment word that is not the sign extension of an i128
    let mut data = sample_detailed(5).to_log_entry_data();
    data[140] = 0x01;
    assert_eq!(
        EthDetailedRebaseEvent::from_log_entry_data(&data),
        Err(RebaseError::MalformedLog)
    );
    let mut data = sample_detailed(-5).to_log_entry_data();
    data[140] = 0x7f;
    assert_eq!(
        EthDetailedRebaseEvent::from_log_entry_data(&data),
        Err(RebaseError::MalformedLog)
    );
}

#[test]
fn upper_case_token_encodes() {
    let mut e = sample_rebased();
    e.token = "00112233445566778899AABBCCDDEEFF0A1B2C3D".to_string();
    let data = e.to_log_entry_data();
    assert_eq!(data, sample_rebased().to_log_entry_data());
    let back = EthRebasedEvent::from_log_entry_data(&data).unwrap();
    assert_eq!(back.token, "00112233445566778899aabbccddeeff0a1b2c3d");
}
