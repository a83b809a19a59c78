use csml_engine::codec::{decode_payload, encode_payload, CodecError, PAYLOAD_MARK};
use csml_engine::keys::{make_hash, make_range, Client};
use csml_engine::retry::{
    backoff_interval, backoff_jitter, retry_action, should_give_up, BackendErrorKind, RetryAction,
    MAX_ELAPSED_TIME_MILLIS, MAX_INTERVAL_LIMIT,
};
use csml_engine::store::{table_name_from_env, ConfigError};
use csml_engine::store::{
    decrypt_messages, flatten_responses, get_date_time, seal_outputs, StoredMessage,
};

#[test]
fn make_range_joins_with_separator() {
    let args = vec!["a".to_owned(), "b".to_owned(), "c".to_owned()];
    assert_eq!(make_range(&args), "a#b#c".to_owned());
}

#[test]
fn make_range_empty_is_empty() {
    assert_eq!(make_range(&Vec::new()), "".to_owned());
}

#[test]
fn make_hash_shape() {
    let client = Client {
        bot_id: "b1".to_owned(),
        channel_id: "c1".to_owned(),
        user_id: "u1".to_owned(),
    };
    assert_eq!(make_hash(&client), "bot_id:b1#channel_id:c1#user_id:u1".to_owned());
}

#[test]
fn backoff_interval_values() {
    assert_eq!(backoff_interval(1), 1000);
    assert_eq!(backoff_interval(2), 2000);
    assert_eq!(backoff_interval(59), 59000);
    assert_eq!(backoff_interval(60), MAX_INTERVAL_LIMIT);
    assert_eq!(backoff_interval(1000), MAX_INTERVAL_LIMIT);
}

#[test]
fn backoff_interval_is_capped() {
    for attempt in 1..200u64 {
        assert!(backoff_interval(attempt) <= MAX_INTERVAL_LIMIT);
    }
}

#[test]
fn backoff_jitter_below_interval() {
    for attempt in 1..80u64 {
        let interval = backoff_interval(attempt);
        let jitter = backoff_jitter(attempt);
        assert!(jitter < interval);
        assert!(jitter < MAX_INTERVAL_LIMIT);
    }
}

#[test]
fn retry_dispatch() {
    // A capacity error backs off below the capped interval; anything else
    // propagates at once.
    for attempt in 1..10u64 {
        match retry_action(&BackendErrorKind::CapacityExceeded, attempt) {
            RetryAction::SleepAndCheck { sleep_ms } => {
                assert!(sleep_ms < backoff_interval(attempt));
            },
            RetryAction::Propagate => panic!("a capacity error must be retried"),
        }
    }
    assert!(matches!(
        retry_action(&BackendErrorKind::Other, 1),
        RetryAction::Propagate
    ));
}

#[test]
fn table_name_config() {
    assert_eq!(table_name_from_env(Some("conversations".to_owned())).unwrap(), "conversations");
    assert_eq!(table_name_from_env(None).unwrap_err(), ConfigError::MissingTableName);
}

#[test]
fn give_up_exactly_at_ceiling() {
    assert!(!should_give_up(0));
    assert!(!should_give_up(MAX_ELAPSED_TIME_MILLIS - 1));
    assert!(should_give_up(MAX_ELAPSED_TIME_MILLIS));
    assert!(should_give_up(MAX_ELAPSED_TIME_MILLIS + 1));
}

#[test]
fn payload_round_trip() {
    let payload = b"{\"content\":{\"text\":\"4\"}}".to_vec();
    let sealed = encode_payload(&payload);
    assert_ne!(sealed, payload, "the sealed form must differ from the plain form");
    assert_eq!(decode_payload(&sealed).unwrap(), payload);
    // Re-sealing the opened payload yields the stored bytes back.
    let reopened = decode_payload(&sealed).unwrap();
    assert_eq!(encode_payload(&reopened), sealed);
}

#[test]
fn decode_empty_payload_fails() {
    assert_eq!(decode_payload(&Vec::new()).unwrap_err(), CodecError::BadHeader);
}

#[test]
fn decode_without_marker_fails() {
    let mut bad = encode_payload(&b"x".to_vec());
    bad[0] = PAYLOAD_MARK.wrapping_add(1);
    assert_eq!(decode_payload(&bad).unwrap_err(), CodecError::BadHeader);
}

fn sample_client() -> Client {
    Client {
        bot_id: "b".to_owned(),
        channel_id: "c".to_owned(),
        user_id: "u".to_owned(),
    }
}

#[test]
fn batch_get_no_items_is_empty_not_error() {
    // An absent answer yields an empty list.
    let flat = flatten_responses(None);
    assert!(flat.is_empty());
    let decoded = decrypt_messages(&flat).unwrap();
    assert!(decoded.is_empty());
    // So does an answer holding no item sets.
    let flat2 = flatten_responses(Some(Vec::new()));
    assert!(flat2.is_empty());
    assert!(decrypt_messages(&flat2).unwrap().is_empty());
}

#[test]
fn seal_then_decode_round_trips() {
    let payloads = vec![b"one".to_vec(), b"two".to_vec(), b"three".to_vec()];
    let stored = seal_outputs(
        &payloads,
        &sample_client(),
        &"conv".to_owned(),
        &"flow".to_owned(),
        &"start".to_owned(),
        &"SEND".to_owned(),
        &"2020-03-12T12:33:42.123Z".to_owned(),
        10,
        40,
    );
    assert_eq!(stored.len(), 3);
    for (i, m) in stored.iter().enumerate() {
        assert_eq!(m.message_order as usize, 10 + i);
        assert_eq!(m.interaction_order as usize, 40 + i);
        assert_ne!(m.payload, payloads[i]);
    }
    // Orders are strictly increasing.
    assert!(stored[0].message_order < stored[1].message_order);
    assert!(stored[1].message_order < stored[2].message_order);
    let answer: Option<Vec<Vec<StoredMessage>>> = Some(vec![stored]);
    let decoded = decrypt_messages(&flatten_responses(answer)).unwrap();
    assert_eq!(decoded.len(), 3);
    for (i, d) in decoded.iter().enumerate() {
        assert_eq!(d.payload, payloads[i]);
        assert_eq!(d.step_id, "start".to_owned());
        assert_eq!(d.created_at, "2020-03-12T12:33:42.123Z".to_owned());
    }
}

#[test]
fn get_date_time_shape() {
    let s = get_date_time();
    let b = s.as_bytes();
    assert_eq!(b.len(), 24);
    assert_eq!(b[4], b'-');
    assert_eq!(b[7], b'-');
    assert_eq!(b[10], b'T');
    assert_eq!(b[13], b':');
    assert_eq!(b[16], b':');
    assert_eq!(b[19], b'.');
    assert_eq!(b[23], b'Z');
}
