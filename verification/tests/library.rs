use keen_cache::client::{Filter, Interval, KeenCacheClient, Metric, TimeFrame};
use keen_cache::envelope::{CacheCommand, FetchOutcome, KeenCacheResult};
use keen_cache::errors::{KeenError, NativeError};
use keen_cache::payload::{DayItems, DayScalar, Field, FieldValue, Item, Payload};
use keen_cache::ResultType;

fn item(fields: Vec<(&[u8], FieldValue)>) -> Item {
    Item {
        fields: fields
            .into_iter()
            .map(|(n, v)| Field { name: n.to_vec(), value: v })
            .collect(),
    }
}

fn int_item(name: &[u8], value: i64) -> Item {
    item(vec![(name, FieldValue::Int(value))])
}

#[test]
fn encode_scalar_exact() {
    let env = KeenCacheResult::from_payload(Payload::Scalar(6));
    assert_eq!(env.to_json(), b"{\"result\":6}".to_vec());
}

#[test]
fn encode_negative_scalar_exact() {
    let env = KeenCacheResult::from_payload(Payload::Scalar(-42));
    assert_eq!(env.to_json(), b"{\"result\":-42}".to_vec());
}

#[test]
fn encode_empty_items_exact() {
    let env = KeenCacheResult::from_payload(Payload::Items(vec![]));
    assert_eq!(env.to_json(), b"{\"result\":[]}".to_vec());
}

#[test]
fn encode_days_scalar_exact() {
    let env = KeenCacheResult::from_payload(Payload::DaysScalar(vec![DayScalar {
        day: b"2016-01-01".to_vec(),
        value: 3,
    }]));
    assert_eq!(
        env.to_json(),
        b"{\"result\":[{\"day\":\"2016-01-01\",\"value\":3}]}".to_vec()
    );
}

fn roundtrip(p: Payload, shape: ResultType) {
    let env = KeenCacheResult::from_payload(p);
    let expected = env.payload().clone();
    let bytes = env.to_json();
    let back = KeenCacheResult::from_redis(FetchOutcome::Value(bytes), shape)
        .expect("canonical body must decode");
    assert_eq!(back.payload(), &expected);
    assert_eq!(back.tag().code(), shape.code());
}

#[test]
fn roundtrip_scalar() {
    roundtrip(Payload::Scalar(12345), ResultType::POD);
    roundtrip(Payload::Scalar(0), ResultType::POD);
    roundtrip(Payload::Scalar(i64::MIN), ResultType::POD);
    roundtrip(Payload::Scalar(i64::MAX), ResultType::POD);
}

#[test]
fn roundtrip_items() {
    roundtrip(
        Payload::Items(vec![
            item(vec![
                (b"country", FieldValue::Str(b"fr".to_vec())),
                (b"result", FieldValue::Int(7)),
            ]),
            item(vec![]),
            int_item(b"x", -1),
        ]),
        ResultType::ITEMS,
    );
}

#[test]
fn roundtrip_days_scalar() {
    roundtrip(
        Payload::DaysScalar(vec![
            DayScalar { day: b"2016-01-01".to_vec(), value: 5 },
            DayScalar { day: b"2016-01-02".to_vec(), value: -2 },
        ]),
        ResultType::DAYSPOD,
    );
}

#[test]
fn roundtrip_days_items() {
    roundtrip(
        Payload::DaysItems(vec![
            DayItems { day: b"2016-01-01".to_vec(), items: vec![int_item(b"a", 1)] },
            DayItems { day: b"2016-01-02".to_vec(), items: vec![] },
        ]),
        ResultType::DAYSITEMS,
    );
}

#[test]
fn cache_roundtrip_via_plan() {
    let mut env = KeenCacheResult::from_payload(Payload::Items(vec![
        int_item(b"a", 1),
        int_item(b"b", 2),
    ]));
    let expected = env.payload().clone();
    env.attach_store(b"redis://127.0.0.1/");
    let plan = env.to_redis(b"some-key", 30);
    assert_eq!(plan.len(), 2);
    let stored = match &plan[0] {
        CacheCommand::Put { key, value } => {
            assert_eq!(key, &b"some-key".to_vec());
            value.clone()
        }
        other => panic!("first command must be the Put, got {:?}", other),
    };
    let back = KeenCacheResult::from_redis(FetchOutcome::Value(stored), ResultType::ITEMS)
        .expect("stored value must decode");
    assert_eq!(back.payload(), &expected);
}

#[test]
fn unconfigured_store_write_is_noop() {
    let env = KeenCacheResult::from_payload(Payload::Scalar(1));
    let plan = env.to_redis(b"key", 300);
    assert!(plan.is_empty());
}

#[test]
fn missing_key_is_cache_miss() {
    let r = KeenCacheResult::from_redis(FetchOutcome::Missing, ResultType::POD);
    assert_eq!(r.unwrap_err(), NativeError::CacheMiss);
}

#[test]
fn unreachable_store_read_errors() {
    let r = KeenCacheResult::from_redis(FetchOutcome::ConnectFailed, ResultType::POD);
    assert_eq!(r.unwrap_err(), NativeError::ConnectionError);
    let r = KeenCacheResult::from_redis(FetchOutcome::GetFailed, ResultType::POD);
    assert_eq!(r.unwrap_err(), NativeError::CacheReadError);
}

#[test]
fn undecodable_cache_value_errors() {
    let r = KeenCacheResult::from_redis(
        FetchOutcome::Value(b"{\"result\": 6}".to_vec()),
        ResultType::POD,
    );
    assert_eq!(r.unwrap_err(), NativeError::DecodeError);
    let r = KeenCacheResult::from_redis(
        FetchOutcome::Value(b"{\"result\":06}".to_vec()),
        ResultType::POD,
    );
    assert_eq!(r.unwrap_err(), NativeError::DecodeError);
}

#[test]
fn accumulate_items_sums_to_scalar() {
    let env = KeenCacheResult::from_payload(Payload::Items(vec![
        int_item(b"a", 1),
        int_item(b"b", 2),
        int_item(b"c", 3),
    ]));
    let acc = env.accumulate();
    assert_eq!(acc.payload(), &Payload::Scalar(6));
    assert_eq!(acc.to_json(), b"{\"result\":6}".to_vec());
    assert_eq!(acc.tag().code(), 0);
}

#[test]
fn accumulate_days_scalar_sums() {
    let env = KeenCacheResult::from_payload(Payload::DaysScalar(vec![
        DayScalar { day: b"d1".to_vec(), value: 10 },
        DayScalar { day: b"d2".to_vec(), value: -4 },
    ]));
    assert_eq!(env.accumulate().payload(), &Payload::Scalar(6));
}

#[test]
fn accumulate_days_items_concatenates() {
    let env = KeenCacheResult::from_payload(Payload::DaysItems(vec![
        DayItems { day: b"d1".to_vec(), items: vec![int_item(b"a", 1)] },
        DayItems { day: b"d2".to_vec(), items: vec![int_item(b"b", 2), int_item(b"c", 3)] },
    ]));
    let acc = env.accumulate();
    assert_eq!(
        acc.payload(),
        &Payload::Items(vec![int_item(b"a", 1), int_item(b"b", 2), int_item(b"c", 3)])
    );
    assert_eq!(acc.tag().code(), 1);
}

#[test]
fn accumulate_wraps_on_overflow() {
    let env = KeenCacheResult::from_payload(Payload::Items(vec![
        int_item(b"a", i64::MAX),
        int_item(b"b", 1),
    ]));
    assert_eq!(env.accumulate().payload(), &Payload::Scalar(i64::MIN));
}

#[test]
fn select_picks_matching_entry() {
    let env = KeenCacheResult::from_payload(Payload::Items(vec![
        item(vec![
            (b"key", FieldValue::Str(b"x".to_vec())),
            (b"value", FieldValue::Int(5)),
        ]),
        item(vec![
            (b"key", FieldValue::Str(b"y".to_vec())),
            (b"value", FieldValue::Int(9)),
        ]),
    ]));
    let sel = env
        .select(b"key", &FieldValue::Str(b"y".to_vec()))
        .expect("a matching entry exists");
    assert_eq!(sel.payload(), &Payload::Scalar(9));
}

#[test]
fn select_without_match_errors() {
    let env = KeenCacheResult::from_payload(Payload::Items(vec![
        item(vec![
            (b"key", FieldValue::Str(b"x".to_vec())),
            (b"value", FieldValue::Int(5)),
        ]),
    ]));
    let r = env.select(b"key", &FieldValue::Str(b"z".to_vec()));
    assert_eq!(r.unwrap_err(), NativeError::SelectionError);
}

#[test]
fn select_days_items_keeps_days() {
    let day = |d: &[u8], n: i64| DayItems {
        day: d.to_vec(),
        items: vec![
            item(vec![
                (b"key", FieldValue::Str(b"y".to_vec())),
                (b"value", FieldValue::Int(n)),
            ]),
            int_item(b"noise", 100),
        ],
    };
    let env = KeenCacheResult::from_payload(Payload::DaysItems(vec![
        day(b"d1", 4),
        day(b"d2", 7),
    ]));
    let sel = env
        .select(b"key", &FieldValue::Str(b"y".to_vec()))
        .expect("every day has a match");
    assert_eq!(
        sel.payload(),
        &Payload::DaysScalar(vec![
            DayScalar { day: b"d1".to_vec(), value: 4 },
            DayScalar { day: b"d2".to_vec(), value: 7 },
        ])
    );
    assert_eq!(sel.tag().code(), 2);
}

#[test]
fn select_on_scalar_errors() {
    let env = KeenCacheResult::from_payload(Payload::Scalar(3));
    let r = env.select(b"key", &FieldValue::Int(3));
    assert_eq!(r.unwrap_err(), NativeError::SelectionError);
}

#[test]
fn expire_zero_still_sets_before_expire() {
    let mut env = KeenCacheResult::from_payload(Payload::Scalar(1));
    env.attach_store(b"redis://127.0.0.1/");
    let plan = env.to_redis(b"k", 0);
    assert_eq!(plan.len(), 2);
    assert!(matches!(plan[0], CacheCommand::Put { .. }));
    match &plan[1] {
        CacheCommand::Expire { key, seconds } => {
            assert_eq!(key, &b"k".to_vec());
            assert_eq!(*seconds, 0);
        }
        other => panic!("second command must be the Expire, got {:?}", other),
    }
}

fn sample_query(client: &KeenCacheClient) -> keen_cache::client::KeenCacheQuery {
    client.query(
        Metric(String::from("count")),
        String::from("pageviews"),
        TimeFrame(String::from("this_7_days")),
    )
}

#[test]
fn data_success_decodes_and_carries_store() {
    let mut client = KeenCacheClient::new("key1", "project1");
    client.set_redis(b"redis://127.0.0.1/", true).unwrap();
    let q = sample_query(&client);
    let env = q
        .data(200, b"{\"result\":[{\"a\":1}]}", ResultType::ITEMS)
        .expect("valid body must decode");
    assert_eq!(env.payload(), &Payload::Items(vec![int_item(b"a", 1)]));
    assert_eq!(env.tag().code(), 1);
    let plan = env.to_redis(b"k", 60);
    assert_eq!(plan.len(), 2);
}

#[test]
fn data_bad_body_errors() {
    let client = KeenCacheClient::new("k", "p");
    let q = sample_query(&client);
    let r = q.data(200, b"oops", ResultType::POD);
    assert_eq!(r.unwrap_err(), NativeError::DecodeError);
}

#[test]
fn service_error_carries_decoded_body() {
    let client = KeenCacheClient::new("k", "p");
    let q = sample_query(&client);
    let r = q.data(
        401,
        b"{\"message\":\"bad key\",\"error_code\":\"AuthError\"}",
        ResultType::POD,
    );
    assert_eq!(
        r.unwrap_err(),
        NativeError::ServiceError(KeenError {
            message: b"bad key".to_vec(),
            error_code: b"AuthError".to_vec(),
        })
    );
}

#[test]
fn service_error_undecodable_body() {
    let client = KeenCacheClient::new("k", "p");
    let q = sample_query(&client);
    let r = q.data(500, b"gateway fell over", ResultType::POD);
    assert_eq!(r.unwrap_err(), NativeError::DecodeError);
}

#[test]
fn set_redis_failure_keeps_old_store() {
    let mut client = KeenCacheClient::new("k", "p");
    let r = client.set_redis(b"redis://nowhere/", false);
    assert_eq!(r.unwrap_err(), NativeError::ConnectionError);
    let q = sample_query(&client);
    assert!(q.redis.is_none());
    let env = q.data(200, b"{\"result\":1}", ResultType::POD).unwrap();
    assert!(env.to_redis(b"k", 1).is_empty());
}

#[test]
fn query_builder_accumulates_settings() {
    let mut client = KeenCacheClient::new("k", "p");
    client.set_timeout(30_000);
    let mut q = sample_query(&client);
    q.group_by("country");
    q.group_by("city");
    q.filter(Filter(String::from("country == \"fr\"")));
    q.interval(Interval(String::from("daily")));
    q.max_age(300);
    assert_eq!(q.group_by, vec![String::from("country"), String::from("city")]);
    assert_eq!(q.filters.len(), 1);
    assert_eq!(q.interval, Some(Interval(String::from("daily"))));
    assert_eq!(q.max_age, Some(300));
    assert_eq!(q.timeout_ms, Some(30_000));
}

#[test]
fn tag_codes_cover_all_shapes() {
    assert_eq!(ResultType::POD.code(), 0);
    assert_eq!(ResultType::ITEMS.code(), 1);
    assert_eq!(ResultType::DAYSPOD.code(), 2);
    assert_eq!(ResultType::DAYSITEMS.code(), 3);
}

#[test]
fn tt_keeps_tag_in_step_with_payload() {
    let mut env = KeenCacheResult::from_payload(Payload::Items(vec![]));
    env.tt();
    assert_eq!(env.tag().code(), 1);
}

#[test]
fn encoded_body_is_real_json() {
    let env = KeenCacheResult::from_payload(Payload::Items(vec![
        item(vec![
            (b"country", FieldValue::Str(b"fr".to_vec())),
            (b"result", FieldValue::Int(7)),
        ]),
    ]));
    let v: serde_json::Value = serde_json::from_slice(&env.to_json()).expect("valid JSON");
    assert_eq!(v["result"][0]["country"], serde_json::Value::String(String::from("fr")));
    assert_eq!(v["result"][0]["result"], serde_json::Value::from(7));
}

#[test]
fn wrong_shape_does_not_decode() {
    let bytes = KeenCacheResult::from_payload(Payload::Scalar(6)).to_json();
    let r = KeenCacheResult::from_redis(FetchOutcome::Value(bytes), ResultType::ITEMS);
    assert_eq!(r.unwrap_err(), NativeError::DecodeError);
}
