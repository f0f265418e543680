//! The query, mutation and subscription surface, including API keys.

use homeapi::api::{Mutation, Node, Query, Subscription};
use homeapi::auth::{AuthMethod, AuthUser, Claims, check_api_key_format,
    record_api_key_use, sha256_hex, verify_api_key};
use homeapi::errors::DataError;
use homeapi::pubsub::PubSub;
use homeapi::records::{Device, ElectricityInput, PlaceConditionInput, electricity};
use homeapi::store::Table;
use homeapi::times::sk_time;

fn s(x: &str) -> String {
    String::from(x)
}

fn e_input(device: &str, ts: &str, w: Option<u32>) -> ElectricityInput {
    ElectricityInput {
        device: s(device),
        timestamp: s(ts),
        place: None,
        cumulative_kwh_p: None,
        cumulative_kwh_n: None,
        current_w: w,
    }
}

#[test]
fn error_kinds_have_stable_names() {
    assert_eq!(DataError::NotFound.kind_name(), "NotFound");
    assert_eq!(DataError::ConditionFailed.kind_name(), "ConditionFailed");
    assert_eq!(DataError::DecodeError.kind_name(), "DecodeError");
    assert_eq!(DataError::TransportError.kind_name(), "TransportError");
    assert_eq!(DataError::Unauthorized.kind_name(), "Unauthorized");
    assert_eq!(DataError::ValidationError.kind_name(), "ValidationError");
}

#[test]
fn auth_user_constructors() {
    let claims = Claims {
        sub: s("sub1"),
        email: s("a@example.com"),
        name: s("A"),
        exp: 1000,
        aud: None,
        iss: None,
    };
    let u = AuthUser::from_claims(claims);
    assert_eq!(u.email, "a@example.com");
    assert!(matches!(u.method, AuthMethod::GoogleOAuth(_)));

    let u2 = AuthUser::from_api_key(s("b@example.com"), s("hash"));
    assert_eq!(u2.email, "b@example.com");
    match u2.method {
        AuthMethod::ApiKey { email, key_id } => {
            assert_eq!(email, "b@example.com");
            assert_eq!(key_id, "hash");
        },
        _ => panic!("wrong method"),
    }
}

#[test]
fn api_key_format_is_bit_exact() {
    assert!(check_api_key_format("ha_0123456789abcdef0123456789abcdef"));
    assert!(!check_api_key_format("ha_0123456789abcdef0123456789abcde"));
    assert!(!check_api_key_format("hb_0123456789abcdef0123456789abcdef"));
    assert!(!check_api_key_format("0123456789abcdef0123456789abcdefghi"));
}

#[test]
fn sha256_is_not_the_identity() {
    let h = sha256_hex("ha_0123456789abcdef0123456789abcdef");
    assert_eq!(h.len(), 64);
    assert_ne!(h, "ha_0123456789abcdef0123456789abcdef");
    // the digest of the empty string, a published constant
    assert_eq!(sha256_hex(""),
        "e3b0c44298fc1c149afbf4c8996fb92427ae41e4649b934ca495991b7852b855");
}

#[test]
fn create_verify_and_delete_api_key() {
    let mut t = Table::new();
    let m = Mutation;
    let created = m.create_api_key(&mut t, "a@example.com", s("laptop"), None).unwrap();
    assert_eq!(created.key.len(), 35);
    assert!(created.key.starts_with("ha_"));
    // the published shape is exact: 32 lowercase hex digits after "ha_"
    assert!(created.key[3..].chars().all(|c| c.is_ascii_digit() || ('a'..='f').contains(&c)));
    assert_eq!(created.api_key_record.user_email, "a@example.com");

    let u = verify_api_key(&t, &created.key).unwrap();
    assert_eq!(u.email, "a@example.com");

    let wrong_key = "ha_00000000000000000000000000000000";
    assert!(verify_api_key(&t, wrong_key).is_err());
    assert!(verify_api_key(&t, "not-a-key").is_err());

    // only the owner may delete
    let id = created.api_key_record.id();
    assert_eq!(m.delete_api_key(&mut t, "intruder@example.com", &id).unwrap_err(),
        DataError::Unauthorized);
    assert!(verify_api_key(&t, &created.key).is_ok());
    assert!(m.delete_api_key(&mut t, "a@example.com", &id).unwrap());
    assert_eq!(verify_api_key(&t, &created.key).unwrap_err(), DataError::NotFound);
}

#[test]
fn expired_api_key_is_rejected() {
    let mut t = Table::new();
    let m = Mutation;
    let created = m.create_api_key(&mut t, "a@example.com", s("old"), Some(s(
        "2000-01-01T00:00:00Z",
    ))).unwrap();
    assert_eq!(verify_api_key(&t, &created.key).unwrap_err(), DataError::Unauthorized);
}

#[test]
fn api_key_use_is_recorded_in_the_background_write() {
    let mut t = Table::new();
    let m = Mutation;
    let created = m.create_api_key(&mut t, "a@example.com", s("k"), None).unwrap();
    assert_eq!(created.api_key_record.last_used_at, None);
    record_api_key_use(&mut t, created.api_key_record.key_hash.as_str(), s(
        "2023-06-01T00:00:00Z",
    ));
    let item = t.get(created.api_key_record.key_hash.as_str(), "APIKEY").unwrap();
    let k = homeapi::records::ApiKey::decode(item).unwrap();
    assert_eq!(k.last_used_at, Some(s("2023-06-01T00:00:00Z")));
    // the fire-and-forget write swallows a miss
    let before = t.len();
    record_api_key_use(&mut t, "nope", s("2023-06-01T00:00:00Z"));
    assert_eq!(t.len(), before);
}

#[test]
fn expiry_is_stored_normalized_to_utc() {
    let mut t = Table::new();
    let m = Mutation;
    let created = m.create_api_key(&mut t, "a@example.com", s("trip"), Some(s(
        "2100-01-01T05:00:00+05:00",
    ))).unwrap();
    assert_eq!(created.api_key_record.expires_at, Some(s("2100-01-01T00:00:00Z")));
    let item = t.get(created.api_key_record.key_hash.as_str(), "APIKEY").unwrap();
    let stored = homeapi::records::ApiKey::decode(item).unwrap();
    assert_eq!(stored.expires_at, Some(s("2100-01-01T00:00:00Z")));
}

#[test]
fn create_api_key_rejects_bad_expiry() {
    let mut t = Table::new();
    let m = Mutation;
    let err = m.create_api_key(&mut t, "a@example.com", s("x"), Some(s("tomorrow"))).unwrap_err();
    assert_eq!(err, DataError::ValidationError);
    assert_eq!(t.len(), 0);
}

#[test]
fn node_lookup_by_global_id() {
    let mut t = Table::new();
    let q = Query;
    let d = Device { pk: s("DEVICE"), id: s("dev1"), place: s("kitchen") };
    t.put(d.encode());
    let id = d.id();
    match q.node(&t, &id).unwrap() {
        Node::Device(found) => {
            assert_eq!(found.id, "dev1");
            assert_eq!(found.place, "kitchen");
        },
        _ => panic!("wrong node type"),
    }
    assert_eq!(q.node(&t, "garbage").unwrap_err(), DataError::DecodeError);
}

#[test]
fn put_and_update_electricity() {
    let mut t = Table::new();
    let mut ps = PubSub::new();
    let m = Mutation;
    let written = m.put_electricity(&mut t, &mut ps, e_input("dev1", "2023-01-01T00:00:00Z",
        Some(100)));
    assert_eq!(written.current_w, Some(100));
    assert_eq!(ps.electricity_sender.log.len(), 1);

    // the update overwrites one attribute and keeps the others
    let updated = m.update_electricity(&mut t, &mut ps, e_input("dev1", "2023-01-01T00:00:00Z",
        Some(250))).unwrap();
    assert_eq!(updated.current_w, Some(250));
    assert_eq!(ps.electricity_sender.log.len(), 2);

    // updating a reading that was never written must not create it
    let err = m.update_electricity(&mut t, &mut ps, e_input("dev1", "2024-01-01T00:00:00Z",
        None)).unwrap_err();
    assert_eq!(err, DataError::ConditionFailed);
    assert_eq!(ps.electricity_sender.log.len(), 2);
    assert!(t.get("dev1", "TS#2024-01-01T00:00:00Z").is_err());
}

#[test]
fn range_query_by_timestamp() {
    let mut t = Table::new();
    let mut ps = PubSub::new();
    let m = Mutation;
    let q = Query;
    for ts in ["2023-01-01T00:00:00Z", "2023-01-02T00:00:00Z", "2023-01-03T00:00:00Z"] {
        m.put_electricity(&mut t, &mut ps, e_input("dev1", ts, None));
    }
    // between is inclusive after the one-second inward shifts
    let (es, pg) = q.electricity(&t, "dev1", Some("2023-01-01T00:00:00Z"), Some(
        "2023-01-03T00:00:00Z",
    ), Some(10), None).unwrap();
    assert_eq!(es.len(), 1);
    assert_eq!(es[0].timestamp, "2023-01-02T00:00:00Z");
    assert!(!pg.has_next_page);

    let (all, _) = q.electricity(&t, "dev1", None, None, Some(10), None).unwrap();
    assert_eq!(all.len(), 3);

    let err = q.electricity(&t, "dev1", Some("not-a-time"), None, Some(10), None).unwrap_err();
    assert_eq!(err, DataError::ValidationError);
}

#[test]
fn sk_time_sentinels_exact() {
    assert_eq!(sk_time("TS#", None, true).unwrap(), "TS#0001-01-01T00:00:00Z");
    assert_eq!(sk_time("TS#", None, false).unwrap(), "TS#9999-12-31T23:59:59Z");
    assert_eq!(sk_time("TS#", Some("2023-01-01T00:00:00Z"), true).unwrap(),
        "TS#2023-01-01T00:00:01Z");
    assert_eq!(sk_time("FIN#TS#", Some("2023-01-01T00:00:00Z"), false).unwrap(),
        "FIN#TS#2022-12-31T23:59:59Z");
    assert_eq!(sk_time("TS#", Some("yesterday"), true).unwrap_err(), DataError::ValidationError);
}

#[test]
fn devices_and_api_keys_queries() {
    let mut t = Table::new();
    let q = Query;
    let m = Mutation;
    for i in 0..3 {
        let d = Device { pk: s("DEVICE"), id: format!("dev{i}"), place: s("home") };
        t.put(d.encode());
    }
    let (ds, pg) = q.devices(&t, None, None, Some(2), None).unwrap();
    assert_eq!(ds.len(), 2);
    assert_eq!(ds[0].id, "dev0");
    assert!(pg.has_next_page);

    let c1 = m.create_api_key(&mut t, "a@example.com", s("one"), None).unwrap();
    let _c2 = m.create_api_key(&mut t, "b@example.com", s("two"), None).unwrap();
    let me = AuthUser::from_api_key(s("a@example.com"), s(
        c1.api_key_record.key_hash.as_str(),
    ));
    let keys = q.api_keys(&t, &me).unwrap();
    assert_eq!(keys.len(), 1);
    assert_eq!(keys[0].name, "one");
}

#[test]
fn subscription_filters_by_device() {
    let mut t = Table::new();
    let mut ps = PubSub::new();
    let m = Mutation;
    let sub_api = Subscription;
    let mut sub = sub_api.electricity_updated(&ps, Some(s("dev2")));
    m.put_electricity(&mut t, &mut ps, e_input("dev1", "2023-01-01T00:00:00Z", None));
    m.put_electricity(&mut t, &mut ps, e_input("dev2", "2023-01-01T00:00:01Z", None));
    let got = ps.electricity_sender.poll(&mut sub).unwrap();
    assert_eq!(got.device, "dev2");
    assert!(ps.electricity_sender.poll(&mut sub).is_none());
}

#[test]
fn place_condition_mutation_round_trip() {
    let mut t = Table::new();
    let mut ps = PubSub::new();
    let m = Mutation;
    let input = PlaceConditionInput {
        device: s("dev3"),
        timestamp: s("2023-05-01T10:00:00Z"),
        place: Some(s("study")),
        temperature: Some(s("19.5")),
        humidity: Some(40),
        illuminance: None,
        motion: Some(1),
    };
    let written = m.put_place_condition(&mut t, &mut ps, input);
    assert_eq!(written.place, "study");
    let q = Query;
    let (ps_read, _) = q.place_conditions(&t, "dev3", None, None, Some(10), None).unwrap();
    assert_eq!(ps_read.len(), 1);
    assert_eq!(ps_read[0].temperature, Some(s("19.5")));
    assert_eq!(ps_read[0].humidity, Some(40));
    assert_eq!(ps_read[0].motion, Some(1));
}

#[test]
fn converters_apply_defaults() {
    let e = electricity(e_input("d", "t", None));
    assert_eq!(e.place, "");
    let f = homeapi::records::final_electricity(homeapi::records::FinalElectricityInput {
        device: s("d"),
        timestamp: s("t"),
        place: None,
        cumulative_kwh_p: None,
        cumulative_kwh_n: Some(s("3.5")),
    });
    assert_eq!(f.cumulative_kwh_p, "0.0");
    assert_eq!(f.cumulative_kwh_n, "3.5");
}
