//! Item codec round trips and decode failures.

use homeapi::item::{Attr, Item, item_from_attrs, merge_items};
use homeapi::nums::{dec_to_i64, dec_to_u64, i64_to_dec, parse_i64, parse_u32, u64_to_dec};
use homeapi::records::{ApiKey, Device, Electricity, FinalElectricity, Place, PlaceCondition,
    RawData, User};

fn s(x: &str) -> String {
    String::from(x)
}

#[test]
fn device_round_trip() {
    let d = Device { pk: s("DEVICE"), id: s("dev1"), place: s("kitchen") };
    let item = d.encode();
    assert_eq!(item.pk, "DEVICE");
    assert_eq!(item.sk, "dev1");
    let back = Device::decode(&item).unwrap();
    assert_eq!(back.pk, "DEVICE");
    assert_eq!(back.id, "dev1");
    assert_eq!(back.place, "kitchen");
}

#[test]
fn device_new_defaults() {
    let d = Device::new(s("dev9"));
    assert_eq!(d.pk, "DEVICE");
    assert_eq!(d.id, "dev9");
    assert_eq!(d.place, "");
}

#[test]
fn device_decode_missing_place_fails() {
    let item = Item { pk: s("DEVICE"), sk: s("dev1"), attrs: vec![] };
    assert!(Device::decode(&item).is_err());
}

#[test]
fn place_round_trip() {
    let p = Place { pk: s("PLACE"), id: s("p1"), name: s("home") };
    let back = Place::decode(&p.encode()).unwrap();
    assert_eq!(back.id, "p1");
    assert_eq!(back.name, "home");
}

#[test]
fn raw_data_round_trip() {
    let r = RawData { pk: s("RAW_DATA"), id: s("x"), body: s("{}") };
    let back = RawData::decode(&r.encode()).unwrap();
    assert_eq!(back.body, "{}");
}

#[test]
fn user_round_trip() {
    let u = User { email: s("a@example.com"), user_type: s("USER") };
    let item = u.encode();
    assert_eq!(item.pk, "a@example.com");
    assert_eq!(item.sk, "USER");
    let back = User::decode(&item).unwrap();
    assert_eq!(back.email, "a@example.com");
    assert_eq!(back.user_type, "USER");
}

#[test]
fn electricity_round_trip_full() {
    let e = Electricity {
        device: s("dev1"),
        timestamp: s("2023-01-01T00:00:00Z"),
        place: s("home"),
        cumulative_kwh_p: Some(s("12.5")),
        cumulative_kwh_n: Some(s("0.1")),
        current_w: Some(450),
    };
    let item = e.encode();
    assert_eq!(item.pk, "dev1");
    assert_eq!(item.sk, "TS#2023-01-01T00:00:00Z");
    let back = Electricity::decode(&item).unwrap();
    assert_eq!(back.device, "dev1");
    assert_eq!(back.timestamp, "2023-01-01T00:00:00Z");
    assert_eq!(back.place, "home");
    assert_eq!(back.cumulative_kwh_p, Some(s("12.5")));
    assert_eq!(back.cumulative_kwh_n, Some(s("0.1")));
    assert_eq!(back.current_w, Some(450));
}

#[test]
fn electricity_round_trip_sparse() {
    let e = Electricity {
        device: s("dev1"),
        timestamp: s("2023-01-01T00:00:00Z"),
        place: s(""),
        cumulative_kwh_p: None,
        cumulative_kwh_n: None,
        current_w: None,
    };
    let item = e.encode();
    // unset optional fields are omitted, never written as nulls
    assert_eq!(item.attrs.len(), 1);
    let back = Electricity::decode(&item).unwrap();
    assert_eq!(back.cumulative_kwh_p, None);
    assert_eq!(back.current_w, None);
}

#[test]
fn electricity_decode_wrong_prefix_fails() {
    let item = Item { pk: s("dev1"), sk: s("2023-01-01T00:00:00Z"), attrs: vec![] };
    assert!(Electricity::decode(&item).is_err());
}

#[test]
fn electricity_decode_bad_number_fails() {
    let item = Item {
        pk: s("dev1"),
        sk: s("TS#2023-01-01T00:00:00Z"),
        attrs: vec![(s("current_w"), Attr::N(s("12x")))],
    };
    assert!(Electricity::decode(&item).is_err());
}

#[test]
fn final_electricity_round_trip() {
    let e = FinalElectricity {
        device: s("dev1"),
        timestamp: s("2023-02-01T00:00:00Z"),
        place: s("home"),
        cumulative_kwh_p: s("100.5"),
        cumulative_kwh_n: s("2.0"),
    };
    let item = e.encode();
    assert_eq!(item.sk, "FIN#TS#2023-02-01T00:00:00Z");
    let back = FinalElectricity::decode(&item).unwrap();
    assert_eq!(back.cumulative_kwh_p, "100.5");
    assert_eq!(back.cumulative_kwh_n, "2.0");
}

#[test]
fn final_electricity_decode_missing_total_fails() {
    let item = Item {
        pk: s("dev1"),
        sk: s("FIN#TS#2023-02-01T00:00:00Z"),
        attrs: vec![(s("cumulative_kwh_p"), Attr::S(s("1.0")))],
    };
    assert!(FinalElectricity::decode(&item).is_err());
}

#[test]
fn place_condition_round_trip() {
    let p = PlaceCondition {
        device: s("dev2"),
        timestamp: s("2023-01-01T12:00:00Z"),
        place: s("bedroom"),
        temperature: Some(s("21.5")),
        humidity: Some(55),
        illuminance: Some(-1),
        motion: None,
    };
    let back = PlaceCondition::decode(&p.encode()).unwrap();
    assert_eq!(back.place, "bedroom");
    assert_eq!(back.temperature, Some(s("21.5")));
    assert_eq!(back.humidity, Some(55));
    assert_eq!(back.illuminance, Some(-1));
    assert_eq!(back.motion, None);
}

#[test]
fn api_key_round_trip() {
    let k = ApiKey::new(s("a@example.com"), s("deadbeef"), s("laptop"), s(
        "2023-01-01T00:00:00Z",
    ));
    let item = k.encode();
    assert_eq!(item.pk, "deadbeef");
    assert_eq!(item.sk, "APIKEY");
    let back = ApiKey::decode(&item).unwrap();
    assert_eq!(back.user_email, "a@example.com");
    assert_eq!(back.name, "laptop");
    assert_eq!(back.created_at, "2023-01-01T00:00:00Z");
    assert_eq!(back.last_used_at, None);
    assert_eq!(back.expires_at, None);
}

#[test]
fn item_from_attrs_extracts_keys() {
    let attrs = vec![
        (s("pk"), Attr::S(s("P"))),
        (s("sk"), Attr::S(s("S"))),
        (s("body"), Attr::S(s("x"))),
    ];
    let item = item_from_attrs(attrs).unwrap();
    assert_eq!(item.pk, "P");
    assert_eq!(item.sk, "S");
    assert_eq!(item.attrs.len(), 1);
    assert_eq!(item.attrs[0].0, "body");
}

#[test]
fn item_from_attrs_missing_key_fails() {
    let attrs = vec![(s("pk"), Attr::S(s("P")))];
    assert!(item_from_attrs(attrs).is_err());
    let attrs2 = vec![(s("pk"), Attr::N(s("1"))), (s("sk"), Attr::S(s("S")))];
    assert!(item_from_attrs(attrs2).is_err());
}

#[test]
fn merge_overwrites_and_appends() {
    let base = Item {
        pk: s("P"),
        sk: s("S"),
        attrs: vec![(s("a"), Attr::S(s("1"))), (s("b"), Attr::S(s("2")))],
    };
    let upd = Item {
        pk: s("P"),
        sk: s("S"),
        attrs: vec![(s("b"), Attr::S(s("9"))), (s("c"), Attr::S(s("3")))],
    };
    let merged = merge_items(&base, &upd);
    assert_eq!(merged.attrs.len(), 3);
    assert_eq!(merged.attrs[0].0, "a");
    assert!(matches!(&merged.attrs[0].1, Attr::S(v) if v == "1"));
    assert_eq!(merged.attrs[1].0, "b");
    assert!(matches!(&merged.attrs[1].1, Attr::S(v) if v == "9"));
    assert_eq!(merged.attrs[2].0, "c");
}

#[test]
fn decimal_strings_exact() {
    assert_eq!(u64_to_dec(0), "0");
    assert_eq!(u64_to_dec(57), "57");
    assert_eq!(u64_to_dec(18446744073709551615), "18446744073709551615");
    assert_eq!(i64_to_dec(-9223372036854775808), "-9223372036854775808");
    assert_eq!(i64_to_dec(-7), "-7");
    assert_eq!(i64_to_dec(42), "42");
}

#[test]
fn decimal_parsing_strict() {
    assert_eq!(dec_to_u64("57"), Some(57));
    assert_eq!(dec_to_u64("0"), Some(0));
    assert_eq!(dec_to_u64("007"), None);
    assert_eq!(dec_to_u64(""), None);
    assert_eq!(dec_to_u64("1x"), None);
    assert_eq!(dec_to_u64("18446744073709551616"), None);
    assert_eq!(dec_to_i64("-7"), Some(-7));
    assert_eq!(dec_to_i64("-0"), None);
    assert_eq!(dec_to_i64("-9223372036854775808"), Some(-9223372036854775808));
    assert_eq!(dec_to_i64("-9223372036854775809"), None);
    assert_eq!(parse_u32("4294967295"), Some(4294967295));
    assert_eq!(parse_u32("4294967296"), None);
    assert_eq!(parse_i64("123"), Some(123));
}
