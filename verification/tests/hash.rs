use std::collections::hash_map::DefaultHasher;
use std::hash::Hasher;

use kubizone::hash::{record_key_of, zone_hash, zone_key_of};
use kubizone::meta::ZoneRef;
use kubizone::record::RecordSpec;
use kubizone::zone::{Delegation, RecordDelegation, ZoneSpec};

fn zone(domain: &str) -> ZoneSpec {
    ZoneSpec {
        domain_name: domain.to_string(),
        zone_ref: Some(ZoneRef { name: String::from("root"), namespace: None }),
        delegations: vec![],
    }
}

fn record(domain: &str, rdata: &str) -> RecordSpec {
    RecordSpec {
        domain_name: domain.to_string(),
        zone_ref: None,
        type_: String::from("A"),
        class: String::from("IN"),
        ttl: None,
        rdata: rdata.to_string(),
    }
}

fn digest(bytes: &[u8]) -> String {
    let mut hasher = DefaultHasher::new();
    hasher.write(bytes);
    hasher.finish().to_string()
}

#[test]
fn hash_of_no_children() {
    assert_eq!(zone_hash(&vec![], &vec![]), digest(&[0u8; 16]));
}

#[test]
fn key_of_a_record() {
    let key = record_key_of(&RecordSpec {
        domain_name: String::from("w."),
        zone_ref: Some(ZoneRef { name: String::from("r"), namespace: Some(String::from("n")) }),
        type_: String::from("A"),
        class: String::from("IN"),
        ttl: Some(0x01020304),
        rdata: String::from("ü"),
    });
    let expected: Vec<u8> = vec![
        b'w', b'.', 0xff, // name
        1, 0, 0, 0, 0, 0, 0, 0, b'r', 0xff, 1, 0, 0, 0, 0, 0, 0, 0, b'n', 0xff, // zone
        b'A', 0xff, b'I', b'N', 0xff, // type, class
        1, 0, 0, 0, 0, 0, 0, 0, 4, 3, 2, 1, // seconds
        0xc3, 0xbc, 0xff, // data
    ];
    assert_eq!(key, expected);
}

#[test]
fn key_of_a_zone() {
    let key = zone_key_of(&ZoneSpec {
        domain_name: String::from("e."),
        zone_ref: None,
        delegations: vec![Delegation {
            namespaces: vec![String::from("a"), String::from("b")],
            zones: vec![],
            records: vec![RecordDelegation {
                pattern: String::from("*"),
                record_types: vec![String::from("MX")],
            }],
        }],
    });
    let expected: Vec<u8> = vec![
        b'e', b'.', 0xff, // name
        0, 0, 0, 0, 0, 0, 0, 0, // no zone
        1, 0, 0, 0, 0, 0, 0, 0, // one delegation
        2, 0, 0, 0, 0, 0, 0, 0, b'a', 0xff, b'b', 0xff, // namespaces
        0, 0, 0, 0, 0, 0, 0, 0, // zones
        1, 0, 0, 0, 0, 0, 0, 0, // one record delegation
        b'*', 0xff, 1, 0, 0, 0, 0, 0, 0, 0, b'M', b'X', 0xff,
    ];
    assert_eq!(key, expected);
}

#[test]
fn hash_of_one_child_each() {
    let z = zone("api");
    let r = record("www", "192.168.0.1");
    let mut input: Vec<u8> = vec![1, 0, 0, 0, 0, 0, 0, 0];
    input.extend(zone_key_of(&z));
    input.extend([1, 0, 0, 0, 0, 0, 0, 0]);
    input.extend(record_key_of(&r));
    assert_eq!(zone_hash(&vec![z], &vec![r]), digest(&input));
}

#[test]
fn hash_does_not_depend_on_listing_order() {
    let zones = vec![zone("a"), zone("b"), zone("ab"), zone("")];
    let records = vec![record("x", "1"), record("x", "2"), record("w", "1")];
    let expected = zone_hash(&zones, &records);
    let mut reversed_zones = zones.clone();
    reversed_zones.reverse();
    let mut rotated_records = records.clone();
    rotated_records.rotate_left(1);
    assert_eq!(zone_hash(&reversed_zones, &rotated_records), expected);
    assert_eq!(zone_hash(&reversed_zones, &records), expected);
    assert_eq!(zone_hash(&zones, &rotated_records), expected);
}

#[test]
fn hash_counts_each_child_once() {
    let zones = vec![zone("a"), zone("b")];
    let records = vec![record("x", "1")];
    let expected = zone_hash(&zones, &records);
    let twice = vec![zone("b"), zone("a"), zone("b"), zone("a")];
    assert_eq!(zone_hash(&twice, &vec![record("x", "1"), record("x", "1")]), expected);
}

#[test]
fn hash_feeds_keys_in_rising_order() {
    let a = record("a", "1");
    let b = record("b", "1");
    let mut input: Vec<u8> = vec![0, 0, 0, 0, 0, 0, 0, 0, 2, 0, 0, 0, 0, 0, 0, 0];
    input.extend(record_key_of(&a));
    input.extend(record_key_of(&b));
    assert_eq!(zone_hash(&vec![], &vec![b, a]), digest(&input));
}

#[test]
fn hash_changes_with_any_field() {
    let base = record("www", "192.168.0.1");
    let expected = zone_hash(&vec![], &vec![base.clone()]);
    let mut other = base.clone();
    other.rdata = String::from("192.168.0.2");
    assert_ne!(zone_hash(&vec![], &vec![other]), expected);
    let mut other = base.clone();
    other.ttl = Some(360);
    assert_ne!(zone_hash(&vec![], &vec![other]), expected);
    let mut other = base.clone();
    other.type_ = String::from("AAAA");
    assert_ne!(zone_hash(&vec![], &vec![other]), expected);
    let mut other = base.clone();
    other.class = String::from("CH");
    assert_ne!(zone_hash(&vec![], &vec![other]), expected);
    let mut other = base.clone();
    other.zone_ref = Some(ZoneRef { name: String::from("root"), namespace: None });
    assert_ne!(zone_hash(&vec![], &vec![other]), expected);
    let mut other = base.clone();
    other.domain_name = String::from("ww");
    assert_ne!(zone_hash(&vec![], &vec![other]), expected);
    // A child zone is not a child record.
    assert_ne!(zone_hash(&vec![zone("a")], &vec![]), zone_hash(&vec![], &vec![record("a", "")]));
    let mut delegating = zone("a");
    delegating.delegations.push(Delegation { namespaces: vec![], zones: vec![], records: vec![] });
    assert_ne!(zone_hash(&vec![delegating], &vec![]), zone_hash(&vec![zone("a")], &vec![]));
}
