use kubizone::meta::ObjectMeta;
use kubizone::record::{Record, RecordSpec, RecordStatus};
use kubizone::zone::{lists_type, Delegation, RecordDelegation, Zone, ZoneSpec, ZoneStatus};

#[test]
fn test_record_delegation() {
    let zone = Zone {
        spec: ZoneSpec {
            domain_name: String::from("example.org."),
            zone_ref: None,
            delegations: vec![Delegation {
                namespaces: vec![String::from("default")],
                zones: vec![],
                records: vec![RecordDelegation {
                    pattern: String::from("*.example.org."),
                    record_types: vec![],
                }],
            }],
        },
        status: None,
        metadata: ObjectMeta::default(),
    };

    // Record in delegated namespace should be allowed.
    assert!(zone.validate_record(&Record {
        metadata: ObjectMeta {
            namespace: Some(String::from("default")),
            ..Default::default()
        },
        spec: RecordSpec {
            domain_name: String::from("www.example.org."),
            zone_ref: None,
            type_: String::from("A"),
            class: String::from("IN"),
            ttl: None,
            rdata: String::from("192.168.0.1")
        },
        status: Some(RecordStatus {
            fqdn: Some(String::from("www.example.org."))
        })
    }));

    // Record in non-delegated namespace should fail.
    assert!(!zone.validate_record(&Record {
        metadata: ObjectMeta {
            namespace: Some(String::from("not-default")),
            ..Default::default()
        },
        spec: RecordSpec {
            domain_name: String::from("www.example.org."),
            zone_ref: None,
            type_: String::from("A"),
            class: String::from("IN"),
            ttl: None,
            rdata: String::from("192.168.0.1")
        },
        status: None
    }));

    // Record in delegated namespace, with invalid super-domain should fail.
    assert!(!zone.validate_record(&Record {
        metadata: ObjectMeta {
            namespace: Some(String::from("default")),
            ..Default::default()
        },
        spec: RecordSpec {
            domain_name: String::from("www.test.com."),
            zone_ref: None,
            type_: String::from("A"),
            class: String::from("IN"),
            ttl: None,
            rdata: String::from("192.168.0.1")
        },
        status: None
    }))
}

#[test]
fn test_record_type_limit() {
    let zone = Zone {
        spec: ZoneSpec {
            domain_name: String::from("example.org."),
            zone_ref: None,
            delegations: vec![Delegation {
                namespaces: vec![String::from("default")],
                zones: vec![],
                records: vec![RecordDelegation {
                    pattern: String::from("example.org."),
                    record_types: vec![String::from("MX")],
                }],
            }],
        },
        status: None,
        metadata: ObjectMeta::default(),
    };

    // Record in delegated namespace with delegated record type
    // (MX) should be allowed.
    assert!(zone.validate_record(&Record {
        metadata: ObjectMeta {
            namespace: Some(String::from("default")),
            ..Default::default()
        },
        spec: RecordSpec {
            domain_name: String::from("example.org."),
            zone_ref: None,
            type_: String::from("MX"),
            class: String::from("IN"),
            ttl: None,
            rdata: String::from("10 mail1.example.org.")
        },
        status: Some(RecordStatus {
            fqdn: Some(String::from("example.org."))
        })
    }));

    // Record in delegated namespace with non-delegated record type
    // (A) should not be allowed.
    assert!(!zone.validate_record(&Record {
        metadata: ObjectMeta {
            namespace: Some(String::from("default")),
            ..Default::default()
        },
        spec: RecordSpec {
            domain_name: String::from("example.org."),
            zone_ref: None,
            type_: String::from("A"),
            class: String::from("IN"),
            ttl: None,
            rdata: String::from("192.168.0.1")
        },
        status: None
    }));
}

fn delegation(namespaces: &[&str], zones: &[&str], records: &[(&str, &[&str])]) -> Delegation {
    Delegation {
        namespaces: namespaces.iter().map(|s| s.to_string()).collect(),
        zones: zones.iter().map(|s| s.to_string()).collect(),
        records: records
            .iter()
            .map(|(pattern, types)| RecordDelegation {
                pattern: pattern.to_string(),
                record_types: types.iter().map(|s| s.to_string()).collect(),
            })
            .collect(),
    }
}

fn zone(name: &str, namespace: &str, domain: &str, fqdn: Option<&str>, delegations: Vec<Delegation>) -> Zone {
    Zone {
        metadata: ObjectMeta {
            name: name.to_string(),
            namespace: Some(namespace.to_string()),
            uid: Some(format!("uid-{name}")),
            ..Default::default()
        },
        spec: ZoneSpec { domain_name: domain.to_string(), zone_ref: None, delegations },
        status: Some(ZoneStatus { fqdn: fqdn.map(|s| s.to_string()), hash: None }),
    }
}

fn record(namespace: &str, domain: &str, type_: &str, fqdn: Option<&str>) -> Record {
    Record {
        metadata: ObjectMeta {
            name: String::from("record"),
            namespace: Some(namespace.to_string()),
            ..Default::default()
        },
        spec: RecordSpec {
            domain_name: domain.to_string(),
            zone_ref: None,
            type_: type_.to_string(),
            class: String::from("IN"),
            ttl: None,
            rdata: String::from("192.168.0.1"),
        },
        status: fqdn.map(|f| RecordStatus { fqdn: Some(f.to_string()) }),
    }
}

#[test]
fn record_types_are_compared_without_case() {
    let allowed = RecordDelegation {
        pattern: String::from("*.example.org."),
        record_types: vec![String::from("mx"), String::from("Txt")],
    };
    assert!(allowed.validate("MX", "mail.example.org."));
    assert!(allowed.validate("mx", "mail.example.org."));
    assert!(allowed.validate("tXT", "mail.example.org."));
    assert!(!allowed.validate("A", "mail.example.org."));
    assert!(!allowed.validate("MX", "mail.example.com."));
}

#[test]
fn empty_type_list_allows_any_type() {
    let any = RecordDelegation { pattern: String::from("*.example.org."), record_types: vec![] };
    assert!(any.validate("A", "www.example.org."));
    assert!(any.validate("whatever", "www.example.org."));
    assert!(lists_type(&vec![], "A"));
    assert!(lists_type(&vec![String::from("A")], "A"));
    assert!(!lists_type(&vec![String::from("A")], "a"));
    assert!(!lists_type(&vec![String::from("MX")], "A"));
}

#[test]
fn namespaces_are_covered_when_listed_or_when_none_is_listed() {
    let open = delegation(&[], &[], &[]);
    assert!(open.covers_namespace("default"));
    assert!(open.covers_namespace(""));
    let closed = delegation(&["default", "prod"], &[], &[]);
    assert!(closed.covers_namespace("default"));
    assert!(closed.covers_namespace("prod"));
    assert!(!closed.covers_namespace("dev"));
    assert!(!closed.covers_namespace("Default"));
}

#[test]
fn delegation_validates_zones_and_records_by_pattern() {
    let d = delegation(&[], &["*.example.org.", "example.com."], &[("www.example.org.", &["A"])]);
    assert!(d.validate_zone("api.example.org."));
    assert!(d.validate_zone("example.com."));
    assert!(!d.validate_zone("api.example.com."));
    assert!(d.validate_record("A", "www.example.org."));
    assert!(!d.validate_record("AAAA", "www.example.org."));
    assert!(!d.validate_record("A", "ftp.example.org."));
    let none = delegation(&[], &[], &[]);
    assert!(!none.validate_zone("api.example.org."));
    assert!(!none.validate_record("A", "www.example.org."));
}

#[test]
fn zone_without_delegations_accepts_no_child() {
    let parent = zone("root", "default", "example.org.", Some("example.org."), vec![]);
    assert!(!parent.validate_record(&record("default", "www.example.org.", "A", Some("www.example.org."))));
    let child = zone("child", "default", "api.example.org.", Some("api.example.org."), vec![]);
    assert!(!parent.validate_zone(&child));
}

#[test]
fn namespace_and_pattern_must_come_from_one_delegation() {
    let parent = zone(
        "root",
        "default",
        "example.org.",
        Some("example.org."),
        vec![
            delegation(&["dev"], &[], &[("*.example.org.", &[])]),
            delegation(&["default"], &[], &[("*.example.com.", &[])]),
        ],
    );
    assert!(!parent.validate_record(&record("default", "www.example.org.", "A", Some("www.example.org."))));
    assert!(parent.validate_record(&record("dev", "www.example.org.", "A", Some("www.example.org."))));
}

#[test]
fn zone_validates_child_zones() {
    let parent = zone(
        "root",
        "default",
        "example.org.",
        Some("example.org."),
        vec![delegation(&["default"], &["*.example.org."], &[])],
    );
    let child = zone("child", "default", "api.example.org.", Some("api.example.org."), vec![]);
    assert!(parent.validate_zone(&child));
    // Without a fully qualified name the child is not accepted.
    let unresolved = zone("child", "default", "api.example.org.", None, vec![]);
    assert!(!parent.validate_zone(&unresolved));
    // Another namespace is not covered.
    let foreign = zone("child", "other", "api.example.org.", Some("api.example.org."), vec![]);
    assert!(!parent.validate_zone(&foreign));
    // A name outside the zone is not accepted.
    let outside = zone("child", "default", "api.example.com.", Some("api.example.com."), vec![]);
    assert!(!parent.validate_zone(&outside));
}

#[test]
fn zone_is_never_its_own_parent() {
    let me = zone(
        "root",
        "default",
        "example.org.",
        Some("example.org."),
        vec![delegation(&[], &["example.org.", "*.example.org."], &[])],
    );
    assert!(!me.validate_zone(&me));
    let mut twin = me.clone();
    twin.metadata.uid = Some(String::from("another"));
    assert!(me.validate_zone(&twin));
}

#[test]
fn zone_getters() {
    let z = zone("root", "default", "example.org.", Some("example.org."), vec![]);
    assert_eq!(z.fqdn(), Some("example.org."));
    assert_eq!(z.hash(), None);
    let reference = z.zone_ref();
    assert_eq!(reference.name, "root");
    assert_eq!(reference.namespace.as_deref(), Some("default"));
    let bare = Zone {
        metadata: ObjectMeta::default(),
        spec: ZoneSpec { domain_name: String::new(), zone_ref: None, delegations: vec![] },
        status: None,
    };
    assert_eq!(bare.fqdn(), None);
    assert_eq!(bare.zone_ref().namespace, None);
    let r = record("default", "www", "A", Some("www.example.org."));
    assert_eq!(r.fqdn(), Some("www.example.org."));
    assert_eq!(z.to_string(), "default/root");
    assert_eq!(bare.to_string(), "/");
    assert_eq!(reference.to_string(), "root.default");
}
