use kubizone::action::{ConfigMap, Failure, Next, OwnerReference, Reply, Request, Step, Write};
use kubizone::meta::{ObjectMeta, ZoneRef};
use kubizone::record::RecordSpec;
use kubizone::render::build_zonefile;
use kubizone::renderer::{
    apply_zonefile_backref, reconcile_zonefiles, zonefile_error_policy, zonefile_step_on,
    RenderStage, ZONEFILE_API_VERSION, ZONEFILE_KIND,
};
use kubizone::retention::{
    expired_revisions, owned_config_maps, revision_name_of, revision_serial_of, ListedConfigMap,
};
use kubizone::serial::UtcDate;
use kubizone::zone::{Zone, ZoneSpec, ZoneStatus};
use kubizone::zonefile::{ZoneFile, ZoneFileSpec, ZoneFileStatus};

fn zonefile(serial: u32, history: u32, last_hash: Option<&str>) -> ZoneFile {
    ZoneFile {
        metadata: ObjectMeta {
            name: String::from("zf"),
            namespace: Some(String::from("default")),
            uid: Some(String::from("uid-zf")),
            ..Default::default()
        },
        spec: ZoneFileSpec {
            zone_ref: ZoneRef { name: String::from("root"), namespace: None },
            history,
            ttl: 360,
            serial,
            refresh: 86400,
            retry: 7200,
            expire: 3600000,
            negative_response_cache: 360,
        },
        status: last_hash.map(|h| ZoneFileStatus {
            hash: Some(h.to_string()),
            serial: Some(serial),
            config_map: Some(format!("zf-{serial}")),
        }),
    }
}

fn zone(hash: Option<&str>, fqdn: Option<&str>, backref: Option<&str>) -> Zone {
    Zone {
        metadata: ObjectMeta {
            name: String::from("root"),
            namespace: Some(String::from("default")),
            uid: Some(String::from("uid-root")),
            zonefile: backref.map(|s| s.to_string()),
            ..Default::default()
        },
        spec: ZoneSpec { domain_name: String::from("example.org."), zone_ref: None, delegations: vec![] },
        status: Some(ZoneStatus {
            fqdn: fqdn.map(|s| s.to_string()),
            hash: hash.map(|s| s.to_string()),
        }),
    }
}

fn record(domain: &str) -> RecordSpec {
    RecordSpec {
        domain_name: domain.to_string(),
        zone_ref: None,
        type_: String::from("A"),
        class: String::from("IN"),
        ttl: None,
        rdata: String::from("192.168.0.1"),
    }
}

fn today() -> UtcDate {
    UtcDate { year: 2024, month: 3, day: 9 }
}

fn records_stage(hash: &str) -> RenderStage {
    RenderStage::Records { origin: String::from("example.org."), hash: hash.to_string() }
}

#[test]
fn error_policy_is_a_minute() {
    assert_eq!(zonefile_error_policy(), Next::Requeue(60));
    assert_eq!(kubizone::resolver::zone_error_policy(), Next::Requeue(60));
    assert_eq!(kubizone::resolver::record_error_policy(), Next::Requeue(60));
}

#[test]
fn zone_file_asks_for_its_zone_first() {
    let zf = zonefile(1, 10, None);
    let (stage, step) = zonefile_step_on(&zf, &RenderStage::Start, &Reply::Start, today());
    assert_eq!(stage, RenderStage::Zone);
    assert_eq!(step.writes, vec![]);
    assert_eq!(
        step.next,
        Next::Ask(Request::Zone(ZoneRef { name: String::from("root"), namespace: Some(String::from("default")) }))
    );
}

#[test]
fn missing_zone_is_a_failure() {
    let zf = zonefile(1, 10, None);
    let (stage, step) = zonefile_step_on(&zf, &RenderStage::Zone, &Reply::Zone(None), today());
    assert_eq!(stage, RenderStage::Done);
    assert_eq!(step, Step { writes: vec![], next: Next::Fail(Failure::ZoneNotFound) });
}

#[test]
fn zone_is_made_to_point_back() {
    let zf = zonefile(1, 10, None);
    let label = Write::ZoneFileLabel {
        zone: ZoneRef { name: String::from("root"), namespace: Some(String::from("default")) },
        value: String::from("zf.default"),
    };
    assert_eq!(apply_zonefile_backref(&zf, &zone(None, None, None)), Some(label.clone()));
    assert_eq!(apply_zonefile_backref(&zf, &zone(None, None, Some("other.default"))), Some(label.clone()));
    assert_eq!(apply_zonefile_backref(&zf, &zone(None, None, Some("zf.default"))), None);

    // The zone has no digest yet: the label is set, and the zone file waits.
    let (stage, step) = zonefile_step_on(&zf, &RenderStage::Zone, &Reply::Zone(Some(zone(None, Some("example.org."), None))), today());
    assert_eq!(stage, RenderStage::Done);
    assert_eq!(step, Step { writes: vec![label], next: Next::Requeue(5) });
}

#[test]
fn unchanged_digest_renders_nothing() {
    let zf = zonefile(2024010100, 10, Some("H1"));
    let z = zone(Some("H1"), Some("example.org."), Some("zf.default"));
    let (stage, step) = zonefile_step_on(&zf, &RenderStage::Zone, &Reply::Zone(Some(z)), today());
    assert_eq!(stage, RenderStage::Done);
    assert_eq!(step, Step { writes: vec![], next: Next::Requeue(30) });
}

#[test]
fn zone_without_a_name_is_waited_for() {
    let zf = zonefile(1, 10, None);
    let z = zone(Some("H1"), None, Some("zf.default"));
    let (stage, step) = zonefile_step_on(&zf, &RenderStage::Zone, &Reply::Zone(Some(z)), today());
    assert_eq!(stage, RenderStage::Done);
    assert_eq!(step, Step { writes: vec![], next: Next::Requeue(5) });
}

#[test]
fn changed_digest_asks_for_the_records() {
    let zf = zonefile(2024010100, 10, Some("H1"));
    let z = zone(Some("H2"), Some("example.org."), Some("zf.default"));
    let (stage, step) = zonefile_step_on(&zf, &RenderStage::Zone, &Reply::Zone(Some(z)), today());
    assert_eq!(stage, records_stage("H2"));
    assert_eq!(step, Step { writes: vec![], next: Next::Ask(Request::Records(String::from("root.default"))) });
}

#[test]
fn first_render_uses_the_serial_of_the_day() {
    let zf = zonefile(1, 10, None);
    let records = vec![record("www.example.org.")];
    let (stage, step) = zonefile_step_on(&zf, &records_stage("H1"), &Reply::Records(records.clone()), today());
    assert_eq!(stage, RenderStage::ConfigMaps);
    assert_eq!(step.next, Next::Ask(Request::ConfigMaps));
    assert_eq!(
        step.writes,
        vec![
            Write::Apply(ConfigMap {
                name: String::from("zf-2024030900"),
                namespace: Some(String::from("default")),
                owner_references: vec![OwnerReference {
                    api_version: String::from("zonefile.kubi.zone/v1alpha1"),
                    kind: String::from("ZoneFile"),
                    name: String::from("zf"),
                    uid: String::from("uid-zf"),
                    controller: true,
                }],
                zonefile: build_zonefile(&zf, "example.org.", 2024030900, &records),
            }),
            Write::Serial(2024030900),
            Write::Rendered {
                hash: String::from("H1"),
                serial: 2024030900,
                config_map: String::from("zf-2024030900"),
            },
        ]
    );
    assert_eq!(ZONEFILE_API_VERSION, "zonefile.kubi.zone/v1alpha1");
    assert_eq!(ZONEFILE_KIND, "ZoneFile");
}

#[test]
fn zonefile_serial_rotation_on_hash_change() {
    // Rendered once today under the digest H1.
    let zf = zonefile(2024030900, 10, Some("H1"));
    // A record is added; the digest of the zone becomes H2.
    let z = zone(Some("H2"), Some("example.org."), Some("zf.default"));
    let (stage, _) = zonefile_step_on(&zf, &RenderStage::Zone, &Reply::Zone(Some(z)), today());
    let (_, step) = zonefile_step_on(&zf, &stage, &Reply::Records(vec![record("www.example.org.")]), today());
    match &step.writes[..] {
        [Write::Apply(config_map), Write::Serial(serial), Write::Rendered { hash, serial: status_serial, config_map: name }] => {
            assert_eq!(*serial, 2024030901);
            assert_eq!(*status_serial, 2024030901);
            assert_eq!(config_map.name, "zf-2024030901");
            assert_eq!(name, "zf-2024030901");
            assert_eq!(hash, "H2");
            assert!(config_map.zonefile.contains("\n    2024030901\n"));
        }
        other => panic!("unexpected writes: {other:?}"),
    }
    // On the next day the serial is that of the day.
    let tomorrow = UtcDate { year: 2024, month: 3, day: 10 };
    let (_, step) = zonefile_step_on(&zf, &stage, &Reply::Records(vec![]), tomorrow);
    assert_eq!(step.writes[1], Write::Serial(2024031000));
}

#[test]
fn every_config_map_has_the_zone_file_as_its_only_owner() {
    for (serial, day) in [(1, today()), (2024030900, today()), (2030010105, today())] {
        let zf = zonefile(serial, 10, None);
        let (_, step) = zonefile_step_on(&zf, &records_stage("H"), &Reply::Records(vec![]), day);
        let Write::Apply(config_map) = &step.writes[0] else {
            panic!("no config map");
        };
        assert_eq!(config_map.owner_references.len(), 1);
        assert_eq!(config_map.owner_references[0].name, zf.metadata.name);
        assert_eq!(Some(&config_map.owner_references[0].uid), zf.metadata.uid.as_ref());
        assert!(config_map.owner_references[0].controller);
        assert_eq!(config_map.namespace, zf.metadata.namespace);
    }
}

#[test]
fn render_fails_without_identity_or_serial() {
    let mut anonymous = zonefile(1, 10, None);
    anonymous.metadata.uid = None;
    let (stage, step) = zonefile_step_on(&anonymous, &records_stage("H"), &Reply::Records(vec![]), today());
    assert_eq!(stage, RenderStage::Done);
    assert_eq!(step, Step { writes: vec![], next: Next::Fail(Failure::NoIdentity) });

    let exhausted = zonefile(u32::MAX, 10, None);
    let (stage, step) = zonefile_step_on(&exhausted, &records_stage("H"), &Reply::Records(vec![]), today());
    assert_eq!(stage, RenderStage::Done);
    assert_eq!(step, Step { writes: vec![], next: Next::Fail(Failure::SerialExhausted) });

    let far = UtcDate { year: 4295, month: 1, day: 1 };
    let (_, step) = zonefile_step_on(&zonefile(1, 10, None), &records_stage("H"), &Reply::Records(vec![]), far);
    assert_eq!(step.next, Next::Fail(Failure::SerialExhausted));
}

#[test]
fn unexpected_reply_to_a_zone_file_fails() {
    let zf = zonefile(1, 10, None);
    let fail = Step { writes: vec![], next: Next::Fail(Failure::UnexpectedReply) };
    for (stage, reply) in [
        (RenderStage::Start, Reply::Zone(None)),
        (RenderStage::Zone, Reply::Start),
        (RenderStage::Zone, Reply::Records(vec![])),
        (records_stage("H"), Reply::ConfigMaps(vec![])),
        (RenderStage::ConfigMaps, Reply::Records(vec![])),
        (RenderStage::Done, Reply::Start),
    ] {
        assert_eq!(zonefile_step_on(&zf, &stage, &reply, today()), (RenderStage::Done, fail.clone()));
    }
}

fn names(list: &[&str]) -> Vec<String> {
    list.iter().map(|s| s.to_string()).collect()
}

#[test]
fn history_trimming() {
    let zf = zonefile(2024030904, 3, Some("H"));
    let owned = names(&[
        "zf-2024030902",
        "zf-2024030900",
        "zf-2024030904",
        "zf-2024030901",
        "zf-2024030903",
    ]);
    let (stage, step) = zonefile_step_on(&zf, &RenderStage::ConfigMaps, &Reply::ConfigMaps(owned), today());
    assert_eq!(stage, RenderStage::Done);
    assert_eq!(step.next, Next::Requeue(30));
    // The two oldest go, the newer of them first.
    assert_eq!(
        step.writes,
        vec![Write::Delete(String::from("zf-2024030901")), Write::Delete(String::from("zf-2024030900"))]
    );
}

#[test]
fn retention_bound() {
    let owned = names(&["zf-5", "zf-3", "other", "zf-4", "zf-1", "zf-x", "zf-2"]);
    for history in 0..10u32 {
        let gone = expired_revisions("zf", history, &owned);
        assert!(owned.len() - gone.len() <= history as usize);
        assert_eq!(owned.len() - gone.len(), owned.len().min(history as usize));
        let mut seen = gone.clone();
        seen.sort();
        seen.dedup();
        assert_eq!(seen.len(), gone.len());
        assert!(gone.iter().all(|&i| i < owned.len()));
    }
    assert_eq!(expired_revisions("zf", 3, &owned), vec![6, 4, 2, 5]);
    assert_eq!(expired_revisions("zf", 5, &owned), vec![2, 5]);
    assert_eq!(expired_revisions("zf", 0, &owned), vec![0, 3, 1, 6, 4, 2, 5]);
    assert_eq!(expired_revisions("zf", 7, &owned), vec![]);
    assert_eq!(expired_revisions("zf", 3, &vec![]), vec![]);
}

#[test]
fn revision_names() {
    assert_eq!(revision_name_of("zf", 2024030900), "zf-2024030900");
    assert_eq!(revision_name_of("", 0), "-0");
    assert_eq!(revision_serial_of("zf", "zf-2024030900"), Some(2024030900));
    assert_eq!(revision_serial_of("zf", "zf-0"), Some(0));
    assert_eq!(revision_serial_of("zf", "zf-4294967295"), Some(u32::MAX));
    assert_eq!(revision_serial_of("zf", "zf-4294967296"), None);
    assert_eq!(revision_serial_of("zf", "zf-01"), None);
    assert_eq!(revision_serial_of("zf", "zf-"), None);
    assert_eq!(revision_serial_of("zf", "zf"), None);
    assert_eq!(revision_serial_of("zf", "zg-1"), None);
    assert_eq!(revision_serial_of("zf", "zf-1-2"), None);
    assert_eq!(revision_serial_of("zf-1", "zf-1-2"), Some(2));
    assert_eq!(revision_serial_of("zf", "zf--1"), None);
    for serial in [0, 1, 9, 10, 99, 100, 2024030900, u32::MAX] {
        assert_eq!(revision_serial_of("zone-file", &revision_name_of("zone-file", serial)), Some(serial));
    }
}

#[test]
fn reconcile_reads_the_clock_only_to_render() {
    let zf = zonefile(1, 10, None);
    assert_eq!(
        reconcile_zonefiles(&zf, &RenderStage::Start, &Reply::Start),
        zonefile_step_on(&zf, &RenderStage::Start, &Reply::Start, today())
    );
    let (stage, step) = reconcile_zonefiles(&zf, &records_stage("H"), &Reply::Records(vec![]));
    assert_eq!(stage, RenderStage::ConfigMaps);
    let Write::Serial(serial) = step.writes[1] else {
        panic!("no serial");
    };
    // The clock shows a day of this century.
    assert!(serial >= 2024010100);
    assert!(serial < 2100010100);
    assert_eq!(serial % 100, 0);
    assert!((1..=12).contains(&(serial / 10000 % 100)));
    assert!((1..=31).contains(&(serial / 100 % 100)));
}

fn listed(name: &str, owners: &[&str]) -> ListedConfigMap {
    ListedConfigMap { name: name.to_string(), owners: owners.iter().map(|s| s.to_string()).collect() }
}

#[test]
fn owned_config_maps_are_those_that_name_the_owner() {
    let maps = vec![
        listed("zf-1", &["uid-zf"]),
        listed("other", &["uid-other"]),
        listed("shared", &["uid-other", "uid-zf"]),
        listed("orphan", &[]),
        listed("zf-2", &["uid-zf", "uid-zf"]),
        listed("near", &["uid-zf2", "uid-z"]),
    ];
    assert_eq!(owned_config_maps(&Some(String::from("uid-zf")), &maps), names(&["zf-1", "shared", "zf-2"]));
    assert_eq!(owned_config_maps(&Some(String::from("uid-other")), &maps), names(&["other", "shared"]));
    assert_eq!(owned_config_maps(&Some(String::from("nobody")), &maps), names(&[]));
    assert_eq!(owned_config_maps(&Some(String::new()), &maps), names(&[]));
    assert_eq!(owned_config_maps(&None, &maps), names(&[]));
    assert_eq!(owned_config_maps(&Some(String::from("uid-zf")), &vec![]), names(&[]));
}
