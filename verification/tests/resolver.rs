use kubizone::action::{Failure, Next, Reply, Request, Step, Write};
use kubizone::hash::zone_hash;
use kubizone::meta::{ObjectMeta, ZoneRef};
use kubizone::record::{Record, RecordSpec, RecordStatus};
use kubizone::resolver::{
    alleged_fqdn_of, ends_in_dot, find_longest_matching_parent_zone, mark_record_parents,
    mark_zone_parents, reconcile_records, reconcile_zones, set_record_fqdn, set_record_parent_ref,
    set_zone_fqdn, set_zone_parent_ref, update_zone_hash, Stage,
};
use kubizone::zone::{Delegation, RecordDelegation, Zone, ZoneSpec, ZoneStatus};

fn zone_delegation(namespaces: &[&str], zones: &[&str]) -> Delegation {
    Delegation {
        namespaces: namespaces.iter().map(|s| s.to_string()).collect(),
        zones: zones.iter().map(|s| s.to_string()).collect(),
        records: vec![],
    }
}

fn record_delegation(namespaces: &[&str], pattern: &str, types: &[&str]) -> Delegation {
    Delegation {
        namespaces: namespaces.iter().map(|s| s.to_string()).collect(),
        zones: vec![],
        records: vec![RecordDelegation {
            pattern: pattern.to_string(),
            record_types: types.iter().map(|s| s.to_string()).collect(),
        }],
    }
}

fn zone(name: &str, domain: &str, zone_ref: Option<&str>, fqdn: Option<&str>, delegations: Vec<Delegation>) -> Zone {
    Zone {
        metadata: ObjectMeta {
            name: name.to_string(),
            namespace: Some(String::from("default")),
            uid: Some(format!("uid-{name}")),
            ..Default::default()
        },
        spec: ZoneSpec {
            domain_name: domain.to_string(),
            zone_ref: zone_ref.map(|n| ZoneRef { name: n.to_string(), namespace: None }),
            delegations,
        },
        status: fqdn.map(|f| ZoneStatus { fqdn: Some(f.to_string()), hash: None }),
    }
}

fn record(domain: &str, type_: &str, zone_ref: Option<&str>) -> Record {
    Record {
        metadata: ObjectMeta {
            name: String::from("rec"),
            namespace: Some(String::from("default")),
            uid: Some(String::from("uid-rec")),
            ..Default::default()
        },
        spec: RecordSpec {
            domain_name: domain.to_string(),
            zone_ref: zone_ref.map(|n| ZoneRef { name: n.to_string(), namespace: None }),
            type_: type_.to_string(),
            class: String::from("IN"),
            ttl: None,
            rdata: String::from("192.168.0.1"),
        },
        status: None,
    }
}

fn root() -> Zone {
    zone(
        "root",
        "example.org.",
        None,
        Some("example.org."),
        vec![zone_delegation(&["default"], &["*.example.org."])],
    )
}

fn done(next: Next) -> (Stage, Step) {
    (Stage::Done, Step { writes: vec![], next })
}

#[test]
fn fully_qualified_names_end_in_a_dot() {
    assert!(ends_in_dot("example.org."));
    assert!(ends_in_dot("."));
    assert!(!ends_in_dot("example.org"));
    assert!(!ends_in_dot(""));
    assert!(!ends_in_dot(".org"));
    assert_eq!(alleged_fqdn_of("api", "example.org."), "api.example.org.");
    assert_eq!(alleged_fqdn_of("", ""), ".");
}

#[test]
fn root_fqdn_zone_resolves_itself() {
    let z = zone("root", "example.org.", None, None, vec![]);
    let (stage, step) = reconcile_zones(&z, Stage::Start, &Reply::Start);
    assert_eq!(stage, Stage::Zones);
    assert_eq!(step.writes, vec![Write::Fqdn(String::from("example.org."))]);
    assert_eq!(step.next, Next::Ask(Request::Zones));

    // No zone can be its parent: the label stays unset, the digest follows.
    let (stage, step) = reconcile_zones(&z, stage, &Reply::Zones(vec![z.clone()]));
    assert_eq!(stage, Stage::Children);
    assert_eq!(step.writes, vec![]);
    assert_eq!(step.next, Next::Ask(Request::Children(String::from("root.default"))));

    let (stage, step) = reconcile_zones(&z, stage, &Reply::Children { zones: vec![], records: vec![] });
    assert_eq!(stage, Stage::Done);
    assert_eq!(step.writes, vec![Write::Hash(zone_hash(&vec![], &vec![]))]);
    assert_eq!(step.next, Next::Requeue(300));
}

#[test]
fn resolved_zone_is_not_written_again() {
    let mut z = root();
    z.status = Some(ZoneStatus {
        fqdn: Some(String::from("example.org.")),
        hash: Some(zone_hash(&vec![], &vec![])),
    });
    let (stage, step) = reconcile_zones(&z, Stage::Start, &Reply::Start);
    assert_eq!(step.writes, vec![]);
    let (stage, step) = reconcile_zones(&z, stage, &Reply::Zones(vec![]));
    assert_eq!(step.writes, vec![]);
    let (stage, step) = reconcile_zones(&z, stage, &Reply::Children { zones: vec![], records: vec![] });
    assert_eq!((stage, step), done(Next::Requeue(300)));
}

#[test]
fn child_zone_via_zone_ref() {
    let child = zone("child", "api", Some("root"), None, vec![]);
    let (stage, step) = reconcile_zones(&child, Stage::Start, &Reply::Start);
    assert_eq!(stage, Stage::Parent);
    assert_eq!(step.writes, vec![]);
    assert_eq!(
        step.next,
        Next::Ask(Request::Zone(ZoneRef {
            name: String::from("root"),
            namespace: Some(String::from("default")),
        }))
    );

    let (stage, step) = reconcile_zones(&child, stage, &Reply::Zone(Some(root())));
    assert_eq!(stage, Stage::Children);
    assert_eq!(
        step.writes,
        vec![
            Write::Fqdn(String::from("api.example.org.")),
            Write::ParentZone(String::from("root.default")),
        ]
    );
    assert_eq!(step.next, Next::Ask(Request::Children(String::from("child.default"))));
}

#[test]
fn child_zone_with_name_and_label_in_place() {
    let mut child = zone("child", "api", Some("root"), Some("api.example.org."), vec![]);
    child.metadata.parent_zone = Some(String::from("root.default"));
    let (stage, step) = reconcile_zones(&child, Stage::Parent, &Reply::Zone(Some(root())));
    assert_eq!(stage, Stage::Children);
    assert_eq!(step.writes, vec![]);
}

#[test]
fn zone_ref_names_its_own_namespace() {
    let mut child = zone("child", "api", Some("root"), None, vec![]);
    child.spec.zone_ref = Some(ZoneRef { name: String::from("root"), namespace: Some(String::from("prod")) });
    let (_, step) = reconcile_zones(&child, Stage::Start, &Reply::Start);
    assert_eq!(
        step.next,
        Next::Ask(Request::Zone(ZoneRef { name: String::from("root"), namespace: Some(String::from("prod")) }))
    );
}

#[test]
fn zone_waits_for_its_parent() {
    let child = zone("child", "api", Some("root"), None, vec![]);
    // The parent is missing.
    assert_eq!(reconcile_zones(&child, Stage::Parent, &Reply::Zone(None)), done(Next::Requeue(30)));
    // The parent has no fully qualified name yet.
    let unresolved = zone("root", "example.org.", None, None, vec![zone_delegation(&[], &["*.example.org."])]);
    assert_eq!(
        reconcile_zones(&child, Stage::Parent, &Reply::Zone(Some(unresolved))),
        done(Next::Requeue(5))
    );
}

#[test]
fn zone_adoption_denied() {
    let child = zone("child", "api", Some("root"), None, vec![]);
    let no_delegations = zone("root", "example.org.", None, Some("example.org."), vec![]);
    assert_eq!(
        reconcile_zones(&child, Stage::Parent, &Reply::Zone(Some(no_delegations))),
        done(Next::Requeue(300))
    );
    let other_namespace = zone(
        "root",
        "example.org.",
        None,
        Some("example.org."),
        vec![zone_delegation(&["prod"], &["*.example.org."])],
    );
    assert_eq!(
        reconcile_zones(&child, Stage::Parent, &Reply::Zone(Some(other_namespace))),
        done(Next::Requeue(300))
    );
    let other_pattern = zone(
        "root",
        "example.org.",
        None,
        Some("example.org."),
        vec![zone_delegation(&["default"], &["www.example.org."])],
    );
    assert_eq!(
        reconcile_zones(&child, Stage::Parent, &Reply::Zone(Some(other_pattern))),
        done(Next::Requeue(300))
    );
}

#[test]
fn zone_with_both_or_neither_is_left_alone() {
    let both = zone("z", "example.org.", Some("root"), None, vec![]);
    assert_eq!(reconcile_zones(&both, Stage::Start, &Reply::Start), done(Next::Requeue(300)));
    let neither = zone("z", "example", None, None, vec![]);
    assert_eq!(reconcile_zones(&neither, Stage::Start, &Reply::Start), done(Next::Requeue(300)));
    let both = record("www.example.org.", "A", Some("root"));
    assert_eq!(reconcile_records(&both, Stage::Start, &Reply::Start), done(Next::Requeue(300)));
    let neither = record("www", "A", None);
    assert_eq!(reconcile_records(&neither, Stage::Start, &Reply::Start), done(Next::Requeue(300)));
}

#[test]
fn unexpected_replies_fail() {
    let fail = done(Next::Fail(Failure::UnexpectedReply));
    let z = root();
    assert_eq!(reconcile_zones(&z, Stage::Start, &Reply::Zones(vec![])), fail);
    assert_eq!(reconcile_zones(&z, Stage::Zones, &Reply::Start), fail);
    assert_eq!(reconcile_zones(&z, Stage::Done, &Reply::Start), fail);
    assert_eq!(reconcile_zones(&z, Stage::Children, &Reply::Records(vec![])), fail);
    // A zone with a fully qualified name never asked for a parent.
    assert_eq!(reconcile_zones(&z, Stage::Parent, &Reply::Zone(None)), fail);
    // A zone with a relative name never asked for all zones.
    let child = zone("child", "api", Some("root"), None, vec![]);
    assert_eq!(reconcile_zones(&child, Stage::Zones, &Reply::Zones(vec![])), fail);
    let r = record("www.example.org.", "A", None);
    assert_eq!(reconcile_records(&r, Stage::Start, &Reply::ConfigMaps(vec![])), fail);
    assert_eq!(reconcile_records(&r, Stage::Parent, &Reply::Zone(None)), fail);
    assert_eq!(reconcile_records(&r, Stage::Children, &Reply::Children { zones: vec![], records: vec![] }), fail);
    let relative = record("www", "A", Some("root"));
    assert_eq!(reconcile_records(&relative, Stage::Zones, &Reply::Zones(vec![])), fail);
}

#[test]
fn fqdn_zone_finds_its_longest_parent() {
    let org = zone("org", "org.", None, Some("org."), vec![zone_delegation(&[], &["*.org."])]);
    let example = root();
    let unrelated = zone("com", "com.", None, Some("com."), vec![zone_delegation(&[], &["*.com."])]);
    let z = zone("api", "api.example.org.", None, None, vec![]);
    let (stage, step) = reconcile_zones(&z, Stage::Zones, &Reply::Zones(vec![org, z.clone(), example, unrelated]));
    assert_eq!(stage, Stage::Children);
    assert_eq!(step.writes, vec![Write::ParentZone(String::from("root.default"))]);
    assert_eq!(step.next, Next::Ask(Request::Children(String::from("api.default"))));
}

#[test]
fn zone_hash_is_written_when_it_changes() {
    let mut z = root();
    let children = vec![zone("child", "api", Some("root"), None, vec![]).spec];
    let records = vec![record("www", "A", Some("root")).spec];
    let hash = zone_hash(&children, &records);
    assert_eq!(update_zone_hash(&z, &children, &records), Some(Write::Hash(hash.clone())));
    z.status = Some(ZoneStatus { fqdn: Some(String::from("example.org.")), hash: Some(String::from("1")) });
    assert_eq!(update_zone_hash(&z, &children, &records), Some(Write::Hash(hash.clone())));
    z.status = Some(ZoneStatus { fqdn: Some(String::from("example.org.")), hash: Some(hash) });
    assert_eq!(update_zone_hash(&z, &children, &records), None);
    let (stage, step) = reconcile_zones(&z, Stage::Children, &Reply::Children { zones: children, records });
    assert_eq!((stage, step), done(Next::Requeue(300)));
}

#[test]
fn writes_are_left_out_when_nothing_changes() {
    let mut z = zone("z", "api", Some("root"), None, vec![]);
    let parent = ZoneRef { name: String::from("root"), namespace: Some(String::from("default")) };
    assert_eq!(set_zone_fqdn(&z, "api.example.org."), Some(Write::Fqdn(String::from("api.example.org."))));
    assert_eq!(set_zone_parent_ref(&z, &parent), Some(Write::ParentZone(String::from("root.default"))));
    z.status = Some(ZoneStatus { fqdn: Some(String::from("api.example.org.")), hash: None });
    z.metadata.parent_zone = Some(String::from("root.default"));
    assert_eq!(set_zone_fqdn(&z, "api.example.org."), None);
    assert_eq!(set_zone_fqdn(&z, "api.example.com."), Some(Write::Fqdn(String::from("api.example.com."))));
    assert_eq!(set_zone_parent_ref(&z, &parent), None);
    let other = ZoneRef { name: String::from("root"), namespace: Some(String::from("prod")) };
    assert_eq!(set_zone_parent_ref(&z, &other), Some(Write::ParentZone(String::from("root.prod"))));

    let mut r = record("www", "A", Some("root"));
    assert_eq!(set_record_fqdn(&r, "www.example.org."), Some(Write::Fqdn(String::from("www.example.org."))));
    assert_eq!(set_record_parent_ref(&r, &parent), Some(Write::ParentZone(String::from("root.default"))));
    r.status = Some(RecordStatus { fqdn: Some(String::from("www.example.org.")) });
    r.metadata.parent_zone = Some(String::from("root.default"));
    assert_eq!(set_record_fqdn(&r, "www.example.org."), None);
    assert_eq!(set_record_parent_ref(&r, &parent), None);
}

fn example_org() -> Zone {
    zone(
        "example",
        "example.org.",
        None,
        Some("example.org."),
        vec![record_delegation(&["default"], "*.example.org.", &["A"])],
    )
}

fn api_example_org() -> Zone {
    zone(
        "api",
        "api.example.org.",
        None,
        Some("api.example.org."),
        vec![record_delegation(&["default"], "*.api.example.org.", &["A"])],
    )
}

#[test]
fn record_attaches_to_longest_parent() {
    let r = record("www.api.example.org.", "A", None);
    let (stage, step) = reconcile_records(&r, Stage::Start, &Reply::Start);
    assert_eq!(stage, Stage::Zones);
    assert_eq!(step.writes, vec![Write::Fqdn(String::from("www.api.example.org."))]);
    assert_eq!(step.next, Next::Ask(Request::Zones));
    for zones in [
        vec![example_org(), api_example_org()],
        vec![api_example_org(), example_org()],
    ] {
        let (stage, step) = reconcile_records(&r, Stage::Zones, &Reply::Zones(zones));
        assert_eq!(stage, Stage::Done);
        assert_eq!(step.writes, vec![Write::ParentZone(String::from("api.default"))]);
        assert_eq!(step.next, Next::Requeue(30));
    }
}

#[test]
fn delegation_denial() {
    let r = record("www.example.org.", "MX", None);
    let (stage, step) = reconcile_records(&r, Stage::Zones, &Reply::Zones(vec![example_org()]));
    // The parent label stays unset and the record is looked at again in 30 s.
    assert_eq!((stage, step), done(Next::Requeue(30)));
}

#[test]
fn record_via_zone_ref() {
    let r = record("www", "a", Some("example"));
    let (stage, step) = reconcile_records(&r, Stage::Start, &Reply::Start);
    assert_eq!(stage, Stage::Parent);
    assert_eq!(
        step.next,
        Next::Ask(Request::Zone(ZoneRef { name: String::from("example"), namespace: Some(String::from("default")) }))
    );
    let (stage, step) = reconcile_records(&r, stage, &Reply::Zone(Some(example_org())));
    assert_eq!(stage, Stage::Done);
    assert_eq!(
        step.writes,
        vec![
            Write::Fqdn(String::from("www.example.org.")),
            Write::ParentZone(String::from("example.default")),
        ]
    );
    assert_eq!(step.next, Next::Requeue(30));
}

#[test]
fn record_waits_or_is_denied() {
    let r = record("www", "MX", Some("example"));
    assert_eq!(reconcile_records(&r, Stage::Parent, &Reply::Zone(None)), done(Next::Requeue(30)));
    let unresolved = zone("example", "example.org.", None, None, vec![]);
    assert_eq!(reconcile_records(&r, Stage::Parent, &Reply::Zone(Some(unresolved))), done(Next::Requeue(5)));
    assert_eq!(
        reconcile_records(&r, Stage::Parent, &Reply::Zone(Some(example_org()))),
        done(Next::Requeue(300))
    );
}

#[test]
fn longest_parent_is_picked_last_among_equals() {
    let zones = vec![
        zone("a", "example.org.", None, Some("example.org."), vec![]),
        zone("b", "api.example.org.", None, Some("api.example.org."), vec![]),
        zone("c", "api.example.org.", None, Some("api.example.org."), vec![]),
        zone("d", "org.", None, Some("org."), vec![]),
        zone("e", "longest.api.example.org.", None, Some("longest.api.example.org."), vec![]),
    ];
    assert_eq!(find_longest_matching_parent_zone(&zones, &vec![true, true, true, true, false]), Some(2));
    assert_eq!(find_longest_matching_parent_zone(&zones, &vec![true, true, false, true, false]), Some(1));
    assert_eq!(find_longest_matching_parent_zone(&zones, &vec![true, false, false, true, false]), Some(0));
    assert_eq!(find_longest_matching_parent_zone(&zones, &vec![false, false, false, true, false]), Some(3));
    assert_eq!(find_longest_matching_parent_zone(&zones, &vec![true; 5]), Some(4));
    assert_eq!(find_longest_matching_parent_zone(&zones, &vec![false; 5]), None);
    assert_eq!(find_longest_matching_parent_zone(&vec![], &vec![]), None);
}

#[test]
fn parents_are_marked_by_delegation_and_suffix() {
    let unresolved = zone(
        "u",
        "example.org.",
        None,
        None,
        vec![record_delegation(&[], "*.example.org.", &[]), zone_delegation(&[], &["*.example.org."])],
    );
    let mut renamed = example_org();
    renamed.status = Some(ZoneStatus { fqdn: Some(String::from("example.com.")), hash: None });
    let zones = vec![example_org(), api_example_org(), unresolved, renamed, root()];
    assert_eq!(
        mark_record_parents(&zones, "www.api.example.org.", "default", "A", "www.api.example.org."),
        vec![true, true, false, false, false]
    );
    assert_eq!(
        mark_record_parents(&zones, "www.example.org.", "default", "A", "www.example.org."),
        vec![true, false, false, false, false]
    );
    assert_eq!(
        mark_record_parents(&zones, "www.example.org.", "other", "A", "www.example.org."),
        vec![false; 5]
    );
    assert_eq!(
        mark_zone_parents(&zones, "api.example.org.", &Some(String::from("uid-x")), "default", "api.example.org."),
        vec![false, false, false, false, true]
    );
    // A zone is no parent of itself.
    assert_eq!(
        mark_zone_parents(&zones, "api.example.org.", &Some(String::from("uid-root")), "default", "api.example.org."),
        vec![false; 5]
    );
}
