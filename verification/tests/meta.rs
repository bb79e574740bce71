use kubizone::meta::{
    watch_reference, ObjectKey, ObjectMeta, ZoneRef, PARENT_ZONE_LABEL, TARGET_ZONEFILE_LABEL,
};
use kubizone::zonefile::{ZoneFile, ZoneFileSpec};

#[test]
fn label_names() {
    assert_eq!(PARENT_ZONE_LABEL, "kubi.zone/parent-zone");
    assert_eq!(TARGET_ZONEFILE_LABEL, "kubi.zone/zonefile");
}

#[test]
fn zone_ref_as_label() {
    let full = ZoneRef { name: String::from("root"), namespace: Some(String::from("default")) };
    assert_eq!(full.as_label(), "root.default");
    let bare = ZoneRef { name: String::from("root"), namespace: None };
    assert_eq!(bare.as_label(), "root");
}

#[test]
fn zone_ref_within_a_namespace() {
    let bare = ZoneRef { name: String::from("root"), namespace: None };
    assert_eq!(
        bare.within(&Some(String::from("default"))),
        ZoneRef { name: String::from("root"), namespace: Some(String::from("default")) }
    );
    assert_eq!(bare.within(&None), bare);
    let full = ZoneRef { name: String::from("root"), namespace: Some(String::from("prod")) };
    assert_eq!(full.within(&Some(String::from("default"))), full);
}

#[test]
fn watch_reference_splits_at_the_first_dot() {
    assert_eq!(
        watch_reference(Some(&String::from("root.default"))),
        Some(ObjectKey { name: String::from("root"), namespace: String::from("default") })
    );
    assert_eq!(
        watch_reference(Some(&String::from("a.b.c"))),
        Some(ObjectKey { name: String::from("a"), namespace: String::from("b.c") })
    );
    assert_eq!(
        watch_reference(Some(&String::from(".ns"))),
        Some(ObjectKey { name: String::new(), namespace: String::from("ns") })
    );
    assert_eq!(
        watch_reference(Some(&String::from("name."))),
        Some(ObjectKey { name: String::from("name"), namespace: String::new() })
    );
}

#[test]
fn watch_reference_without_a_target() {
    assert_eq!(watch_reference(None), None);
    assert_eq!(watch_reference(Some(&String::from("root"))), None);
    assert_eq!(watch_reference(Some(&String::new())), None);
    assert_eq!(watch_reference(Some(&String::from("root/default"))), None);
}

#[test]
fn label_round_trip() {
    let reference = ZoneRef { name: String::from("root"), namespace: Some(String::from("default")) };
    let key = watch_reference(Some(&reference.as_label())).unwrap();
    assert_eq!(key.name, "root");
    assert_eq!(key.namespace, "default");
}

#[test]
fn default_metadata_is_empty() {
    let meta = ObjectMeta::default();
    assert_eq!(meta.name, "");
    assert_eq!(meta.namespace, None);
    assert_eq!(meta.uid, None);
    assert_eq!(meta.parent_zone, None);
    assert_eq!(meta.zonefile, None);
    assert_eq!(meta.namespace_or_empty(), "");
    assert_eq!(meta.zone_ref(), ZoneRef { name: String::new(), namespace: None });
}

fn zonefile(namespace: Option<&str>, target_namespace: Option<&str>) -> ZoneFile {
    ZoneFile {
        metadata: ObjectMeta {
            name: String::from("zf"),
            namespace: namespace.map(|s| s.to_string()),
            ..Default::default()
        },
        spec: ZoneFileSpec {
            zone_ref: ZoneRef {
                name: String::from("root"),
                namespace: target_namespace.map(|s| s.to_string()),
            },
            history: 10,
            ttl: 360,
            serial: 1,
            refresh: 86400,
            retry: 7200,
            expire: 3600000,
            negative_response_cache: 360,
        },
        status: None,
    }
}

#[test]
fn zone_file_names_its_zone() {
    assert_eq!(zonefile(Some("default"), None).zone_ref().as_label(), "root.default");
    assert_eq!(zonefile(Some("default"), Some("prod")).zone_ref().as_label(), "root.prod");
    assert_eq!(zonefile(None, None).zone_ref().as_label(), "root");
    assert_eq!(zonefile(None, None).hash(), None);
}
