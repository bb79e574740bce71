//! What a reconciler and the program that drives it say to each other. A
//! reconciler never talks to the cluster. It is handed what the cluster
//! answered, and hands back the changes to make and the next thing to ask
//! for.

use vstd::prelude::*;
use crate::meta::{ZoneRef, ZoneRefView};
use crate::record::{RecordSpec, RecordSpecView};
use crate::zone::{Zone, ZoneSpec, ZoneSpecView, ZoneView};

verus! {

/// Seconds to wait after a reconciliation that failed.
pub const ERROR_REQUEUE: u64 = 60;

/// Seconds to wait for something that should be there soon.
pub const SOON: u64 = 5;

/// Seconds to wait for an object that is missing, and between two looks at
/// a record or a zone file.
pub const SHORT: u64 = 30;

/// Seconds to wait where only a change by the author helps, and between
/// two looks at a zone.
pub const LONG: u64 = 300;

/// A reference from a config map to the object that owns it.
#[derive(Debug, Clone, PartialEq, Eq)]
pub struct OwnerReference {
    pub api_version: String,
    pub kind: String,
    pub name: String,
    pub uid: String,
    /// Whether the owner is the controller that manages the object.
    pub controller: bool,
}

/// The mathematical value of an [`OwnerReference`].
pub struct OwnerReferenceView {
    pub api_version: Seq<char>,
    pub kind: Seq<char>,
    pub name: Seq<char>,
    pub uid: Seq<char>,
    pub controller: bool,
}

impl View for OwnerReference {
    type V = OwnerReferenceView;

    open spec fn view(&self) -> OwnerReferenceView {
        OwnerReferenceView {
            api_version: self.api_version@,
            kind: self.kind@,
            name: self.name@,
            uid: self.uid@,
            controller: self.controller,
        }
    }
}

impl DeepView for OwnerReference {
    type V = OwnerReferenceView;

    open spec fn deep_view(&self) -> OwnerReferenceView {
        self@
    }
}

/// A config map that holds one rendering of a zone file.
#[derive(Debug, Clone, PartialEq, Eq)]
pub struct ConfigMap {
    pub name: String,
    pub namespace: Option<String>,
    pub owner_references: Vec<OwnerReference>,
    /// The text under the key `zonefile`.
    pub zonefile: String,
}

/// The mathematical value of a [`ConfigMap`].
pub struct ConfigMapView {
    pub name: Seq<char>,
    pub namespace: Option<Seq<char>>,
    pub owner_references: Seq<OwnerReferenceView>,
    pub zonefile: Seq<char>,
}

impl View for ConfigMap {
    type V = ConfigMapView;

    open spec fn view(&self) -> ConfigMapView {
        ConfigMapView {
            name: self.name@,
            namespace: self.namespace.deep_view(),
            owner_references: self.owner_references.deep_view(),
            zonefile: self.zonefile@,
        }
    }
}

impl DeepView for ConfigMap {
    type V = ConfigMapView;

    open spec fn deep_view(&self) -> ConfigMapView {
        self@
    }
}

/// A change to make in the cluster.
#[derive(Debug, Clone, PartialEq, Eq)]
pub enum Write {
    /// Set `status.fqdn` of the object under reconciliation.
    Fqdn(String),
    /// Set `status.hash` of the zone under reconciliation.
    Hash(String),
    /// Set the label that names the parent zone on the object under
    /// reconciliation.
    ParentZone(String),
    /// Set the label that names the zone file on a zone.
    ZoneFileLabel { zone: ZoneRef, value: String },
    /// Create the config map, or replace the one of its name.
    Apply(ConfigMap),
    /// Set `spec.serial` of the zone file under reconciliation.
    Serial(u32),
    /// Set the status of the zone file under reconciliation.
    Rendered { hash: String, serial: u32, config_map: String },
    /// Delete the config map of this name in the namespace of the zone
    /// file under reconciliation.
    Delete(String),
}

/// The mathematical value of a [`Write`].
pub enum WriteView {
    Fqdn(Seq<char>),
    Hash(Seq<char>),
    ParentZone(Seq<char>),
    ZoneFileLabel { zone: ZoneRefView, value: Seq<char> },
    Apply(ConfigMapView),
    Serial(u32),
    Rendered { hash: Seq<char>, serial: u32, config_map: Seq<char> },
    Delete(Seq<char>),
}

impl View for Write {
    type V = WriteView;

    open spec fn view(&self) -> WriteView {
        match self {
            Write::Fqdn(fqdn) => WriteView::Fqdn(fqdn@),
            Write::Hash(hash) => WriteView::Hash(hash@),
            Write::ParentZone(label) => WriteView::ParentZone(label@),
            Write::ZoneFileLabel { zone, value } => WriteView::ZoneFileLabel {
                zone: zone@,
                value: value@,
            },
            Write::Apply(config_map) => WriteView::Apply(config_map@),
            Write::Serial(serial) => WriteView::Serial(*serial),
            Write::Rendered { hash, serial, config_map } => WriteView::Rendered {
                hash: hash@,
                serial: *serial,
                config_map: config_map@,
            },
            Write::Delete(name) => WriteView::Delete(name@),
        }
    }
}

impl DeepView for Write {
    type V = WriteView;

    open spec fn deep_view(&self) -> WriteView {
        self@
    }
}

/// Something to read from the cluster.
#[derive(Debug, Clone, PartialEq, Eq)]
pub enum Request {
    /// The zone that the reference names.
    Zone(ZoneRef),
    /// All zones of the cluster.
    Zones,
    /// What the zones and the records whose parent label has this value
    /// ask for.
    Children(String),
    /// What the records whose parent label has this value ask for.
    Records(String),
    /// The names of the config maps owned by the zone file under
    /// reconciliation.
    ConfigMaps,
}

/// The mathematical value of a [`Request`].
pub enum RequestView {
    Zone(ZoneRefView),
    Zones,
    Children(Seq<char>),
    Records(Seq<char>),
    ConfigMaps,
}

impl View for Request {
    type V = RequestView;

    open spec fn view(&self) -> RequestView {
        match self {
            Request::Zone(reference) => RequestView::Zone(reference@),
            Request::Zones => RequestView::Zones,
            Request::Children(label) => RequestView::Children(label@),
            Request::Records(label) => RequestView::Records(label@),
            Request::ConfigMaps => RequestView::ConfigMaps,
        }
    }
}

/// What the cluster answered.
#[derive(Debug, Clone, PartialEq, Eq)]
pub enum Reply {
    /// Nothing was asked yet.
    Start,
    /// The zone asked for, or none where the cluster has no such zone.
    Zone(Option<Zone>),
    Zones(Vec<Zone>),
    Children { zones: Vec<ZoneSpec>, records: Vec<RecordSpec> },
    Records(Vec<RecordSpec>),
    ConfigMaps(Vec<String>),
}

/// The mathematical value of a [`Reply`].
pub enum ReplyView {
    Start,
    Zone(Option<ZoneView>),
    Zones(Seq<ZoneView>),
    Children { zones: Seq<ZoneSpecView>, records: Seq<RecordSpecView> },
    Records(Seq<RecordSpecView>),
    ConfigMaps(Seq<Seq<char>>),
}

impl View for Reply {
    type V = ReplyView;

    open spec fn view(&self) -> ReplyView {
        match self {
            Reply::Start => ReplyView::Start,
            Reply::Zone(zone) => ReplyView::Zone(zone.deep_view()),
            Reply::Zones(zones) => ReplyView::Zones(zones.deep_view()),
            Reply::Children { zones, records } => ReplyView::Children {
                zones: zones.deep_view(),
                records: records.deep_view(),
            },
            Reply::Records(records) => ReplyView::Records(records.deep_view()),
            Reply::ConfigMaps(names) => ReplyView::ConfigMaps(names.deep_view()),
        }
    }
}

/// Why a reconciliation gave up.
#[derive(Debug, Clone, Copy, PartialEq, Eq)]
pub enum Failure {
    /// The reply does not answer what the reconciler asked for.
    UnexpectedReply,
    /// The zone that a zone file is to render does not exist.
    ZoneNotFound,
    /// The zone file has no identity that a config map could name as its
    /// owner.
    NoIdentity,
    /// There is no serial above the last one, or none for this day, or
    /// the clock shows no day that can be told.
    SerialExhausted,
}

/// What follows the changes of a step.
#[derive(Debug, Clone, PartialEq, Eq)]
pub enum Next {
    /// Read this, and come back with the answer.
    Ask(Request),
    /// The reconciliation is done; look again after so many seconds.
    Requeue(u64),
    /// The reconciliation failed.
    Fail(Failure),
}

/// The mathematical value of a [`Next`].
pub enum NextView {
    Ask(RequestView),
    Requeue(u64),
    Fail(Failure),
}

impl View for Next {
    type V = NextView;

    open spec fn view(&self) -> NextView {
        match self {
            Next::Ask(request) => NextView::Ask(request@),
            Next::Requeue(seconds) => NextView::Requeue(*seconds),
            Next::Fail(failure) => NextView::Fail(*failure),
        }
    }
}

/// One step of a reconciliation: the changes to make, in this order, and
/// what follows them.
#[derive(Debug, Clone, PartialEq, Eq)]
pub struct Step {
    pub writes: Vec<Write>,
    pub next: Next,
}

/// The mathematical value of a [`Step`].
pub struct StepView {
    pub writes: Seq<WriteView>,
    pub next: NextView,
}

impl View for Step {
    type V = StepView;

    open spec fn view(&self) -> StepView {
        StepView { writes: self.writes.deep_view(), next: self.next@ }
    }
}

/// The writes of an optional write: itself, or none.
pub open spec fn some_write(write: Option<WriteView>) -> Seq<WriteView> {
    match write {
        Some(w) => seq![w],
        None => Seq::empty(),
    }
}

/// A step without changes.
pub open spec fn just(next: NextView) -> StepView {
    StepView { writes: Seq::empty(), next }
}

/// A step without changes.
pub fn just_next(next: Next) -> (step: Step)
    ensures
        step@ == just(next@),
{
    let step = Step { writes: Vec::new(), next };
    assert(step@.writes =~= Seq::empty());
    step
}

/// Appends an optional write to a list of writes.
pub fn push_write(writes: &mut Vec<Write>, write: Option<Write>)
    ensures
        final(writes).deep_view() == old(writes).deep_view() + some_write(write.deep_view()),
{
    let ghost before = writes.deep_view();
    match write {
        Some(w) => {
            writes.push(w);
            assert(writes.deep_view() =~= before + seq![w@]);
        },
        None => {
            assert(writes.deep_view() =~= before + Seq::<WriteView>::empty());
        },
    }
}

} // verus!
