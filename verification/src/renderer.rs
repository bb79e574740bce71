//! The renderer: when the digest of a zone changes, it renders the zone
//! file anew under the next serial, publishes it as a config map owned by
//! the zone file, and trims the older renderings.

use vstd::prelude::*;
use vstd::string::*;
use crate::action::{
    just, just_next, push_write, some_write, ConfigMap, ConfigMapView, Failure, Next, NextView,
    OwnerReference, OwnerReferenceView, Reply, ReplyView, Request, RequestView, Step, StepView,
    Write, WriteView, ERROR_REQUEUE, SHORT, SOON,
};
use crate::meta::{clone_text, holds_text};
use crate::record::{RecordSpec, RecordSpecView};
use crate::render::{build_zonefile, zonefile_text};
use crate::retention::{
    expired, expired_revisions, rank_keys, revision_name, revision_name_of,
};
use crate::serial::{rotate_serial, rotated_serial, utc_today, UtcDate};
use crate::text::str_equal;
use crate::order::{ints, lemma_falling_order_arranges};
use crate::zone::{Zone, ZoneView};
use crate::zonefile::{ZoneFile, ZoneFileView};

verus! {

/// The API version of zone files.
pub const ZONEFILE_API_VERSION: &'static str = "zonefile.kubi.zone/v1alpha1";

/// The kind of zone files.
pub const ZONEFILE_KIND: &'static str = "ZoneFile";

/// How far the reconciliation of a zone file has come.
#[derive(Debug, Clone, PartialEq, Eq)]
pub enum RenderStage {
    /// Nothing was asked yet.
    Start,
    /// The zone to render was asked for.
    Zone,
    /// The records of the zone were asked for. The stage remembers the
    /// fully qualified name of the zone and its digest.
    Records { origin: String, hash: String },
    /// The config maps that the zone file owns were asked for.
    ConfigMaps,
    /// The reconciliation is over.
    Done,
}

/// The mathematical value of a [`RenderStage`].
pub enum RenderStageView {
    Start,
    Zone,
    Records { origin: Seq<char>, hash: Seq<char> },
    ConfigMaps,
    Done,
}

impl View for RenderStage {
    type V = RenderStageView;

    open spec fn view(&self) -> RenderStageView {
        match self {
            RenderStage::Start => RenderStageView::Start,
            RenderStage::Zone => RenderStageView::Zone,
            RenderStage::Records { origin, hash } => RenderStageView::Records {
                origin: origin@,
                hash: hash@,
            },
            RenderStage::ConfigMaps => RenderStageView::ConfigMaps,
            RenderStage::Done => RenderStageView::Done,
        }
    }
}

/// The reference by which a config map names the zone file that owns it;
/// none where the zone file has no identity.
pub open spec fn owner_of(zonefile: ZoneFileView) -> Option<OwnerReferenceView> {
    match zonefile.metadata.uid {
        Some(uid) => Some(
            OwnerReferenceView {
                api_version: ZONEFILE_API_VERSION@,
                kind: ZONEFILE_KIND@,
                name: zonefile.metadata.name,
                uid,
                controller: true,
            },
        ),
        None => None,
    }
}

/// The config map that publishes the rendering `text` of `zonefile` under
/// the serial `serial`: named after both, in the namespace of the zone
/// file, and owned by the zone file alone.
pub open spec fn rendering(
    zonefile: ZoneFileView,
    owner: OwnerReferenceView,
    serial: u32,
    text: Seq<char>,
) -> ConfigMapView {
    ConfigMapView {
        name: revision_name(zonefile.metadata.name, serial as nat),
        namespace: zonefile.metadata.namespace,
        owner_references: seq![owner],
        zonefile: text,
    }
}

/// The write that makes `zone` point back to `zonefile`; none where the
/// label of the zone does so already.
pub open spec fn backref_write(zonefile: ZoneFileView, zone: ZoneView) -> Option<WriteView> {
    if zone.metadata.zonefile == Some(zonefile.backref()) {
        None
    } else {
        Some(WriteView::ZoneFileLabel { zone: zone.zone_ref(), value: zonefile.backref() })
    }
}

/// Decides whether `zone` must be given the label that points back to
/// `zonefile`, so that a change of the zone wakes the zone file.
pub fn apply_zonefile_backref(zonefile: &ZoneFile, zone: &Zone) -> (write: Option<Write>)
    ensures
        write.deep_view() == backref_write(zonefile@, zone@),
{
    let mut value = zonefile.metadata.name.clone();
    value.append(".");
    let namespace = zonefile.metadata.namespace_or_empty();
    value.append(namespace.as_str());
    proof {
        reveal_strlit(".");
        assert("."@ =~= seq!['.']);
    }
    if holds_text(&zone.metadata.zonefile, value.as_str()) {
        None
    } else {
        Some(Write::ZoneFileLabel { zone: zone.zone_ref(), value })
    }
}

/// A step that ends the reconciliation without changes.
pub open spec fn end(next: NextView) -> (RenderStageView, StepView) {
    (RenderStageView::Done, just(next))
}

/// The step for a zone file whose zone was asked for. A missing zone is a
/// failure. Else the zone is made to point back to the zone file. Where
/// the zone has no digest or no fully qualified name yet, look again soon;
/// where its digest is the one last rendered, look again shortly; else ask
/// for the records of the zone.
pub open spec fn zone_found(zonefile: ZoneFileView, found: Option<ZoneView>) -> (
    RenderStageView,
    StepView,
) {
    match found {
        None => end(NextView::Fail(Failure::ZoneNotFound)),
        Some(zone) => {
            let writes = some_write(backref_write(zonefile, zone));
            match zone.hash() {
                None => (RenderStageView::Done, StepView { writes, next: NextView::Requeue(SOON) }),
                Some(hash) => if zonefile.hash() == Some(hash) {
                    (RenderStageView::Done, StepView { writes, next: NextView::Requeue(SHORT) })
                } else {
                    match zone.fqdn() {
                        None => (
                            RenderStageView::Done,
                            StepView { writes, next: NextView::Requeue(SOON) },
                        ),
                        Some(origin) => (
                            RenderStageView::Records { origin, hash },
                            StepView {
                                writes,
                                next: NextView::Ask(
                                    RequestView::Records(zonefile.zone_ref().label()),
                                ),
                            },
                        ),
                    }
                },
            }
        },
    }
}

/// The step that renders. On the day `today` the serial is rotated, the
/// zone file is rendered from `records`, and three changes follow in this
/// order: the config map with the rendering, the serial in what the zone
/// file asks for, and the status of the zone file. Last, the config maps
/// that the zone file owns are asked for. Without a next serial, or without
/// an identity of the zone file, nothing is changed and the reconciliation
/// fails.
pub open spec fn rendered(
    zonefile: ZoneFileView,
    origin: Seq<char>,
    hash: Seq<char>,
    records: Seq<RecordSpecView>,
    today: UtcDate,
) -> (RenderStageView, StepView) {
    match rotated_serial(today, zonefile.spec.serial) {
        None => end(NextView::Fail(Failure::SerialExhausted)),
        Some(serial) => match owner_of(zonefile) {
            None => end(NextView::Fail(Failure::NoIdentity)),
            Some(owner) => (
                RenderStageView::ConfigMaps,
                StepView {
                    writes: seq![
                        WriteView::Apply(
                            rendering(
                                zonefile,
                                owner,
                                serial,
                                zonefile_text(zonefile.spec, origin, serial, records),
                            ),
                        ),
                        WriteView::Serial(serial),
                        WriteView::Rendered {
                            hash,
                            serial,
                            config_map: revision_name(zonefile.metadata.name, serial as nat),
                        },
                    ],
                    next: NextView::Ask(RequestView::ConfigMaps),
                },
            ),
        },
    }
}

/// The deletions that trim the config maps `names` of a zone file to its
/// history.
pub open spec fn trimming(zonefile: ZoneFileView, names: Seq<Seq<char>>) -> Seq<WriteView> {
    let gone = expired(zonefile.metadata.name, zonefile.spec.history, names);
    Seq::new(gone.len(), |p: int| WriteView::Delete(names[gone[p]]))
}

/// One step of the reconciliation of a zone file on the day `today`. Only
/// the step that renders looks at the day, and it fails where there is
/// none.
pub open spec fn zonefile_step(
    zonefile: ZoneFileView,
    stage: RenderStageView,
    reply: ReplyView,
    today: Option<UtcDate>,
) -> (RenderStageView, StepView) {
    match (stage, reply) {
        (RenderStageView::Start, ReplyView::Start) => (
            RenderStageView::Zone,
            just(NextView::Ask(RequestView::Zone(zonefile.zone_ref()))),
        ),
        (RenderStageView::Zone, ReplyView::Zone(found)) => zone_found(zonefile, found),
        (RenderStageView::Records { origin, hash }, ReplyView::Records(records)) => match today {
            Some(day) => rendered(zonefile, origin, hash, records, day),
            None => end(NextView::Fail(Failure::SerialExhausted)),
        },
        (RenderStageView::ConfigMaps, ReplyView::ConfigMaps(names)) => (
            RenderStageView::Done,
            StepView { writes: trimming(zonefile, names), next: NextView::Requeue(SHORT) },
        ),
        _ => end(NextView::Fail(Failure::UnexpectedReply)),
    }
}

/// Whenever a step renders, the serial that it writes is above the last
/// serial and no less than the serial of the day, and the config map that
/// it publishes names the zone file, and nothing else, as its owner.
pub proof fn lemma_rendering_is_sound(
    zonefile: ZoneFileView,
    origin: Seq<char>,
    hash: Seq<char>,
    records: Seq<RecordSpecView>,
    today: UtcDate,
)
    requires
        rendered(zonefile, origin, hash, records, today).0 == RenderStageView::ConfigMaps,
    ensures
        ({
            let writes = rendered(zonefile, origin, hash, records, today).1.writes;
            &&& writes.len() == 3
            &&& writes[0] is Apply
            &&& writes[1] is Serial
            &&& writes[1]->Serial_0 > zonefile.spec.serial
            &&& writes[1]->Serial_0 >= today.serial()
            &&& writes[0]->Apply_0.owner_references.len() == 1
            &&& writes[0]->Apply_0.owner_references[0].name == zonefile.metadata.name
            &&& Some(writes[0]->Apply_0.owner_references[0].uid) == zonefile.metadata.uid
            &&& writes[0]->Apply_0.owner_references[0].kind == ZONEFILE_KIND@
            &&& writes[0]->Apply_0.owner_references[0].controller
            &&& writes[0]->Apply_0.name == revision_name(
                zonefile.metadata.name,
                writes[1]->Serial_0 as nat,
            )
        }),
{
}

/// After the trimming no more config maps stay than the history of the
/// zone file allows.
pub proof fn lemma_trimming_bounds_history(zonefile: ZoneFileView, names: Seq<Seq<char>>)
    ensures
        names.len() - trimming(zonefile, names).len() <= zonefile.spec.history,
{
    lemma_falling_order_arranges(rank_keys(zonefile.metadata.name, names));
}

fn ending(next: Next) -> (result: (RenderStage, Step))
    ensures
        result.0@ == RenderStageView::Done,
        result.1@ == just(next@),
{
    (RenderStage::Done, just_next(next))
}

fn find_zone(zonefile: &ZoneFile, found: &Option<Zone>) -> (result: (RenderStage, Step))
    ensures
        result.0@ == zone_found(zonefile@, found.deep_view()).0,
        result.1@ == zone_found(zonefile@, found.deep_view()).1,
{
    match found {
        None => ending(Next::Fail(Failure::ZoneNotFound)),
        Some(zone) => {
            let mut writes: Vec<Write> = Vec::new();
            assert(writes.deep_view() =~= Seq::<WriteView>::empty());
            push_write(&mut writes, apply_zonefile_backref(zonefile, zone));
            assert(writes.deep_view() =~= some_write(backref_write(zonefile@, zone@)));
            match zone.hash() {
                None => (RenderStage::Done, Step { writes, next: Next::Requeue(SOON) }),
                Some(hash) => {
                    let same = match zonefile.hash() {
                        Some(last) => str_equal(last, hash),
                        None => false,
                    };
                    if same {
                        (RenderStage::Done, Step { writes, next: Next::Requeue(SHORT) })
                    } else {
                        match zone.fqdn() {
                            None => (RenderStage::Done, Step { writes, next: Next::Requeue(SOON) }),
                            Some(origin) => {
                                let label = zonefile.zone_ref().as_label();
                                (
                                    RenderStage::Records {
                                        origin: String::from_str(origin),
                                        hash: String::from_str(hash),
                                    },
                                    Step { writes, next: Next::Ask(Request::Records(label)) },
                                )
                            },
                        }
                    }
                },
            }
        },
    }
}

/// Renders `zonefile` on the day `today`.
fn render(zonefile: &ZoneFile, origin: &str, hash: &str, records: &Vec<RecordSpec>, today: UtcDate) -> (result: (RenderStage, Step))
    ensures
        result.0@ == rendered(zonefile@, origin@, hash@, records.deep_view(), today).0,
        result.1@ == rendered(zonefile@, origin@, hash@, records.deep_view(), today).1,
{
    match rotate_serial(today, zonefile.spec.serial) {
        None => ending(Next::Fail(Failure::SerialExhausted)),
        Some(serial) => match &zonefile.metadata.uid {
            None => ending(Next::Fail(Failure::NoIdentity)),
            Some(uid) => {
                let owner = OwnerReference {
                    api_version: String::from_str(ZONEFILE_API_VERSION),
                    kind: String::from_str(ZONEFILE_KIND),
                    name: zonefile.metadata.name.clone(),
                    uid: uid.clone(),
                    controller: true,
                };
                let name = revision_name_of(zonefile.metadata.name.as_str(), serial);
                let text = build_zonefile(zonefile, origin, serial, records);
                let mut owners: Vec<OwnerReference> = Vec::new();
                owners.push(owner);
                assert(owners.deep_view() =~= seq![owner@]);
                let config_map = ConfigMap {
                    name: name.clone(),
                    namespace: clone_text(&zonefile.metadata.namespace),
                    owner_references: owners,
                    zonefile: text,
                };
                let mut writes: Vec<Write> = Vec::new();
                writes.push(Write::Apply(config_map));
                writes.push(Write::Serial(serial));
                writes.push(
                    Write::Rendered { hash: String::from_str(hash), serial, config_map: name },
                );
                assert(writes.deep_view() =~= rendered(
                    zonefile@,
                    origin@,
                    hash@,
                    records.deep_view(),
                    today,
                ).1.writes);
                (RenderStage::ConfigMaps, Step { writes, next: Next::Ask(Request::ConfigMaps) })
            },
        },
    }
}

fn trim(zonefile: &ZoneFile, names: &Vec<String>) -> (result: (RenderStage, Step))
    ensures
        result.0@ == RenderStageView::Done,
        result.1@ == (StepView {
            writes: trimming(zonefile@, names.deep_view()),
            next: NextView::Requeue(SHORT),
        }),
{
    let gone = expired_revisions(zonefile.metadata.name.as_str(), zonefile.spec.history, names);
    let ghost want = trimming(zonefile@, names.deep_view());
    let mut writes: Vec<Write> = Vec::new();
    let mut p: usize = 0;
    while p < gone.len()
        invariant
            p <= gone.len(),
            writes.len() == p,
            want == trimming(zonefile@, names.deep_view()),
            want.len() == gone.len(),
            ints(gone@) == expired(zonefile@.metadata.name, zonefile@.spec.history, names.deep_view()),
            forall|q: int| 0 <= q < gone.len() ==> #[trigger] gone[q] < names.len(),
            forall|q: int| 0 <= q < p ==> (#[trigger] writes[q])@ == want[q],
        decreases gone.len() - p,
    {
        let at: usize = gone[p];
        proof {
            assert(ints(gone@)[p as int] == at);
            assert(names.deep_view()[at as int] == names[at as int]@);
        }
        writes.push(Write::Delete(names[at].clone()));
        p = p + 1;
    }
    assert(writes.deep_view() =~= want);
    (RenderStage::Done, Step { writes, next: Next::Requeue(SHORT) })
}

/// Takes one step of the reconciliation of a zone file on the day `today`,
/// if there is one.
fn step(zonefile: &ZoneFile, stage: &RenderStage, reply: &Reply, today: Option<UtcDate>) -> (result: (
    RenderStage,
    Step,
))
    ensures
        result.0@ == zonefile_step(zonefile@, stage@, reply@, today).0,
        result.1@ == zonefile_step(zonefile@, stage@, reply@, today).1,
{
    match (stage, reply) {
        (RenderStage::Start, Reply::Start) => (
            RenderStage::Zone,
            just_next(Next::Ask(Request::Zone(zonefile.zone_ref()))),
        ),
        (RenderStage::Zone, Reply::Zone(found)) => find_zone(zonefile, found),
        (RenderStage::Records { origin, hash }, Reply::Records(records)) => match today {
            Some(day) => render(zonefile, origin.as_str(), hash.as_str(), records, day),
            None => ending(Next::Fail(Failure::SerialExhausted)),
        },
        (RenderStage::ConfigMaps, Reply::ConfigMaps(names)) => trim(zonefile, names),
        _ => ending(Next::Fail(Failure::UnexpectedReply)),
    }
}

/// Takes one step of the reconciliation of a zone file on the day `today`.
pub fn zonefile_step_on(zonefile: &ZoneFile, stage: &RenderStage, reply: &Reply, today: UtcDate) -> (result: (RenderStage, Step))
    ensures
        result.0@ == zonefile_step(zonefile@, stage@, reply@, Some(today)).0,
        result.1@ == zonefile_step(zonefile@, stage@, reply@, Some(today)).1,
{
    step(zonefile, stage, reply, Some(today))
}

/// Takes one step of the reconciliation of a zone file, today. The clock
/// is read only for the step that renders. The step is the one that
/// `zonefile_step` gives for the day that the clock shows, whatever that
/// day is, or for no day where the clock shows none that can be told.
pub fn reconcile_zonefiles(zonefile: &ZoneFile, stage: &RenderStage, reply: &Reply) -> (result: (RenderStage, Step))
    ensures
        exists|today: Option<UtcDate>|
            {
                &&& today matches Some(day) ==> day.is_calendar_day()
                &&& result.0@ == (#[trigger] zonefile_step(zonefile@, stage@, reply@, today)).0
                &&& result.1@ == zonefile_step(zonefile@, stage@, reply@, today).1
            },
{
    let today = match (stage, reply) {
        (RenderStage::Records { .. }, Reply::Records(_)) => utc_today(),
        _ => None,
    };
    step(zonefile, stage, reply, today)
}

/// What follows a reconciliation of a zone file that failed: the zone file
/// is looked at again in a minute.
pub fn zonefile_error_policy() -> (next: Next)
    ensures
        next == Next::Requeue(ERROR_REQUEUE),
{
    Next::Requeue(ERROR_REQUEUE)
}

} // verus!
