//! The resolver: it gives every zone and every record its fully qualified
//! name, binds it to the zone it belongs to, and keeps the digest of every
//! zone.

use vstd::prelude::*;
use vstd::string::*;
use crate::action::{
    just, just_next, push_write, some_write, Failure, Next, NextView, Reply, ReplyView, Request,
    RequestView, Step, StepView, Write, WriteView, ERROR_REQUEUE, LONG, SHORT, SOON,
};
use crate::hash::{zone_hash, zone_hash_text};
use crate::meta::{holds_text, ZoneRef, ZoneRefView};
use crate::record::{Record, RecordSpec, RecordSpecView, RecordView};
use crate::text::{chars_of, str_ends_with, str_equal};
use crate::zone::{
    any_grants_record, any_grants_zone, grants_record, grants_zone, Zone, ZoneSpec, ZoneSpecView,
    ZoneView,
};

verus! {

/// Whether a name is fully qualified: it ends in `.`.
pub open spec fn is_fqdn(name: Seq<char>) -> bool {
    name.len() > 0 && name.last() == '.'
}

/// Decides `is_fqdn`.
pub fn ends_in_dot(name: &str) -> (qualified: bool)
    ensures
        qualified == is_fqdn(name@),
{
    let chars = chars_of(name);
    chars.len() > 0 && chars[chars.len() - 1] == '.'
}

/// The fully qualified name that an object claims by naming a zone: its
/// own name, a `.`, and the fully qualified name of that zone.
pub open spec fn alleged_fqdn(domain_name: Seq<char>, parent_fqdn: Seq<char>) -> Seq<char> {
    domain_name + seq!['.'] + parent_fqdn
}

/// Builds `alleged_fqdn`.
pub fn alleged_fqdn_of(domain_name: &str, parent_fqdn: &str) -> (fqdn: String)
    ensures
        fqdn@ == alleged_fqdn(domain_name@, parent_fqdn@),
{
    let mut fqdn = String::from_str(domain_name);
    fqdn.append(".");
    fqdn.append(parent_fqdn);
    proof {
        reveal_strlit(".");
        assert("."@ =~= seq!['.']);
    }
    fqdn
}

/// The length of the fully qualified name of a zone; zero where it has
/// none.
pub open spec fn fqdn_len(zone: ZoneView) -> nat {
    match zone.fqdn() {
        Some(fqdn) => fqdn.len(),
        None => 0,
    }
}

/// Whether the fully qualified name of `parent` is known and ends the name
/// `fqdn`.
pub open spec fn is_above(parent: ZoneView, fqdn: Seq<char>) -> bool {
    match parent.fqdn() {
        Some(parent_fqdn) => parent_fqdn.is_suffix_of(fqdn),
        None => false,
    }
}

/// For each of `zones`, whether it can be the parent of a zone with these
/// properties: it takes the zone, and its own fully qualified name ends
/// the name of the zone.
pub open spec fn zone_parents(
    zones: Seq<ZoneView>,
    fqdn: Seq<char>,
    uid: Option<Seq<char>>,
    namespace: Seq<char>,
    domain_name: Seq<char>,
) -> Seq<bool> {
    Seq::new(
        zones.len(),
        |i: int| zones[i].takes_zone(Some(fqdn), uid, namespace, domain_name) && is_above(zones[i], fqdn),
    )
}

/// For each of `zones`, whether it can be the parent of a record with
/// these properties: it takes the record, and its own fully qualified name
/// ends the name of the record.
pub open spec fn record_parents(
    zones: Seq<ZoneView>,
    fqdn: Seq<char>,
    namespace: Seq<char>,
    record_type: Seq<char>,
    domain_name: Seq<char>,
) -> Seq<bool> {
    Seq::new(
        zones.len(),
        |i: int|
            zones[i].takes_record(Some(fqdn), namespace, record_type, domain_name) && is_above(
                zones[i],
                fqdn,
            ),
    )
}

/// Whether the zone at `i` is the one to pick among the zones that `fits`
/// marks: it is marked, no marked zone has a longer fully qualified name,
/// and none behind it has one as long.
pub open spec fn is_pick(zones: Seq<ZoneView>, fits: Seq<bool>, i: int) -> bool {
    &&& 0 <= i < zones.len()
    &&& fits[i]
    &&& forall|j: int|
        0 <= j < zones.len() && #[trigger] fits[j] ==> fqdn_len(zones[j]) <= fqdn_len(zones[i]) && (j
            > i ==> fqdn_len(zones[j]) < fqdn_len(zones[i]))
}

/// The index of the zone to pick among the zones that `fits` marks; none
/// where no zone is marked.
pub open spec fn pick(zones: Seq<ZoneView>, fits: Seq<bool>) -> Option<int> {
    if exists|i: int| is_pick(zones, fits, i) {
        Some(choose|i: int| is_pick(zones, fits, i))
    } else {
        None
    }
}

/// There is one zone to pick at most.
pub proof fn lemma_pick_unique(zones: Seq<ZoneView>, fits: Seq<bool>, i: int, j: int)
    requires
        is_pick(zones, fits, i),
        is_pick(zones, fits, j),
    ensures
        i == j,
{
}

/// Of the parents that a record can have, the one picked has the longest
/// fully qualified name; and where no two of them have the same name, its
/// name is longer than that of any other.
pub proof fn lemma_longest_parent(
    zones: Seq<ZoneView>,
    fqdn: Seq<char>,
    namespace: Seq<char>,
    record_type: Seq<char>,
    domain_name: Seq<char>,
    other: int,
)
    requires
        0 <= other < zones.len(),
        record_parents(zones, fqdn, namespace, record_type, domain_name)[other],
        pick(zones, record_parents(zones, fqdn, namespace, record_type, domain_name)) is Some,
    ensures
        ({
            let chosen = pick(
                zones,
                record_parents(zones, fqdn, namespace, record_type, domain_name),
            ).unwrap();
            &&& 0 <= chosen < zones.len()
            &&& record_parents(zones, fqdn, namespace, record_type, domain_name)[chosen]
            &&& fqdn_len(zones[other]) <= fqdn_len(zones[chosen])
            &&& zones[other].fqdn() != zones[chosen].fqdn() ==> fqdn_len(zones[other]) < fqdn_len(
                zones[chosen],
            )
        }),
{
    let fits = record_parents(zones, fqdn, namespace, record_type, domain_name);
    let chosen = pick(zones, fits).unwrap();
    assert(is_pick(zones, fits, chosen));
    let a = zones[other].fqdn().unwrap();
    let b = zones[chosen].fqdn().unwrap();
    if a.len() == b.len() {
        assert(a =~= b);
    }
}

/// The same of the parents that a zone can have.
pub proof fn lemma_longest_zone_parent(
    zones: Seq<ZoneView>,
    fqdn: Seq<char>,
    uid: Option<Seq<char>>,
    namespace: Seq<char>,
    domain_name: Seq<char>,
    other: int,
)
    requires
        0 <= other < zones.len(),
        zone_parents(zones, fqdn, uid, namespace, domain_name)[other],
        pick(zones, zone_parents(zones, fqdn, uid, namespace, domain_name)) is Some,
    ensures
        ({
            let chosen = pick(zones, zone_parents(zones, fqdn, uid, namespace, domain_name)).unwrap();
            &&& 0 <= chosen < zones.len()
            &&& zone_parents(zones, fqdn, uid, namespace, domain_name)[chosen]
            &&& fqdn_len(zones[other]) <= fqdn_len(zones[chosen])
            &&& zones[other].fqdn() != zones[chosen].fqdn() ==> fqdn_len(zones[other]) < fqdn_len(
                zones[chosen],
            )
        }),
{
    let fits = zone_parents(zones, fqdn, uid, namespace, domain_name);
    let chosen = pick(zones, fits).unwrap();
    assert(is_pick(zones, fits, chosen));
    let a = zones[other].fqdn().unwrap();
    let b = zones[chosen].fqdn().unwrap();
    if a.len() == b.len() {
        assert(a =~= b);
    }
}

/// Picks among the zones that `fits` marks the one with the longest fully
/// qualified name, the last of them where several are as long.
pub fn find_longest_matching_parent_zone(zones: &Vec<Zone>, fits: &Vec<bool>) -> (chosen: Option<usize>)
    requires
        fits.len() == zones.len(),
    ensures
        match chosen {
            Some(i) => pick(zones.deep_view(), fits@) == Some(i as int),
            None => pick(zones.deep_view(), fits@) is None,
        },
        chosen is Some ==> chosen.unwrap() < zones.len() && fits[chosen.unwrap() as int],
        chosen is None ==> forall|j: int| 0 <= j < zones.len() ==> !fits[j],
{
    let ghost views = zones.deep_view();
    let mut best: Option<usize> = None;
    let mut best_len: usize = 0;
    let mut i: usize = 0;
    while i < zones.len()
        invariant
            i <= zones.len(),
            fits.len() == zones.len(),
            views == zones.deep_view(),
            best is None ==> forall|j: int| 0 <= j < i ==> !#[trigger] fits[j],
            best is Some ==> {
                let b = best.unwrap() as int;
                &&& b < i
                &&& fits[b]
                &&& best_len == fqdn_len(views[b])
                &&& forall|j: int|
                    0 <= j < i && #[trigger] fits[j] ==> fqdn_len(views[j]) <= fqdn_len(views[b])
                        && (j > b ==> fqdn_len(views[j]) < fqdn_len(views[b]))
            },
        decreases zones.len() - i,
    {
        if fits[i] {
            let len: usize = match zones[i].fqdn() {
                Some(fqdn) => fqdn.unicode_len(),
                None => 0,
            };
            assert(views[i as int] == zones[i as int]@);
            assert(len == fqdn_len(views[i as int]));
            if best.is_none() || len >= best_len {
                best = Some(i);
                best_len = len;
            }
        }
        i = i + 1;
    }
    proof {
        match best {
            Some(b) => {
                assert(is_pick(views, fits@, b as int));
                let c = choose|c: int| is_pick(views, fits@, c);
                lemma_pick_unique(views, fits@, b as int, c);
            },
            None => {
                assert forall|c: int| !is_pick(views, fits@, c) by {}
            },
        }
    }
    best
}

/// Marks the zones that can be the parent of a zone with these properties.
pub fn mark_zone_parents(
    zones: &Vec<Zone>,
    fqdn: &str,
    uid: &Option<String>,
    namespace: &str,
    domain_name: &str,
) -> (fits: Vec<bool>)
    ensures
        fits@ == zone_parents(zones.deep_view(), fqdn@, uid.deep_view(), namespace@, domain_name@),
{
    let mut fits: Vec<bool> = Vec::new();
    let mut i: usize = 0;
    while i < zones.len()
        invariant
            i <= zones.len(),
            fits.len() == i,
            forall|j: int|
                0 <= j < i ==> #[trigger] fits[j] == zone_parents(
                    zones.deep_view(),
                    fqdn@,
                    uid.deep_view(),
                    namespace@,
                    domain_name@,
                )[j],
        decreases zones.len() - i,
    {
        let zone = &zones[i];
        assert(zones.deep_view()[i as int] == zone@);
        let above = match zone.fqdn() {
            Some(own) => str_ends_with(fqdn, own),
            None => false,
        };
        let fit = above && zone.takes_zone(Some(fqdn), uid, namespace, domain_name);
        fits.push(fit);
        i = i + 1;
    }
    assert(fits@ =~= zone_parents(
        zones.deep_view(),
        fqdn@,
        uid.deep_view(),
        namespace@,
        domain_name@,
    ));
    fits
}

/// Marks the zones that can be the parent of a record with these
/// properties.
pub fn mark_record_parents(
    zones: &Vec<Zone>,
    fqdn: &str,
    namespace: &str,
    record_type: &str,
    domain_name: &str,
) -> (fits: Vec<bool>)
    ensures
        fits@ == record_parents(zones.deep_view(), fqdn@, namespace@, record_type@, domain_name@),
{
    let mut fits: Vec<bool> = Vec::new();
    let mut i: usize = 0;
    while i < zones.len()
        invariant
            i <= zones.len(),
            fits.len() == i,
            forall|j: int|
                0 <= j < i ==> #[trigger] fits[j] == record_parents(
                    zones.deep_view(),
                    fqdn@,
                    namespace@,
                    record_type@,
                    domain_name@,
                )[j],
        decreases zones.len() - i,
    {
        let zone = &zones[i];
        assert(zones.deep_view()[i as int] == zone@);
        let above = match zone.fqdn() {
            Some(own) => str_ends_with(fqdn, own),
            None => false,
        };
        let fit = above && zone.takes_record(Some(fqdn), namespace, record_type, domain_name);
        fits.push(fit);
        i = i + 1;
    }
    assert(fits@ =~= record_parents(
        zones.deep_view(),
        fqdn@,
        namespace@,
        record_type@,
        domain_name@,
    ));
    fits
}

/// The write that gives an object the fully qualified name `fqdn`; none
/// where the object has that name already.
pub open spec fn fqdn_write(current: Option<Seq<char>>, fqdn: Seq<char>) -> Option<WriteView> {
    if current == Some(fqdn) {
        None
    } else {
        Some(WriteView::Fqdn(fqdn))
    }
}

/// The write that binds an object to the zone `parent`; none where the
/// label of the object names that zone already.
pub open spec fn parent_write(current: Option<Seq<char>>, parent: ZoneRefView) -> Option<WriteView> {
    if current == Some(parent.label()) {
        None
    } else {
        Some(WriteView::ParentZone(parent.label()))
    }
}

/// The write that gives a zone the digest `hash`; none where the zone has
/// that digest already.
pub open spec fn hash_write(current: Option<Seq<char>>, hash: Seq<char>) -> Option<WriteView> {
    if current == Some(hash) {
        None
    } else {
        Some(WriteView::Hash(hash))
    }
}

/// Decides whether the status of `zone` must be given the name `fqdn`.
pub fn set_zone_fqdn(zone: &Zone, fqdn: &str) -> (write: Option<Write>)
    ensures
        write.deep_view() == fqdn_write(zone@.fqdn(), fqdn@),
{
    let same = match zone.fqdn() {
        Some(current) => str_equal(current, fqdn),
        None => false,
    };
    if same {
        None
    } else {
        Some(Write::Fqdn(String::from_str(fqdn)))
    }
}

/// Decides whether `zone` must be given the label that names `parent`.
pub fn set_zone_parent_ref(zone: &Zone, parent: &ZoneRef) -> (write: Option<Write>)
    ensures
        write.deep_view() == parent_write(zone@.metadata.parent_zone, parent@),
{
    let label = parent.as_label();
    if holds_text(&zone.metadata.parent_zone, label.as_str()) {
        None
    } else {
        Some(Write::ParentZone(label))
    }
}

/// Decides whether the status of `record` must be given the name `fqdn`.
pub fn set_record_fqdn(record: &Record, fqdn: &str) -> (write: Option<Write>)
    ensures
        write.deep_view() == fqdn_write(record@.fqdn(), fqdn@),
{
    let same = match record.fqdn() {
        Some(current) => str_equal(current, fqdn),
        None => false,
    };
    if same {
        None
    } else {
        Some(Write::Fqdn(String::from_str(fqdn)))
    }
}

/// Decides whether `record` must be given the label that names `parent`.
pub fn set_record_parent_ref(record: &Record, parent: &ZoneRef) -> (write: Option<Write>)
    ensures
        write.deep_view() == parent_write(record@.metadata.parent_zone, parent@),
{
    let label = parent.as_label();
    if holds_text(&record.metadata.parent_zone, label.as_str()) {
        None
    } else {
        Some(Write::ParentZone(label))
    }
}

/// Computes the digest of `zone` from what its child zones and child
/// records ask for, and decides whether the status of the zone must be
/// given it.
pub fn update_zone_hash(zone: &Zone, child_zones: &Vec<ZoneSpec>, child_records: &Vec<RecordSpec>) -> (write: Option<Write>)
    ensures
        write.deep_view() == hash_write(
            zone@.hash(),
            zone_hash_text(child_zones.deep_view(), child_records.deep_view()),
        ),
{
    let hash = zone_hash(child_zones, child_records);
    let same = match zone.hash() {
        Some(current) => str_equal(current, hash.as_str()),
        None => false,
    };
    if same {
        None
    } else {
        Some(Write::Hash(hash))
    }
}

/// How far the reconciliation of a zone or of a record has come.
#[derive(Debug, Clone, Copy, PartialEq, Eq)]
pub enum Stage {
    /// Nothing was asked yet.
    Start,
    /// The zone that the object names was asked for.
    Parent,
    /// All zones were asked for.
    Zones,
    /// The children of the zone were asked for.
    Children,
    /// The reconciliation is over.
    Done,
}

/// A step that ends the reconciliation without changes.
pub open spec fn end(next: NextView) -> (Stage, StepView) {
    (Stage::Done, just(next))
}

/// The first step for a zone. A zone that names a zone and has a relative
/// name asks for the zone it names. A zone that names none and has a fully
/// qualified name takes that name and asks for all zones, to find its
/// parent among them. Any other zone is left alone for a long time.
pub open spec fn zone_start(zone: ZoneView) -> (Stage, StepView) {
    let name = zone.spec.domain_name;
    match zone.spec.zone_ref {
        Some(reference) => if is_fqdn(name) {
            end(NextView::Requeue(LONG))
        } else {
            (
                Stage::Parent,
                just(NextView::Ask(RequestView::Zone(reference.within(zone.metadata.namespace)))),
            )
        },
        None => if is_fqdn(name) {
            (
                Stage::Zones,
                StepView {
                    writes: some_write(fqdn_write(zone.fqdn(), name)),
                    next: NextView::Ask(RequestView::Zones),
                },
            )
        } else {
            end(NextView::Requeue(LONG))
        },
    }
}

/// The step for a zone whose named zone was asked for. Where that zone is
/// missing, look again shortly; where it has no fully qualified name yet,
/// look again soon. Where one of its delegations grants the zone the name
/// it claims, the zone gets that name and is bound to the named zone, and
/// its children are asked for. Else the zone is left alone for a long time.
pub open spec fn zone_adoption(zone: ZoneView, found: Option<ZoneView>) -> (Stage, StepView) {
    match found {
        None => end(NextView::Requeue(SHORT)),
        Some(parent) => match parent.fqdn() {
            None => end(NextView::Requeue(SOON)),
            Some(parent_fqdn) => {
                let alleged = alleged_fqdn(zone.spec.domain_name, parent_fqdn);
                if any_grants_zone(
                    parent.spec.delegations,
                    zone.metadata.namespace_or_empty(),
                    alleged,
                ) {
                    (
                        Stage::Children,
                        StepView {
                            writes: some_write(fqdn_write(zone.fqdn(), alleged)) + some_write(
                                parent_write(zone.metadata.parent_zone, parent.zone_ref()),
                            ),
                            next: NextView::Ask(RequestView::Children(zone.zone_ref().label())),
                        },
                    )
                } else {
                    end(NextView::Requeue(LONG))
                }
            },
        },
    }
}

/// The step for a zone with a fully qualified name when all zones were
/// asked for. The zone is bound to the zone picked among those that can be
/// its parent, if there is one, and its children are asked for.
pub open spec fn zone_rooting(zone: ZoneView, zones: Seq<ZoneView>) -> (Stage, StepView) {
    let fits = zone_parents(
        zones,
        zone.spec.domain_name,
        zone.metadata.uid,
        zone.metadata.namespace_or_empty(),
        zone.spec.domain_name,
    );
    (
        Stage::Children,
        StepView {
            writes: match pick(zones, fits) {
                Some(i) => some_write(parent_write(zone.metadata.parent_zone, zones[i].zone_ref())),
                None => Seq::empty(),
            },
            next: NextView::Ask(RequestView::Children(zone.zone_ref().label())),
        },
    )
}

/// The last step for a zone: it gets the digest of its children, and is
/// looked at again after a long time.
pub open spec fn zone_hashing(
    zone: ZoneView,
    zones: Seq<ZoneSpecView>,
    records: Seq<RecordSpecView>,
) -> (Stage, StepView) {
    (
        Stage::Done,
        StepView {
            writes: some_write(hash_write(zone.hash(), zone_hash_text(zones, records))),
            next: NextView::Requeue(LONG),
        },
    )
}

/// One step of the reconciliation of a zone: from the stage that was
/// reached and the reply to what was asked last, to the next stage, the
/// changes to make and what follows them. A reply that does not answer
/// what the stage asked for ends the reconciliation as a failure.
pub open spec fn zone_step(zone: ZoneView, stage: Stage, reply: ReplyView) -> (Stage, StepView) {
    match (stage, reply) {
        (Stage::Start, ReplyView::Start) => zone_start(zone),
        (Stage::Parent, ReplyView::Zone(found)) => if zone.spec.zone_ref is Some && !is_fqdn(
            zone.spec.domain_name,
        ) {
            zone_adoption(zone, found)
        } else {
            end(NextView::Fail(Failure::UnexpectedReply))
        },
        (Stage::Zones, ReplyView::Zones(zones)) => if zone.spec.zone_ref is None && is_fqdn(
            zone.spec.domain_name,
        ) {
            zone_rooting(zone, zones)
        } else {
            end(NextView::Fail(Failure::UnexpectedReply))
        },
        (Stage::Children, ReplyView::Children { zones, records }) => zone_hashing(
            zone,
            zones,
            records,
        ),
        _ => end(NextView::Fail(Failure::UnexpectedReply)),
    }
}

/// Whether the reply holds no zone whose fully qualified name does not
/// end in `.`.
pub open spec fn names_are_qualified(reply: ReplyView) -> bool {
    match reply {
        ReplyView::Zone(Some(parent)) => match parent.fqdn() {
            Some(fqdn) => is_fqdn(fqdn),
            None => true,
        },
        _ => true,
    }
}

/// Every name that a step gives a zone ends in `.`, as long as the names
/// of the zones in the reply do.
pub proof fn lemma_zone_names_are_qualified(zone: ZoneView, stage: Stage, reply: ReplyView, i: int)
    requires
        names_are_qualified(reply),
        0 <= i < zone_step(zone, stage, reply).1.writes.len(),
        zone_step(zone, stage, reply).1.writes[i] is Fqdn,
    ensures
        is_fqdn(zone_step(zone, stage, reply).1.writes[i]->Fqdn_0),
{
}

/// A step binds a zone to a parent only where a delegation of the parent
/// grants it: the zone that the zone names grants the name that the zone
/// claims, or the zone picked among all zones takes the zone.
pub proof fn lemma_zone_is_bound_by_delegation(zone: ZoneView, stage: Stage, reply: ReplyView, i: int)
    requires
        0 <= i < zone_step(zone, stage, reply).1.writes.len(),
        zone_step(zone, stage, reply).1.writes[i] is ParentZone,
    ensures
        ({
            let label = zone_step(zone, stage, reply).1.writes[i]->ParentZone_0;
            let namespace = zone.metadata.namespace_or_empty();
            match reply {
                ReplyView::Zone(Some(parent)) => {
                    &&& label == parent.zone_ref().label()
                    &&& parent.fqdn() is Some
                    &&& any_grants_zone(
                        parent.spec.delegations,
                        namespace,
                        alleged_fqdn(zone.spec.domain_name, parent.fqdn().unwrap()),
                    )
                },
                ReplyView::Zones(zones) => exists|k: int|
                    {
                        &&& 0 <= k < zones.len()
                        &&& label == (#[trigger] zones[k]).zone_ref().label()
                        &&& zones[k].takes_zone(
                            Some(zone.spec.domain_name),
                            zone.metadata.uid,
                            namespace,
                            zone.spec.domain_name,
                        )
                    },
                _ => false,
            }
        }),
{
    match reply {
        ReplyView::Zones(zones) => {
            let fits = zone_parents(
                zones,
                zone.spec.domain_name,
                zone.metadata.uid,
                zone.metadata.namespace_or_empty(),
                zone.spec.domain_name,
            );
            let k = pick(zones, fits).unwrap();
            assert(is_pick(zones, fits, k));
        },
        _ => {},
    }
}

fn ending(next: Next) -> (result: (Stage, Step))
    ensures
        result.0 == Stage::Done,
        result.1@ == just(next@),
{
    (Stage::Done, just_next(next))
}

fn start_zone(zone: &Zone) -> (result: (Stage, Step))
    ensures
        result.0 == zone_start(zone@).0,
        result.1@ == zone_start(zone@).1,
{
    let qualified = ends_in_dot(zone.spec.domain_name.as_str());
    match &zone.spec.zone_ref {
        Some(reference) => {
            if qualified {
                ending(Next::Requeue(LONG))
            } else {
                let parent = reference.within(&zone.metadata.namespace);
                (Stage::Parent, just_next(Next::Ask(Request::Zone(parent))))
            }
        },
        None => {
            if qualified {
                let mut writes: Vec<Write> = Vec::new();
                assert(writes.deep_view() =~= Seq::<WriteView>::empty());
                push_write(&mut writes, set_zone_fqdn(zone, zone.spec.domain_name.as_str()));
                assert(writes.deep_view() =~= some_write(
                    fqdn_write(zone@.fqdn(), zone@.spec.domain_name),
                ));
                (Stage::Zones, Step { writes, next: Next::Ask(Request::Zones) })
            } else {
                ending(Next::Requeue(LONG))
            }
        },
    }
}

fn adopt_zone(zone: &Zone, found: &Option<Zone>) -> (result: (Stage, Step))
    ensures
        result.0 == zone_adoption(zone@, found.deep_view()).0,
        result.1@ == zone_adoption(zone@, found.deep_view()).1,
{
    match found {
        None => ending(Next::Requeue(SHORT)),
        Some(parent) => match parent.fqdn() {
            None => ending(Next::Requeue(SOON)),
            Some(parent_fqdn) => {
                let alleged = alleged_fqdn_of(zone.spec.domain_name.as_str(), parent_fqdn);
                let namespace = zone.metadata.namespace_or_empty();
                if grants_zone(&parent.spec.delegations, namespace.as_str(), alleged.as_str()) {
                    let mut writes: Vec<Write> = Vec::new();
                    assert(writes.deep_view() =~= Seq::<WriteView>::empty());
                    push_write(&mut writes, set_zone_fqdn(zone, alleged.as_str()));
                    push_write(&mut writes, set_zone_parent_ref(zone, &parent.zone_ref()));
                    assert(writes.deep_view() =~= some_write(fqdn_write(zone@.fqdn(), alleged@))
                        + some_write(parent_write(zone@.metadata.parent_zone, parent@.zone_ref())));
                    let label = zone.zone_ref().as_label();
                    (Stage::Children, Step { writes, next: Next::Ask(Request::Children(label)) })
                } else {
                    ending(Next::Requeue(LONG))
                }
            },
        },
    }
}

fn root_zone(zone: &Zone, zones: &Vec<Zone>) -> (result: (Stage, Step))
    ensures
        result.0 == zone_rooting(zone@, zones.deep_view()).0,
        result.1@ == zone_rooting(zone@, zones.deep_view()).1,
{
    let namespace = zone.metadata.namespace_or_empty();
    let name = zone.spec.domain_name.as_str();
    let fits = mark_zone_parents(zones, name, &zone.metadata.uid, namespace.as_str(), name);
    let mut writes: Vec<Write> = Vec::new();
    assert(writes.deep_view() =~= Seq::<WriteView>::empty());
    match find_longest_matching_parent_zone(zones, &fits) {
        Some(i) => {
            assert(zones.deep_view()[i as int] == zones[i as int]@);
            push_write(&mut writes, set_zone_parent_ref(zone, &zones[i].zone_ref()));
            assert(writes.deep_view() =~= some_write(
                parent_write(zone@.metadata.parent_zone, zones[i as int]@.zone_ref()),
            ));
        },
        None => {},
    }
    let label = zone.zone_ref().as_label();
    (Stage::Children, Step { writes, next: Next::Ask(Request::Children(label)) })
}

fn hash_zone(zone: &Zone, zones: &Vec<ZoneSpec>, records: &Vec<RecordSpec>) -> (result: (Stage, Step))
    ensures
        result.0 == zone_hashing(zone@, zones.deep_view(), records.deep_view()).0,
        result.1@ == zone_hashing(zone@, zones.deep_view(), records.deep_view()).1,
{
    let mut writes: Vec<Write> = Vec::new();
    assert(writes.deep_view() =~= Seq::<WriteView>::empty());
    push_write(&mut writes, update_zone_hash(zone, zones, records));
    assert(writes.deep_view() =~= some_write(
        hash_write(zone@.hash(), zone_hash_text(zones.deep_view(), records.deep_view())),
    ));
    (Stage::Done, Step { writes, next: Next::Requeue(LONG) })
}

/// Takes one step of the reconciliation of a zone.
pub fn reconcile_zones(zone: &Zone, stage: Stage, reply: &Reply) -> (result: (Stage, Step))
    ensures
        result.0 == zone_step(zone@, stage, reply@).0,
        result.1@ == zone_step(zone@, stage, reply@).1,
{
    match (stage, reply) {
        (Stage::Start, Reply::Start) => start_zone(zone),
        (Stage::Parent, Reply::Zone(found)) => {
            if zone.spec.zone_ref.is_some() && !ends_in_dot(zone.spec.domain_name.as_str()) {
                adopt_zone(zone, found)
            } else {
                ending(Next::Fail(Failure::UnexpectedReply))
            }
        },
        (Stage::Zones, Reply::Zones(zones)) => {
            if zone.spec.zone_ref.is_none() && ends_in_dot(zone.spec.domain_name.as_str()) {
                root_zone(zone, zones)
            } else {
                ending(Next::Fail(Failure::UnexpectedReply))
            }
        },
        (Stage::Children, Reply::Children { zones, records }) => hash_zone(zone, zones, records),
        _ => ending(Next::Fail(Failure::UnexpectedReply)),
    }
}

/// The first step for a record: as for a zone.
pub open spec fn record_start(record: RecordView) -> (Stage, StepView) {
    let name = record.spec.domain_name;
    match record.spec.zone_ref {
        Some(reference) => if is_fqdn(name) {
            end(NextView::Requeue(LONG))
        } else {
            (
                Stage::Parent,
                just(NextView::Ask(RequestView::Zone(reference.within(record.metadata.namespace)))),
            )
        },
        None => if is_fqdn(name) {
            (
                Stage::Zones,
                StepView {
                    writes: some_write(fqdn_write(record.fqdn(), name)),
                    next: NextView::Ask(RequestView::Zones),
                },
            )
        } else {
            end(NextView::Requeue(LONG))
        },
    }
}

/// The step for a record whose named zone was asked for. Where that zone
/// is missing, look again shortly; where it has no fully qualified name
/// yet, look again soon. Where one of its delegations grants the record
/// its type and the name it claims, the record gets that name and is bound
/// to the zone. Else the record is left alone for a long time.
pub open spec fn record_adoption(record: RecordView, found: Option<ZoneView>) -> (Stage, StepView) {
    match found {
        None => end(NextView::Requeue(SHORT)),
        Some(parent) => match parent.fqdn() {
            None => end(NextView::Requeue(SOON)),
            Some(parent_fqdn) => {
                let alleged = alleged_fqdn(record.spec.domain_name, parent_fqdn);
                if any_grants_record(
                    parent.spec.delegations,
                    record.metadata.namespace_or_empty(),
                    record.spec.type_,
                    alleged,
                ) {
                    (
                        Stage::Done,
                        StepView {
                            writes: some_write(fqdn_write(record.fqdn(), alleged)) + some_write(
                                parent_write(record.metadata.parent_zone, parent.zone_ref()),
                            ),
                            next: NextView::Requeue(SHORT),
                        },
                    )
                } else {
                    end(NextView::Requeue(LONG))
                }
            },
        },
    }
}

/// The step for a record with a fully qualified name when all zones were
/// asked for. The record is bound to the zone picked among those that can
/// be its parent, if there is one; in any case it is looked at again
/// shortly.
pub open spec fn record_rooting(record: RecordView, zones: Seq<ZoneView>) -> (Stage, StepView) {
    let fits = record_parents(
        zones,
        record.spec.domain_name,
        record.metadata.namespace_or_empty(),
        record.spec.type_,
        record.spec.domain_name,
    );
    (
        Stage::Done,
        StepView {
            writes: match pick(zones, fits) {
                Some(i) => some_write(
                    parent_write(record.metadata.parent_zone, zones[i].zone_ref()),
                ),
                None => Seq::empty(),
            },
            next: NextView::Requeue(SHORT),
        },
    )
}

/// One step of the reconciliation of a record.
pub open spec fn record_step(record: RecordView, stage: Stage, reply: ReplyView) -> (Stage, StepView) {
    match (stage, reply) {
        (Stage::Start, ReplyView::Start) => record_start(record),
        (Stage::Parent, ReplyView::Zone(found)) => if record.spec.zone_ref is Some && !is_fqdn(
            record.spec.domain_name,
        ) {
            record_adoption(record, found)
        } else {
            end(NextView::Fail(Failure::UnexpectedReply))
        },
        (Stage::Zones, ReplyView::Zones(zones)) => if record.spec.zone_ref is None && is_fqdn(
            record.spec.domain_name,
        ) {
            record_rooting(record, zones)
        } else {
            end(NextView::Fail(Failure::UnexpectedReply))
        },
        _ => end(NextView::Fail(Failure::UnexpectedReply)),
    }
}

/// Every name that a step gives a record ends in `.`, as long as the names
/// of the zones in the reply do.
pub proof fn lemma_record_names_are_qualified(
    record: RecordView,
    stage: Stage,
    reply: ReplyView,
    i: int,
)
    requires
        names_are_qualified(reply),
        0 <= i < record_step(record, stage, reply).1.writes.len(),
        record_step(record, stage, reply).1.writes[i] is Fqdn,
    ensures
        is_fqdn(record_step(record, stage, reply).1.writes[i]->Fqdn_0),
{
}

/// A step binds a record to a parent only where a delegation of the parent
/// grants it.
pub proof fn lemma_record_is_bound_by_delegation(
    record: RecordView,
    stage: Stage,
    reply: ReplyView,
    i: int,
)
    requires
        0 <= i < record_step(record, stage, reply).1.writes.len(),
        record_step(record, stage, reply).1.writes[i] is ParentZone,
    ensures
        ({
            let label = record_step(record, stage, reply).1.writes[i]->ParentZone_0;
            let namespace = record.metadata.namespace_or_empty();
            match reply {
                ReplyView::Zone(Some(parent)) => {
                    &&& label == parent.zone_ref().label()
                    &&& parent.fqdn() is Some
                    &&& any_grants_record(
                        parent.spec.delegations,
                        namespace,
                        record.spec.type_,
                        alleged_fqdn(record.spec.domain_name, parent.fqdn().unwrap()),
                    )
                },
                ReplyView::Zones(zones) => exists|k: int|
                    {
                        &&& 0 <= k < zones.len()
                        &&& label == (#[trigger] zones[k]).zone_ref().label()
                        &&& zones[k].takes_record(
                            Some(record.spec.domain_name),
                            namespace,
                            record.spec.type_,
                            record.spec.domain_name,
                        )
                    },
                _ => false,
            }
        }),
{
    match reply {
        ReplyView::Zones(zones) => {
            let fits = record_parents(
                zones,
                record.spec.domain_name,
                record.metadata.namespace_or_empty(),
                record.spec.type_,
                record.spec.domain_name,
            );
            let k = pick(zones, fits).unwrap();
            assert(is_pick(zones, fits, k));
        },
        _ => {},
    }
}

fn start_record(record: &Record) -> (result: (Stage, Step))
    ensures
        result.0 == record_start(record@).0,
        result.1@ == record_start(record@).1,
{
    let qualified = ends_in_dot(record.spec.domain_name.as_str());
    match &record.spec.zone_ref {
        Some(reference) => {
            if qualified {
                ending(Next::Requeue(LONG))
            } else {
                let parent = reference.within(&record.metadata.namespace);
                (Stage::Parent, just_next(Next::Ask(Request::Zone(parent))))
            }
        },
        None => {
            if qualified {
                let mut writes: Vec<Write> = Vec::new();
                assert(writes.deep_view() =~= Seq::<WriteView>::empty());
                push_write(&mut writes, set_record_fqdn(record, record.spec.domain_name.as_str()));
                assert(writes.deep_view() =~= some_write(
                    fqdn_write(record@.fqdn(), record@.spec.domain_name),
                ));
                (Stage::Zones, Step { writes, next: Next::Ask(Request::Zones) })
            } else {
                ending(Next::Requeue(LONG))
            }
        },
    }
}

fn adopt_record(record: &Record, found: &Option<Zone>) -> (result: (Stage, Step))
    ensures
        result.0 == record_adoption(record@, found.deep_view()).0,
        result.1@ == record_adoption(record@, found.deep_view()).1,
{
    match found {
        None => ending(Next::Requeue(SHORT)),
        Some(parent) => match parent.fqdn() {
            None => ending(Next::Requeue(SOON)),
            Some(parent_fqdn) => {
                let alleged = alleged_fqdn_of(record.spec.domain_name.as_str(), parent_fqdn);
                let namespace = record.metadata.namespace_or_empty();
                if grants_record(
                    &parent.spec.delegations,
                    namespace.as_str(),
                    record.spec.type_.as_str(),
                    alleged.as_str(),
                ) {
                    let mut writes: Vec<Write> = Vec::new();
                    assert(writes.deep_view() =~= Seq::<WriteView>::empty());
                    push_write(&mut writes, set_record_fqdn(record, alleged.as_str()));
                    push_write(&mut writes, set_record_parent_ref(record, &parent.zone_ref()));
                    assert(writes.deep_view() =~= some_write(fqdn_write(record@.fqdn(), alleged@))
                        + some_write(
                        parent_write(record@.metadata.parent_zone, parent@.zone_ref()),
                    ));
                    (Stage::Done, Step { writes, next: Next::Requeue(SHORT) })
                } else {
                    ending(Next::Requeue(LONG))
                }
            },
        },
    }
}

fn root_record(record: &Record, zones: &Vec<Zone>) -> (result: (Stage, Step))
    ensures
        result.0 == record_rooting(record@, zones.deep_view()).0,
        result.1@ == record_rooting(record@, zones.deep_view()).1,
{
    let namespace = record.metadata.namespace_or_empty();
    let name = record.spec.domain_name.as_str();
    let fits = mark_record_parents(
        zones,
        name,
        namespace.as_str(),
        record.spec.type_.as_str(),
        name,
    );
    let mut writes: Vec<Write> = Vec::new();
    assert(writes.deep_view() =~= Seq::<WriteView>::empty());
    match find_longest_matching_parent_zone(zones, &fits) {
        Some(i) => {
            assert(zones.deep_view()[i as int] == zones[i as int]@);
            push_write(&mut writes, set_record_parent_ref(record, &zones[i].zone_ref()));
            assert(writes.deep_view() =~= some_write(
                parent_write(record@.metadata.parent_zone, zones[i as int]@.zone_ref()),
            ));
        },
        None => {},
    }
    (Stage::Done, Step { writes, next: Next::Requeue(SHORT) })
}

/// Takes one step of the reconciliation of a record.
pub fn reconcile_records(record: &Record, stage: Stage, reply: &Reply) -> (result: (Stage, Step))
    ensures
        result.0 == record_step(record@, stage, reply@).0,
        result.1@ == record_step(record@, stage, reply@).1,
{
    match (stage, reply) {
        (Stage::Start, Reply::Start) => start_record(record),
        (Stage::Parent, Reply::Zone(found)) => {
            if record.spec.zone_ref.is_some() && !ends_in_dot(record.spec.domain_name.as_str()) {
                adopt_record(record, found)
            } else {
                ending(Next::Fail(Failure::UnexpectedReply))
            }
        },
        (Stage::Zones, Reply::Zones(zones)) => {
            if record.spec.zone_ref.is_none() && ends_in_dot(record.spec.domain_name.as_str()) {
                root_record(record, zones)
            } else {
                ending(Next::Fail(Failure::UnexpectedReply))
            }
        },
        _ => ending(Next::Fail(Failure::UnexpectedReply)),
    }
}

/// What follows a reconciliation of a zone that failed: the zone is looked
/// at again in a minute.
pub fn zone_error_policy() -> (next: Next)
    ensures
        next == Next::Requeue(ERROR_REQUEUE),
{
    Next::Requeue(ERROR_REQUEUE)
}

/// What follows a reconciliation of a record that failed: the record is
/// looked at again in a minute.
pub fn record_error_policy() -> (next: Next)
    ensures
        next == Next::Requeue(ERROR_REQUEUE),
{
    Next::Requeue(ERROR_REQUEUE)
}

} // verus!
