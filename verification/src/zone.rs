//! Zones and the delegations by which a zone says which zones and records
//! of which namespaces may attach themselves to it.

use vstd::prelude::*;
use vstd::string::*;
use crate::meta::{same_text, ObjectMeta, ObjectMetaView, ZoneRef, ZoneRefView};
use crate::pattern::{domain_matches_pattern, pattern_matches};
use crate::record::{Record, RecordView};
use crate::text::{str_ends_with, str_equal};

verus! {

/// Names what `str::to_uppercase` of the standard library returns for a
/// text.
pub uninterp spec fn uppercase(text: Seq<char>) -> Seq<char>;

/// Calls `str::to_uppercase`, which maps a text to its uppercase form by
/// the rules of Unicode. The contract gives the result its name and claims
/// nothing else of it.
#[verifier::external_body]
fn to_uppercase(text: &str) -> (upper: String)
    ensures
        upper@ == uppercase(text@),
{
    text.to_uppercase()
}

/// Whether a list of record types, already in uppercase, admits the type
/// `wanted`, already in uppercase: an empty list admits every type.
pub open spec fn type_listed(listed: Seq<Seq<char>>, wanted: Seq<char>) -> bool {
    listed.len() == 0 || listed.contains(wanted)
}

/// Whether a list of texts holds `wanted`.
pub fn lists_text(listed: &Vec<String>, wanted: &str) -> (found: bool)
    ensures
        found == listed.deep_view().contains(wanted@),
{
    let mut i: usize = 0;
    while i < listed.len()
        invariant
            i <= listed.len(),
            forall|k: int| 0 <= k < i ==> listed.deep_view()[k] != wanted@,
        decreases listed.len() - i,
    {
        if str_equal(listed[i].as_str(), wanted) {
            assert(listed.deep_view()[i as int] == wanted@);
            return true;
        }
        i = i + 1;
    }
    false
}

/// Decides `type_listed` for types that are in uppercase already.
pub fn lists_type(listed: &Vec<String>, wanted: &str) -> (admitted: bool)
    ensures
        admitted == type_listed(listed.deep_view(), wanted@),
{
    listed.len() == 0 || lists_text(listed, wanted)
}

/// Permission for records whose name fits a pattern.
#[derive(Debug, Clone, PartialEq, Eq, Hash)]
pub struct RecordDelegation {
    /// Pattern that the name of a delegated record must match.
    pub pattern: String,
    /// Types of record that are allowed. An empty list allows any.
    pub record_types: Vec<String>,
}

/// The mathematical value of a [`RecordDelegation`].
pub struct RecordDelegationView {
    pub pattern: Seq<char>,
    pub record_types: Seq<Seq<char>>,
}

impl RecordDelegationView {
    /// The allowed types in uppercase.
    pub open spec fn uppercase_types(self) -> Seq<Seq<char>> {
        Seq::new(self.record_types.len(), |i: int| uppercase(self.record_types[i]))
    }

    /// Whether a record of type `record_type` named `domain` is allowed:
    /// the name fits the pattern, and the type is among the allowed ones
    /// when case is left aside.
    pub open spec fn validate(self, record_type: Seq<char>, domain: Seq<char>) -> bool {
        pattern_matches(self.pattern, domain) && type_listed(
            self.uppercase_types(),
            uppercase(record_type),
        )
    }
}

impl View for RecordDelegation {
    type V = RecordDelegationView;

    open spec fn view(&self) -> RecordDelegationView {
        RecordDelegationView {
            pattern: self.pattern@,
            record_types: self.record_types.deep_view(),
        }
    }
}

impl DeepView for RecordDelegation {
    type V = RecordDelegationView;

    open spec fn deep_view(&self) -> RecordDelegationView {
        self@
    }
}

impl RecordDelegation {
    /// The allowed types in uppercase.
    fn uppercase_types(&self) -> (upper: Vec<String>)
        ensures
            upper.deep_view() == self@.uppercase_types(),
    {
        let mut upper: Vec<String> = Vec::new();
        let mut i: usize = 0;
        while i < self.record_types.len()
            invariant
                i <= self.record_types.len(),
                upper.len() == i,
                forall|k: int| 0 <= k < i ==> upper[k]@ == uppercase(self.record_types[k]@),
            decreases self.record_types.len() - i,
        {
            upper.push(to_uppercase(self.record_types[i].as_str()));
            i = i + 1;
        }
        assert(upper.deep_view() =~= self@.uppercase_types());
        upper
    }

    /// Whether a record of type `record_type` named `domain` is allowed.
    pub fn validate(&self, record_type: &str, domain: &str) -> (valid: bool)
        ensures
            valid == self@.validate(record_type@, domain@),
    {
        if !domain_matches_pattern(self.pattern.as_str(), domain) {
            return false;
        }
        let wanted = to_uppercase(record_type);
        let listed = self.uppercase_types();
        lists_type(&listed, wanted.as_str())
    }
}

/// What a zone grants to the objects of some namespaces.
#[derive(Debug, Clone, PartialEq, Eq, Hash)]
pub struct Delegation {
    /// Namespaces whose objects the delegation speaks of. An empty list
    /// speaks of all.
    pub namespaces: Vec<String>,
    /// Patterns of the names that zones may claim.
    pub zones: Vec<String>,
    /// What records may claim.
    pub records: Vec<RecordDelegation>,
}

/// The mathematical value of a [`Delegation`].
pub struct DelegationView {
    pub namespaces: Seq<Seq<char>>,
    pub zones: Seq<Seq<char>>,
    pub records: Seq<RecordDelegationView>,
}

impl DelegationView {
    /// Whether the delegation speaks of the objects of `namespace`.
    pub open spec fn covers_namespace(self, namespace: Seq<char>) -> bool {
        self.namespaces.len() == 0 || self.namespaces.contains(namespace)
    }

    /// Whether one of the record delegations allows a record of type
    /// `record_type` named `domain`.
    pub open spec fn validate_record(self, record_type: Seq<char>, domain: Seq<char>) -> bool {
        exists|i: int|
            0 <= i < self.records.len() && (#[trigger] self.records[i]).validate(
                record_type,
                domain,
            )
    }

    /// Whether one of the zone patterns matches `domain`.
    pub open spec fn validate_zone(self, domain: Seq<char>) -> bool {
        exists|i: int|
            0 <= i < self.zones.len() && pattern_matches(#[trigger] self.zones[i], domain)
    }

    /// Whether the delegation grants a record of `namespace` the type and
    /// the name.
    pub open spec fn grants_record(
        self,
        namespace: Seq<char>,
        record_type: Seq<char>,
        domain: Seq<char>,
    ) -> bool {
        self.covers_namespace(namespace) && self.validate_record(record_type, domain)
    }

    /// Whether the delegation grants a zone of `namespace` the name.
    pub open spec fn grants_zone(self, namespace: Seq<char>, domain: Seq<char>) -> bool {
        self.covers_namespace(namespace) && self.validate_zone(domain)
    }
}

impl View for Delegation {
    type V = DelegationView;

    open spec fn view(&self) -> DelegationView {
        DelegationView {
            namespaces: self.namespaces.deep_view(),
            zones: self.zones.deep_view(),
            records: self.records.deep_view(),
        }
    }
}

impl DeepView for Delegation {
    type V = DelegationView;

    open spec fn deep_view(&self) -> DelegationView {
        self@
    }
}

impl Delegation {
    /// Whether the delegation speaks of the objects of `namespace`.
    pub fn covers_namespace(&self, namespace: &str) -> (covered: bool)
        ensures
            covered == self@.covers_namespace(namespace@),
    {
        self.namespaces.len() == 0 || lists_text(&self.namespaces, namespace)
    }

    /// Whether one of the record delegations allows a record of type
    /// `record_type` named `domain`.
    pub fn validate_record(&self, record_type: &str, domain: &str) -> (valid: bool)
        ensures
            valid == self@.validate_record(record_type@, domain@),
    {
        let mut i: usize = 0;
        while i < self.records.len()
            invariant
                i <= self.records.len(),
                forall|k: int|
                    0 <= k < i ==> !(#[trigger] self@.records[k]).validate(record_type@, domain@),
            decreases self.records.len() - i,
        {
            if self.records[i].validate(record_type, domain) {
                assert(self@.records[i as int] == self.records[i as int]@);
                return true;
            }
            assert(self@.records[i as int] == self.records[i as int]@);
            i = i + 1;
        }
        false
    }

    /// Whether one of the zone patterns matches `domain`.
    pub fn validate_zone(&self, domain: &str) -> (valid: bool)
        ensures
            valid == self@.validate_zone(domain@),
    {
        let mut i: usize = 0;
        while i < self.zones.len()
            invariant
                i <= self.zones.len(),
                forall|k: int| 0 <= k < i ==> !pattern_matches(#[trigger] self@.zones[k], domain@),
            decreases self.zones.len() - i,
        {
            if domain_matches_pattern(self.zones[i].as_str(), domain) {
                assert(self@.zones[i as int] == self.zones[i as int]@);
                return true;
            }
            assert(self@.zones[i as int] == self.zones[i as int]@);
            i = i + 1;
        }
        false
    }
}

/// Whether one of `delegations` grants a record of `namespace` the type
/// and the name.
pub open spec fn any_grants_record(
    delegations: Seq<DelegationView>,
    namespace: Seq<char>,
    record_type: Seq<char>,
    domain: Seq<char>,
) -> bool {
    exists|i: int|
        0 <= i < delegations.len() && (#[trigger] delegations[i]).grants_record(
            namespace,
            record_type,
            domain,
        )
}

/// Whether one of `delegations` grants a zone of `namespace` the name.
pub open spec fn any_grants_zone(
    delegations: Seq<DelegationView>,
    namespace: Seq<char>,
    domain: Seq<char>,
) -> bool {
    exists|i: int|
        0 <= i < delegations.len() && (#[trigger] delegations[i]).grants_zone(namespace, domain)
}

/// Decides `any_grants_record`.
pub fn grants_record(
    delegations: &Vec<Delegation>,
    namespace: &str,
    record_type: &str,
    domain: &str,
) -> (granted: bool)
    ensures
        granted == any_grants_record(
            delegations.deep_view(),
            namespace@,
            record_type@,
            domain@,
        ),
{
    let mut i: usize = 0;
    while i < delegations.len()
        invariant
            i <= delegations.len(),
            forall|k: int|
                0 <= k < i ==> !(#[trigger] delegations.deep_view()[k]).grants_record(
                    namespace@,
                    record_type@,
                    domain@,
                ),
        decreases delegations.len() - i,
    {
        let delegation = &delegations[i];
        assert(delegations.deep_view()[i as int] == delegation@);
        if delegation.covers_namespace(namespace) && delegation.validate_record(
            record_type,
            domain,
        ) {
            return true;
        }
        i = i + 1;
    }
    false
}

/// Decides `any_grants_zone`.
pub fn grants_zone(delegations: &Vec<Delegation>, namespace: &str, domain: &str) -> (granted: bool)
    ensures
        granted == any_grants_zone(delegations.deep_view(), namespace@, domain@),
{
    let mut i: usize = 0;
    while i < delegations.len()
        invariant
            i <= delegations.len(),
            forall|k: int|
                0 <= k < i ==> !(#[trigger] delegations.deep_view()[k]).grants_zone(
                    namespace@,
                    domain@,
                ),
        decreases delegations.len() - i,
    {
        let delegation = &delegations[i];
        assert(delegations.deep_view()[i as int] == delegation@);
        if delegation.covers_namespace(namespace) && delegation.validate_zone(domain) {
            return true;
        }
        i = i + 1;
    }
    false
}

/// What the author of a zone asks for.
#[derive(Debug, Clone, PartialEq, Eq, Hash)]
pub struct ZoneSpec {
    /// A name relative to the zone that `zone_ref` names, or a fully
    /// qualified name ending in `.`.
    pub domain_name: String,
    pub zone_ref: Option<ZoneRef>,
    pub delegations: Vec<Delegation>,
}

/// The mathematical value of a [`ZoneSpec`].
pub struct ZoneSpecView {
    pub domain_name: Seq<char>,
    pub zone_ref: Option<ZoneRefView>,
    pub delegations: Seq<DelegationView>,
}

impl View for ZoneSpec {
    type V = ZoneSpecView;

    open spec fn view(&self) -> ZoneSpecView {
        ZoneSpecView {
            domain_name: self.domain_name@,
            zone_ref: self.zone_ref.deep_view(),
            delegations: self.delegations.deep_view(),
        }
    }
}

impl DeepView for ZoneSpec {
    type V = ZoneSpecView;

    open spec fn deep_view(&self) -> ZoneSpecView {
        self@
    }
}

/// What the resolver found out about a zone.
#[derive(Debug, Clone, PartialEq, Eq)]
pub struct ZoneStatus {
    /// The fully qualified name of the zone.
    pub fqdn: Option<String>,
    /// Digest of the zones and records that belong to the zone.
    pub hash: Option<String>,
}

/// The mathematical value of a [`ZoneStatus`].
pub struct ZoneStatusView {
    pub fqdn: Option<Seq<char>>,
    pub hash: Option<Seq<char>>,
}

impl View for ZoneStatus {
    type V = ZoneStatusView;

    open spec fn view(&self) -> ZoneStatusView {
        ZoneStatusView { fqdn: self.fqdn.deep_view(), hash: self.hash.deep_view() }
    }
}

impl DeepView for ZoneStatus {
    type V = ZoneStatusView;

    open spec fn deep_view(&self) -> ZoneStatusView {
        self@
    }
}

/// A zone as the cluster holds it.
#[derive(Debug, Clone, PartialEq, Eq)]
pub struct Zone {
    pub metadata: ObjectMeta,
    pub spec: ZoneSpec,
    pub status: Option<ZoneStatus>,
}

/// The mathematical value of a [`Zone`].
pub struct ZoneView {
    pub metadata: ObjectMetaView,
    pub spec: ZoneSpecView,
    pub status: Option<ZoneStatusView>,
}

impl ZoneView {
    /// The reference by which other objects name the zone.
    pub open spec fn zone_ref(self) -> ZoneRefView {
        self.metadata.zone_ref()
    }

    /// The zone as text: `<namespace>/<name>`, with an empty namespace
    /// where the zone has none.
    pub open spec fn text(self) -> Seq<char> {
        self.metadata.namespace_or_empty() + seq!['/'] + self.metadata.name
    }

    /// The fully qualified name that the resolver gave the zone, if any.
    pub open spec fn fqdn(self) -> Option<Seq<char>> {
        match self.status {
            Some(status) => status.fqdn,
            None => None,
        }
    }

    /// The digest that the resolver gave the zone, if any.
    pub open spec fn hash(self) -> Option<Seq<char>> {
        match self.status {
            Some(status) => status.hash,
            None => None,
        }
    }

    /// Whether a name lies under the zone, going by the name that the
    /// author of the zone wrote.
    pub open spec fn holds_name(self, fqdn: Option<Seq<char>>) -> bool {
        match fqdn {
            Some(name) => self.spec.domain_name.is_suffix_of(name),
            None => false,
        }
    }

    /// Whether the zone takes a record with these properties as its own:
    /// the record has a fully qualified name under the zone, and one
    /// delegation of the zone covers the record's namespace and allows its
    /// type and the name that its author wrote.
    pub open spec fn takes_record(
        self,
        fqdn: Option<Seq<char>>,
        namespace: Seq<char>,
        record_type: Seq<char>,
        domain_name: Seq<char>,
    ) -> bool {
        &&& self.holds_name(fqdn)
        &&& any_grants_record(self.spec.delegations, namespace, record_type, domain_name)
    }

    /// Whether the zone takes a zone with these properties as a zone under
    /// it: that zone has a fully qualified name under this zone, is another
    /// object than this zone, and one delegation of this zone covers its
    /// namespace and allows the name that its author wrote.
    pub open spec fn takes_zone(
        self,
        fqdn: Option<Seq<char>>,
        uid: Option<Seq<char>>,
        namespace: Seq<char>,
        domain_name: Seq<char>,
    ) -> bool {
        &&& self.holds_name(fqdn)
        &&& self.metadata.uid != uid
        &&& any_grants_zone(self.spec.delegations, namespace, domain_name)
    }

    /// Whether the zone takes `record` as its own.
    pub open spec fn validate_record(self, record: RecordView) -> bool {
        self.takes_record(
            record.fqdn(),
            record.metadata.namespace_or_empty(),
            record.spec.type_,
            record.spec.domain_name,
        )
    }

    /// Whether the zone takes `zone` as a zone under it.
    pub open spec fn validate_zone(self, zone: ZoneView) -> bool {
        self.takes_zone(
            zone.fqdn(),
            zone.metadata.uid,
            zone.metadata.namespace_or_empty(),
            zone.spec.domain_name,
        )
    }
}

impl View for Zone {
    type V = ZoneView;

    open spec fn view(&self) -> ZoneView {
        ZoneView { metadata: self.metadata@, spec: self.spec@, status: self.status.deep_view() }
    }
}

impl DeepView for Zone {
    type V = ZoneView;

    open spec fn deep_view(&self) -> ZoneView {
        self@
    }
}

/// A zone without delegations takes no record and no zone.
pub proof fn lemma_no_delegations_deny_all(parent: ZoneView, record: RecordView, zone: ZoneView)
    requires
        parent.spec.delegations.len() == 0,
    ensures
        !parent.validate_record(record),
        !parent.validate_zone(zone),
{
}

impl Zone {
    /// The reference by which other objects name the zone.
    pub fn zone_ref(&self) -> (reference: ZoneRef)
        ensures
            reference@ == self@.zone_ref(),
    {
        self.metadata.zone_ref()
    }

    /// The zone as text: `<namespace>/<name>`.
    pub fn to_string(&self) -> (text: String)
        ensures
            text@ == self@.text(),
    {
        let mut text = self.metadata.namespace_or_empty();
        text.append("/");
        text.append(self.metadata.name.as_str());
        proof {
            reveal_strlit("/");
            assert("/"@ =~= seq!['/']);
        }
        text
    }

    /// The fully qualified name that the resolver gave the zone, if any.
    pub fn fqdn(&self) -> (fqdn: Option<&str>)
        ensures
            fqdn.deep_view() == self@.fqdn(),
    {
        match &self.status {
            Some(status) => match &status.fqdn {
                Some(fqdn) => Some(fqdn.as_str()),
                None => None,
            },
            None => None,
        }
    }

    /// The digest that the resolver gave the zone, if any.
    pub fn hash(&self) -> (hash: Option<&str>)
        ensures
            hash.deep_view() == self@.hash(),
    {
        match &self.status {
            Some(status) => match &status.hash {
                Some(hash) => Some(hash.as_str()),
                None => None,
            },
            None => None,
        }
    }

    /// Decides `holds_name`.
    pub fn holds_name(&self, fqdn: Option<&str>) -> (held: bool)
        ensures
            held == self@.holds_name(fqdn.deep_view()),
    {
        match fqdn {
            Some(name) => str_ends_with(name, self.spec.domain_name.as_str()),
            None => false,
        }
    }

    /// Whether the zone takes a record with these properties as its own.
    pub fn takes_record(
        &self,
        fqdn: Option<&str>,
        namespace: &str,
        record_type: &str,
        domain_name: &str,
    ) -> (taken: bool)
        ensures
            taken == self@.takes_record(fqdn.deep_view(), namespace@, record_type@, domain_name@),
    {
        self.holds_name(fqdn) && grants_record(
            &self.spec.delegations,
            namespace,
            record_type,
            domain_name,
        )
    }

    /// Whether the zone takes a zone with these properties as a zone under
    /// it.
    pub fn takes_zone(
        &self,
        fqdn: Option<&str>,
        uid: &Option<String>,
        namespace: &str,
        domain_name: &str,
    ) -> (taken: bool)
        ensures
            taken == self@.takes_zone(
                fqdn.deep_view(),
                uid.deep_view(),
                namespace@,
                domain_name@,
            ),
    {
        self.holds_name(fqdn) && !same_text(&self.metadata.uid, uid) && grants_zone(
            &self.spec.delegations,
            namespace,
            domain_name,
        )
    }

    /// Whether the zone takes `record` as its own.
    pub fn validate_record(&self, record: &Record) -> (valid: bool)
        ensures
            valid == self@.validate_record(record@),
    {
        let namespace = record.metadata.namespace_or_empty();
        self.takes_record(
            record.fqdn(),
            namespace.as_str(),
            record.spec.type_.as_str(),
            record.spec.domain_name.as_str(),
        )
    }

    /// Whether the zone takes `zone` as a zone under it.
    pub fn validate_zone(&self, zone: &Zone) -> (valid: bool)
        ensures
            valid == self@.validate_zone(zone@),
    {
        let namespace = zone.metadata.namespace_or_empty();
        self.takes_zone(
            zone.fqdn(),
            &zone.metadata.uid,
            namespace.as_str(),
            zone.spec.domain_name.as_str(),
        )
    }
}

} // verus!
