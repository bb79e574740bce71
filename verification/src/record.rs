//! Records: single resource records that attach themselves to a zone.

use vstd::prelude::*;
use crate::meta::{ObjectMeta, ObjectMetaView, ZoneRef, ZoneRefView};

verus! {

/// What the author of a record asks for.
#[derive(Debug, Clone, PartialEq, Eq, Hash)]
pub struct RecordSpec {
    /// A name relative to the zone that `zone_ref` names, or a fully
    /// qualified name ending in `.`.
    pub domain_name: String,
    pub zone_ref: Option<ZoneRef>,
    pub type_: String,
    pub class: String,
    pub ttl: Option<u32>,
    pub rdata: String,
}

/// The mathematical value of a [`RecordSpec`].
pub struct RecordSpecView {
    pub domain_name: Seq<char>,
    pub zone_ref: Option<ZoneRefView>,
    pub type_: Seq<char>,
    pub class: Seq<char>,
    pub ttl: Option<u32>,
    pub rdata: Seq<char>,
}

impl View for RecordSpec {
    type V = RecordSpecView;

    open spec fn view(&self) -> RecordSpecView {
        RecordSpecView {
            domain_name: self.domain_name@,
            zone_ref: self.zone_ref.deep_view(),
            type_: self.type_@,
            class: self.class@,
            ttl: self.ttl,
            rdata: self.rdata@,
        }
    }
}

impl DeepView for RecordSpec {
    type V = RecordSpecView;

    open spec fn deep_view(&self) -> RecordSpecView {
        self@
    }
}

/// What the resolver found out about a record.
#[derive(Debug, Clone, PartialEq, Eq)]
pub struct RecordStatus {
    /// The fully qualified name of the record.
    pub fqdn: Option<String>,
}

/// The mathematical value of a [`RecordStatus`].
pub struct RecordStatusView {
    pub fqdn: Option<Seq<char>>,
}

impl View for RecordStatus {
    type V = RecordStatusView;

    open spec fn view(&self) -> RecordStatusView {
        RecordStatusView { fqdn: self.fqdn.deep_view() }
    }
}

impl DeepView for RecordStatus {
    type V = RecordStatusView;

    open spec fn deep_view(&self) -> RecordStatusView {
        self@
    }
}

/// A record as the cluster holds it.
#[derive(Debug, Clone, PartialEq, Eq)]
pub struct Record {
    pub metadata: ObjectMeta,
    pub spec: RecordSpec,
    pub status: Option<RecordStatus>,
}

/// The mathematical value of a [`Record`].
pub struct RecordView {
    pub metadata: ObjectMetaView,
    pub spec: RecordSpecView,
    pub status: Option<RecordStatusView>,
}

impl RecordView {
    /// The fully qualified name that the resolver gave the record, if any.
    pub open spec fn fqdn(self) -> Option<Seq<char>> {
        match self.status {
            Some(status) => status.fqdn,
            None => None,
        }
    }
}

impl View for Record {
    type V = RecordView;

    open spec fn view(&self) -> RecordView {
        RecordView { metadata: self.metadata@, spec: self.spec@, status: self.status.deep_view() }
    }
}

impl DeepView for Record {
    type V = RecordView;

    open spec fn deep_view(&self) -> RecordView {
        self@
    }
}

impl Record {
    /// The fully qualified name that the resolver gave the record, if any.
    pub fn fqdn(&self) -> (fqdn: Option<&str>)
        ensures
            fqdn.deep_view() == self@.fqdn(),
    {
        match &self.status {
            Some(status) => match &status.fqdn {
                Some(fqdn) => Some(fqdn.as_str()),
                None => None,
            },
            None => None,
        }
    }
}

} // verus!
