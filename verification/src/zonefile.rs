//! Zone files: the request to render a zone as text, and what the renderer
//! last made of it.

use vstd::prelude::*;
use crate::meta::{ObjectMeta, ObjectMetaView, ZoneRef, ZoneRefView};

verus! {

/// What the author of a zone file asks for.
#[derive(Debug, Clone, PartialEq, Eq, Hash)]
pub struct ZoneFileSpec {
    /// The zone to render, in the namespace of the zone file unless the
    /// reference names another.
    pub zone_ref: ZoneRef,
    /// Number of rendered revisions to keep.
    pub history: u32,
    /// Seconds for which resolvers keep a record that names no time of its
    /// own.
    pub ttl: u32,
    /// The serial last written. The renderer owns this field.
    pub serial: u32,
    pub refresh: u32,
    pub retry: u32,
    pub expire: u32,
    pub negative_response_cache: u32,
}

/// The mathematical value of a [`ZoneFileSpec`].
pub struct ZoneFileSpecView {
    pub zone_ref: ZoneRefView,
    pub history: u32,
    pub ttl: u32,
    pub serial: u32,
    pub refresh: u32,
    pub retry: u32,
    pub expire: u32,
    pub negative_response_cache: u32,
}

impl View for ZoneFileSpec {
    type V = ZoneFileSpecView;

    open spec fn view(&self) -> ZoneFileSpecView {
        ZoneFileSpecView {
            zone_ref: self.zone_ref@,
            history: self.history,
            ttl: self.ttl,
            serial: self.serial,
            refresh: self.refresh,
            retry: self.retry,
            expire: self.expire,
            negative_response_cache: self.negative_response_cache,
        }
    }
}

impl DeepView for ZoneFileSpec {
    type V = ZoneFileSpecView;

    open spec fn deep_view(&self) -> ZoneFileSpecView {
        self@
    }
}

/// What the renderer last made of a zone file.
#[derive(Debug, Clone, PartialEq, Eq)]
pub struct ZoneFileStatus {
    /// Digest of the zone at the last rendering.
    pub hash: Option<String>,
    /// Serial of the last rendering.
    pub serial: Option<u32>,
    /// Name of the config map that holds the last rendering.
    pub config_map: Option<String>,
}

/// The mathematical value of a [`ZoneFileStatus`].
pub struct ZoneFileStatusView {
    pub hash: Option<Seq<char>>,
    pub serial: Option<u32>,
    pub config_map: Option<Seq<char>>,
}

impl View for ZoneFileStatus {
    type V = ZoneFileStatusView;

    open spec fn view(&self) -> ZoneFileStatusView {
        ZoneFileStatusView {
            hash: self.hash.deep_view(),
            serial: self.serial,
            config_map: self.config_map.deep_view(),
        }
    }
}

impl DeepView for ZoneFileStatus {
    type V = ZoneFileStatusView;

    open spec fn deep_view(&self) -> ZoneFileStatusView {
        self@
    }
}

/// A zone file as the cluster holds it.
#[derive(Debug, Clone, PartialEq, Eq)]
pub struct ZoneFile {
    pub metadata: ObjectMeta,
    pub spec: ZoneFileSpec,
    pub status: Option<ZoneFileStatus>,
}

/// The mathematical value of a [`ZoneFile`].
pub struct ZoneFileView {
    pub metadata: ObjectMetaView,
    pub spec: ZoneFileSpecView,
    pub status: Option<ZoneFileStatusView>,
}

impl ZoneFileView {
    /// The reference to the zone to render, with the namespace of the zone
    /// file where the reference names none.
    pub open spec fn zone_ref(self) -> ZoneRefView {
        self.spec.zone_ref.within(self.metadata.namespace)
    }

    /// Digest of the zone at the last rendering, if there was one.
    pub open spec fn hash(self) -> Option<Seq<char>> {
        match self.status {
            Some(status) => status.hash,
            None => None,
        }
    }

    /// The value by which a zone points back to the zone file:
    /// `<name>.<namespace>`.
    pub open spec fn backref(self) -> Seq<char> {
        self.metadata.name + seq!['.'] + self.metadata.namespace_or_empty()
    }
}

impl View for ZoneFile {
    type V = ZoneFileView;

    open spec fn view(&self) -> ZoneFileView {
        ZoneFileView { metadata: self.metadata@, spec: self.spec@, status: self.status.deep_view() }
    }
}

impl DeepView for ZoneFile {
    type V = ZoneFileView;

    open spec fn deep_view(&self) -> ZoneFileView {
        self@
    }
}

impl ZoneFile {
    /// The reference to the zone to render, with the namespace of the zone
    /// file where the reference names none.
    pub fn zone_ref(&self) -> (reference: ZoneRef)
        ensures
            reference@ == self@.zone_ref(),
    {
        self.spec.zone_ref.within(&self.metadata.namespace)
    }

    /// Digest of the zone at the last rendering, if there was one.
    pub fn hash(&self) -> (hash: Option<&str>)
        ensures
            hash.deep_view() == self@.hash(),
    {
        match &self.status {
            Some(status) => match &status.hash {
                Some(hash) => Some(hash.as_str()),
                None => None,
            },
            None => None,
        }
    }
}

} // verus!
