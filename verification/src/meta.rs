//! What every object of the cluster carries: its name, its namespace, its
//! identity, and the labels by which the controllers find related objects.

use vstd::prelude::*;
use vstd::string::*;
use crate::text::{chars_of, find_from, position, str_equal};

verus! {

/// Label on a zone or a record that names the zone it belongs to, as
/// `<name>.<namespace>`.
pub const PARENT_ZONE_LABEL: &'static str = "kubi.zone/parent-zone";

/// Label on a zone that names the zone file rendered from it, as
/// `<name>.<namespace>`.
pub const TARGET_ZONEFILE_LABEL: &'static str = "kubi.zone/zonefile";

/// A reference to a zone by name, in a given namespace or in the namespace
/// of whatever holds the reference.
#[derive(Debug, PartialEq, Eq, Hash)]
pub struct ZoneRef {
    pub name: String,
    pub namespace: Option<String>,
}

/// The mathematical value of a [`ZoneRef`].
pub struct ZoneRefView {
    pub name: Seq<char>,
    pub namespace: Option<Seq<char>>,
}

impl ZoneRefView {
    /// The reference as the value of a label: `<name>.<namespace>`, or the
    /// bare name where no namespace is given.
    pub open spec fn label(self) -> Seq<char> {
        match self.namespace {
            Some(namespace) => self.name + seq!['.'] + namespace,
            None => self.name,
        }
    }

    /// The reference with `fallback` in place of a missing namespace.
    pub open spec fn within(self, fallback: Option<Seq<char>>) -> ZoneRefView {
        ZoneRefView {
            name: self.name,
            namespace: match self.namespace {
                Some(namespace) => Some(namespace),
                None => fallback,
            },
        }
    }
}

impl View for ZoneRef {
    type V = ZoneRefView;

    open spec fn view(&self) -> ZoneRefView {
        ZoneRefView { name: self.name@, namespace: self.namespace.deep_view() }
    }
}

impl DeepView for ZoneRef {
    type V = ZoneRefView;

    open spec fn deep_view(&self) -> ZoneRefView {
        self@
    }
}

impl Clone for ZoneRef {
    fn clone(&self) -> (copy: Self)
        ensures
            copy@ == self@,
    {
        ZoneRef { name: self.name.clone(), namespace: clone_text(&self.namespace) }
    }
}

impl ZoneRef {
    /// The reference as the value of a label.
    pub fn as_label(&self) -> (label: String)
        ensures
            label@ == self@.label(),
    {
        let mut label = self.name.clone();
        match &self.namespace {
            Some(namespace) => {
                label.append(".");
                label.append(namespace.as_str());
                proof {
                    reveal_strlit(".");
                    assert("."@ =~= seq!['.']);
                }
            },
            None => {},
        }
        label
    }

    /// The reference as text: the value of the label.
    pub fn to_string(&self) -> (text: String)
        ensures
            text@ == self@.label(),
    {
        self.as_label()
    }

    /// The reference with `fallback` in place of a missing namespace.
    pub fn within(&self, fallback: &Option<String>) -> (full: ZoneRef)
        ensures
            full@ == self@.within(fallback.deep_view()),
    {
        let namespace = match &self.namespace {
            Some(namespace) => Some(namespace.clone()),
            None => clone_text(fallback),
        };
        ZoneRef { name: self.name.clone(), namespace }
    }
}

/// A copy of an optional string.
pub fn clone_text(text: &Option<String>) -> (copy: Option<String>)
    ensures
        copy.deep_view() == text.deep_view(),
{
    match text {
        Some(s) => Some(s.clone()),
        None => None,
    }
}

/// Whether two optional strings are both absent or hold the same text.
pub fn same_text(a: &Option<String>, b: &Option<String>) -> (same: bool)
    ensures
        same == (a.deep_view() == b.deep_view()),
{
    match (a, b) {
        (Some(x), Some(y)) => str_equal(x.as_str(), y.as_str()),
        (None, None) => true,
        _ => false,
    }
}

/// Whether an optional string is present and holds `text`.
pub fn holds_text(a: &Option<String>, text: &str) -> (same: bool)
    ensures
        same == (a.deep_view() == Some(text@)),
{
    match a {
        Some(x) => str_equal(x.as_str(), text),
        None => false,
    }
}

/// The metadata of an object, as far as the controllers read it.
#[derive(Debug, PartialEq, Eq)]
pub struct ObjectMeta {
    /// The object's name; empty where it has none.
    pub name: String,
    pub namespace: Option<String>,
    /// The identity the cluster gave the object.
    pub uid: Option<String>,
    /// The value of the label [`PARENT_ZONE_LABEL`].
    pub parent_zone: Option<String>,
    /// The value of the label [`TARGET_ZONEFILE_LABEL`].
    pub zonefile: Option<String>,
}

/// The mathematical value of an [`ObjectMeta`].
pub struct ObjectMetaView {
    pub name: Seq<char>,
    pub namespace: Option<Seq<char>>,
    pub uid: Option<Seq<char>>,
    pub parent_zone: Option<Seq<char>>,
    pub zonefile: Option<Seq<char>>,
}

impl ObjectMetaView {
    /// The namespace, or the empty text where the object has none.
    pub open spec fn namespace_or_empty(self) -> Seq<char> {
        match self.namespace {
            Some(namespace) => namespace,
            None => Seq::empty(),
        }
    }

    /// The reference by which other objects name this one.
    pub open spec fn zone_ref(self) -> ZoneRefView {
        ZoneRefView { name: self.name, namespace: self.namespace }
    }
}

impl View for ObjectMeta {
    type V = ObjectMetaView;

    open spec fn view(&self) -> ObjectMetaView {
        ObjectMetaView {
            name: self.name@,
            namespace: self.namespace.deep_view(),
            uid: self.uid.deep_view(),
            parent_zone: self.parent_zone.deep_view(),
            zonefile: self.zonefile.deep_view(),
        }
    }
}

impl Clone for ObjectMeta {
    fn clone(&self) -> (copy: Self)
        ensures
            copy@ == self@,
    {
        ObjectMeta {
            name: self.name.clone(),
            namespace: clone_text(&self.namespace),
            uid: clone_text(&self.uid),
            parent_zone: clone_text(&self.parent_zone),
            zonefile: clone_text(&self.zonefile),
        }
    }
}

impl Default for ObjectMeta {
    fn default() -> (meta: Self)
        ensures
            meta@ == (ObjectMetaView {
                name: Seq::empty(),
                namespace: None,
                uid: None,
                parent_zone: None,
                zonefile: None,
            }),
    {
        ObjectMeta { name: String::new(), namespace: None, uid: None, parent_zone: None, zonefile: None }
    }
}

impl ObjectMeta {
    /// The reference by which other objects name this one.
    pub fn zone_ref(&self) -> (reference: ZoneRef)
        ensures
            reference@ == self@.zone_ref(),
    {
        ZoneRef { name: self.name.clone(), namespace: clone_text(&self.namespace) }
    }

    /// The namespace, or the empty text where the object has none.
    pub fn namespace_or_empty(&self) -> (namespace: String)
        ensures
            namespace@ == self@.namespace_or_empty(),
    {
        match &self.namespace {
            Some(namespace) => namespace.clone(),
            None => String::new(),
        }
    }
}

/// Name and namespace of an object that a label points to.
#[derive(Debug, PartialEq, Eq)]
pub struct ObjectKey {
    pub name: String,
    pub namespace: String,
}

/// The mathematical value of an [`ObjectKey`].
pub struct ObjectKeyView {
    pub name: Seq<char>,
    pub namespace: Seq<char>,
}

impl View for ObjectKey {
    type V = ObjectKeyView;

    open spec fn view(&self) -> ObjectKeyView {
        ObjectKeyView { name: self.name@, namespace: self.namespace@ }
    }
}

/// The object that the value of a label points to: what stands before the
/// first `.` is its name, what follows is its namespace. A missing label,
/// or a value without a `.`, points to nothing.
pub open spec fn label_target(label: Option<Seq<char>>) -> Option<ObjectKeyView> {
    match label {
        Some(value) => {
            let dot = position(value, '.');
            if 0 <= dot < value.len() {
                Some(ObjectKeyView { name: value.take(dot), namespace: value.skip(dot + 1) })
            } else {
                None
            }
        },
        None => None,
    }
}

/// Maps the value of a back-reference label on a watched object to the
/// object that is to be reconciled when the watched one changes.
pub fn watch_reference(label: Option<&String>) -> (target: Option<ObjectKey>)
    ensures
        target.is_some() == label_target(label.deep_view()).is_some(),
        target.is_some() ==> target.unwrap()@ == label_target(label.deep_view()).unwrap(),
{
    match label {
        Some(value) => {
            let text = value.as_str();
            let chars = chars_of(text);
            let dot: usize = find_from(&chars, 0, '.');
            proof {
                assert(chars@.skip(0) == chars@);
            }
            if dot < chars.len() {
                let name = String::from_str(text.substring_char(0, dot));
                let namespace = String::from_str(text.substring_char(dot + 1, chars.len()));
                Some(ObjectKey { name, namespace })
            } else {
                None
            }
        },
        None => None,
    }
}

} // verus!
