//! The digest of a zone: one number for the set of zones and records that
//! belong to it, which does not depend on the order in which they are
//! listed.
//!
//! Each child is written as a run of bytes, its key. The keys of the child
//! zones and those of the child records are put in rising order, each key
//! once, and the standard library's default hasher is fed the two runs.
//! The bytes fed to it differ whenever the sets of children differ; that
//! is shown where the keys are read back.

use std::collections::hash_map::DefaultHasher;
use std::hash::Hasher;
use vstd::bytes::{spec_u32_to_le_bytes, spec_u64_to_le_bytes, u32_to_le_bytes, u64_to_le_bytes};
use vstd::prelude::*;
use vstd::std_specs::hash::DefaultHasherAdditionalSpecFns;
use vstd::string::*;
use crate::decimal::{decimal, to_decimal};
use crate::meta::{ZoneRef, ZoneRefView};
use crate::order::{
    arrangement, arranges, lemma_arrangement_is, lemma_insert_arranged, lemma_lex_irreflexive,
    lemma_lex_skip, lemma_lex_total, lemma_lex_transitive, lex_less, strict_total_order, Order,
};
use crate::record::{RecordSpec, RecordSpecView};
use crate::zone::{
    Delegation, DelegationView, RecordDelegation, RecordDelegationView, ZoneSpec, ZoneSpecView,
};

verus! {

/// A count in eight bytes, the low byte first.
pub open spec fn count_bytes(n: nat) -> Seq<u8> {
    spec_u64_to_le_bytes(n as u64)
}

/// A text in UTF-8, closed by a byte that UTF-8 never holds.
pub open spec fn text_bytes(text: Seq<char>) -> Seq<u8> {
    vstd::utf8::encode_utf8(text) + seq![0xffu8]
}

/// An optional text: a count of zero, or a count of one and the text.
pub open spec fn optional_text_bytes(text: Option<Seq<char>>) -> Seq<u8> {
    match text {
        Some(t) => count_bytes(1) + text_bytes(t),
        None => count_bytes(0),
    }
}

/// An optional number of seconds: a count of zero, or a count of one and
/// the number in four bytes, the low byte first.
pub open spec fn optional_seconds_bytes(seconds: Option<u32>) -> Seq<u8> {
    match seconds {
        Some(s) => count_bytes(1) + spec_u32_to_le_bytes(s),
        None => count_bytes(0),
    }
}

/// The runs of `parts`, one after the other.
pub open spec fn concat(parts: Seq<Seq<u8>>) -> Seq<u8>
    decreases parts.len(),
{
    if parts.len() == 0 {
        Seq::empty()
    } else {
        concat(parts.drop_last()) + parts.last()
    }
}

/// The runs of the texts of a list.
pub open spec fn text_runs(texts: Seq<Seq<char>>) -> Seq<Seq<u8>> {
    Seq::new(texts.len(), |i: int| text_bytes(texts[i]))
}

/// A list of texts: their number, and each text.
pub open spec fn texts_bytes(texts: Seq<Seq<char>>) -> Seq<u8> {
    count_bytes(texts.len()) + concat(text_runs(texts))
}

/// A reference to a zone: its name and its optional namespace.
pub open spec fn zone_ref_bytes(reference: ZoneRefView) -> Seq<u8> {
    text_bytes(reference.name) + optional_text_bytes(reference.namespace)
}

/// An optional reference to a zone.
pub open spec fn optional_zone_ref_bytes(reference: Option<ZoneRefView>) -> Seq<u8> {
    match reference {
        Some(r) => count_bytes(1) + zone_ref_bytes(r),
        None => count_bytes(0),
    }
}

/// A record delegation: its pattern and its types.
pub open spec fn record_delegation_bytes(delegation: RecordDelegationView) -> Seq<u8> {
    text_bytes(delegation.pattern) + texts_bytes(delegation.record_types)
}

/// The runs of the record delegations of a list.
pub open spec fn record_delegation_runs(delegations: Seq<RecordDelegationView>) -> Seq<Seq<u8>> {
    Seq::new(delegations.len(), |i: int| record_delegation_bytes(delegations[i]))
}

/// A delegation: its namespaces, its zone patterns, and its record
/// delegations behind their number.
pub open spec fn delegation_bytes(delegation: DelegationView) -> Seq<u8> {
    texts_bytes(delegation.namespaces) + texts_bytes(delegation.zones) + count_bytes(
        delegation.records.len(),
    ) + concat(record_delegation_runs(delegation.records))
}

/// The runs of the delegations of a list.
pub open spec fn delegation_runs(delegations: Seq<DelegationView>) -> Seq<Seq<u8>> {
    Seq::new(delegations.len(), |i: int| delegation_bytes(delegations[i]))
}

/// The key of a zone: all that its author wrote, field by field.
pub open spec fn zone_key(zone: ZoneSpecView) -> Seq<u8> {
    text_bytes(zone.domain_name) + optional_zone_ref_bytes(zone.zone_ref) + count_bytes(
        zone.delegations.len(),
    ) + concat(delegation_runs(zone.delegations))
}

/// The key of a record: all that its author wrote, field by field.
pub open spec fn record_key(record: RecordSpecView) -> Seq<u8> {
    text_bytes(record.domain_name) + optional_zone_ref_bytes(record.zone_ref) + text_bytes(
        record.type_,
    ) + text_bytes(record.class) + optional_seconds_bytes(record.ttl) + text_bytes(record.rdata)
}

/// The keys of `zones`, in their order.
pub open spec fn zone_keys(zones: Seq<ZoneSpecView>) -> Seq<Seq<u8>> {
    Seq::new(zones.len(), |i: int| zone_key(zones[i]))
}

/// The keys of `records`, in their order.
pub open spec fn record_keys(records: Seq<RecordSpecView>) -> Seq<Seq<u8>> {
    Seq::new(records.len(), |i: int| record_key(records[i]))
}

/// A run of bytes as numbers.
pub open spec fn codes(bytes: Seq<u8>) -> Seq<int> {
    Seq::new(bytes.len(), |i: int| bytes[i] as int)
}

/// The order of keys: byte by byte, a key before those that go on from it.
pub open spec fn by_bytes() -> spec_fn(Seq<u8>, Seq<u8>) -> bool {
    |a: Seq<u8>, b: Seq<u8>| lex_less(codes(a), codes(b))
}

/// The order of keys is a strict total order.
pub proof fn lemma_by_bytes_is_order()
    ensures
        strict_total_order(by_bytes()),
{
    let less = by_bytes();
    assert forall|a: Seq<u8>| !#[trigger] less(a, a) by {
        lemma_lex_irreflexive(codes(a));
    }
    assert forall|a: Seq<u8>, b: Seq<u8>, c: Seq<u8>| #[trigger] less(a, b) && #[trigger] less(
        b,
        c,
    ) implies less(a, c) by {
        lemma_lex_transitive(codes(a), codes(b), codes(c));
    }
    assert forall|a: Seq<u8>, b: Seq<u8>| a != b implies #[trigger] less(a, b) || less(b, a) by {
        lemma_lex_total(codes(a), codes(b));
        if codes(a) == codes(b) {
            assert(a.len() == codes(a).len());
            assert(b.len() == codes(b).len());
            assert forall|i: int| 0 <= i < a.len() implies a[i] == b[i] by {
                assert(codes(a)[i] == a[i] as int);
                assert(codes(b)[i] == b[i] as int);
            }
            assert(a =~= b);
        }
    }
}

/// The place at or behind `from` of the first key of `sorted` that does not
/// come before `key`.
proof fn find_key_place(sorted: Seq<Seq<u8>>, key: Seq<u8>, from: int) -> (p: int)
    requires
        0 <= from <= sorted.len(),
        forall|q: int| 0 <= q < from ==> by_bytes()(#[trigger] sorted[q], key),
    ensures
        from <= p <= sorted.len(),
        forall|q: int| 0 <= q < p ==> by_bytes()(#[trigger] sorted[q], key),
        p < sorted.len() ==> !by_bytes()(sorted[p], key),
    decreases sorted.len() - from,
{
    if from == sorted.len() || !by_bytes()(sorted[from], key) {
        from
    } else {
        find_key_place(sorted, key, from + 1)
    }
}

/// An arrangement of the keys of a listing.
proof fn arrange_keys(keys: Seq<Seq<u8>>) -> (sorted: Seq<Seq<u8>>)
    ensures
        arranges(sorted, keys.to_set(), by_bytes()),
        sorted.len() <= keys.len(),
    decreases keys.len(),
{
    if keys.len() == 0 {
        let sorted = Seq::<Seq<u8>>::empty();
        assert(sorted.to_set() =~= keys.to_set());
        sorted
    } else {
        let rest = keys.drop_last();
        let key = keys.last();
        let before = arrange_keys(rest);
        assert forall|k: Seq<u8>| keys.to_set().contains(k) == rest.to_set().insert(key).contains(
            k,
        ) by {
            if keys.contains(k) {
                let i = choose|i: int| 0 <= i < keys.len() && keys[i] == k;
                if i < rest.len() {
                    assert(rest[i] == k);
                }
            }
            if rest.contains(k) {
                let i = choose|i: int| 0 <= i < rest.len() && rest[i] == k;
                assert(keys[i] == k);
            }
            if k == key {
                assert(keys[keys.len() - 1] == k);
            }
        }
        assert(keys.to_set() =~= rest.to_set().insert(key));
        if rest.to_set().contains(key) {
            assert(rest.to_set().insert(key) =~= rest.to_set());
            before
        } else {
            lemma_by_bytes_is_order();
            let p = find_key_place(before, key, 0);
            if p < before.len() {
                assert(before.contains(before[p]));
                assert(before.to_set().contains(before[p]));
            }
            lemma_insert_arranged(before, rest.to_set(), by_bytes(), key, p);
            before.insert(p, key)
        }
    }
}

/// The keys of every listing can be put in rising order, each key once,
/// and `arrangement` is that order. It is no longer than the listing.
pub proof fn lemma_keys_are_arranged(keys: Seq<Seq<u8>>)
    ensures
        arranges(arrangement(keys.to_set(), by_bytes()), keys.to_set(), by_bytes()),
        arrangement(keys.to_set(), by_bytes()).len() <= keys.len(),
{
    let sorted = arrange_keys(keys);
    lemma_by_bytes_is_order();
    lemma_arrangement_is(sorted, keys.to_set(), by_bytes());
}

/// What the hasher is fed for a set of keys: the number of different keys,
/// and the keys in rising order.
pub open spec fn set_bytes(keys: Set<Seq<u8>>) -> Seq<u8> {
    let sorted = arrangement(keys, by_bytes());
    count_bytes(sorted.len()) + concat(sorted)
}

/// What the hasher is fed for the children of a zone: the set of the child
/// zones, and behind it the set of the child records.
pub open spec fn digest_input(zones: Seq<ZoneSpecView>, records: Seq<RecordSpecView>) -> Seq<u8> {
    set_bytes(zone_keys(zones).to_set()) + set_bytes(record_keys(records).to_set())
}

/// The digest of a zone with the child zones `zones` and the child records
/// `records`: what the default hasher makes of their keys.
pub open spec fn zone_digest(zones: Seq<ZoneSpecView>, records: Seq<RecordSpecView>) -> u64 {
    DefaultHasher::spec_finish(seq![digest_input(zones, records)])
}

/// The digest of a zone as it is written into the status of the zone: in
/// decimal digits.
pub open spec fn zone_hash_text(zones: Seq<ZoneSpecView>, records: Seq<RecordSpecView>) -> Seq<char> {
    decimal(zone_digest(zones, records) as nat)
}

/// Two listings that hold the same zones and the same records give the
/// same digest, whatever the order of each listing and however often it
/// names a child.
pub proof fn lemma_digest_ignores_listing(
    zones: Seq<ZoneSpecView>,
    records: Seq<RecordSpecView>,
    other_zones: Seq<ZoneSpecView>,
    other_records: Seq<RecordSpecView>,
)
    requires
        zones.to_set() == other_zones.to_set(),
        records.to_set() == other_records.to_set(),
    ensures
        zone_hash_text(zones, records) == zone_hash_text(other_zones, other_records),
{
    let zk = zone_keys(zones);
    let ok = zone_keys(other_zones);
    assert forall|key: Seq<u8>| zk.to_set().contains(key) == ok.to_set().contains(key) by {
        if zk.contains(key) {
            let i = choose|i: int| 0 <= i < zk.len() && zk[i] == key;
            assert(zones.contains(zones[i]));
            assert(other_zones.to_set().contains(zones[i]));
            let j = choose|j: int| 0 <= j < other_zones.len() && other_zones[j] == zones[i];
            assert(ok[j] == key);
        }
        if ok.contains(key) {
            let i = choose|i: int| 0 <= i < ok.len() && ok[i] == key;
            assert(other_zones.contains(other_zones[i]));
            assert(zones.to_set().contains(other_zones[i]));
            let j = choose|j: int| 0 <= j < zones.len() && zones[j] == other_zones[i];
            assert(zk[j] == key);
        }
    }
    assert(zk.to_set() =~= ok.to_set());
    let rk = record_keys(records);
    let ork = record_keys(other_records);
    assert forall|key: Seq<u8>| rk.to_set().contains(key) == ork.to_set().contains(key) by {
        if rk.contains(key) {
            let i = choose|i: int| 0 <= i < rk.len() && rk[i] == key;
            assert(records.contains(records[i]));
            assert(other_records.to_set().contains(records[i]));
            let j = choose|j: int| 0 <= j < other_records.len() && other_records[j] == records[i];
            assert(ork[j] == key);
        }
        if ork.contains(key) {
            let i = choose|i: int| 0 <= i < ork.len() && ork[i] == key;
            assert(other_records.contains(other_records[i]));
            assert(records.to_set().contains(other_records[i]));
            let j = choose|j: int| 0 <= j < records.len() && records[j] == other_records[i];
            assert(rk[j] == key);
        }
    }
    assert(rk.to_set() =~= ork.to_set());
}

/// Two listings of the same children in another order give the same
/// digest.
pub proof fn lemma_digest_ignores_order(
    zones: Seq<ZoneSpecView>,
    records: Seq<RecordSpecView>,
    other_zones: Seq<ZoneSpecView>,
    other_records: Seq<RecordSpecView>,
)
    requires
        zones.to_multiset() == other_zones.to_multiset(),
        records.to_multiset() == other_records.to_multiset(),
    ensures
        zone_hash_text(zones, records) == zone_hash_text(other_zones, other_records),
{
    broadcast use vstd::seq_lib::group_to_multiset_ensures;

    assert forall|z: ZoneSpecView| zones.to_set().contains(z) == other_zones.to_set().contains(z) by {
        assert(zones.contains(z) == (zones.to_multiset().count(z) > 0));
        assert(other_zones.contains(z) == (other_zones.to_multiset().count(z) > 0));
    }
    assert(zones.to_set() =~= other_zones.to_set());
    assert forall|r: RecordSpecView|
        records.to_set().contains(r) == other_records.to_set().contains(r) by {
        assert(records.contains(r) == (records.to_multiset().count(r) > 0));
        assert(other_records.contains(r) == (other_records.to_multiset().count(r) > 0));
    }
    assert(records.to_set() =~= other_records.to_set());
    lemma_digest_ignores_listing(zones, records, other_zones, other_records);
}

/// The views of a sequence of byte vectors.
pub open spec fn byte_views(keys: Seq<Vec<u8>>) -> Seq<Seq<u8>> {
    Seq::new(keys.len(), |i: int| keys[i]@)
}

/// One more run behind the runs taken so far.
proof fn lemma_concat_step(parts: Seq<Seq<u8>>, i: int)
    requires
        0 <= i < parts.len(),
    ensures
        concat(parts.take(i + 1)) == concat(parts.take(i)) + parts[i],
{
    assert(parts.take(i + 1).drop_last() == parts.take(i));
}

fn push_count(out: &mut Vec<u8>, n: usize)
    ensures
        final(out)@ == old(out)@ + count_bytes(n as nat),
{
    let mut bytes = u64_to_le_bytes(n as u64);
    out.append(&mut bytes);
}

fn push_text(out: &mut Vec<u8>, text: &str)
    ensures
        final(out)@ == old(out)@ + text_bytes(text@),
{
    let ghost before = out@;
    out.extend_from_slice(text.as_bytes());
    out.push(0xffu8);
    assert(out@ =~= before + text_bytes(text@));
}

fn push_optional_text(out: &mut Vec<u8>, text: &Option<String>)
    ensures
        final(out)@ == old(out)@ + optional_text_bytes(text.deep_view()),
{
    let ghost before = out@;
    match text {
        Some(t) => {
            push_count(out, 1);
            push_text(out, t.as_str());
            assert(out@ =~= before + optional_text_bytes(text.deep_view()));
        },
        None => {
            push_count(out, 0);
        },
    }
}

fn push_optional_seconds(out: &mut Vec<u8>, seconds: Option<u32>)
    ensures
        final(out)@ == old(out)@ + optional_seconds_bytes(seconds),
{
    let ghost before = out@;
    match seconds {
        Some(s) => {
            push_count(out, 1);
            let mut bytes = u32_to_le_bytes(s);
            out.append(&mut bytes);
            assert(out@ =~= before + optional_seconds_bytes(seconds));
        },
        None => {
            push_count(out, 0);
        },
    }
}

fn push_texts(out: &mut Vec<u8>, texts: &Vec<String>)
    ensures
        final(out)@ == old(out)@ + texts_bytes(texts.deep_view()),
{
    let ghost before = out@;
    let ghost runs = text_runs(texts.deep_view());
    push_count(out, texts.len());
    let ghost head = out@;
    let mut i: usize = 0;
    assert(out@ =~= head + concat(runs.take(0)));
    while i < texts.len()
        invariant
            i <= texts.len(),
            runs == text_runs(texts.deep_view()),
            out@ == head + concat(runs.take(i as int)),
        decreases texts.len() - i,
    {
        push_text(out, texts[i].as_str());
        proof {
            lemma_concat_step(runs, i as int);
            assert(runs[i as int] == text_bytes(texts[i as int]@));
            assert(out@ =~= head + concat(runs.take(i + 1)));
        }
        i = i + 1;
    }
    assert(runs.take(i as int) == runs);
    assert(out@ =~= before + texts_bytes(texts.deep_view()));
}

fn push_zone_ref(out: &mut Vec<u8>, reference: &ZoneRef)
    ensures
        final(out)@ == old(out)@ + zone_ref_bytes(reference@),
{
    let ghost before = out@;
    push_text(out, reference.name.as_str());
    push_optional_text(out, &reference.namespace);
    assert(out@ =~= before + zone_ref_bytes(reference@));
}

fn push_optional_zone_ref(out: &mut Vec<u8>, reference: &Option<ZoneRef>)
    ensures
        final(out)@ == old(out)@ + optional_zone_ref_bytes(reference.deep_view()),
{
    let ghost before = out@;
    match reference {
        Some(r) => {
            push_count(out, 1);
            push_zone_ref(out, r);
            assert(out@ =~= before + optional_zone_ref_bytes(reference.deep_view()));
        },
        None => {
            push_count(out, 0);
        },
    }
}

fn push_record_delegation(out: &mut Vec<u8>, delegation: &RecordDelegation)
    ensures
        final(out)@ == old(out)@ + record_delegation_bytes(delegation@),
{
    let ghost before = out@;
    push_text(out, delegation.pattern.as_str());
    push_texts(out, &delegation.record_types);
    assert(out@ =~= before + record_delegation_bytes(delegation@));
}

fn push_delegation(out: &mut Vec<u8>, delegation: &Delegation)
    ensures
        final(out)@ == old(out)@ + delegation_bytes(delegation@),
{
    let ghost before = out@;
    let ghost runs = record_delegation_runs(delegation@.records);
    push_texts(out, &delegation.namespaces);
    push_texts(out, &delegation.zones);
    push_count(out, delegation.records.len());
    let ghost head = out@;
    let mut i: usize = 0;
    assert(out@ =~= head + concat(runs.take(0)));
    while i < delegation.records.len()
        invariant
            i <= delegation.records.len(),
            runs == record_delegation_runs(delegation@.records),
            out@ == head + concat(runs.take(i as int)),
        decreases delegation.records.len() - i,
    {
        push_record_delegation(out, &delegation.records[i]);
        proof {
            lemma_concat_step(runs, i as int);
            assert(runs[i as int] == record_delegation_bytes(delegation.records[i as int]@));
            assert(out@ =~= head + concat(runs.take(i + 1)));
        }
        i = i + 1;
    }
    assert(runs.take(i as int) == runs);
    assert(out@ =~= before + delegation_bytes(delegation@));
}

/// The key of a zone.
pub fn zone_key_of(zone: &ZoneSpec) -> (key: Vec<u8>)
    ensures
        key@ == zone_key(zone@),
{
    let mut key: Vec<u8> = Vec::new();
    let ghost runs = delegation_runs(zone@.delegations);
    push_text(&mut key, zone.domain_name.as_str());
    push_optional_zone_ref(&mut key, &zone.zone_ref);
    push_count(&mut key, zone.delegations.len());
    let ghost head = key@;
    let mut i: usize = 0;
    assert(key@ =~= head + concat(runs.take(0)));
    while i < zone.delegations.len()
        invariant
            i <= zone.delegations.len(),
            runs == delegation_runs(zone@.delegations),
            key@ == head + concat(runs.take(i as int)),
        decreases zone.delegations.len() - i,
    {
        push_delegation(&mut key, &zone.delegations[i]);
        proof {
            lemma_concat_step(runs, i as int);
            assert(runs[i as int] == delegation_bytes(zone.delegations[i as int]@));
            assert(key@ =~= head + concat(runs.take(i + 1)));
        }
        i = i + 1;
    }
    assert(runs.take(i as int) == runs);
    assert(key@ =~= zone_key(zone@));
    key
}

/// The key of a record.
pub fn record_key_of(record: &RecordSpec) -> (key: Vec<u8>)
    ensures
        key@ == record_key(record@),
{
    let mut key: Vec<u8> = Vec::new();
    push_text(&mut key, record.domain_name.as_str());
    push_optional_zone_ref(&mut key, &record.zone_ref);
    push_text(&mut key, record.type_.as_str());
    push_text(&mut key, record.class.as_str());
    push_optional_seconds(&mut key, record.ttl);
    push_text(&mut key, record.rdata.as_str());
    assert(key@ =~= record_key(record@));
    key
}

/// How the key `a` stands to the key `b`.
fn compare_keys(a: &Vec<u8>, b: &Vec<u8>) -> (order: Order)
    ensures
        (order == Order::Equal) == (a@ == b@),
        (order == Order::Less) == by_bytes()(a@, b@),
        (order == Order::Greater) == by_bytes()(b@, a@),
{
    let ghost ka = codes(a@);
    let ghost kb = codes(b@);
    proof {
        lemma_by_bytes_is_order();
    }
    let mut i: usize = 0;
    while i < a.len() && i < b.len()
        invariant
            i <= a.len(),
            i <= b.len(),
            ka == codes(a@),
            kb == codes(b@),
            ka.take(i as int) == kb.take(i as int),
        decreases a.len() - i,
    {
        let x = a[i];
        let y = b[i];
        if x != y {
            proof {
                lemma_lex_skip(ka, kb, i as int);
                lemma_lex_skip(kb, ka, i as int);
                assert(ka.skip(i as int)[0] == x as int);
                assert(kb.skip(i as int)[0] == y as int);
                assert(ka[i as int] != kb[i as int]);
            }
            if x < y {
                return Order::Less;
            } else {
                return Order::Greater;
            }
        }
        proof {
            assert(ka.take(i + 1) == ka.take(i as int).push(ka[i as int]));
            assert(kb.take(i + 1) == kb.take(i as int).push(kb[i as int]));
        }
        i = i + 1;
    }
    proof {
        lemma_lex_skip(ka, kb, i as int);
        lemma_lex_skip(kb, ka, i as int);
        if a.len() == b.len() {
            assert(ka.take(i as int) == ka);
            assert(kb.take(i as int) == kb);
            assert forall|k: int| 0 <= k < a.len() implies a@[k] == b@[k] by {
                assert(ka[k] == a@[k] as int);
                assert(kb[k] == b@[k] as int);
            }
            assert(a@ =~= b@);
            lemma_lex_irreflexive(ka);
        } else {
            assert(a@.len() != b@.len());
        }
    }
    if a.len() == b.len() {
        Order::Equal
    } else if a.len() < b.len() {
        Order::Less
    } else {
        Order::Greater
    }
}

/// Puts `key` into the rising run of keys `sorted`, unless it is there.
fn insert_key(sorted: &mut Vec<Vec<u8>>, key: Vec<u8>)
    requires
        arranges(byte_views(old(sorted)@), byte_views(old(sorted)@).to_set(), by_bytes()),
    ensures
        arranges(
            byte_views(final(sorted)@),
            byte_views(old(sorted)@).to_set().insert(key@),
            by_bytes(),
        ),
{
    let ghost before = byte_views(sorted@);
    let mut p: usize = 0;
    let mut found: bool = false;
    while p < sorted.len()
        invariant_except_break
            p <= sorted.len(),
            !found,
        invariant
            p <= sorted.len(),
            sorted@ == old(sorted)@,
            before == byte_views(sorted@),
            forall|q: int| 0 <= q < p ==> by_bytes()(#[trigger] before[q], key@),
        ensures
            p < sorted.len() ==> (if found {
                before[p as int] == key@
            } else {
                by_bytes()(key@, before[p as int])
            }),
            p == sorted.len() ==> !found,
        decreases sorted.len() - p,
    {
        let order = compare_keys(&sorted[p], &key);
        assert(before[p as int] == sorted@[p as int]@);
        match order {
            Order::Less => {
                p = p + 1;
            },
            Order::Equal => {
                found = true;
                break ;
            },
            Order::Greater => {
                break ;
            },
        }
    }
    if found {
        proof {
            assert(before.contains(key@));
            assert(before.to_set().insert(key@) =~= before.to_set());
        }
    } else {
        proof {
            lemma_by_bytes_is_order();
            lemma_insert_arranged(before, before.to_set(), by_bytes(), key@, p as int);
        }
        sorted.insert(p, key);
        assert(byte_views(sorted@) =~= before.insert(p as int, key@));
    }
}

/// Feeds the set of `keys` to `out`: the number of different keys, and the
/// keys in rising order.
fn push_key_set(out: &mut Vec<u8>, keys: Vec<Vec<u8>>)
    ensures
        final(out)@ == old(out)@ + set_bytes(byte_views(keys@).to_set()),
{
    let ghost before = out@;
    let ghost all = byte_views(keys@);
    let mut sorted: Vec<Vec<u8>> = Vec::new();
    let mut keys = keys;
    proof {
        assert(byte_views(sorted@).to_set() =~= Set::<Seq<u8>>::empty());
        assert(all.take(all.len() as int) == all);
    }
    while keys.len() > 0
        invariant
            arranges(byte_views(sorted@), byte_views(sorted@).to_set(), by_bytes()),
            keys.len() <= all.len(),
            byte_views(keys@) == all.take(keys.len() as int),
            forall|key: Seq<u8>|
                all.to_set().contains(key) == (byte_views(sorted@).to_set().contains(key)
                    || all.take(keys.len() as int).contains(key)),
        decreases keys.len(),
    {
        let ghost n = keys.len() as int;
        let ghost had = byte_views(sorted@).to_set();
        let key = keys.pop().unwrap();
        proof {
            assert(all[n - 1] == key@) by {
                assert(all.take(n)[n - 1] == key@);
            }
            assert(byte_views(keys@) =~= all.take(n - 1));
        }
        insert_key(&mut sorted, key);
        proof {
            let have = byte_views(sorted@).to_set();
            let longer = all.take(n);
            let shorter = all.take(n - 1);
            assert(have == had.insert(all[n - 1]));
            assert forall|k: Seq<u8>|
                all.to_set().contains(k) == (have.contains(k) || shorter.contains(k)) by {
                if longer.contains(k) {
                    let i = choose|i: int| 0 <= i < longer.len() && longer[i] == k;
                    if i < n - 1 {
                        assert(shorter[i] == k);
                    }
                }
                if shorter.contains(k) {
                    let i = choose|i: int| 0 <= i < shorter.len() && shorter[i] == k;
                    assert(longer[i] == k);
                }
                if k == all[n - 1] {
                    assert(longer[n - 1] == k);
                }
            }
        }
    }
    proof {
        assert(all.take(0).len() == 0);
        assert(byte_views(sorted@).to_set() =~= all.to_set());
        lemma_by_bytes_is_order();
        lemma_arrangement_is(byte_views(sorted@), all.to_set(), by_bytes());
    }
    let ghost runs = byte_views(sorted@);
    push_count(out, sorted.len());
    let ghost head = out@;
    let mut i: usize = 0;
    assert(out@ =~= head + concat(runs.take(0)));
    while i < sorted.len()
        invariant
            i <= sorted.len(),
            runs == byte_views(sorted@),
            out@ == head + concat(runs.take(i as int)),
        decreases sorted.len() - i,
    {
        out.extend_from_slice(sorted[i].as_slice());
        proof {
            lemma_concat_step(runs, i as int);
            assert(out@ =~= head + concat(runs.take(i + 1)));
        }
        i = i + 1;
    }
    assert(runs.take(i as int) == runs);
    assert(out@ =~= before + set_bytes(all.to_set()));
}

/// The digest of a zone with the child zones `child_zones` and the child
/// records `child_records`, in decimal digits.
pub fn zone_hash(child_zones: &Vec<ZoneSpec>, child_records: &Vec<RecordSpec>) -> (hash: String)
    ensures
        hash@ == zone_hash_text(child_zones.deep_view(), child_records.deep_view()),
{
    let mut zone_keys_found: Vec<Vec<u8>> = Vec::new();
    let mut i: usize = 0;
    while i < child_zones.len()
        invariant
            i <= child_zones.len(),
            zone_keys_found.len() == i,
            byte_views(zone_keys_found@) == zone_keys(child_zones.deep_view()).take(i as int),
        decreases child_zones.len() - i,
    {
        let key = zone_key_of(&child_zones[i]);
        proof {
            let all = zone_keys(child_zones.deep_view());
            let found = byte_views(zone_keys_found@);
            let next = byte_views(zone_keys_found@.push(key));
            assert(child_zones.deep_view()[i as int] == child_zones[i as int]@);
            assert(all.len() == child_zones.len());
            assert(all[i as int] == key@);
            assert forall|q: int| 0 <= q < next.len() implies next[q] == all.take(i + 1)[q] by {
                if q < i {
                    assert(found[q] == all.take(i as int)[q]);
                }
            }
            assert(next =~= all.take(i + 1));
        }
        zone_keys_found.push(key);
        i = i + 1;
    }
    let mut record_keys_found: Vec<Vec<u8>> = Vec::new();
    let mut j: usize = 0;
    while j < child_records.len()
        invariant
            j <= child_records.len(),
            record_keys_found.len() == j,
            byte_views(record_keys_found@) == record_keys(child_records.deep_view()).take(j as int),
        decreases child_records.len() - j,
    {
        let key = record_key_of(&child_records[j]);
        proof {
            let all = record_keys(child_records.deep_view());
            let found = byte_views(record_keys_found@);
            let next = byte_views(record_keys_found@.push(key));
            assert(child_records.deep_view()[j as int] == child_records[j as int]@);
            assert(all.len() == child_records.len());
            assert(all[j as int] == key@);
            assert forall|q: int| 0 <= q < next.len() implies next[q] == all.take(j + 1)[q] by {
                if q < j {
                    assert(found[q] == all.take(j as int)[q]);
                }
            }
            assert(next =~= all.take(j + 1));
        }
        record_keys_found.push(key);
        j = j + 1;
    }
    proof {
        let zk = zone_keys(child_zones.deep_view());
        let rk = record_keys(child_records.deep_view());
        assert(zk.take(i as int) == zk);
        assert(rk.take(j as int) == rk);
    }
    let mut input: Vec<u8> = Vec::new();
    push_key_set(&mut input, zone_keys_found);
    push_key_set(&mut input, record_keys_found);
    assert(input@ =~= digest_input(child_zones.deep_view(), child_records.deep_view()));
    let mut hasher = DefaultHasher::new();
    hasher.write(input.as_slice());
    let digest: u64 = hasher.finish();
    assert(hasher@ =~= seq![input@]);
    to_decimal(digest)
}

} // verus!
