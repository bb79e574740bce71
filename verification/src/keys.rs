//! Keys tell children apart: two children with the same key ask for the
//! same, and two listings feed the hasher the same bytes only if they hold
//! the same zones and the same records.
//!
//! Every part of a key can be read back from the front of a run of bytes
//! without looking at what follows it: a text ends at the first byte that
//! UTF-8 never holds, and counts and seconds have a fixed width.

use vstd::bytes::{
    lemma_auto_spec_u32_to_from_le_bytes, lemma_auto_spec_u64_to_from_le_bytes,
    spec_u32_from_le_bytes, spec_u32_to_le_bytes, spec_u64_from_le_bytes, spec_u64_to_le_bytes,
};
use vstd::prelude::*;
use vstd::utf8::{
    encode_utf8, encode_utf8_decode_utf8, encode_utf8_valid_utf8,
    is_char_boundary_iff_is_leading_byte, is_char_boundary_iff_not_is_continuation_byte,
};
use crate::hash::{
    by_bytes, concat, count_bytes, digest_input, lemma_keys_are_arranged, record_keys, set_bytes,
    zone_keys, delegation_bytes, delegation_runs, optional_seconds_bytes,
    optional_text_bytes, optional_zone_ref_bytes, record_delegation_bytes,
    record_delegation_runs, record_key, text_bytes, text_runs, texts_bytes, zone_key,
    zone_ref_bytes,
};
use crate::meta::ZoneRefView;
use crate::order::arrangement;
use crate::record::RecordSpecView;
use crate::zone::{DelegationView, RecordDelegationView, ZoneSpecView};

verus! {

/// Whether a count fits the eight bytes it is written in.
pub open spec fn countable(n: nat) -> bool {
    n <= u64::MAX
}

/// No byte of a text in UTF-8 is `0xff`.
pub proof fn lemma_utf8_has_no_end_mark(text: Seq<char>, i: int)
    requires
        0 <= i < encode_utf8(text).len(),
    ensures
        encode_utf8(text)[i] != 0xffu8,
{
    let bytes = encode_utf8(text);
    encode_utf8_valid_utf8(text);
    is_char_boundary_iff_is_leading_byte(bytes, i);
    is_char_boundary_iff_not_is_continuation_byte(bytes, i);
}

/// A text can be read back from the front of a run of bytes.
pub proof fn lemma_text_reads_back(a: Seq<char>, b: Seq<char>, x: Seq<u8>, y: Seq<u8>)
    requires
        text_bytes(a) + x == text_bytes(b) + y,
    ensures
        a == b,
        x == y,
{
    let ea = encode_utf8(a);
    let eb = encode_utf8(b);
    let left = text_bytes(a) + x;
    let right = text_bytes(b) + y;
    assert(left[ea.len() as int] == 0xffu8);
    assert(right[eb.len() as int] == 0xffu8);
    if ea.len() < eb.len() {
        lemma_utf8_has_no_end_mark(b, ea.len() as int);
        assert(right[ea.len() as int] == eb[ea.len() as int]);
    }
    if eb.len() < ea.len() {
        lemma_utf8_has_no_end_mark(a, eb.len() as int);
        assert(left[eb.len() as int] == ea[eb.len() as int]);
    }
    assert(ea =~= left.take(ea.len() as int));
    assert(eb =~= right.take(eb.len() as int));
    encode_utf8_decode_utf8(a);
    encode_utf8_decode_utf8(b);
    assert(x =~= left.skip(ea.len() as int + 1));
    assert(y =~= right.skip(eb.len() as int + 1));
}

/// A count can be read back from the front of a run of bytes.
pub proof fn lemma_count_reads_back(n: nat, m: nat, x: Seq<u8>, y: Seq<u8>)
    requires
        countable(n),
        countable(m),
        count_bytes(n) + x == count_bytes(m) + y,
    ensures
        n == m,
        x == y,
{
    lemma_auto_spec_u64_to_from_le_bytes();
    let left = count_bytes(n) + x;
    let right = count_bytes(m) + y;
    assert(count_bytes(n) =~= left.take(8));
    assert(count_bytes(m) =~= right.take(8));
    assert(spec_u64_from_le_bytes(spec_u64_to_le_bytes(n as u64)) == n as u64);
    assert(spec_u64_from_le_bytes(spec_u64_to_le_bytes(m as u64)) == m as u64);
    assert(x =~= left.skip(8));
    assert(y =~= right.skip(8));
}

/// A number of seconds can be read back from the front of a run of bytes.
pub proof fn lemma_seconds_read_back(n: u32, m: u32, x: Seq<u8>, y: Seq<u8>)
    requires
        spec_u32_to_le_bytes(n) + x == spec_u32_to_le_bytes(m) + y,
    ensures
        n == m,
        x == y,
{
    lemma_auto_spec_u32_to_from_le_bytes();
    let left = spec_u32_to_le_bytes(n) + x;
    let right = spec_u32_to_le_bytes(m) + y;
    assert(spec_u32_to_le_bytes(n) =~= left.take(4));
    assert(spec_u32_to_le_bytes(m) =~= right.take(4));
    assert(spec_u32_from_le_bytes(spec_u32_to_le_bytes(n)) == n);
    assert(spec_u32_from_le_bytes(spec_u32_to_le_bytes(m)) == m);
    assert(x =~= left.skip(4));
    assert(y =~= right.skip(4));
}

/// What follows two runs follows the first of them behind the second.
proof fn lemma_regroup(p: Seq<u8>, q: Seq<u8>, x: Seq<u8>)
    ensures
        (p + q) + x == p + (q + x),
{
    assert((p + q) + x =~= p + (q + x));
}

/// The runs of a list are its first run and the runs of the rest.
proof fn lemma_concat_first(parts: Seq<Seq<u8>>)
    requires
        parts.len() > 0,
    ensures
        concat(parts) == parts[0] + concat(parts.drop_first()),
    decreases parts.len(),
{
    if parts.len() == 1 {
        assert(parts.drop_last() =~= Seq::<Seq<u8>>::empty());
        assert(parts.drop_first() =~= Seq::<Seq<u8>>::empty());
        assert(concat(parts) =~= parts[0] + concat(parts.drop_first()));
    } else {
        let front = parts.drop_last();
        lemma_concat_first(front);
        assert(front.drop_first() =~= parts.drop_first().drop_last());
        assert(parts.drop_first().last() == parts.last());
        assert(concat(parts) =~= parts[0] + concat(parts.drop_first()));
    }
}

/// Whether what `write` writes for an item that is `sound` can be read
/// back from the front of a run of bytes: two sound items whose runs begin
/// two equal runs of bytes are equal, and so is what follows them.
pub open spec fn reads_back<T>(write: spec_fn(T) -> Seq<u8>, sound: spec_fn(T) -> bool) -> bool {
    forall|a: T, b: T, x: Seq<u8>, y: Seq<u8>|
        sound(a) && sound(b) && #[trigger] (write(a) + x) == #[trigger] (write(b) + y) ==> a == b
            && x == y
}

/// What `write` writes for each item of a list.
pub open spec fn runs<T>(list: Seq<T>, write: spec_fn(T) -> Seq<u8>) -> Seq<Seq<u8>> {
    Seq::new(list.len(), |i: int| write(list[i]))
}

/// Two lists of the same length can be read back item by item.
pub proof fn lemma_list_reads_back<T>(
    write: spec_fn(T) -> Seq<u8>,
    sound: spec_fn(T) -> bool,
    a: Seq<T>,
    b: Seq<T>,
    x: Seq<u8>,
    y: Seq<u8>,
)
    requires
        reads_back(write, sound),
        a.len() == b.len(),
        forall|i: int| 0 <= i < a.len() ==> sound(#[trigger] a[i]),
        forall|i: int| 0 <= i < b.len() ==> sound(#[trigger] b[i]),
        concat(runs(a, write)) + x == concat(runs(b, write)) + y,
    ensures
        a == b,
        x == y,
    decreases a.len(),
{
    if a.len() == 0 {
        assert(a =~= b);
        assert(concat(runs(a, write)) + x =~= x);
        assert(concat(runs(b, write)) + y =~= y);
    } else {
        let ra = runs(a, write);
        let rb = runs(b, write);
        lemma_concat_first(ra);
        lemma_concat_first(rb);
        let ta = a.drop_first();
        let tb = b.drop_first();
        assert(ra.drop_first() =~= runs(ta, write));
        assert(rb.drop_first() =~= runs(tb, write));
        let xa = concat(runs(ta, write)) + x;
        let yb = concat(runs(tb, write)) + y;
        assert(write(a[0]) + xa =~= concat(ra) + x);
        assert(write(b[0]) + yb =~= concat(rb) + y);
        assert(sound(a[0]) && sound(b[0]));
        assert(a[0] == b[0] && xa == yb);
        assert forall|i: int| 0 <= i < ta.len() implies sound(#[trigger] ta[i]) by {
            assert(ta[i] == a[i + 1]);
        }
        assert forall|i: int| 0 <= i < tb.len() implies sound(#[trigger] tb[i]) by {
            assert(tb[i] == b[i + 1]);
        }
        lemma_list_reads_back(write, sound, ta, tb, x, y);
        assert(a =~= seq![a[0]] + ta);
        assert(b =~= seq![b[0]] + tb);
    }
}

/// A list of texts can be read back from the front of a run of bytes.
pub proof fn lemma_texts_read_back(a: Seq<Seq<char>>, b: Seq<Seq<char>>, x: Seq<u8>, y: Seq<u8>)
    requires
        countable(a.len()),
        countable(b.len()),
        texts_bytes(a) + x == texts_bytes(b) + y,
    ensures
        a == b,
        x == y,
{
    let write = |t: Seq<char>| text_bytes(t);
    let sound = |t: Seq<char>| true;
    let xa = concat(text_runs(a)) + x;
    let yb = concat(text_runs(b)) + y;
    assert(count_bytes(a.len()) + xa =~= texts_bytes(a) + x);
    assert(count_bytes(b.len()) + yb =~= texts_bytes(b) + y);
    lemma_count_reads_back(a.len(), b.len(), xa, yb);
    assert(text_runs(a) =~= runs(a, write));
    assert(text_runs(b) =~= runs(b, write));
    assert forall|s: Seq<char>, t: Seq<char>, u: Seq<u8>, v: Seq<u8>|
        sound(s) && sound(t) && #[trigger] (write(s) + u) == #[trigger] (write(t) + v) implies s
        == t && u == v by {
        lemma_text_reads_back(s, t, u, v);
    }
    lemma_list_reads_back(write, sound, a, b, x, y);
}

/// An optional text can be read back from the front of a run of bytes.
pub proof fn lemma_optional_text_reads_back(
    a: Option<Seq<char>>,
    b: Option<Seq<char>>,
    x: Seq<u8>,
    y: Seq<u8>,
)
    requires
        optional_text_bytes(a) + x == optional_text_bytes(b) + y,
    ensures
        a == b,
        x == y,
{
    let xa = match a {
        Some(t) => text_bytes(t) + x,
        None => x,
    };
    let yb = match b {
        Some(t) => text_bytes(t) + y,
        None => y,
    };
    let na: nat = if a is Some { 1 } else { 0 };
    let nb: nat = if b is Some { 1 } else { 0 };
    assert(count_bytes(na) + xa =~= optional_text_bytes(a) + x);
    assert(count_bytes(nb) + yb =~= optional_text_bytes(b) + y);
    lemma_count_reads_back(na, nb, xa, yb);
    if a is Some {
        lemma_text_reads_back(a.unwrap(), b.unwrap(), x, y);
    }
}

/// An optional number of seconds can be read back from the front of a run
/// of bytes.
pub proof fn lemma_optional_seconds_read_back(a: Option<u32>, b: Option<u32>, x: Seq<u8>, y: Seq<u8>)
    requires
        optional_seconds_bytes(a) + x == optional_seconds_bytes(b) + y,
    ensures
        a == b,
        x == y,
{
    let xa = match a {
        Some(t) => spec_u32_to_le_bytes(t) + x,
        None => x,
    };
    let yb = match b {
        Some(t) => spec_u32_to_le_bytes(t) + y,
        None => y,
    };
    let na: nat = if a is Some { 1 } else { 0 };
    let nb: nat = if b is Some { 1 } else { 0 };
    assert(count_bytes(na) + xa =~= optional_seconds_bytes(a) + x);
    assert(count_bytes(nb) + yb =~= optional_seconds_bytes(b) + y);
    lemma_count_reads_back(na, nb, xa, yb);
    if a is Some {
        lemma_seconds_read_back(a.unwrap(), b.unwrap(), x, y);
    }
}

/// A reference to a zone can be read back from the front of a run of
/// bytes.
pub proof fn lemma_zone_ref_reads_back(a: ZoneRefView, b: ZoneRefView, x: Seq<u8>, y: Seq<u8>)
    requires
        zone_ref_bytes(a) + x == zone_ref_bytes(b) + y,
    ensures
        a == b,
        x == y,
{
    let xa = optional_text_bytes(a.namespace) + x;
    let yb = optional_text_bytes(b.namespace) + y;
    assert(text_bytes(a.name) + xa =~= zone_ref_bytes(a) + x);
    assert(text_bytes(b.name) + yb =~= zone_ref_bytes(b) + y);
    lemma_text_reads_back(a.name, b.name, xa, yb);
    lemma_optional_text_reads_back(a.namespace, b.namespace, x, y);
}

/// An optional reference to a zone can be read back from the front of a
/// run of bytes.
pub proof fn lemma_optional_zone_ref_reads_back(
    a: Option<ZoneRefView>,
    b: Option<ZoneRefView>,
    x: Seq<u8>,
    y: Seq<u8>,
)
    requires
        optional_zone_ref_bytes(a) + x == optional_zone_ref_bytes(b) + y,
    ensures
        a == b,
        x == y,
{
    let xa = match a {
        Some(r) => zone_ref_bytes(r) + x,
        None => x,
    };
    let yb = match b {
        Some(r) => zone_ref_bytes(r) + y,
        None => y,
    };
    let na: nat = if a is Some { 1 } else { 0 };
    let nb: nat = if b is Some { 1 } else { 0 };
    assert(count_bytes(na) + xa =~= optional_zone_ref_bytes(a) + x);
    assert(count_bytes(nb) + yb =~= optional_zone_ref_bytes(b) + y);
    lemma_count_reads_back(na, nb, xa, yb);
    if a is Some {
        lemma_zone_ref_reads_back(a.unwrap(), b.unwrap(), x, y);
    }
}

/// Whether the list of a record delegation can be counted in eight bytes.
pub open spec fn record_delegation_sound(delegation: RecordDelegationView) -> bool {
    countable(delegation.record_types.len())
}

/// Whether the lists of a delegation can be counted in eight bytes.
pub open spec fn delegation_sound(delegation: DelegationView) -> bool {
    &&& countable(delegation.namespaces.len())
    &&& countable(delegation.zones.len())
    &&& countable(delegation.records.len())
    &&& forall|i: int|
        0 <= i < delegation.records.len() ==> record_delegation_sound(
            #[trigger] delegation.records[i],
        )
}

/// Whether the lists of what a zone asks for can be counted in eight
/// bytes. This holds of whatever a computer holds.
pub open spec fn zone_sound(zone: ZoneSpecView) -> bool {
    &&& countable(zone.delegations.len())
    &&& forall|i: int|
        0 <= i < zone.delegations.len() ==> delegation_sound(#[trigger] zone.delegations[i])
}

/// A record delegation can be read back from the front of a run of bytes.
pub proof fn lemma_record_delegation_reads_back(
    a: RecordDelegationView,
    b: RecordDelegationView,
    x: Seq<u8>,
    y: Seq<u8>,
)
    requires
        record_delegation_sound(a),
        record_delegation_sound(b),
        record_delegation_bytes(a) + x == record_delegation_bytes(b) + y,
    ensures
        a == b,
        x == y,
{
    let xa = texts_bytes(a.record_types) + x;
    let yb = texts_bytes(b.record_types) + y;
    assert(text_bytes(a.pattern) + xa =~= record_delegation_bytes(a) + x);
    assert(text_bytes(b.pattern) + yb =~= record_delegation_bytes(b) + y);
    lemma_text_reads_back(a.pattern, b.pattern, xa, yb);
    lemma_texts_read_back(a.record_types, b.record_types, x, y);
}

/// A delegation can be read back from the front of a run of bytes.
pub proof fn lemma_delegation_reads_back(a: DelegationView, b: DelegationView, x: Seq<u8>, y: Seq<u8>)
    requires
        delegation_sound(a),
        delegation_sound(b),
        delegation_bytes(a) + x == delegation_bytes(b) + y,
    ensures
        a == b,
        x == y,
{
    let write = |d: RecordDelegationView| record_delegation_bytes(d);
    let sound = |d: RecordDelegationView| record_delegation_sound(d);
    let xa3 = concat(record_delegation_runs(a.records)) + x;
    let yb3 = concat(record_delegation_runs(b.records)) + y;
    let xa2 = count_bytes(a.records.len()) + xa3;
    let yb2 = count_bytes(b.records.len()) + yb3;
    let xa1 = texts_bytes(a.zones) + xa2;
    let yb1 = texts_bytes(b.zones) + yb2;
    lemma_regroup(
        texts_bytes(a.namespaces) + texts_bytes(a.zones) + count_bytes(a.records.len()),
        concat(record_delegation_runs(a.records)),
        x,
    );
    lemma_regroup(
        texts_bytes(a.namespaces) + texts_bytes(a.zones),
        count_bytes(a.records.len()),
        xa3,
    );
    lemma_regroup(texts_bytes(a.namespaces), texts_bytes(a.zones), xa2);
    lemma_regroup(
        texts_bytes(b.namespaces) + texts_bytes(b.zones) + count_bytes(b.records.len()),
        concat(record_delegation_runs(b.records)),
        y,
    );
    lemma_regroup(
        texts_bytes(b.namespaces) + texts_bytes(b.zones),
        count_bytes(b.records.len()),
        yb3,
    );
    lemma_regroup(texts_bytes(b.namespaces), texts_bytes(b.zones), yb2);
    lemma_texts_read_back(a.namespaces, b.namespaces, xa1, yb1);
    lemma_texts_read_back(a.zones, b.zones, xa2, yb2);
    lemma_count_reads_back(a.records.len(), b.records.len(), xa3, yb3);
    assert(record_delegation_runs(a.records) =~= runs(a.records, write));
    assert(record_delegation_runs(b.records) =~= runs(b.records, write));
    assert forall|s: RecordDelegationView, t: RecordDelegationView, u: Seq<u8>, v: Seq<u8>|
        sound(s) && sound(t) && #[trigger] (write(s) + u) == #[trigger] (write(t) + v) implies s
        == t && u == v by {
        lemma_record_delegation_reads_back(s, t, u, v);
    }
    lemma_list_reads_back(write, sound, a.records, b.records, x, y);
}

/// A zone can be read back from the front of a run of bytes that begins
/// with its key.
pub proof fn lemma_zone_reads_back(a: ZoneSpecView, b: ZoneSpecView, x: Seq<u8>, y: Seq<u8>)
    requires
        zone_sound(a),
        zone_sound(b),
        zone_key(a) + x == zone_key(b) + y,
    ensures
        a == b,
        x == y,
{
    let write = |d: DelegationView| delegation_bytes(d);
    let sound = |d: DelegationView| delegation_sound(d);
    let xa3 = concat(delegation_runs(a.delegations)) + x;
    let yb3 = concat(delegation_runs(b.delegations)) + y;
    let xa2 = count_bytes(a.delegations.len()) + xa3;
    let yb2 = count_bytes(b.delegations.len()) + yb3;
    let xa1 = optional_zone_ref_bytes(a.zone_ref) + xa2;
    let yb1 = optional_zone_ref_bytes(b.zone_ref) + yb2;
    lemma_regroup(
        text_bytes(a.domain_name) + optional_zone_ref_bytes(a.zone_ref) + count_bytes(
            a.delegations.len(),
        ),
        concat(delegation_runs(a.delegations)),
        x,
    );
    lemma_regroup(
        text_bytes(a.domain_name) + optional_zone_ref_bytes(a.zone_ref),
        count_bytes(a.delegations.len()),
        xa3,
    );
    lemma_regroup(text_bytes(a.domain_name), optional_zone_ref_bytes(a.zone_ref), xa2);
    lemma_regroup(
        text_bytes(b.domain_name) + optional_zone_ref_bytes(b.zone_ref) + count_bytes(
            b.delegations.len(),
        ),
        concat(delegation_runs(b.delegations)),
        y,
    );
    lemma_regroup(
        text_bytes(b.domain_name) + optional_zone_ref_bytes(b.zone_ref),
        count_bytes(b.delegations.len()),
        yb3,
    );
    lemma_regroup(text_bytes(b.domain_name), optional_zone_ref_bytes(b.zone_ref), yb2);
    lemma_text_reads_back(a.domain_name, b.domain_name, xa1, yb1);
    lemma_optional_zone_ref_reads_back(a.zone_ref, b.zone_ref, xa2, yb2);
    lemma_count_reads_back(a.delegations.len(), b.delegations.len(), xa3, yb3);
    assert(delegation_runs(a.delegations) =~= runs(a.delegations, write));
    assert(delegation_runs(b.delegations) =~= runs(b.delegations, write));
    assert forall|s: DelegationView, t: DelegationView, u: Seq<u8>, v: Seq<u8>|
        sound(s) && sound(t) && #[trigger] (write(s) + u) == #[trigger] (write(t) + v) implies s
        == t && u == v by {
        lemma_delegation_reads_back(s, t, u, v);
    }
    lemma_list_reads_back(write, sound, a.delegations, b.delegations, x, y);
}

/// A record can be read back from the front of a run of bytes that begins
/// with its key.
pub proof fn lemma_record_reads_back(a: RecordSpecView, b: RecordSpecView, x: Seq<u8>, y: Seq<u8>)
    requires
        record_key(a) + x == record_key(b) + y,
    ensures
        a == b,
        x == y,
{
    let xa5 = text_bytes(a.rdata) + x;
    let yb5 = text_bytes(b.rdata) + y;
    let xa4 = optional_seconds_bytes(a.ttl) + xa5;
    let yb4 = optional_seconds_bytes(b.ttl) + yb5;
    let xa3 = text_bytes(a.class) + xa4;
    let yb3 = text_bytes(b.class) + yb4;
    let xa2 = text_bytes(a.type_) + xa3;
    let yb2 = text_bytes(b.type_) + yb3;
    let xa1 = optional_zone_ref_bytes(a.zone_ref) + xa2;
    let yb1 = optional_zone_ref_bytes(b.zone_ref) + yb2;
    let a1 = text_bytes(a.domain_name);
    let a2 = a1 + optional_zone_ref_bytes(a.zone_ref);
    let a3 = a2 + text_bytes(a.type_);
    let a4 = a3 + text_bytes(a.class);
    let a5 = a4 + optional_seconds_bytes(a.ttl);
    lemma_regroup(a5, text_bytes(a.rdata), x);
    lemma_regroup(a4, optional_seconds_bytes(a.ttl), xa5);
    lemma_regroup(a3, text_bytes(a.class), xa4);
    lemma_regroup(a2, text_bytes(a.type_), xa3);
    lemma_regroup(a1, optional_zone_ref_bytes(a.zone_ref), xa2);
    let b1 = text_bytes(b.domain_name);
    let b2 = b1 + optional_zone_ref_bytes(b.zone_ref);
    let b3 = b2 + text_bytes(b.type_);
    let b4 = b3 + text_bytes(b.class);
    let b5 = b4 + optional_seconds_bytes(b.ttl);
    lemma_regroup(b5, text_bytes(b.rdata), y);
    lemma_regroup(b4, optional_seconds_bytes(b.ttl), yb5);
    lemma_regroup(b3, text_bytes(b.class), yb4);
    lemma_regroup(b2, text_bytes(b.type_), yb3);
    lemma_regroup(b1, optional_zone_ref_bytes(b.zone_ref), yb2);
    lemma_text_reads_back(a.domain_name, b.domain_name, xa1, yb1);
    lemma_optional_zone_ref_reads_back(a.zone_ref, b.zone_ref, xa2, yb2);
    lemma_text_reads_back(a.type_, b.type_, xa3, yb3);
    lemma_text_reads_back(a.class, b.class, xa4, yb4);
    lemma_optional_seconds_read_back(a.ttl, b.ttl, xa5, yb5);
    lemma_text_reads_back(a.rdata, b.rdata, x, y);
}

/// Two zones with the same key ask for the same.
pub proof fn lemma_zone_key_tells_apart(a: ZoneSpecView, b: ZoneSpecView)
    requires
        zone_sound(a),
        zone_sound(b),
        zone_key(a) == zone_key(b),
    ensures
        a == b,
{
    lemma_zone_reads_back(a, b, Seq::empty(), Seq::empty());
}

/// Two records with the same key ask for the same.
pub proof fn lemma_record_key_tells_apart(a: RecordSpecView, b: RecordSpecView)
    requires
        record_key(a) == record_key(b),
    ensures
        a == b,
{
    lemma_record_reads_back(a, b, Seq::empty(), Seq::empty());
}

/// Whether a run of bytes is the key of a zone whose lists can be counted.
pub open spec fn is_zone_key(key: Seq<u8>) -> bool {
    exists|zone: ZoneSpecView| zone_sound(zone) && key == #[trigger] zone_key(zone)
}

/// Whether a run of bytes is the key of a record.
pub open spec fn is_record_key(key: Seq<u8>) -> bool {
    exists|record: RecordSpecView| key == #[trigger] record_key(record)
}

/// Two sets of keys that feed the hasher runs of bytes that begin alike
/// are the same set, and what follows them is the same, provided every key
/// is `sound`, keys that are `sound` can be read back, and the listings
/// that the keys come from can be counted.
proof fn lemma_key_set_reads_back(
    sound: spec_fn(Seq<u8>) -> bool,
    a: Seq<Seq<u8>>,
    b: Seq<Seq<u8>>,
    x: Seq<u8>,
    y: Seq<u8>,
)
    requires
        reads_back(|key: Seq<u8>| key, sound),
        countable(a.len()),
        countable(b.len()),
        forall|i: int| 0 <= i < a.len() ==> sound(#[trigger] a[i]),
        forall|i: int| 0 <= i < b.len() ==> sound(#[trigger] b[i]),
        set_bytes(a.to_set()) + x == set_bytes(b.to_set()) + y,
    ensures
        a.to_set() == b.to_set(),
        x == y,
{
    let write = |key: Seq<u8>| key;
    let sa = arrangement(a.to_set(), by_bytes());
    let sb = arrangement(b.to_set(), by_bytes());
    lemma_keys_are_arranged(a);
    lemma_keys_are_arranged(b);
    let xa = concat(sa) + x;
    let yb = concat(sb) + y;
    lemma_regroup(count_bytes(sa.len()), concat(sa), x);
    lemma_regroup(count_bytes(sb.len()), concat(sb), y);
    lemma_count_reads_back(sa.len(), sb.len(), xa, yb);
    assert(runs(sa, write) =~= sa);
    assert(runs(sb, write) =~= sb);
    assert forall|i: int| 0 <= i < sa.len() implies sound(#[trigger] sa[i]) by {
        assert(sa.contains(sa[i]));
        assert(sa.to_set().contains(sa[i]));
        assert(a.contains(sa[i]));
    }
    assert forall|i: int| 0 <= i < sb.len() implies sound(#[trigger] sb[i]) by {
        assert(sb.contains(sb[i]));
        assert(sb.to_set().contains(sb[i]));
        assert(b.contains(sb[i]));
    }
    lemma_list_reads_back(write, sound, sa, sb, x, y);
}

/// Two listings feed the hasher the same bytes only if they hold the same
/// zones and the same records. Together with `lemma_digest_ignores_listing`
/// this says that the bytes fed to the hasher stand for the set of child
/// zones and the set of child records, and for nothing else.
pub proof fn lemma_input_tells_listings_apart(
    zones: Seq<ZoneSpecView>,
    records: Seq<RecordSpecView>,
    other_zones: Seq<ZoneSpecView>,
    other_records: Seq<RecordSpecView>,
)
    requires
        countable(zones.len()),
        countable(records.len()),
        countable(other_zones.len()),
        countable(other_records.len()),
        forall|i: int| 0 <= i < zones.len() ==> zone_sound(#[trigger] zones[i]),
        forall|i: int| 0 <= i < other_zones.len() ==> zone_sound(#[trigger] other_zones[i]),
        digest_input(zones, records) == digest_input(other_zones, other_records),
    ensures
        zones.to_set() == other_zones.to_set(),
        records.to_set() == other_records.to_set(),
{
    let write = |key: Seq<u8>| key;
    let zone_like = |key: Seq<u8>| is_zone_key(key);
    let record_like = |key: Seq<u8>| is_record_key(key);
    let zk = zone_keys(zones);
    let ozk = zone_keys(other_zones);
    let rk = record_keys(records);
    let ork = record_keys(other_records);
    assert forall|s: Seq<u8>, t: Seq<u8>, u: Seq<u8>, v: Seq<u8>|
        zone_like(s) && zone_like(t) && #[trigger] (write(s) + u) == #[trigger] (write(t) + v) implies s
        == t && u == v by {
        let a = choose|zone: ZoneSpecView| zone_sound(zone) && s == #[trigger] zone_key(zone);
        let b = choose|zone: ZoneSpecView| zone_sound(zone) && t == #[trigger] zone_key(zone);
        lemma_zone_reads_back(a, b, u, v);
    }
    assert forall|s: Seq<u8>, t: Seq<u8>, u: Seq<u8>, v: Seq<u8>|
        record_like(s) && record_like(t) && #[trigger] (write(s) + u) == #[trigger] (write(t) + v) implies s
        == t && u == v by {
        let a = choose|record: RecordSpecView| s == #[trigger] record_key(record);
        let b = choose|record: RecordSpecView| t == #[trigger] record_key(record);
        lemma_record_reads_back(a, b, u, v);
    }
    assert forall|i: int| 0 <= i < zk.len() implies zone_like(#[trigger] zk[i]) by {
        assert(zk[i] == zone_key(zones[i]));
    }
    assert forall|i: int| 0 <= i < ozk.len() implies zone_like(#[trigger] ozk[i]) by {
        assert(ozk[i] == zone_key(other_zones[i]));
    }
    assert forall|i: int| 0 <= i < rk.len() implies record_like(#[trigger] rk[i]) by {
        assert(rk[i] == record_key(records[i]));
    }
    assert forall|i: int| 0 <= i < ork.len() implies record_like(#[trigger] ork[i]) by {
        assert(ork[i] == record_key(other_records[i]));
    }
    lemma_key_set_reads_back(
        zone_like,
        zk,
        ozk,
        set_bytes(rk.to_set()),
        set_bytes(ork.to_set()),
    );
    assert(set_bytes(rk.to_set()) + Seq::<u8>::empty() =~= set_bytes(rk.to_set()));
    assert(set_bytes(ork.to_set()) + Seq::<u8>::empty() =~= set_bytes(ork.to_set()));
    lemma_key_set_reads_back(record_like, rk, ork, Seq::empty(), Seq::empty());
    assert forall|zone: ZoneSpecView| zones.to_set().contains(zone) == other_zones.to_set().contains(
        zone,
    ) by {
        if zones.contains(zone) {
            let i = choose|i: int| 0 <= i < zones.len() && zones[i] == zone;
            assert(zk[i] == zone_key(zone));
            assert(zk.contains(zk[i]));
            assert(ozk.to_set().contains(zk[i]));
            let j = choose|j: int| 0 <= j < ozk.len() && ozk[j] == zk[i];
            lemma_zone_key_tells_apart(other_zones[j], zone);
            assert(other_zones.contains(other_zones[j]));
        }
        if other_zones.contains(zone) {
            let i = choose|i: int| 0 <= i < other_zones.len() && other_zones[i] == zone;
            assert(ozk[i] == zone_key(zone));
            assert(ozk.contains(ozk[i]));
            assert(zk.to_set().contains(ozk[i]));
            let j = choose|j: int| 0 <= j < zk.len() && zk[j] == ozk[i];
            lemma_zone_key_tells_apart(zones[j], zone);
            assert(zones.contains(zones[j]));
        }
    }
    assert(zones.to_set() =~= other_zones.to_set());
    assert forall|record: RecordSpecView|
        records.to_set().contains(record) == other_records.to_set().contains(record) by {
        if records.contains(record) {
            let i = choose|i: int| 0 <= i < records.len() && records[i] == record;
            assert(rk[i] == record_key(record));
            assert(rk.contains(rk[i]));
            assert(ork.to_set().contains(rk[i]));
            let j = choose|j: int| 0 <= j < ork.len() && ork[j] == rk[i];
            lemma_record_key_tells_apart(other_records[j], record);
            assert(other_records.contains(other_records[j]));
        }
        if other_records.contains(record) {
            let i = choose|i: int| 0 <= i < other_records.len() && other_records[i] == record;
            assert(ork[i] == record_key(record));
            assert(ork.contains(ork[i]));
            assert(rk.to_set().contains(ork[i]));
            let j = choose|j: int| 0 <= j < rk.len() && rk[j] == ork[i];
            lemma_record_key_tells_apart(records[j], record);
            assert(records.contains(records[j]));
        }
    }
    assert(records.to_set() =~= other_records.to_set());
}

} // verus!
