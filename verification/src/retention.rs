//! Which rendered revisions of a zone file stay and which go: the config
//! map of each rendering is named after the zone file and the serial, and
//! only the newest are kept.

use vstd::prelude::*;
use vstd::string::*;
use crate::decimal::{
    decimal, lemma_decimal_reads_back, lemma_well_written_is_decimal, parse_decimal, parsed,
    push_decimal,
};
use crate::order::{
    by_falling_key, falling_order, falling_order_of, ints, keys_ints, lemma_falling_order_arranges,
    lemma_lex_irreflexive, lemma_lex_transitive, lex_less,
};
use crate::text::{chars_of, starts_with};
use crate::zone::lists_text;

verus! {

/// The name of the config map that holds the rendering of the zone file
/// `zonefile` with the serial `serial`.
pub open spec fn revision_name(zonefile: Seq<char>, serial: nat) -> Seq<char> {
    zonefile + seq!['-'] + decimal(serial)
}

/// The serial that the name of a config map gives for a rendering of the
/// zone file `zonefile`; none where the name is not that of a rendering.
pub open spec fn revision_serial(zonefile: Seq<char>, name: Seq<char>) -> Option<u32> {
    let prefix = zonefile + seq!['-'];
    if prefix.is_prefix_of(name) {
        parsed(name.skip(prefix.len() as int))
    } else {
        None
    }
}

/// The name of a rendering gives its serial, and a name that gives a
/// serial is the name of the rendering with that serial.
pub proof fn lemma_revision_name_reads_back(zonefile: Seq<char>, name: Seq<char>, serial: u32)
    ensures
        revision_serial(zonefile, revision_name(zonefile, serial as nat)) == Some(serial),
        revision_serial(zonefile, name) == Some(serial) ==> name == revision_name(
            zonefile,
            serial as nat,
        ),
{
    let prefix = zonefile + seq!['-'];
    let full = revision_name(zonefile, serial as nat);
    lemma_decimal_reads_back(serial as nat);
    assert(full.subrange(0, prefix.len() as int) =~= prefix);
    assert(full.skip(prefix.len() as int) =~= decimal(serial as nat));
    if revision_serial(zonefile, name) == Some(serial) {
        let rest = name.skip(prefix.len() as int);
        lemma_well_written_is_decimal(rest);
        assert(name =~= prefix + rest);
    }
}

/// The name of the config map for a rendering.
pub fn revision_name_of(zonefile: &str, serial: u32) -> (name: String)
    ensures
        name@ == revision_name(zonefile@, serial as nat),
{
    let mut name = String::from_str(zonefile);
    name.append("-");
    proof {
        reveal_strlit("-");
        assert("-"@ =~= seq!['-']);
    }
    push_decimal(&mut name, serial as u64);
    name
}

/// Reads the serial of a rendering from the name of its config map.
pub fn revision_serial_of(zonefile: &str, name: &str) -> (serial: Option<u32>)
    ensures
        serial == revision_serial(zonefile@, name@),
{
    let mut prefix = chars_of(zonefile);
    prefix.push('-');
    let chars = chars_of(name);
    if !starts_with(&chars, &prefix) {
        return None;
    }
    parse_decimal(&chars, prefix.len())
}

/// How new a config map is: one above the serial in its name, and zero for
/// a name that is not that of a rendering.
pub open spec fn rank(zonefile: Seq<char>, name: Seq<char>) -> nat {
    match revision_serial(zonefile, name) {
        Some(serial) => (serial + 1) as nat,
        None => 0,
    }
}

/// The ranks of `names` as keys for ordering.
pub open spec fn rank_keys(zonefile: Seq<char>, names: Seq<Seq<char>>) -> Seq<Seq<int>> {
    Seq::new(names.len(), |i: int| seq![rank(zonefile, names[i]) as int])
}

/// The number of config maps that stay: `history`, or all where there are
/// fewer.
pub open spec fn kept(history: u32, owned: nat) -> nat {
    if history <= owned {
        history as nat
    } else {
        owned
    }
}

/// The indices of the config maps that go: all but the `history` newest,
/// where of two maps of the same rank the one listed first counts as the
/// newer.
pub open spec fn expired(zonefile: Seq<char>, history: u32, names: Seq<Seq<char>>) -> Seq<int> {
    falling_order(rank_keys(zonefile, names)).skip(kept(history, names.len()) as int)
}

/// Picks from the config maps that a zone file owns those to delete so
/// that no more than `history` stay.
pub fn expired_revisions(zonefile: &str, history: u32, names: &Vec<String>) -> (gone: Vec<usize>)
    ensures
        ints(gone@) == expired(zonefile@, history, names.deep_view()),
        gone.len() + kept(history, names.len() as nat) == names.len(),
        names.len() - gone.len() <= history,
        forall|p: int| 0 <= p < gone.len() ==> #[trigger] gone[p] < names.len(),
{
    let ghost want = rank_keys(zonefile@, names.deep_view());
    let mut keys: Vec<Vec<u64>> = Vec::new();
    let mut i: usize = 0;
    while i < names.len()
        invariant
            i <= names.len(),
            keys.len() == i,
            want == rank_keys(zonefile@, names.deep_view()),
            forall|q: int| 0 <= q < i ==> (#[trigger] keys_ints(keys@)[q]) == want[q],
        decreases names.len() - i,
    {
        let rank: u64 = match revision_serial_of(zonefile, names[i].as_str()) {
            Some(serial) => serial as u64 + 1,
            None => 0,
        };
        let mut key: Vec<u64> = Vec::new();
        key.push(rank);
        proof {
            let before = keys_ints(keys@);
            let after = keys_ints(keys@.push(key));
            assert(names.deep_view()[i as int] == names[i as int]@);
            assert(after[i as int] =~= want[i as int]);
            assert forall|q: int| 0 <= q < i + 1 implies (#[trigger] after[q]) == want[q] by {
                if q < i {
                    assert(before[q] == want[q]);
                }
            }
        }
        keys.push(key);
        i = i + 1;
    }
    assert(keys_ints(keys@) =~= want);
    let order = falling_order_of(&keys);
    let skip: usize = if (history as usize) <= names.len() {
        history as usize
    } else {
        names.len()
    };
    let mut gone: Vec<usize> = Vec::new();
    let mut p: usize = skip;
    while p < order.len()
        invariant
            skip <= p <= order.len(),
            order.len() == names.len(),
            gone.len() == p - skip,
            forall|q: int| 0 <= q < order.len() ==> #[trigger] order[q] < names.len(),
            forall|q: int| 0 <= q < gone.len() ==> #[trigger] gone[q] == order[skip + q],
        decreases order.len() - p,
    {
        gone.push(order[p]);
        p = p + 1;
    }
    assert(ints(gone@) =~= ints(order@).skip(skip as int));
    gone
}

/// After the expired config maps are gone, those that stay are the newest:
/// none that goes has a higher rank than one that stays.
pub proof fn lemma_newest_stay(zonefile: Seq<char>, history: u32, names: Seq<Seq<char>>, stays: int, goes: int)
    requires
        0 <= stays < kept(history, names.len()),
        kept(history, names.len()) <= goes < names.len(),
    ensures
        falling_order(rank_keys(zonefile, names)).len() == names.len(),
        rank(zonefile, names[falling_order(rank_keys(zonefile, names))[goes]]) <= rank(
            zonefile,
            names[falling_order(rank_keys(zonefile, names))[stays]],
        ),
{
    let keys = rank_keys(zonefile, names);
    let order = falling_order(keys);
    lemma_falling_order_arranges(keys);
    let a = order[stays];
    let b = order[goes];
    assert(by_falling_key(keys)(a, b));
    assert(order.contains(a) && order.contains(b));
    assert(order.to_set().contains(a) && order.to_set().contains(b));
    assert(keys[a] == seq![rank(zonefile, names[a]) as int]);
    assert(keys[b] == seq![rank(zonefile, names[b]) as int]);
    if rank(zonefile, names[b]) > rank(zonefile, names[a]) {
        assert(lex_less(keys[a], keys[b]));
        lemma_lex_irreflexive(keys[a]);
        lemma_lex_transitive(keys[a], keys[b], keys[a]);
    }
}

/// A config map as a listing shows it: its name, and the identities of the
/// objects that own it.
#[derive(Debug, Clone, PartialEq, Eq)]
pub struct ListedConfigMap {
    pub name: String,
    pub owners: Vec<String>,
}

/// The mathematical value of a [`ListedConfigMap`].
pub struct ListedConfigMapView {
    pub name: Seq<char>,
    pub owners: Seq<Seq<char>>,
}

impl View for ListedConfigMap {
    type V = ListedConfigMapView;

    open spec fn view(&self) -> ListedConfigMapView {
        ListedConfigMapView { name: self.name@, owners: self.owners.deep_view() }
    }
}

impl DeepView for ListedConfigMap {
    type V = ListedConfigMapView;

    open spec fn deep_view(&self) -> ListedConfigMapView {
        self@
    }
}

/// Whether the object with the identity `uid` is among the owners of a
/// config map. An object without identity owns nothing.
pub open spec fn is_owned(uid: Option<Seq<char>>, map: ListedConfigMapView) -> bool {
    match uid {
        Some(owner) => map.owners.contains(owner),
        None => false,
    }
}

/// The names of the config maps of a listing that the object with the
/// identity `uid` owns, in the order of the listing.
pub open spec fn owned(uid: Option<Seq<char>>, maps: Seq<ListedConfigMapView>) -> Seq<Seq<char>>
    decreases maps.len(),
{
    if maps.len() == 0 {
        Seq::empty()
    } else if is_owned(uid, maps.last()) {
        owned(uid, maps.drop_last()).push(maps.last().name)
    } else {
        owned(uid, maps.drop_last())
    }
}

/// A name is among the owned names just when the listing holds an owned
/// config map of that name.
pub proof fn lemma_owned_names(uid: Option<Seq<char>>, maps: Seq<ListedConfigMapView>, name: Seq<char>)
    ensures
        owned(uid, maps).contains(name) <==> exists|i: int|
            0 <= i < maps.len() && is_owned(uid, #[trigger] maps[i]) && maps[i].name == name,
    decreases maps.len(),
{
    if maps.len() > 0 {
        let front = maps.drop_last();
        let last = maps.len() - 1;
        lemma_owned_names(uid, front, name);
        if owned(uid, maps).contains(name) {
            let k = choose|k: int| 0 <= k < owned(uid, maps).len() && owned(uid, maps)[k] == name;
            if is_owned(uid, maps.last()) && k == owned(uid, front).len() {
                assert(is_owned(uid, maps[last]) && maps[last].name == name);
            } else {
                assert(owned(uid, front)[k] == name);
                assert(owned(uid, front).contains(name));
                let i = choose|i: int|
                    0 <= i < front.len() && is_owned(uid, #[trigger] front[i]) && front[i].name
                        == name;
                assert(maps[i] == front[i]);
            }
        }
        if exists|i: int|
            0 <= i < maps.len() && is_owned(uid, #[trigger] maps[i]) && maps[i].name == name {
            let i = choose|i: int|
                0 <= i < maps.len() && is_owned(uid, #[trigger] maps[i]) && maps[i].name == name;
            if i == last {
                assert(owned(uid, maps)[owned(uid, front).len() as int] == name);
            } else {
                assert(front[i] == maps[i]);
                assert(owned(uid, front).contains(name));
                let k = choose|k: int|
                    0 <= k < owned(uid, front).len() && owned(uid, front)[k] == name;
                assert(owned(uid, maps)[k] == name);
            }
        }
    }
}

/// Picks from a listing of config maps the names of those that the object
/// with the identity `uid` owns.
pub fn owned_config_maps(uid: &Option<String>, maps: &Vec<ListedConfigMap>) -> (names: Vec<String>)
    ensures
        names.deep_view() == owned(uid.deep_view(), maps.deep_view()),
{
    let mut names: Vec<String> = Vec::new();
    let ghost all = maps.deep_view();
    let mut i: usize = 0;
    assert(names.deep_view() =~= owned(uid.deep_view(), all.take(0)));
    while i < maps.len()
        invariant
            i <= maps.len(),
            all == maps.deep_view(),
            names.deep_view() == owned(uid.deep_view(), all.take(i as int)),
        decreases maps.len() - i,
    {
        let map = &maps[i];
        let mine = match uid {
            Some(owner) => lists_text(&map.owners, owner.as_str()),
            None => false,
        };
        proof {
            assert(all[i as int] == map@);
            assert(all.take(i + 1).drop_last() == all.take(i as int));
            assert(all.take(i + 1).last() == map@);
        }
        if mine {
            let ghost before = names.deep_view();
            names.push(map.name.clone());
            assert(names.deep_view() =~= before.push(map@.name));
        }
        i = i + 1;
    }
    assert(all.take(i as int) == all);
    names
}

} // verus!
