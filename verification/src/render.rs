//! The text of a zone file as RFC 1035 lays it out: the origin, the start
//! of authority, and one line for each record of the zone.

use vstd::prelude::*;
use vstd::string::*;
use crate::decimal::{decimal, push_decimal, to_decimal};
use crate::order::{falling_order, falling_order_of, ints, key_ints, keys_ints};
use crate::record::{RecordSpec, RecordSpecView};
use crate::text::{chars_of, ends_with, join, slice_of, views};
use crate::zonefile::{ZoneFile, ZoneFileSpecView};

verus! {

/// The name of a record inside the zone `origin`: the name without
/// `.<origin>` at its end, or the whole name where it does not end so.
pub open spec fn short_name(domain_name: Seq<char>, origin: Seq<char>) -> Seq<char> {
    let suffix = seq!['.'] + origin;
    if suffix.is_suffix_of(domain_name) {
        domain_name.take(domain_name.len() - suffix.len())
    } else {
        domain_name
    }
}

/// The short names of `records`, in their order.
pub open spec fn short_names(records: Seq<RecordSpecView>, origin: Seq<char>) -> Seq<Seq<char>> {
    Seq::new(records.len(), |i: int| short_name(records[i].domain_name, origin))
}

/// The length of the longest of `names`; zero where there is none.
pub open spec fn longest(names: Seq<Seq<char>>) -> nat
    decreases names.len(),
{
    if names.len() == 0 {
        0
    } else {
        let rest = longest(names.drop_last());
        if names.last().len() > rest {
            names.last().len()
        } else {
            rest
        }
    }
}

/// The characters of a name as numbers, last character first.
pub open spec fn reversed_codes(name: Seq<char>) -> Seq<int> {
    Seq::new(name.len(), |i: int| (name[name.len() - 1 - i] as u32) as int)
}

/// The keys by which the lines of a zone file are ordered: each name read
/// backwards, so that names under the same suffix stand together.
pub open spec fn sort_keys(names: Seq<Seq<char>>) -> Seq<Seq<int>> {
    Seq::new(names.len(), |i: int| reversed_codes(names[i]))
}

/// `text`, followed by as many spaces as it needs to be `width` wide.
pub open spec fn padded(text: Seq<char>, width: nat) -> Seq<char> {
    if text.len() >= width {
        text
    } else {
        text + Seq::new((width - text.len()) as nat, |i: int| ' ')
    }
}

/// The seconds for which a record is kept: its own, or `default_ttl`.
pub open spec fn ttl_of(record: RecordSpecView, default_ttl: u32) -> u32 {
    match record.ttl {
        Some(ttl) => ttl,
        None => default_ttl,
    }
}

/// The line of a record: name, seconds to live, class, type and data, each
/// but the last padded to the width of its column.
pub open spec fn record_line(
    record: RecordSpecView,
    name: Seq<char>,
    width: nat,
    default_ttl: u32,
) -> Seq<char> {
    padded(name, width) + seq![' '] + padded(decimal(ttl_of(record, default_ttl) as nat), 8)
        + seq![' '] + padded(record.class, 5) + seq![' '] + padded(record.type_, 6) + seq![' ']
        + record.rdata
}

/// The lines of `records` in the order of a zone file: by falling
/// reversed short name, records of the same name in the order in which
/// they were listed, the names padded to the width of the longest.
pub open spec fn record_lines(
    records: Seq<RecordSpecView>,
    origin: Seq<char>,
    default_ttl: u32,
) -> Seq<Seq<char>> {
    let names = short_names(records, origin);
    let order = falling_order(sort_keys(names));
    Seq::new(
        order.len(),
        |p: int| record_line(records[order[p]], names[order[p]], longest(names), default_ttl),
    )
}

/// `lines` with a line feed between each two.
pub open spec fn join_lines(lines: Seq<Seq<char>>) -> Seq<char> {
    join(lines, '\n')
}

/// The head of a zone file: the origin and the start of authority.
pub open spec fn zonefile_head(spec: ZoneFileSpecView, origin: Seq<char>, serial: u32) -> Seq<char> {
    "$ORIGIN "@ + origin + "\n\n"@ + origin + " IN SOA ns."@ + origin + " noc."@ + origin
        + " (\n    "@ + decimal(serial as nat) + "\n    "@ + decimal(spec.refresh as nat)
        + "\n    "@ + decimal(spec.retry as nat) + "\n    "@ + decimal(spec.expire as nat)
        + "\n    "@ + decimal(spec.negative_response_cache as nat) + "\n)\n\n"@
}

/// The text of the zone file of the zone `origin` with the serial `serial`
/// and the records `records`.
pub open spec fn zonefile_text(
    spec: ZoneFileSpecView,
    origin: Seq<char>,
    serial: u32,
    records: Seq<RecordSpecView>,
) -> Seq<char> {
    zonefile_head(spec, origin, serial) + join_lines(record_lines(records, origin, spec.ttl))
        + seq!['\n']
}

/// The characters of `name` as numbers, last character first.
fn reversed_codes_of(name: &Vec<char>) -> (key: Vec<u64>)
    ensures
        key_ints(key@) == reversed_codes(name@),
{
    let mut key: Vec<u64> = Vec::new();
    let mut i: usize = 0;
    while i < name.len()
        invariant
            i <= name.len(),
            key.len() == i,
            forall|k: int| 0 <= k < i ==> key[k] == name@[name.len() - 1 - k] as u32,
        decreases name.len() - i,
    {
        let c: char = name[name.len() - 1 - i];
        let code: u32 = c as u32;
        key.push(code as u64);
        i = i + 1;
    }
    assert(key_ints(key@) =~= reversed_codes(name@));
    key
}

/// Appends `text` and the spaces that pad it to `width`.
fn push_padded(out: &mut String, text: &str, width: usize)
    ensures
        final(out)@ == old(out)@ + padded(text@, width as nat),
{
    let ghost before = out@;
    out.append(text);
    let mut n: usize = text.unicode_len();
    assert(out@ =~= before + text@ + Seq::new(0, |i: int| ' '));
    while n < width
        invariant
            text@.len() <= n,
            n <= width || n == text@.len(),
            out@ == before + text@ + Seq::new((n - text@.len()) as nat, |i: int| ' '),
        decreases width - n,
    {
        out.append(" ");
        n = n + 1;
        proof {
            reveal_strlit(" ");
        }
        assert(out@ =~= before + text@ + Seq::new((n - text@.len()) as nat, |i: int| ' '));
    }
    assert(out@ =~= before + padded(text@, width as nat));
}

/// The line of `record` under the name `name`.
fn line_of(record: &RecordSpec, name: &str, width: usize, default_ttl: u32) -> (line: String)
    ensures
        line@ == record_line(record@, name@, width as nat, default_ttl),
{
    let ttl: u32 = match record.ttl {
        Some(ttl) => ttl,
        None => default_ttl,
    };
    let digits = to_decimal(ttl as u64);
    let mut line = String::new();
    proof {
        reveal_strlit(" ");
        assert(" "@ =~= seq![' ']);
    }
    push_padded(&mut line, name, width);
    line.append(" ");
    push_padded(&mut line, digits.as_str(), 8);
    line.append(" ");
    push_padded(&mut line, record.class.as_str(), 5);
    line.append(" ");
    push_padded(&mut line, record.type_.as_str(), 6);
    line.append(" ");
    line.append(record.rdata.as_str());
    assert(line@ =~= record_line(record@, name@, width as nat, default_ttl));
    line
}

/// The head of the zone file.
fn head_of(zonefile: &ZoneFile, origin: &str, serial: u32) -> (head: String)
    ensures
        head@ == zonefile_head(zonefile@.spec, origin@, serial),
{
    let mut head = String::new();
    head.append("$ORIGIN ");
    head.append(origin);
    head.append("\n\n");
    head.append(origin);
    head.append(" IN SOA ns.");
    head.append(origin);
    head.append(" noc.");
    head.append(origin);
    head.append(" (\n    ");
    push_decimal(&mut head, serial as u64);
    head.append("\n    ");
    push_decimal(&mut head, zonefile.spec.refresh as u64);
    head.append("\n    ");
    push_decimal(&mut head, zonefile.spec.retry as u64);
    head.append("\n    ");
    push_decimal(&mut head, zonefile.spec.expire as u64);
    head.append("\n    ");
    push_decimal(&mut head, zonefile.spec.negative_response_cache as u64);
    head.append("\n)\n\n");
    assert(head@ =~= zonefile_head(zonefile@.spec, origin@, serial));
    head
}

/// Builds the text of the zone file of the zone `origin` with the serial
/// `serial` from the records that belong to the zone.
pub fn build_zonefile(zonefile: &ZoneFile, origin: &str, serial: u32, records: &Vec<RecordSpec>) -> (text: String)
    ensures
        text@ == zonefile_text(zonefile@.spec, origin@, serial, records.deep_view()),
{
    let origin_chars = chars_of(origin);
    let mut suffix: Vec<char> = Vec::new();
    suffix.push('.');
    let mut k: usize = 0;
    while k < origin_chars.len()
        invariant
            k <= origin_chars.len(),
            suffix@ == seq!['.'] + origin_chars@.take(k as int),
        decreases origin_chars.len() - k,
    {
        suffix.push(origin_chars[k]);
        k = k + 1;
    }
    assert(suffix@ == seq!['.'] + origin@) by {
        assert(origin_chars@.take(k as int) == origin_chars@);
    }
    let ghost names = short_names(records.deep_view(), origin@);
    let mut shorts: Vec<Vec<char>> = Vec::new();
    let mut keys: Vec<Vec<u64>> = Vec::new();
    let mut width: usize = 0;
    let mut i: usize = 0;
    while i < records.len()
        invariant
            i <= records.len(),
            suffix@ == seq!['.'] + origin@,
            names == short_names(records.deep_view(), origin@),
            shorts.len() == i,
            keys.len() == i,
            views(shorts@) == names.take(i as int),
            keys_ints(keys@) == sort_keys(names.take(i as int)),
            forall|q: int| 0 <= q < i ==> (#[trigger] shorts[q]).len() <= records[q].domain_name@.len(),
            width == longest(names.take(i as int)),
        decreases records.len() - i,
    {
        let name = chars_of(records[i].domain_name.as_str());
        let short_len: usize = if ends_with(&name, &suffix) {
            name.len() - suffix.len()
        } else {
            name.len()
        };
        let short = slice_of(&name, 0, short_len);
        let key = reversed_codes_of(&short);
        proof {
            assert(records.deep_view()[i as int] == records[i as int]@);
            assert(short@ == names[i as int]);
            assert(names.take(i + 1).drop_last() == names.take(i as int));
            assert(views(shorts@.push(short)) =~= names.take(i + 1));
            let next = keys_ints(keys@.push(key));
            let want = sort_keys(names.take(i + 1));
            assert forall|q: int| 0 <= q < next.len() implies next[q] == want[q] by {
                if q < i {
                    assert(keys_ints(keys@)[q] == sort_keys(names.take(i as int))[q]);
                }
            }
            assert(next =~= want);
        }
        if short.len() > width {
            width = short.len();
        }
        shorts.push(short);
        keys.push(key);
        i = i + 1;
    }
    assert(names.take(i as int) == names);
    let order = falling_order_of(&keys);
    let ghost lines = record_lines(records.deep_view(), origin@, zonefile@.spec.ttl);
    let mut text = head_of(zonefile, origin, serial);
    let ghost head = text@;
    let mut p: usize = 0;
    proof {
        assert(lines.len() == order.len());
    }
    while p < order.len()
        invariant
            p <= order.len(),
            order.len() == records.len(),
            shorts.len() == records.len(),
            names == short_names(records.deep_view(), origin@),
            views(shorts@) == names,
            forall|q: int| 0 <= q < shorts.len() ==> (#[trigger] shorts[q]).len() <= records[q].domain_name@.len(),
            width == longest(names),
            ints(order@) == falling_order(sort_keys(names)),
            forall|q: int| 0 <= q < order.len() ==> #[trigger] order[q] < records.len(),
            lines == record_lines(records.deep_view(), origin@, zonefile@.spec.ttl),
            lines.len() == order.len(),
            text@ == head + join_lines(lines.take(p as int)),
        decreases order.len() - p,
    {
        let at: usize = order[p];
        let record = &records[at];
        let name = record.domain_name.as_str().substring_char(0, shorts[at].len());
        let line = line_of(record, name, width, zonefile.spec.ttl);
        proof {
            assert(records.deep_view()[at as int] == record@);
            assert(views(shorts@)[at as int] == shorts[at as int]@);
            assert(name@ == names[at as int]) by {
                assert(names[at as int] == short_name(record@.domain_name, origin@));
            }
            assert(ints(order@)[p as int] == at);
            assert(lines[p as int] == line@);
            assert(lines.take(p + 1).drop_last() == lines.take(p as int));
            assert(lines.take(p + 1).last() == line@);
        }
        if p > 0 {
            text.append("\n");
            proof {
                reveal_strlit("\n");
                assert("\n"@ =~= seq!['\n']);
            }
        } else {
            proof {
                assert(lines.take(0).len() == 0);
                assert(head + join_lines(lines.take(0)) =~= head);
            }
        }
        text.append(line.as_str());
        proof {
            assert(text@ =~= head + join_lines(lines.take(p + 1)));
        }
        p = p + 1;
    }
    text.append("\n");
    proof {
        reveal_strlit("\n");
        assert("\n"@ =~= seq!['\n']);
        assert(lines.take(p as int) == lines);
    }
    text
}

} // verus!
