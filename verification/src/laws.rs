//! What holds of packing and unpacking together: the laws of the container, proved from the
//! definitions of [`crate::layout`] and [`crate::protocol`], which the contracts of the
//! packers and unpackers are stated in.

use crate::endian::{
    capacity, le_bytes, le_value, lemma_capacity_values, lemma_le_bytes_len,
    lemma_le_bytes_split, lemma_le_value_bound, lemma_le_value_concat, lemma_le_value_of_bytes,
};
use crate::error::ErrorKind;
use crate::layout::{
    entry_fits, find, footer_bytes, has_name, header_bytes, lemma_find_none,
    lemma_parse_footer_of_bytes, lemma_parse_toc_fits, lemma_parse_toc_needs_room,
    lemma_toc_bytes_len, lemma_toc_fits_wider, magic, name_fits,
    parse_container, parse_entry, parse_footer, parse_header, parse_toc, payload, toc_bytes,
    toc_fits, width_of, Entry,
};
use crate::proofs::{
    aligned, describes, lemma_entries_at_len, lemma_find_in_longer, lemma_lookups_of_session,
    lemma_table_of_closed, lemma_unpacked_all_found, lemma_write_all_effect,
    lemma_write_all_layout, lemma_write_all_needs, lemma_write_all_succeeds,
};
use crate::protocol::{
    closed, created, entries_at, lookup, packed, payloads, resumed, table_of, unpacked, updated,
    with_header, with_record, write_all, write_outcome, Lookup, PackerState, Refused, Unpacked,
};
use crate::utils::Blob;
use vstd::prelude::*;

verus! {

/// The bytes of all the payloads of `records` together.
pub open spec fn total_len(records: Seq<Blob>) -> nat
    decreases records.len(),
{
    if records.len() == 0 {
        0
    } else {
        records[0].data.len() + total_len(records.drop_first())
    }
}

/// Whether no two of `records` have the same name.
pub open spec fn distinct_record_names(records: Seq<Blob>) -> bool {
    forall|i: int, j: int|
        0 <= i < j < records.len() ==> (#[trigger] records[i]).name != (#[trigger] records[j]).name
}

/// The names of `records`, in order.
pub open spec fn names_of_records(records: Seq<Blob>) -> Seq<Seq<char>> {
    Seq::new(records.len(), |i: int| records[i].name)
}

/// A whole session round-trips: where packing `records` gives a container, the container's
/// table of contents can be read, looking up the name of each record gives that record's
/// bytes, and looking up all the names gives all the records back, in order, with no name
/// left over. This holds of both versions of the layout.
pub proof fn lemma_round_trip(records: Seq<Blob>, minor: u8)
    requires
        minor == 0 || minor == 1,
        packed(records, 1, minor, width_of((1u8, minor)).unwrap()) is Ok,
    ensures
        ({
            let container = packed(records, 1, minor, width_of((1u8, minor)).unwrap())->Ok_0;
            &&& parse_header(container) == Some((1u8, minor))
            &&& table_of(container) is Some
            &&& forall|i: int|
                0 <= i < records.len() ==> lookup(
                    container,
                    table_of(container).unwrap(),
                    (#[trigger] records[i]).name,
                ) == Lookup::Found(records[i].data)
            &&& unpacked(container, table_of(container).unwrap(), names_of_records(records))
                == Some(Unpacked { found: records, missing: Seq::empty() })
        }),
{
    let width = width_of((1u8, minor)).unwrap();
    let start = with_header(created(Seq::empty()), 1, minor);
    lemma_capacity_values();
    assert(start.toc.len() == 0);
    lemma_write_all_effect(start, records, width);
    let end = write_all(start, records, width)->Ok_0;
    let container = closed(end, width);
    lemma_table_of_closed(end, width);
    assert(end.sink.is_prefix_of(container)) by {
        assert(end.sink =~= container.subrange(0, end.sink.len() as int));
    }
    assert(container.subrange(0, 6) =~= header_bytes(1, minor)) by {
        assert(start.sink =~= header_bytes(1, minor));
        assert(start.sink =~= end.sink.subrange(0, 6));
        assert forall|k: int| 0 <= k < 6 implies container[k] == start.sink[k] by {
            assert(end.sink.subrange(0, 6)[k] == end.sink[k]);
            assert(container.subrange(0, end.sink.len() as int)[k] == container[k]);
        }
    }
    assert(parse_header(container) == Some((1u8, minor))) by {
        assert(container.subrange(0, 4) =~= crate::layout::magic());
        assert(container[4] == container.subrange(0, 6)[4]);
        assert(container[5] == container.subrange(0, 6)[5]);
    }
    assert(table_of(container) == Some(end.toc));
    lemma_lookups_of_session(container, end, start.toc.len(), records);
    lemma_unpacked_all_found(container, end.toc, records, 0);
    assert(records.skip(0) =~= records);
    assert(names_of_records(records).skip(0) =~= names_of_records(records));
}

/// When packing succeeds: exactly where the records have distinct names of at most 255
/// bytes, and the width can describe the end of the last payload and the number of
/// records. This holds of both versions of the layout.
pub proof fn lemma_pack_succeeds(records: Seq<Blob>, minor: u8)
    requires
        minor == 0 || minor == 1,
    ensures
        packed(records, 1, minor, width_of((1u8, minor)).unwrap()) is Ok <==> {
            &&& distinct_record_names(records)
            &&& forall|i: int| 0 <= i < records.len() ==> name_fits((#[trigger] records[i]).name)
            &&& 6 + total_len(records) < capacity(width_of((1u8, minor)).unwrap())
            &&& records.len() < capacity(width_of((1u8, minor)).unwrap())
        },
{
    let width = width_of((1u8, minor)).unwrap();
    let start = with_header(created(Seq::empty()), 1, minor);
    lemma_capacity_values();
    if packed(records, 1, minor, width) is Ok {
        lemma_write_all_effect(start, records, width);
        let end = write_all(start, records, width)->Ok_0;
        assert forall|i: int, j: int| 0 <= i < j < records.len() implies (#[trigger] records[i]).name
            != (#[trigger] records[j]).name by {
            assert(describes(end.sink, end.toc[start.toc.len() + i], records[i]));
            assert(end.toc[i].name != records[j].name);
        }
        assert forall|i: int| 0 <= i < records.len() implies name_fits(
            (#[trigger] records[i]).name,
        ) by {
            assert(describes(end.sink, end.toc[start.toc.len() + i], records[i]));
            assert(entry_fits(end.toc[i], width));
        }
    }
    if distinct_record_names(records) && (forall|i: int|
        0 <= i < records.len() ==> name_fits((#[trigger] records[i]).name)) && 6 + total_len(
        records,
    ) < capacity(width) && records.len() < capacity(width) {
        assert forall|i: int| 0 <= i < records.len() implies !has_name(
            start.toc,
            (#[trigger] records[i]).name,
        ) by {}
        lemma_write_all_succeeds(start, records, width);
    }
}

/// What a container is made of: the header, the payloads of the records in order, an entry
/// for each record in the same order, which says where the payload lies, and the footer,
/// which says where the entries start and how many they are. This holds of both versions
/// of the layout.
pub proof fn lemma_pack_layout(records: Seq<Blob>, minor: u8)
    requires
        minor == 0 || minor == 1,
        packed(records, 1, minor, width_of((1u8, minor)).unwrap()) is Ok,
    ensures
        ({
            let width = width_of((1u8, minor)).unwrap();
            packed(records, 1, minor, width)->Ok_0 == header_bytes(1, minor) + payloads(records)
                + toc_bytes(entries_at(6, records), width) + footer_bytes(
                6 + total_len(records),
                records.len(),
                width,
            )
        }),
{
    let width = width_of((1u8, minor)).unwrap();
    let start = with_header(created(Seq::empty()), 1, minor);
    lemma_write_all_layout(start, records, width);
    lemma_entries_at_len(6, records);
    assert(start.sink =~= header_bytes(1, minor));
    assert(start.toc + entries_at(6, records) =~= entries_at(6, records));
}

/// The header that was written is the header that is read, whatever follows it.
pub proof fn lemma_header_round_trip(major: u8, minor: u8, rest: Seq<u8>)
    ensures
        parse_header(header_bytes(major, minor) + rest) == Some((major, minor)),
{
    let bytes = header_bytes(major, minor) + rest;
    assert(bytes.subrange(0, 4) =~= magic());
}

/// A container whose header names a version other than 1.0 and 1.1 has a header that can be
/// read and no table that can: no unpacker is chosen for it.
pub proof fn lemma_unsupported_version(container: Seq<u8>)
    requires
        parse_header(container) is Some,
        parse_header(container).unwrap() != (1u8, 0u8),
        parse_header(container).unwrap() != (1u8, 1u8),
    ensures
        width_of(parse_header(container).unwrap()) is None,
        table_of(container) is None,
{
}

/// No container of version 1.0 can be read as one of version 1.1: whatever records were
/// packed, reading the table with the width of 1.1 fails.
pub proof fn lemma_legacy_container_fails_current_reader(records: Seq<Blob>)
    requires
        packed(records, 1, 0, 4) is Ok,
    ensures
        parse_container(packed(records, 1, 0, 4)->Ok_0, 8) is None,
{
    lemma_capacity_values();
    let start = with_header(created(Seq::empty()), 1, 0);
    lemma_write_all_effect(start, records, 4);
    let end = write_all(start, records, 4)->Ok_0;
    let container = closed(end, 4);
    let table = toc_bytes(end.toc, 4);
    let n = end.toc.len();
    lemma_toc_bytes_len(end.toc, 4);
    lemma_le_bytes_len(end.pos, 4);
    lemma_le_bytes_len(n, 4);
    assert(container.len() == end.pos + table.len() + 8);
    if records.len() == 0 {
        assert(end.sink =~= start.sink);
        assert(container.len() < 16);
    } else {
        let footer = footer_bytes(end.pos, n, 4);
        assert(container.subrange(container.len() - 8, container.len() as int) =~= footer);
        lemma_le_value_concat(le_bytes(end.pos, 4), le_bytes(n, 4));
        lemma_le_value_of_bytes(end.pos, 4);
        lemma_le_value_of_bytes(n, 4);
        let count = le_value(footer);
        assert(count == end.pos + 0x1_0000_0000 * n);
        let parsed = parse_footer(container, 8).unwrap();
        assert(parsed.1 == count);
        if parse_toc(container, parsed.0, count, 8) is Some {
            lemma_parse_toc_needs_room(container, parsed.0, count, 8);
            assert(17 * count <= container.len());
            assert(table.len() <= 264 * n);
            assert(false) by (nonlinear_arith)
                requires
                    n >= 1,
                    17 * count <= container.len(),
                    container.len() == end.pos + table.len() + 8,
                    table.len() <= 264 * n,
                    count == end.pos + 0x1_0000_0000 * n,
            ;
        }
    }
}

/// A container of version 1.1 with fewer than 2^32 records has nothing to give to the
/// reader of version 1.0: its table, read with the width of 1.0, is empty, and so no name
/// is found.
pub proof fn lemma_current_container_is_empty_to_legacy_reader(records: Seq<Blob>)
    requires
        packed(records, 1, 1, 8) is Ok,
        records.len() < capacity(4),
    ensures
        parse_container(packed(records, 1, 1, 8)->Ok_0, 4) == Some(Seq::<Entry>::empty()),
        forall|name: Seq<char>| #[trigger]
            lookup(packed(records, 1, 1, 8)->Ok_0, Seq::<Entry>::empty(), name)
                == Lookup::Missing,
{
    lemma_capacity_values();
    let start = with_header(created(Seq::empty()), 1, 1);
    lemma_write_all_effect(start, records, 8);
    let end = write_all(start, records, 8)->Ok_0;
    let container = closed(end, 8);
    let n = end.toc.len();
    assert(n == records.len());
    lemma_le_bytes_len(end.pos, 8);
    lemma_le_bytes_len(n, 8);
    lemma_le_bytes_split(n, 4, 4);
    lemma_le_bytes_len(n, 4);
    lemma_le_bytes_len(n / capacity(4), 4);
    assert(n / capacity(4) == 0);
    lemma_le_value_of_bytes(0, 4);
    let last = container.len() as int;
    assert(container.subrange(last - 8, last) =~= le_bytes(n, 8));
    assert(container.subrange(last - 4, last) =~= le_bytes(0, 4)) by {
        assert(le_bytes(n, 8) == le_bytes(n, 4) + le_bytes(0, 4));
        assert(container.subrange(last - 4, last) =~= container.subrange(last - 8, last).subrange(
            4,
            8,
        ));
    }
}

/// A record whose data is longer than the width can measure is refused as too big,
/// whatever its name is.
pub proof fn lemma_oversized_data_refused(state: PackerState, record: Blob, width: nat)
    requires
        record.data.len() >= capacity(width),
    ensures
        write_outcome(state, record, width) == Err::<PackerState, Refused>(
            Refused { kind: ErrorKind::RecordTooBig, name: record.name },
        ),
{
}

/// A name is refused as too long exactly where it has more than 255 bytes of UTF-8, in
/// every session whose table holds only names that fit, at every width, and for every
/// record whose data the width can measure.
pub proof fn lemma_name_length_boundary(state: PackerState, record: Blob, width: nat)
    requires
        toc_fits(state.toc, width),
        record.data.len() < capacity(width),
    ensures
        write_outcome(state, record, width) == Err::<PackerState, Refused>(
            Refused { kind: ErrorKind::RecordNameTooBig, name: record.name },
        ) <==> vstd::utf8::encode_utf8(record.name).len() > 255,
{
    if has_name(state.toc, record.name) {
        let i = choose|i: int| 0 <= i < state.toc.len() && (#[trigger] state.toc[i]).name
            == record.name;
        assert(entry_fits(state.toc[i], width));
    }
}

/// A name that a session has written is refused when it comes again, whatever bytes the
/// record holds, as long as the width can measure them; the session is then as it was.
pub proof fn lemma_duplicate_refused(
    state: PackerState,
    first: Blob,
    second: Blob,
    width: nat,
)
    requires
        write_outcome(state, first, width) is Ok,
        second.name == first.name,
        second.data.len() < capacity(width),
    ensures
        write_outcome(write_outcome(state, first, width)->Ok_0, second, width) == Err::<
            PackerState,
            Refused,
        >(Refused { kind: ErrorKind::RecordSameName, name: second.name }),
{
    let next = with_record(state, first);
    assert(next.toc[state.toc.len() as int].name == second.name);
    assert(has_name(next.toc, second.name));
}

/// When an update succeeds: exactly where the new records have names that the table does
/// not hold, distinct from each other and of at most 255 bytes, and 64 bits can describe
/// the end of the last payload and the number of entries. This holds of every container
/// whose table can be read and whose length is that of a slice.
pub proof fn lemma_update_succeeds(container: Seq<u8>, records: Seq<Blob>)
    requires
        table_of(container) is Some,
        container.len() <= usize::MAX,
    ensures
        updated(container, table_of(container).unwrap(), records) is Ok <==> {
            &&& forall|i: int|
                0 <= i < records.len() ==> !has_name(
                    table_of(container).unwrap(),
                    (#[trigger] records[i]).name,
                )
            &&& distinct_record_names(records)
            &&& forall|i: int| 0 <= i < records.len() ==> name_fits((#[trigger] records[i]).name)
            &&& container.len() + total_len(records) < capacity(8)
            &&& table_of(container).unwrap().len() + records.len() < capacity(8)
        },
{
    let toc = table_of(container).unwrap();
    let state = resumed(container, toc, container.len());
    lemma_capacity_values();
    lemma_table_fits(container);
    if updated(container, toc, records) is Ok {
        lemma_write_all_needs(state, records, 8);
    }
    if (forall|i: int| 0 <= i < records.len() ==> !has_name(toc, (#[trigger] records[i]).name))
        && distinct_record_names(records) && (forall|i: int|
        0 <= i < records.len() ==> name_fits((#[trigger] records[i]).name)) && container.len()
        + total_len(records) < capacity(8) && toc.len() + records.len() < capacity(8) {
        lemma_write_all_succeeds(state, records, 8);
    }
}

/// What an updated container is made of: the container as it was, byte for byte; the
/// payloads of the new records in order; the old entries followed by an entry for each new
/// record, in order, the first of which lies where the old container ended; and a footer
/// that says where the new table starts and how many entries it has.
pub proof fn lemma_update_layout(container: Seq<u8>, toc: Seq<Entry>, records: Seq<Blob>)
    requires
        updated(container, toc, records) is Ok,
    ensures
        updated(container, toc, records)->Ok_0 == container + payloads(records) + toc_bytes(
            toc + entries_at(container.len(), records),
            8,
        ) + footer_bytes(
            container.len() + total_len(records),
            toc.len() + records.len(),
            8,
        ),
        container.is_prefix_of(updated(container, toc, records)->Ok_0),
{
    let state = resumed(container, toc, container.len());
    lemma_write_all_layout(state, records, 8);
    lemma_entries_at_len(container.len(), records);
    let grown = updated(container, toc, records)->Ok_0;
    assert(container =~= grown.subrange(0, container.len() as int));
}

/// The table of a container that could be read fits 64 bits: each entry, and their number.
proof fn lemma_table_fits(container: Seq<u8>)
    requires
        table_of(container) is Some,
    ensures
        toc_fits(table_of(container).unwrap(), 8),
        table_of(container).unwrap().len() < capacity(8),
{
    let width = width_of(parse_header(container).unwrap()).unwrap();
    let footer = parse_footer(container, width).unwrap();
    lemma_capacity_values();
    lemma_parse_toc_fits(container, footer.0, footer.1, width);
    lemma_toc_fits_wider(table_of(container).unwrap(), width, 8);
    lemma_le_value_bound(
        container.subrange(container.len() - width, container.len() as int),
    );
}

/// An update keeps what was there and adds what is new. Where a container of version 1.1
/// is updated with `records`: the footer of the result says that the table starts behind
/// the new payloads and has an entry more for each record; the table of the result is the
/// old table followed by the entries of the new records, in order; every name that was
/// found before is found again with the same bytes; and each new record is found under
/// its name.
pub proof fn lemma_update(container: Seq<u8>, records: Seq<Blob>)
    requires
        parse_header(container) == Some((1u8, 1u8)),
        table_of(container) is Some,
        container.len() <= usize::MAX,
        updated(container, table_of(container).unwrap(), records) is Ok,
    ensures
        ({
            let toc = table_of(container).unwrap();
            let grown = updated(container, toc, records)->Ok_0;
            let table = toc + entries_at(container.len(), records);
            &&& container.is_prefix_of(grown)
            &&& parse_footer(grown, 8) == Some(
                (container.len() + total_len(records), toc.len() + records.len()),
            )
            &&& table_of(grown) == Some(table)
            &&& forall|name: Seq<char>| #[trigger]
                lookup(container, toc, name) is Found ==> lookup(grown, table, name) == lookup(
                    container,
                    toc,
                    name,
                )
            &&& forall|i: int|
                0 <= i < records.len() ==> lookup(grown, table, (#[trigger] records[i]).name)
                    == Lookup::Found(records[i].data)
        }),
{
    let toc = table_of(container).unwrap();
    lemma_capacity_values();
    lemma_table_fits(container);
    let state = resumed(container, toc, container.len());
    assert(aligned(state, 8));
    lemma_write_all_effect(state, records, 8);
    lemma_write_all_layout(state, records, 8);
    lemma_entries_at_len(container.len(), records);
    let end = write_all(state, records, 8)->Ok_0;
    let grown = closed(end, 8);
    lemma_table_of_closed(end, 8);
    lemma_parse_footer_of_bytes(end.sink + toc_bytes(end.toc, 8), end.pos, end.toc.len(), 8);
    assert(end.sink =~= grown.subrange(0, end.sink.len() as int));
    assert(container =~= end.sink.subrange(0, container.len() as int));
    assert(container =~= grown.subrange(0, container.len() as int));
    assert(parse_header(grown) == Some((1u8, 1u8))) by {
        assert(grown.subrange(0, 4) =~= container.subrange(0, 4));
        assert(grown[4] == grown.subrange(0, container.len() as int)[4]);
        assert(grown[5] == grown.subrange(0, container.len() as int)[5]);
    }
    assert(table_of(grown) == Some(end.toc));
    lemma_lookups_of_session(grown, end, toc.len(), records);
    assert forall|name: Seq<char>| #[trigger]
        lookup(container, toc, name) is Found implies lookup(grown, end.toc, name) == lookup(
        container,
        toc,
        name,
    ) by {
        lemma_find_in_longer(toc, end.toc, name);
        let entry = find(toc, name).unwrap();
        if entry.length > 0 {
            let from = entry.offset as int;
            let to = (entry.offset + entry.length) as int;
            assert(grown.subrange(from, to) =~= container.subrange(from, to));
        }
    }
}

/// Looking names up sorts them, and loses none: the names not found are the names that no
/// entry has, in the order of the query; the records found have the names that some entry
/// has, in the order of the query, each with the bytes that its lookup gives.
pub proof fn lemma_unpacked_sorts_names(
    container: Seq<u8>,
    toc: Seq<Entry>,
    names: Seq<Seq<char>>,
)
    requires
        unpacked(container, toc, names) is Some,
    ensures
        ({
            let lists = unpacked(container, toc, names).unwrap();
            &&& lists.missing == names.filter(|name: Seq<char>| !has_name(toc, name))
            &&& names_of_records(lists.found) == names.filter(
                |name: Seq<char>| has_name(toc, name),
            )
            &&& lists.found.len() + lists.missing.len() == names.len()
            &&& forall|k: int|
                0 <= k < lists.found.len() ==> lookup(
                    container,
                    toc,
                    (#[trigger] lists.found[k]).name,
                ) == Lookup::Found(lists.found[k].data)
        }),
    decreases names.len(),
{
    let absent = |name: Seq<char>| !has_name(toc, name);
    let present = |name: Seq<char>| has_name(toc, name);
    let lists = unpacked(container, toc, names).unwrap();
    reveal(Seq::filter);
    if names.len() == 0 {
        assert(names_of_records(lists.found) =~= Seq::<Seq<char>>::empty());
    } else {
        let first = names[0];
        let rest = names.drop_first();
        lemma_unpacked_sorts_names(container, toc, rest);
        let tail = unpacked(container, toc, rest).unwrap();
        lemma_find_none(toc, first);
        assert(names =~= seq![first] + rest);
        Seq::filter_distributes_over_add(seq![first], rest, absent);
        Seq::filter_distributes_over_add(seq![first], rest, present);
        assert(seq![first].drop_last() =~= Seq::<Seq<char>>::empty());
        assert(seq![first].last() == first);
        assert(Seq::<Seq<char>>::empty().filter(absent) =~= Seq::<Seq<char>>::empty());
        assert(Seq::<Seq<char>>::empty().filter(present) =~= Seq::<Seq<char>>::empty());
        match lookup(container, toc, first) {
            Lookup::Missing => {
                assert(seq![first].filter(absent) =~= seq![first]);
                assert(seq![first].filter(present) =~= Seq::<Seq<char>>::empty());
                assert(Seq::<Blob>::empty() + tail.found =~= tail.found);
                assert(Seq::<Seq<char>>::empty() + names_of_records(tail.found)
                    =~= names_of_records(tail.found));
            },
            Lookup::Found(data) => {
                let blob = Blob { name: first, data };
                assert(seq![first].filter(absent) =~= Seq::<Seq<char>>::empty());
                assert(seq![first].filter(present) =~= seq![first]);
                assert(Seq::<Seq<char>>::empty() + tail.missing =~= tail.missing);
                assert(names_of_records(seq![blob] + tail.found) =~= seq![first]
                    + names_of_records(tail.found));
                assert forall|k: int| 0 <= k < lists.found.len() implies lookup(
                    container,
                    toc,
                    (#[trigger] lists.found[k]).name,
                ) == Lookup::Found(lists.found[k].data) by {
                    if k > 0 {
                        assert(lists.found[k] == tail.found[k - 1]);
                    }
                }
            },
            Lookup::Truncated => {},
        }
    }
}

/// A buffer shorter than a footer has no table of contents.
pub proof fn lemma_short_footer(bytes: Seq<u8>, width: nat)
    requires
        bytes.len() < 2 * width,
    ensures
        parse_footer(bytes, width) is None,
        parse_container(bytes, width) is None,
{
}

/// An entry whose name is said to be longer than what is left of the container cannot be
/// read, and neither can a table that holds it.
pub proof fn lemma_truncated_name(bytes: Seq<u8>, pos: nat, count: nat, width: nat)
    requires
        pos + 2 * width + 1 <= bytes.len(),
        pos + 2 * width + 1 + bytes[(pos + 2 * width) as int] > bytes.len(),
        count > 0,
    ensures
        parse_entry(bytes, pos, width) is None,
        parse_toc(bytes, pos, count, width) is None,
{
}

} // verus!
