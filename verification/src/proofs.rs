//! Lemmas on sessions and lookups that the laws of [`crate::laws`] rest on.

use crate::endian::capacity;
use crate::laws::{distinct_record_names, names_of_records, total_len};
use crate::layout::{
    entry_fits, find, footer_bytes, has_name, lemma_find_first, lemma_parse_footer_of_bytes,
    lemma_parse_toc_of_bytes, name_fits, parse_container, payload, toc_bytes, toc_fits, Entry,
};
use crate::protocol::{
    closed, entries_at, entry_for, lookup, payloads, refusal, unpacked, with_record, write_all,
    write_outcome, Lookup, PackerState, Refused, Unpacked,
};
use crate::utils::Blob;
use vstd::prelude::*;

verus! {

/// Whether `entry` says where the payload of `record` lies in `sink`, under the record's
/// name.
pub open spec fn describes(sink: Seq<u8>, entry: Entry, record: Blob) -> bool {
    &&& entry.name == record.name
    &&& entry.length == record.data.len()
    &&& entry.offset + entry.length <= sink.len()
    &&& sink.subrange(entry.offset as int, (entry.offset + entry.length) as int) == record.data
}

/// Whether a session stands where its sink ends, with a table that a footer of the width
/// can describe.
pub open spec fn aligned(state: PackerState, width: nat) -> bool {
    &&& state.pos == state.sink.len()
    &&& state.pos < capacity(width)
    &&& state.toc.len() < capacity(width)
    &&& toc_fits(state.toc, width)
}

/// What a session that wrote all of `records` has done: the sink and the table have grown
/// at their ends only; the new entries describe the records, in order; and no entry before
/// the entry of a record has that record's name.
pub proof fn lemma_write_all_effect(state: PackerState, records: Seq<Blob>, width: nat)
    requires
        aligned(state, width),
        write_all(state, records, width) is Ok,
    ensures
        ({
            let end = write_all(state, records, width)->Ok_0;
            &&& aligned(end, width)
            &&& state.sink.is_prefix_of(end.sink)
            &&& state.toc.is_prefix_of(end.toc)
            &&& end.toc.len() == state.toc.len() + records.len()
            &&& end.pos == state.pos + total_len(records)
            &&& forall|i: int|
                0 <= i < records.len() ==> describes(
                    end.sink,
                    #[trigger] end.toc[state.toc.len() + i],
                    records[i],
                )
            &&& forall|i: int, j: int|
                0 <= i < records.len() && 0 <= j < state.toc.len() + i ==> (
                #[trigger] end.toc[j]).name != (#[trigger] records[i]).name
        }),
    decreases records.len(),
{
    let end = write_all(state, records, width)->Ok_0;
    if records.len() == 0 {
        assert(state.sink =~= end.sink.subrange(0, state.sink.len() as int));
        assert(state.toc =~= end.toc.subrange(0, state.toc.len() as int));
    } else {
        let first = records[0];
        let rest = records.drop_first();
        let next = with_record(state, first);
        let entry = entry_for(state, first);
        assert(write_outcome(state, first, width) == Ok::<PackerState, Refused>(next));
        assert(!has_name(state.toc, first.name));
        assert forall|i: int| 0 <= i < next.toc.len() implies entry_fits(
            #[trigger] next.toc[i],
            width,
        ) by {
            if i < state.toc.len() {
                assert(next.toc[i] == state.toc[i]);
            }
        }
        lemma_write_all_effect(next, rest, width);
        let n = state.toc.len() as int;
        assert(state.sink =~= end.sink.subrange(0, state.sink.len() as int)) by {
            assert(next.sink =~= end.sink.subrange(0, next.sink.len() as int));
            assert forall|k: int| 0 <= k < state.sink.len() implies state.sink[k]
                == end.sink.subrange(0, state.sink.len() as int)[k] by {
                assert(next.sink[k] == end.sink.subrange(0, next.sink.len() as int)[k]);
            }
        }
        assert forall|j: int| 0 <= j <= n implies end.toc[j] == next.toc[j] by {
            assert(next.toc =~= end.toc.subrange(0, next.toc.len() as int));
            assert(next.toc[j] == end.toc.subrange(0, next.toc.len() as int)[j]);
        }
        assert(state.toc =~= end.toc.subrange(0, n));
        assert forall|i: int| 0 <= i < records.len() implies describes(
            end.sink,
            #[trigger] end.toc[n + i],
            records[i],
        ) by {
            if i == 0 {
                assert(end.toc[n] == entry);
                assert(end.sink.subrange(entry.offset as int, (entry.offset + entry.length) as int)
                    =~= first.data) by {
                    assert(next.sink =~= end.sink.subrange(0, next.sink.len() as int));
                    assert forall|k: int| 0 <= k < first.data.len() implies end.sink[state.pos + k]
                        == first.data[k] by {
                        assert(next.sink[state.pos + k] == end.sink.subrange(
                            0,
                            next.sink.len() as int,
                        )[state.pos + k]);
                    }
                }
            } else {
                assert(describes(end.sink, end.toc[next.toc.len() + (i - 1)], rest[i - 1]));
                assert(rest[i - 1] == records[i]);
            }
        }
        assert forall|i: int, j: int|
            0 <= i < records.len() && 0 <= j < n + i implies (#[trigger] end.toc[j]).name != (
        #[trigger] records[i]).name by {
            if i == 0 {
                assert(end.toc[j] == state.toc[j]);
            } else {
                assert(rest[i - 1] == records[i]);
                assert(end.toc[j].name != rest[i - 1].name);
            }
        }
    }
}

/// Reading the table of a closed session gives the session's table.
pub proof fn lemma_table_of_closed(state: PackerState, width: nat)
    requires
        aligned(state, width),
    ensures
        parse_container(closed(state, width), width) == Some(state.toc),
{
    let body = state.sink + toc_bytes(state.toc, width);
    lemma_parse_footer_of_bytes(body, state.pos, state.toc.len(), width);
    lemma_parse_toc_of_bytes(
        state.sink,
        state.toc,
        footer_bytes(state.pos, state.toc.len(), width),
        width,
    );
}

/// A payload that an entry describes in a sink is what the entry points to in every
/// container that starts with the sink.
pub proof fn lemma_payload_of_described(
    sink: Seq<u8>,
    container: Seq<u8>,
    entry: Entry,
    record: Blob,
)
    requires
        describes(sink, entry, record),
        sink.is_prefix_of(container),
    ensures
        payload(container, entry) == Some(record.data),
{
    if entry.length == 0 {
        assert(record.data =~= Seq::<u8>::empty());
    } else {
        let from = entry.offset as int;
        let to = (entry.offset + entry.length) as int;
        assert(sink =~= container.subrange(0, sink.len() as int));
        assert(container.subrange(from, to) =~= sink.subrange(from, to));
    }
}

/// In a container that starts with the sink of a session, each record that the session has
/// written behind the first `old` entries of its table is found under its name.
pub proof fn lemma_lookups_of_session(
    container: Seq<u8>,
    end: PackerState,
    old: nat,
    records: Seq<Blob>,
)
    requires
        end.sink.is_prefix_of(container),
        end.toc.len() == old + records.len(),
        forall|i: int|
            0 <= i < records.len() ==> describes(end.sink, #[trigger] end.toc[old + i], records[i]),
        forall|i: int, j: int|
            0 <= i < records.len() && 0 <= j < old + i ==> (#[trigger] end.toc[j]).name != (
            #[trigger] records[i]).name,
    ensures
        forall|i: int|
            0 <= i < records.len() ==> lookup(container, end.toc, (#[trigger] records[i]).name)
                == Lookup::Found(records[i].data),
{
    assert forall|i: int| 0 <= i < records.len() implies lookup(
        container,
        end.toc,
        (#[trigger] records[i]).name,
    ) == Lookup::Found(records[i].data) by {
        let entry = end.toc[old + i];
        assert(describes(end.sink, entry, records[i]));
        assert forall|j: int| 0 <= j < old + i implies (#[trigger] end.toc[j]).name
            != records[i].name by {
            assert(end.toc[j].name != records[i].name);
        }
        lemma_find_first(end.toc, records[i].name, old + i);
        lemma_payload_of_described(end.sink, container, entry, records[i]);
    }
}

/// Where each of `records` is found under its name, looking up the names of all of them
/// from the `from`th on gives those records, in order, and no name is left over.
pub proof fn lemma_unpacked_all_found(
    container: Seq<u8>,
    toc: Seq<Entry>,
    records: Seq<Blob>,
    from: nat,
)
    requires
        from <= records.len(),
        forall|i: int|
            0 <= i < records.len() ==> lookup(container, toc, (#[trigger] records[i]).name)
                == Lookup::Found(records[i].data),
    ensures
        unpacked(container, toc, names_of_records(records).skip(from as int)) == Some(
            Unpacked { found: records.skip(from as int), missing: Seq::empty() },
        ),
    decreases records.len() - from,
{
    let names = names_of_records(records).skip(from as int);
    if from == records.len() {
        assert(names =~= Seq::<Seq<char>>::empty());
        assert(records.skip(from as int) =~= Seq::<Blob>::empty());
    } else {
        lemma_unpacked_all_found(container, toc, records, from + 1);
        assert(names.drop_first() =~= names_of_records(records).skip(from as int + 1));
        assert(names[0] == records[from as int].name);
        let first = records[from as int];
        assert(lookup(container, toc, first.name) == Lookup::Found(first.data));
        assert(seq![Blob { name: first.name, data: first.data }] + records.skip(from as int + 1)
            =~= records.skip(from as int));
        assert(Seq::<Seq<char>>::empty() + Seq::<Seq<char>>::empty() =~= Seq::<
            Seq<char>,
        >::empty());
    }
}

/// A session takes every record of a list where the names are new and distinct and fit an
/// entry, and where the width can describe the end of the last payload and the number of
/// entries.
pub proof fn lemma_write_all_succeeds(state: PackerState, records: Seq<Blob>, width: nat)
    requires
        forall|i: int| 0 <= i < records.len() ==> !has_name(state.toc, (#[trigger] records[i]).name),
        distinct_record_names(records),
        forall|i: int| 0 <= i < records.len() ==> name_fits((#[trigger] records[i]).name),
        state.pos + total_len(records) < capacity(width),
        state.toc.len() + records.len() < capacity(width),
    ensures
        write_all(state, records, width) is Ok,
    decreases records.len(),
{
    if records.len() > 0 {
        let first = records[0];
        let rest = records.drop_first();
        let next = with_record(state, first);
        assert(!has_name(state.toc, first.name));
        assert(name_fits(first.name));
        assert(refusal(state, first, width) is None);
        assert forall|i: int| 0 <= i < rest.len() implies !has_name(
            next.toc,
            (#[trigger] rest[i]).name,
        ) by {
            assert(rest[i] == records[i + 1]);
            assert(!has_name(state.toc, records[i + 1].name));
            if has_name(next.toc, rest[i].name) {
                let j = choose|j: int|
                    0 <= j < next.toc.len() && (#[trigger] next.toc[j]).name == rest[i].name;
                if j < state.toc.len() {
                    assert(state.toc[j] == next.toc[j]);
                    assert(has_name(state.toc, rest[i].name));
                } else {
                    assert(records[0].name != records[i + 1].name);
                }
            }
        }
        assert forall|i: int, j: int| 0 <= i < j < rest.len() implies (#[trigger] rest[i]).name != (
        #[trigger] rest[j]).name by {
            assert(rest[i] == records[i + 1]);
            assert(rest[j] == records[j + 1]);
        }
        assert forall|i: int| 0 <= i < rest.len() implies name_fits((#[trigger] rest[i]).name) by {
            assert(rest[i] == records[i + 1]);
        }
        lemma_write_all_succeeds(next, rest, width);
    }
}

/// What `find` gives in a table it gives in every table that starts with that one.
pub proof fn lemma_find_in_longer(toc: Seq<Entry>, longer: Seq<Entry>, name: Seq<char>)
    requires
        toc.is_prefix_of(longer),
        find(toc, name) is Some,
    ensures
        find(longer, name) == find(toc, name),
    decreases toc.len(),
{
    assert(toc =~= longer.subrange(0, toc.len() as int));
    assert(toc.len() > 0);
    assert(longer[0] == toc[0]) by {
        assert(longer.subrange(0, toc.len() as int)[0] == longer[0]);
    }
    if toc[0].name != name {
        assert(toc.drop_first() =~= longer.drop_first().subrange(0, toc.len() - 1));
        lemma_find_in_longer(toc.drop_first(), longer.drop_first(), name);
    }
}

/// As many entries as records.
pub proof fn lemma_entries_at_len(pos: nat, records: Seq<Blob>)
    ensures
        entries_at(pos, records).len() == records.len(),
    decreases records.len(),
{
    if records.len() > 0 {
        lemma_entries_at_len(pos + records[0].data.len(), records.drop_first());
    }
}

/// Where a session has taken all of `records`, it has put their payloads behind the sink,
/// one after the other, and their entries behind the table, in the same order; the first
/// payload lies at the position that the session had, each next one behind the one before.
pub proof fn lemma_write_all_layout(state: PackerState, records: Seq<Blob>, width: nat)
    requires
        write_all(state, records, width) is Ok,
    ensures
        write_all(state, records, width)->Ok_0 == (PackerState {
            pos: state.pos + total_len(records),
            sink: state.sink + payloads(records),
            toc: state.toc + entries_at(state.pos, records),
        }),
    decreases records.len(),
{
    let end = write_all(state, records, width)->Ok_0;
    if records.len() == 0 {
        assert(state.sink + payloads(records) =~= state.sink);
        assert(state.toc + entries_at(state.pos, records) =~= state.toc);
    } else {
        let first = records[0];
        let rest = records.drop_first();
        let next = with_record(state, first);
        lemma_write_all_layout(next, rest, width);
        assert(end.sink =~= state.sink + payloads(records));
        assert(end.toc =~= state.toc + entries_at(state.pos, records));
    }
}

/// A session takes all of `records` only where their names are new and distinct and fit an
/// entry, and the width can describe the end of the last payload and the number of entries.
pub proof fn lemma_write_all_needs(state: PackerState, records: Seq<Blob>, width: nat)
    requires
        write_all(state, records, width) is Ok,
        state.pos < capacity(width),
        state.toc.len() < capacity(width),
    ensures
        forall|i: int| 0 <= i < records.len() ==> !has_name(state.toc, (#[trigger] records[i]).name),
        distinct_record_names(records),
        forall|i: int| 0 <= i < records.len() ==> name_fits((#[trigger] records[i]).name),
        state.pos + total_len(records) < capacity(width),
        state.toc.len() + records.len() < capacity(width),
    decreases records.len(),
{
    if records.len() > 0 {
        let first = records[0];
        let rest = records.drop_first();
        let next = with_record(state, first);
        lemma_write_all_needs(next, rest, width);
        assert forall|i: int| 0 <= i < records.len() implies !has_name(
            state.toc,
            (#[trigger] records[i]).name,
        ) by {
            if i > 0 {
                assert(rest[i - 1] == records[i]);
                if has_name(state.toc, records[i].name) {
                    let j = choose|j: int|
                        0 <= j < state.toc.len() && (#[trigger] state.toc[j]).name
                            == records[i].name;
                    assert(next.toc[j] == state.toc[j]);
                    assert(has_name(next.toc, rest[i - 1].name));
                }
            }
        }
        assert forall|i: int, j: int| 0 <= i < j < records.len() implies (#[trigger] records[i]).name
            != (#[trigger] records[j]).name by {
            assert(rest[j - 1] == records[j]);
            if i == 0 {
                assert(next.toc[state.toc.len() as int].name == first.name);
                if first.name == records[j].name {
                    assert(has_name(next.toc, rest[j - 1].name));
                }
            } else {
                assert(rest[i - 1] == records[i]);
            }
        }
        assert forall|i: int| 0 <= i < records.len() implies name_fits(
            (#[trigger] records[i]).name,
        ) by {
            if i > 0 {
                assert(rest[i - 1] == records[i]);
            }
        }
    }
}

} // verus!
