//! What a writing session and a lookup do, step by step, as mathematical functions.
//!
//! A session writes a header, then records, then closes: the table of contents and the footer
//! are the last bytes written. [`PackerState`] is what a packer knows between two steps.

use crate::endian::capacity;
use crate::error::ErrorKind;
use crate::layout::{
    find, footer_bytes, has_name, header_bytes, name_fits, parse_container, parse_header,
    payload, toc_bytes, width_of, Entry,
};
use crate::utils::Blob;
use vstd::prelude::*;

verus! {

/// The state of a writing session.
pub struct PackerState {
    /// The position of the next byte in the container.
    pub pos: nat,
    /// The bytes in the sink.
    pub sink: Seq<u8>,
    /// The entries of the records written so far, in the order of writing.
    pub toc: Seq<Entry>,
}

/// A session that has written nothing to its sink yet.
pub open spec fn created(sink: Seq<u8>) -> PackerState {
    PackerState { pos: 0, sink, toc: Seq::empty() }
}

/// The session after its header.
pub open spec fn with_header(state: PackerState, major: u8, minor: u8) -> PackerState {
    PackerState {
        pos: state.pos + 6,
        sink: state.sink + header_bytes(major, minor),
        toc: state.toc,
    }
}

/// A session that goes on behind the records of an earlier one: the sink stands at `pos`,
/// and `toc` is the earlier table.
pub open spec fn resumed(sink: Seq<u8>, toc: Seq<Entry>, pos: nat) -> PackerState {
    PackerState { pos, sink, toc }
}

/// A record that a session did not take: why, and the name of the record.
pub struct Refused {
    pub kind: ErrorKind,
    pub name: Seq<char>,
}

/// Why a session refuses a record, if it does. The length of the data must fit the width;
/// then the name must be new; then it must fit the table; then the end of the payload and
/// the number of entries must fit the width.
pub open spec fn refusal(state: PackerState, record: Blob, width: nat) -> Option<ErrorKind> {
    if record.data.len() >= capacity(width) {
        Some(ErrorKind::RecordTooBig)
    } else if has_name(state.toc, record.name) {
        Some(ErrorKind::RecordSameName)
    } else if !name_fits(record.name) {
        Some(ErrorKind::RecordNameTooBig)
    } else if state.pos + record.data.len() >= capacity(width) || state.toc.len() + 1
        >= capacity(width) {
        Some(ErrorKind::RecordTooBig)
    } else {
        None
    }
}

/// What the error for a refused record says.
pub open spec fn refusal_text(refused: Refused) -> Seq<char> {
    match refused.kind {
        ErrorKind::RecordSameName => "Name "@ + refused.name + " has already been used."@,
        ErrorKind::RecordNameTooBig => "Unable to write a record with name len > u8::MAX bytes."@,
        _ => "Unable to write a record that the container cannot describe."@,
    }
}

/// The entry that a session makes for a record: it lies at the session's position.
pub open spec fn entry_for(state: PackerState, record: Blob) -> Entry {
    Entry { offset: state.pos, length: record.data.len(), name: record.name }
}

/// The session after a record: the payload is in the sink, its entry is the last of the
/// table, the position is behind the payload.
pub open spec fn with_record(state: PackerState, record: Blob) -> PackerState {
    PackerState {
        pos: state.pos + record.data.len(),
        sink: state.sink + record.data,
        toc: state.toc.push(entry_for(state, record)),
    }
}

/// What writing a record does: the next state, or the reason for refusing it.
pub open spec fn write_outcome(state: PackerState, record: Blob, width: nat) -> Result<
    PackerState,
    Refused,
> {
    match refusal(state, record, width) {
        Some(kind) => Err(Refused { kind, name: record.name }),
        None => Ok(with_record(state, record)),
    }
}

/// What writing records one after the other does: the state after the last one, or the
/// first record that was refused, with the reason.
pub open spec fn write_all(state: PackerState, records: Seq<Blob>, width: nat) -> Result<
    PackerState,
    Refused,
>
    decreases records.len(),
{
    if records.len() == 0 {
        Ok(state)
    } else {
        match write_outcome(state, records[0], width) {
            Err(refused) => Err(refused),
            Ok(next) => write_all(next, records.drop_first(), width),
        }
    }
}

/// The payloads of `records`, one after the other.
pub open spec fn payloads(records: Seq<Blob>) -> Seq<u8>
    decreases records.len(),
{
    if records.len() == 0 {
        Seq::empty()
    } else {
        records[0].data + payloads(records.drop_first())
    }
}

/// The entries of `records` where their payloads lie one after the other from `pos` on.
pub open spec fn entries_at(pos: nat, records: Seq<Blob>) -> Seq<Entry>
    decreases records.len(),
{
    if records.len() == 0 {
        Seq::empty()
    } else {
        seq![Entry { offset: pos, length: records[0].data.len(), name: records[0].name }]
            + entries_at(pos + records[0].data.len(), records.drop_first())
    }
}

/// The sink after closing: the table of contents, then the footer, which says where the
/// table starts and how many entries it has.
pub open spec fn closed(state: PackerState, width: nat) -> Seq<u8> {
    state.sink + toc_bytes(state.toc, width) + footer_bytes(state.pos, state.toc.len(), width)
}

/// The container that a whole session makes of `records`, in an empty sink.
pub open spec fn packed(records: Seq<Blob>, major: u8, minor: u8, width: nat) -> Result<
    Seq<u8>,
    Refused,
> {
    match write_all(with_header(created(Seq::empty()), major, minor), records, width) {
        Err(refused) => Err(refused),
        Ok(state) => Ok(closed(state, width)),
    }
}

/// The container that a further session makes of one that has `toc` as its table: the new
/// records lie behind all that was there, and a new table and footer behind them.
pub open spec fn updated(container: Seq<u8>, toc: Seq<Entry>, records: Seq<Blob>) -> Result<
    Seq<u8>,
    Refused,
> {
    match write_all(resumed(container, toc, container.len()), records, 8) {
        Err(refused) => Err(refused),
        Ok(state) => Ok(closed(state, 8)),
    }
}

/// The table of contents of a container, read as its header says. `None` where the header
/// cannot be read, the version is not supported, or the table cannot be read.
pub open spec fn table_of(container: Seq<u8>) -> Option<Seq<Entry>> {
    match parse_header(container) {
        None => None,
        Some(version) => match width_of(version) {
            None => None,
            Some(width) => parse_container(container, width),
        },
    }
}

/// What looking a name up gives.
pub enum Lookup {
    /// The first entry with the name, and the payload that it points to.
    Found(Seq<u8>),
    /// No entry has the name.
    Missing,
    /// The first entry with the name points behind the end of the container.
    Truncated,
}

/// Looks `name` up in `toc` and reads the payload from `container`.
pub open spec fn lookup(container: Seq<u8>, toc: Seq<Entry>, name: Seq<char>) -> Lookup {
    match find(toc, name) {
        None => Lookup::Missing,
        Some(entry) => match payload(container, entry) {
            Some(data) => Lookup::Found(data),
            None => Lookup::Truncated,
        },
    }
}

/// The two lists that looking names up gives: the records found and the names not found.
pub struct Unpacked {
    pub found: Seq<Blob>,
    pub missing: Seq<Seq<char>>,
}

/// `first` followed by `rest`, list by list.
pub open spec fn joined(first: Unpacked, rest: Option<Unpacked>) -> Option<Unpacked> {
    match rest {
        None => None,
        Some(rest) => Some(
            Unpacked { found: first.found + rest.found, missing: first.missing + rest.missing },
        ),
    }
}

/// Looks each of `names` up, in order: a name is either found, and then its record is in the
/// first list, or not found, and then it is in the second. `None` where an entry points
/// behind the end of the container.
pub open spec fn unpacked(container: Seq<u8>, toc: Seq<Entry>, names: Seq<Seq<char>>) -> Option<
    Unpacked,
>
    decreases names.len(),
{
    if names.len() == 0 {
        Some(Unpacked { found: Seq::empty(), missing: Seq::empty() })
    } else {
        let rest = unpacked(container, toc, names.drop_first());
        match lookup(container, toc, names[0]) {
            Lookup::Truncated => None,
            Lookup::Missing => joined(
                Unpacked { found: Seq::empty(), missing: seq![names[0]] },
                rest,
            ),
            Lookup::Found(data) => joined(
                Unpacked { found: seq![Blob { name: names[0], data }], missing: Seq::empty() },
                rest,
            ),
        }
    }
}

} // verus!
