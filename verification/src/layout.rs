//! The byte layout of a container, as mathematical functions on sequences of bytes.
//!
//! A container is a header, the payloads of its records, a table of contents and a footer:
//!
//! | section | bytes | content |
//! |---|---|---|
//! | header | 6 | the magic number, the major and the minor version |
//! | records | any | the payloads, one after the other |
//! | table entry | 2 × width + 1 + name | offset, length, length of the name, name |
//! | footer | 2 × width | offset of the table, number of its entries |
//!
//! Every integer is little-endian. The width of offsets, lengths and counts is 4 bytes in
//! version 1.0 and 8 bytes in version 1.1; everything here takes the width as a parameter.

use crate::endian::{
    capacity, le_bytes, le_value, lemma_capacity_monotonic, lemma_le_bytes_len,
    lemma_le_value_bound, lemma_le_value_of_bytes,
};
use vstd::prelude::*;
use vstd::utf8::{
    decode_utf8, decode_utf8_encode_utf8, encode_utf8, encode_utf8_decode_utf8,
    encode_utf8_valid_utf8, valid_utf8,
};

verus! {

/// The longest name, in bytes, that an entry of the table can hold.
pub const MAX_NAME_LEN: usize = 255;

/// The magic number that every container starts with: the ASCII letters `SMPL`.
pub open spec fn magic() -> Seq<u8> {
    seq![0x53u8, 0x4du8, 0x50u8, 0x4cu8]
}

/// The header of a container of the given version.
pub open spec fn header_bytes(major: u8, minor: u8) -> Seq<u8> {
    magic() + seq![major, minor]
}

/// An entry of the table of contents: where a record's payload lies, and the record's name.
pub struct Entry {
    pub offset: nat,
    pub length: nat,
    pub name: Seq<char>,
}

/// The entry that a triple (offset, length, name) of version 1.0 stands for.
pub open spec fn narrow_entry(triple: (u32, u32, String)) -> Entry {
    Entry { offset: triple.0 as nat, length: triple.1 as nat, name: triple.2@ }
}

/// The table that a list of triples of version 1.0 stands for.
pub open spec fn narrow_table(triples: Seq<(u32, u32, String)>) -> Seq<Entry> {
    Seq::new(triples.len(), |i: int| narrow_entry(triples[i]))
}

/// The entry that a triple (offset, length, name) of version 1.1 stands for.
pub open spec fn wide_entry(triple: (u64, u64, String)) -> Entry {
    Entry { offset: triple.0 as nat, length: triple.1 as nat, name: triple.2@ }
}

/// The table that a list of triples of version 1.1 stands for.
pub open spec fn wide_table(triples: Seq<(u64, u64, String)>) -> Seq<Entry> {
    Seq::new(triples.len(), |i: int| wide_entry(triples[i]))
}

/// Whether a name is short enough for the table: at most 255 bytes of UTF-8.
pub open spec fn name_fits(name: Seq<char>) -> bool {
    encode_utf8(name).len() <= MAX_NAME_LEN
}

/// Whether the table can hold the entry as it is: its numbers fit the width, its name fits.
pub open spec fn entry_fits(entry: Entry, width: nat) -> bool {
    &&& entry.offset < capacity(width)
    &&& entry.length < capacity(width)
    &&& name_fits(entry.name)
}

/// Whether the table can hold every entry of `toc`.
pub open spec fn toc_fits(toc: Seq<Entry>, width: nat) -> bool {
    forall|i: int| 0 <= i < toc.len() ==> entry_fits(#[trigger] toc[i], width)
}

/// The bytes of one entry: offset, length, the length of the name in one byte, the name.
pub open spec fn entry_bytes(entry: Entry, width: nat) -> Seq<u8> {
    le_bytes(entry.offset, width) + le_bytes(entry.length, width) + seq![
        encode_utf8(entry.name).len() as u8,
    ] + encode_utf8(entry.name)
}

/// The bytes of a table: its entries in order.
pub open spec fn toc_bytes(toc: Seq<Entry>, width: nat) -> Seq<u8>
    decreases toc.len(),
{
    if toc.len() == 0 {
        Seq::empty()
    } else {
        entry_bytes(toc[0], width) + toc_bytes(toc.drop_first(), width)
    }
}

/// The bytes of a footer: where the table starts and how many entries it has.
pub open spec fn footer_bytes(toc_offset: nat, count: nat, width: nat) -> Seq<u8> {
    le_bytes(toc_offset, width) + le_bytes(count, width)
}

/// What reading `n` bytes at `pos` gives: the bytes if all of them are there, else nothing.
/// Reading no bytes succeeds at any position.
pub open spec fn read_at(bytes: Seq<u8>, pos: nat, n: nat) -> Option<Seq<u8>> {
    if n == 0 {
        Some(Seq::empty())
    } else if pos + n <= bytes.len() {
        Some(bytes.subrange(pos as int, (pos + n) as int))
    } else {
        None
    }
}

/// The version that a container's header declares; `None` where the bytes do not start with
/// the magic number and two more bytes.
pub open spec fn parse_header(bytes: Seq<u8>) -> Option<(u8, u8)> {
    if bytes.len() >= 6 && bytes.subrange(0, 4) == magic() {
        Some((bytes[4], bytes[5]))
    } else {
        None
    }
}

/// The footer of a container, as (offset of the table, number of entries): the last
/// `2 * width` bytes. `None` where the container is shorter than a footer.
pub open spec fn parse_footer(bytes: Seq<u8>, width: nat) -> Option<(nat, nat)> {
    if bytes.len() >= 2 * width {
        let start = bytes.len() - 2 * width;
        Some(
            (
                le_value(bytes.subrange(start, start + width)),
                le_value(bytes.subrange(start + width, bytes.len() as int)),
            ),
        )
    } else {
        None
    }
}

/// The entry that starts at `pos`, and the position behind it. `None` where the container
/// ends before the entry does, or where the name is no UTF-8.
pub open spec fn parse_entry(bytes: Seq<u8>, pos: nat, width: nat) -> Option<(Entry, nat)> {
    let name_at = pos + 2 * width + 1;
    if name_at <= bytes.len() {
        let name_len = bytes[name_at - 1] as nat;
        let name = bytes.subrange(name_at as int, (name_at + name_len) as int);
        if name_at + name_len <= bytes.len() && valid_utf8(name) {
            Some(
                (
                    Entry {
                        offset: le_value(bytes.subrange(pos as int, (pos + width) as int)),
                        length: le_value(
                            bytes.subrange((pos + width) as int, (pos + 2 * width) as int),
                        ),
                        name: decode_utf8(name),
                    },
                    (name_at + name_len) as nat,
                ),
            )
        } else {
            None
        }
    } else {
        None
    }
}

/// The `count` entries that start at `pos`, one behind the other; `None` where one of them
/// cannot be read.
pub open spec fn parse_toc(bytes: Seq<u8>, pos: nat, count: nat, width: nat) -> Option<
    Seq<Entry>,
>
    decreases count,
{
    if count == 0 {
        Some(Seq::empty())
    } else {
        match parse_entry(bytes, pos, width) {
            None => None,
            Some((entry, next)) => match parse_toc(bytes, next, (count - 1) as nat, width) {
                None => None,
                Some(rest) => Some(seq![entry] + rest),
            },
        }
    }
}

/// The entries `done`, followed by what reading the rest of a table has given.
pub open spec fn after(done: Seq<Entry>, rest: Option<Seq<Entry>>) -> Option<Seq<Entry>> {
    match rest {
        None => None,
        Some(rest) => Some(done + rest),
    }
}

/// The table of contents of a container: the footer says where it starts and how many
/// entries it has. `None` where the footer or an entry cannot be read.
pub open spec fn parse_container(bytes: Seq<u8>, width: nat) -> Option<Seq<Entry>> {
    match parse_footer(bytes, width) {
        None => None,
        Some((toc_offset, count)) => parse_toc(bytes, toc_offset, count, width),
    }
}

/// The first entry of `toc` with the given name.
pub open spec fn find(toc: Seq<Entry>, name: Seq<char>) -> Option<Entry>
    decreases toc.len(),
{
    if toc.len() == 0 {
        None
    } else if toc[0].name == name {
        Some(toc[0])
    } else {
        find(toc.drop_first(), name)
    }
}

/// Whether an entry of `toc` has the given name.
pub open spec fn has_name(toc: Seq<Entry>, name: Seq<char>) -> bool {
    exists|i: int| 0 <= i < toc.len() && (#[trigger] toc[i]).name == name
}

/// The payload that an entry points to; `None` where the container ends before it does.
pub open spec fn payload(bytes: Seq<u8>, entry: Entry) -> Option<Seq<u8>> {
    read_at(bytes, entry.offset, entry.length)
}

/// The width of the integers of a version; `None` for a version that is not supported.
pub open spec fn width_of(version: (u8, u8)) -> Option<nat> {
    if version == (1u8, 0u8) {
        Some(4)
    } else if version == (1u8, 1u8) {
        Some(8)
    } else {
        None
    }
}

/// `find` gives the entry at `index` where no entry before it has the name.
pub proof fn lemma_find_first(toc: Seq<Entry>, name: Seq<char>, index: int)
    requires
        0 <= index < toc.len(),
        toc[index].name == name,
        forall|j: int| 0 <= j < index ==> (#[trigger] toc[j]).name != name,
    ensures
        find(toc, name) == Some(toc[index]),
    decreases toc.len(),
{
    if index > 0 {
        let rest = toc.drop_first();
        assert(toc[0].name != name);
        assert forall|j: int| 0 <= j < index - 1 implies (#[trigger] rest[j]).name != name by {
            assert(rest[j] == toc[j + 1]);
        }
        lemma_find_first(rest, name, index - 1);
    }
}

/// `find` gives nothing exactly where no entry has the name.
pub proof fn lemma_find_none(toc: Seq<Entry>, name: Seq<char>)
    ensures
        find(toc, name) is None <==> !has_name(toc, name),
        find(toc, name) matches Some(entry) ==> entry.name == name && toc.contains(entry),
    decreases toc.len(),
{
    if toc.len() > 0 {
        let rest = toc.drop_first();
        lemma_find_none(rest, name);
        if toc[0].name == name {
            assert(has_name(toc, name));
        } else {
            if has_name(rest, name) {
                let i = choose|i: int| 0 <= i < rest.len() && (#[trigger] rest[i]).name == name;
                assert(toc[i + 1] == rest[i]);
                assert(has_name(toc, name));
            }
            if has_name(toc, name) {
                let i = choose|i: int| 0 <= i < toc.len() && (#[trigger] toc[i]).name == name;
                assert(rest[i - 1] == toc[i]);
                assert(has_name(rest, name));
            }
            if find(rest, name) is Some {
                let entry = find(rest, name)->0;
                let i = choose|i: int| 0 <= i < rest.len() && rest[i] == entry;
                assert(toc[i + 1] == entry);
            }
        }
    }
}

/// A table with one more entry at its end has that entry's bytes at its end.
pub proof fn lemma_toc_bytes_push(toc: Seq<Entry>, entry: Entry, width: nat)
    ensures
        toc_bytes(toc.push(entry), width) == toc_bytes(toc, width) + entry_bytes(entry, width),
    decreases toc.len(),
{
    let longer = toc.push(entry);
    if toc.len() == 0 {
        assert(longer.drop_first() =~= Seq::<Entry>::empty());
        assert(toc_bytes(longer.drop_first(), width) =~= Seq::<u8>::empty());
        assert(longer[0] == entry);
        assert(toc_bytes(longer, width) =~= entry_bytes(entry, width));
        assert(toc_bytes(toc, width) + entry_bytes(entry, width) =~= entry_bytes(entry, width));
    } else {
        assert(longer.drop_first() =~= toc.drop_first().push(entry));
        lemma_toc_bytes_push(toc.drop_first(), entry, width);
        assert(toc_bytes(longer, width) =~= toc_bytes(toc, width) + entry_bytes(entry, width));
    }
}

/// An entry that was read fits the table it was read from, and ends within the container.
pub proof fn lemma_parse_entry_fits(bytes: Seq<u8>, pos: nat, width: nat)
    requires
        parse_entry(bytes, pos, width) is Some,
    ensures
        entry_fits(parse_entry(bytes, pos, width).unwrap().0, width),
        pos + 2 * width + 1 <= parse_entry(bytes, pos, width).unwrap().1 <= bytes.len(),
{
    let name_at = pos + 2 * width + 1;
    let name_len = bytes[name_at - 1] as nat;
    let name = bytes.subrange(name_at as int, (name_at + name_len) as int);
    decode_utf8_encode_utf8(name);
    lemma_le_value_bound(bytes.subrange(pos as int, (pos + width) as int));
    lemma_le_value_bound(bytes.subrange((pos + width) as int, (pos + 2 * width) as int));
}

/// A table that was read has as many entries as were asked for, and each of them fits.
pub proof fn lemma_parse_toc_fits(bytes: Seq<u8>, pos: nat, count: nat, width: nat)
    requires
        parse_toc(bytes, pos, count, width) is Some,
    ensures
        parse_toc(bytes, pos, count, width).unwrap().len() == count,
        toc_fits(parse_toc(bytes, pos, count, width).unwrap(), width),
    decreases count,
{
    if count > 0 {
        let (entry, next) = parse_entry(bytes, pos, width).unwrap();
        lemma_parse_entry_fits(bytes, pos, width);
        lemma_parse_toc_fits(bytes, next, (count - 1) as nat, width);
    }
}

/// A table that fits a width fits every greater width.
pub proof fn lemma_toc_fits_wider(toc: Seq<Entry>, narrow: nat, wide: nat)
    requires
        toc_fits(toc, narrow),
        narrow <= wide,
    ensures
        toc_fits(toc, wide),
{
    lemma_capacity_monotonic(narrow, wide);
    assert forall|i: int| 0 <= i < toc.len() implies entry_fits(#[trigger] toc[i], wide) by {
        assert(entry_fits(toc[i], narrow));
    }
}

/// The length of an entry's bytes: two integers, one byte, and the name.
pub proof fn lemma_entry_bytes_len(entry: Entry, width: nat)
    ensures
        entry_bytes(entry, width).len() == 2 * width + 1 + encode_utf8(entry.name).len(),
{
    lemma_le_bytes_len(entry.offset, width);
    lemma_le_bytes_len(entry.length, width);
}

/// A table of entries that fit has at least `2 * width + 1` and at most `2 * width + 256`
/// bytes for each entry.
pub proof fn lemma_toc_bytes_len(toc: Seq<Entry>, width: nat)
    requires
        toc_fits(toc, width),
    ensures
        (2 * width + 1) * toc.len() <= toc_bytes(toc, width).len() <= (2 * width + 256)
            * toc.len(),
    decreases toc.len(),
{
    if toc.len() > 0 {
        let rest = toc.drop_first();
        assert(entry_fits(toc[0], width));
        assert forall|i: int| 0 <= i < rest.len() implies entry_fits(#[trigger] rest[i], width) by {
            assert(rest[i] == toc[i + 1]);
        }
        lemma_entry_bytes_len(toc[0], width);
        lemma_toc_bytes_len(rest, width);
        assert((2 * width + 1) * toc.len() == (2 * width + 1) * rest.len() + (2 * width + 1))
            by (nonlinear_arith)
            requires
                toc.len() == rest.len() + 1,
        ;
        assert((2 * width + 256) * toc.len() == (2 * width + 256) * rest.len() + (2 * width
            + 256)) by (nonlinear_arith)
            requires
                toc.len() == rest.len() + 1,
        ;
    }
}

/// Reading finds an entry where its bytes were written, whatever stands around them.
pub proof fn lemma_parse_entry_of_bytes(
    before: Seq<u8>,
    entry: Entry,
    behind: Seq<u8>,
    width: nat,
)
    requires
        entry_fits(entry, width),
    ensures
        parse_entry(before + entry_bytes(entry, width) + behind, before.len(), width) == Some(
            (entry, before.len() + entry_bytes(entry, width).len()),
        ),
{
    let bytes = before + entry_bytes(entry, width) + behind;
    let pos = before.len();
    let name = encode_utf8(entry.name);
    lemma_entry_bytes_len(entry, width);
    lemma_le_bytes_len(entry.offset, width);
    lemma_le_bytes_len(entry.length, width);
    lemma_le_value_of_bytes(entry.offset, width);
    lemma_le_value_of_bytes(entry.length, width);
    encode_utf8_valid_utf8(entry.name);
    encode_utf8_decode_utf8(entry.name);
    let name_at = pos + 2 * width + 1;
    assert(bytes[name_at - 1] == name.len() as u8);
    assert(bytes.subrange(pos as int, (pos + width) as int) =~= le_bytes(entry.offset, width));
    assert(bytes.subrange((pos + width) as int, (pos + 2 * width) as int) =~= le_bytes(
        entry.length,
        width,
    ));
    assert(bytes.subrange(name_at as int, (name_at + name.len()) as int) =~= name);
}

/// Reading finds a table where its bytes were written, whatever stands around them.
pub proof fn lemma_parse_toc_of_bytes(
    before: Seq<u8>,
    toc: Seq<Entry>,
    behind: Seq<u8>,
    width: nat,
)
    requires
        toc_fits(toc, width),
    ensures
        parse_toc(before + toc_bytes(toc, width) + behind, before.len(), toc.len(), width)
            == Some(toc),
    decreases toc.len(),
{
    let bytes = before + toc_bytes(toc, width) + behind;
    if toc.len() == 0 {
        assert(toc =~= Seq::<Entry>::empty());
    } else {
        let first = toc[0];
        let rest = toc.drop_first();
        assert(entry_fits(first, width));
        assert forall|i: int| 0 <= i < rest.len() implies entry_fits(#[trigger] rest[i], width) by {
            assert(rest[i] == toc[i + 1]);
        }
        let tail = toc_bytes(rest, width) + behind;
        assert(bytes =~= before + entry_bytes(first, width) + tail);
        lemma_parse_entry_of_bytes(before, first, tail, width);
        let next = before + entry_bytes(first, width);
        assert(bytes =~= next + toc_bytes(rest, width) + behind);
        lemma_parse_toc_of_bytes(next, rest, behind, width);
        assert(seq![first] + rest =~= toc);
    }
}

/// Reading finds a footer where it was written: at the end.
pub proof fn lemma_parse_footer_of_bytes(
    before: Seq<u8>,
    toc_offset: nat,
    count: nat,
    width: nat,
)
    requires
        toc_offset < capacity(width),
        count < capacity(width),
    ensures
        parse_footer(before + footer_bytes(toc_offset, count, width), width) == Some(
            (toc_offset, count),
        ),
{
    let bytes = before + footer_bytes(toc_offset, count, width);
    lemma_le_bytes_len(toc_offset, width);
    lemma_le_bytes_len(count, width);
    lemma_le_value_of_bytes(toc_offset, width);
    lemma_le_value_of_bytes(count, width);
    let start = bytes.len() - 2 * width;
    assert(start == before.len());
    assert(bytes.subrange(start, start + width) =~= le_bytes(toc_offset, width));
    assert(bytes.subrange(start + width, bytes.len() as int) =~= le_bytes(count, width));
}

/// A table that was read took at least `2 * width + 1` bytes for each entry, all of them
/// within the container.
pub proof fn lemma_parse_toc_needs_room(bytes: Seq<u8>, pos: nat, count: nat, width: nat)
    requires
        count > 0,
        parse_toc(bytes, pos, count, width) is Some,
    ensures
        pos + (2 * width + 1) * count <= bytes.len(),
    decreases count,
{
    let (entry, next) = parse_entry(bytes, pos, width).unwrap();
    lemma_parse_entry_fits(bytes, pos, width);
    if count > 1 {
        lemma_parse_toc_needs_room(bytes, next, (count - 1) as nat, width);
        assert((2 * width + 1) * count == (2 * width + 1) * (count - 1) + (2 * width + 1))
            by (nonlinear_arith);
    } else {
        assert((2 * width + 1) * count == 2 * width + 1) by (nonlinear_arith)
            requires
                count == 1,
        ;
    }
}

} // verus!
