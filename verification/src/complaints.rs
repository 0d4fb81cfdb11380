//! What the errors of reading a container say: the text of each message, as a function of
//! the bytes that were read.

use crate::layout::{find, magic, parse_entry, parse_footer, parse_header, width_of, Entry};
use crate::protocol::lookup;
use crate::text::decimal_text;
use vstd::prelude::*;
use vstd::utf8::{decode_utf8, valid_utf8};

verus! {

/// The number of bytes that a container holds from `pos` on.
pub open spec fn available(bytes: Seq<u8>, pos: nat) -> nat {
    if pos <= bytes.len() {
        (bytes.len() - pos) as nat
    } else {
        0
    }
}

/// What the error for a header that cannot be read says, where the text of another error
/// is no part of it: that is, unless the container starts with four bytes that are no UTF-8.
pub open spec fn header_complaint(bytes: Seq<u8>) -> Option<Seq<char>> {
    if bytes.len() < 4 {
        Some("Not enough bytes in the header"@)
    } else if bytes.subrange(0, 4) == magic() {
        Some("Not enough bytes in the version"@)
    } else if valid_utf8(bytes.subrange(0, 4)) {
        Some("Header does not match, found "@ + decode_utf8(bytes.subrange(0, 4)))
    } else {
        None
    }
}

/// Whether `message` is what the error for a header that cannot be read says. Where the
/// container starts with four bytes that are no UTF-8, the message ends in the words of the
/// error that says why, which are not fixed here.
pub open spec fn header_says(bytes: Seq<u8>, message: Seq<char>) -> bool {
    match header_complaint(bytes) {
        Some(text) => message == text,
        None => exists|detail: Seq<char>|
            message == #[trigger] ("Unable to read the header: "@ + detail),
    }
}

/// What the error for a version without an unpacker says: it names the version.
pub open spec fn unsupported_text(version: (u8, u8)) -> Seq<char> {
    "Found version `("@ + decimal_text(version.0 as nat) + ", "@ + decimal_text(
        version.1 as nat,
    ) + ")`, which is not supported."@
}

/// What the error for a record that ends behind the container says: it gives the number of
/// bytes that are there from `pos` on.
pub open spec fn short_read_text(bytes: Seq<u8>, pos: nat) -> Seq<char> {
    "Not enough bytes to read: "@ + decimal_text(available(bytes, pos))
}

/// What the error for a field of an entry that ends behind the container says: it names the
/// field, the index of the entry, and the number of bytes that are there for the field.
pub open spec fn short_entry_text(field: Seq<char>, index: nat, bytes_read: nat) -> Seq<char> {
    "Not enough bytes to read the "@ + field + " of the "@ + decimal_text(index)
        + "th toc? bytes_read: "@ + decimal_text(bytes_read)
}

/// What the error for a name that is no UTF-8 says: it gives the index of the entry.
pub open spec fn bad_name_text(index: nat) -> Seq<char> {
    "The name of the "@ + decimal_text(index) + "th toc is not UTF-8"@
}

/// What the error for the entry at `pos` says, where that entry cannot be read: the first
/// field that ends behind the container decides, and a name that is all there is no UTF-8.
pub open spec fn entry_complaint(bytes: Seq<u8>, pos: nat, width: nat, index: nat) -> Seq<
    char,
> {
    let there = available(bytes, pos);
    if there < width {
        short_entry_text("pos"@, index, there)
    } else if there < 2 * width {
        short_entry_text("pos"@, index, (there - width) as nat)
    } else if there < 2 * width + 1 {
        short_entry_text("str_len"@, index, 0)
    } else if there < 2 * width + 1 + bytes[(pos + 2 * width) as int] {
        short_entry_text("name"@, index, (there - 2 * width - 1) as nat)
    } else {
        bad_name_text(index)
    }
}

/// What the error for a table of `count` entries at `pos` says, where that table cannot be
/// read: the first entry that cannot be read decides. `index` is the index of the entry at
/// `pos`.
pub open spec fn toc_complaint(
    bytes: Seq<u8>,
    pos: nat,
    count: nat,
    width: nat,
    index: nat,
) -> Seq<char>
    decreases count,
{
    if count == 0 {
        Seq::empty()
    } else {
        match parse_entry(bytes, pos, width) {
            None => entry_complaint(bytes, pos, width, index),
            Some((_, next)) => toc_complaint(bytes, next, (count - 1) as nat, width, index + 1),
        }
    }
}

/// What the error for a container whose table cannot be read says: the footer comes first.
pub open spec fn table_complaint(bytes: Seq<u8>, width: nat) -> Seq<char> {
    match parse_footer(bytes, width) {
        None => "Not enough bytes in the footer"@,
        Some((toc_offset, count)) => toc_complaint(bytes, toc_offset, count, width, 0),
    }
}

/// Whether `message` is what the error for a container that cannot be opened says: the
/// header comes first (see [`header_says`]), then the version, then the table.
pub open spec fn open_says(bytes: Seq<u8>, message: Seq<char>) -> bool {
    match parse_header(bytes) {
        None => header_says(bytes, message),
        Some(version) => match width_of(version) {
            None => message == unsupported_text(version),
            Some(width) => message == table_complaint(bytes, width),
        },
    }
}

/// What the error for a lookup of `names` says, where one of the records ends behind the
/// container: the first such record decides.
pub open spec fn lookup_complaint(
    container: Seq<u8>,
    toc: Seq<Entry>,
    names: Seq<Seq<char>>,
) -> Seq<char>
    decreases names.len(),
{
    if names.len() == 0 {
        Seq::empty()
    } else if lookup(container, toc, names[0]) is Truncated {
        short_read_text(container, find(toc, names[0])->0.offset)
    } else {
        lookup_complaint(container, toc, names.drop_first())
    }
}

} // verus!
