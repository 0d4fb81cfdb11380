//! The unpackers, one for each version of the layout, and the choice among them by the
//! header of a container.

use crate::complaints::{header_says, short_read_text, table_complaint, unsupported_text};
use crate::error::{EasypackError, ErrorKind};
use crate::layout::{find, parse_container, parse_header, width_of, Entry};
use crate::protocol::{lookup, Lookup};
use crate::text::{decimal, string_from_utf8};
use crate::utils::{copy_of, magic_bytes, Blob, Record, Version};
use crate::writers::TocEntry;
use vstd::prelude::*;
use vstd::string::StringExecFns;

pub mod ver_1_0;
pub mod ver_1_1;

verus! {

broadcast use vstd::slice::group_slice_axioms;

/// The internal trait that defines an unpacker.
/// Every unpacker is related to a different version, that can be completely
/// different from every others. That's why we try to keep the unpackers free
/// to behave as they want.
pub trait VersionedUnpacker<'r> {
    /// The bytes of the container that the unpacker reads.
    spec fn container(&self) -> Seq<u8>;

    /// The width in bytes of the integers of the unpacker's version.
    spec fn width(&self) -> nat;

    /// The table of contents that the unpacker holds: empty until `init` has read it.
    spec fn table(&self) -> Seq<Entry>;

    /// Initialize the unpacker: read the table of contents.
    /// # Errors
    /// In case the footer or an entry of the table ends behind the container, or a name is
    /// no UTF-8. The table is then as it was.
    fn init(&mut self) -> (r: Result<(), EasypackError>)
        ensures
            final(self).container() == old(self).container(),
            final(self).width() == old(self).width(),
            match parse_container(old(self).container(), old(self).width()) {
                Some(toc) => r is Ok && final(self).table() == toc,
                None => r matches Err(e) && e.kind() == ErrorKind::InvalidFile && e.message()
                    == Some(table_complaint(old(self).container(), old(self).width()))
                    && final(self).table() == old(self).table(),
            },
    ;

    /// Read the record associated with `record_name`, if any: the first entry of the table
    /// with that name decides.
    /// # Errors
    /// In case the entry points behind the end of the container.
    fn read_record(&mut self, record_name: &str) -> (r: Result<Option<Record>, EasypackError>)
        ensures
            final(self).container() == old(self).container(),
            final(self).width() == old(self).width(),
            final(self).table() == old(self).table(),
            match lookup(old(self).container(), old(self).table(), record_name@) {
                Lookup::Found(data) => r matches Ok(Some(record)) && record@ == (Blob {
                    name: record_name@,
                    data,
                }),
                Lookup::Missing => r matches Ok(None),
                Lookup::Truncated => r matches Err(e) && e.kind() == ErrorKind::InvalidFile
                    && e.message() == Some(
                    short_read_text(
                        old(self).container(),
                        find(old(self).table(), record_name@)->0.offset,
                    ),
                ),
            },
    ;

    /// The table of contents as entries of the latest version, in the order of the table.
    fn toc_entries(&self) -> (entries: Vec<TocEntry>)
        ensures
            entries.deep_view() == self.table(),
    ;
}

/// Read the header, and get the version out (maj, min)
/// # Errors
/// In case the container does not start with the magic number and two more bytes.
pub fn read_header(r: &[u8]) -> (res: Result<Version, EasypackError>)
    ensures
        match parse_header(r@) {
            Some(version) => res matches Ok(v) && (v.maj, v.min) == version,
            None => res matches Err(e) && e.kind() == ErrorKind::InvalidFile && e.message() is Some
                && header_says(r@, e.message().unwrap()),
        },
{
    if r.len() < 4 {
        return Err(
            EasypackError::InvalidFileError(String::from_str("Not enough bytes in the header")),
        );
    }
    let found = copy_of(r, 0, 4);
    let magic = magic_bytes();
    let same = found[0] == magic[0] && found[1] == magic[1] && found[2] == magic[2] && found[3]
        == magic[3];
    assert(same == (r@.subrange(0, 4) =~= magic@));
    if !same {
        return match string_from_utf8(found) {
            Err(e) => {
                let detail = e.to_string();
                let mut message = String::from_str("Unable to read the header: ");
                message.append(detail.as_str());
                assert(message@ == "Unable to read the header: "@ + detail@);
                Err(EasypackError::InvalidFileError(message))
            },
            Ok(header) => {
                let mut message = String::from_str("Header does not match, found ");
                message.append(header.as_str());
                Err(EasypackError::InvalidFileError(message))
            },
        };
    }
    if r.len() < 6 {
        return Err(
            EasypackError::InvalidFileError(String::from_str("Not enough bytes in the version")),
        );
    }
    let v1 = r[4];
    let v2 = r[5];
    let version = Version::from((v1, v2));
    Ok(version)
}

/// Read the version from the header, and get the unpacker of that version, which has yet
/// to read its table of contents.
/// # Errors
/// In case the header cannot be read, or no unpacker is there for the version: the message
/// then names the version.
pub fn get_unpacker<'r>(r: &'r [u8]) -> (res: Result<
    Box<dyn VersionedUnpacker<'r> + 'r>,
    EasypackError,
>)
    ensures
        match parse_header(r@) {
            None => res matches Err(e) && e.kind() == ErrorKind::InvalidFile && e.message() is Some
                && header_says(r@, e.message().unwrap()),
            Some(version) => match width_of(version) {
                None => res matches Err(e) && e.kind() == ErrorKind::InvalidFile && e.message()
                    == Some(unsupported_text(version)),
                Some(width) => res matches Ok(unpacker) && unpacker.container() == r@
                    && unpacker.width() == width && unpacker.table() == Seq::<Entry>::empty(),
            },
        },
{
    let version = match read_header(r) {
        Ok(version) => version,
        Err(e) => {
            return Err(e);
        },
    };
    let pair: (u8, u8) = version.into();
    if pair.0 == 1 && pair.1 == 0 {
        Ok(Box::new(ver_1_0::Unpacker::from_reader(r)))
    } else if pair.0 == 1 && pair.1 == 1 {
        Ok(Box::new(ver_1_1::Unpacker::from_reader(r)))
    } else {
        let mut message = String::from_str("Found version `(");
        message.append(decimal(pair.0 as u64).as_str());
        message.append(", ");
        message.append(decimal(pair.1 as u64).as_str());
        message.append(")`, which is not supported.");
        Err(EasypackError::InvalidFileError(message))
    }
}

} // verus!
