//! # Easypack: a simple data packer/unpacker.
//!
//! This crate provides an easy way to pack multiple named blobs of data in a single
//! container, and to read single ones back by name. A container can be useful to keep
//! multiple small read-only files together: there is one file to open in place of many.
//!
//! The main API is quite simple: one can create (pack) multiple records in one container,
//! and read (unpack) them when needed. The API guarantees to always write the latest
//! version of the layout, and to unpack all the supported versions.
//!
//! The library works on bytes in memory: a container is a `Vec<u8>` or a `&[u8]`. Reading
//! it from a file and writing it to one is the caller's part.
//!
//! # How the crate is laid out
//!
//! - [`layout`] says what the bytes of a container mean, and [`endian`] what the bytes of
//!   an integer mean;
//! - [`protocol`] says what a writing session and a lookup do, step by step;
//! - [`writers`] and [`readers`] hold the packers and unpackers of each version, whose
//!   contracts are stated in the terms of the two;
//! - [`laws`] proves what holds of them together: what was packed is unpacked, an update
//!   keeps and adds, the two versions do not read each other;
//! - the functions of this file pack, update and unpack a whole container at once.

pub mod complaints;
pub mod endian;
pub mod error;
pub mod laws;
pub mod layout;
pub mod proofs;
pub mod protocol;
pub mod readers;
pub mod text;
pub mod utils;
pub mod writers;

use crate::complaints::{lookup_complaint, open_says};
use crate::error::{EasypackError, ErrorKind};
use crate::layout::{
    lemma_parse_toc_fits, lemma_toc_fits_wider, parse_footer, parse_header, width_of,
};
use crate::protocol::{
    joined, packed, refusal_text, table_of, unpacked, updated, write_all, Unpacked,
};
use crate::readers::get_unpacker;
pub use crate::utils::Record;
use crate::utils::Blob;
pub use crate::writers::Packer;
use vstd::prelude::*;

verus! {

/// Pack the given `records` in a new container.
///
/// # Errors
///
/// The error of the first record that is refused: see [`Packer::write_record`].
#[verifier::loop_isolation(false)]
pub fn pack_records(records: Vec<Record>) -> (r: Result<Vec<u8>, EasypackError>)
    ensures
        match packed(records.deep_view(), 1, 1, 8) {
            Ok(bytes) => r matches Ok(container) && container@ == bytes,
            Err(refused) => r matches Err(e) && e.kind() == refused.kind && e.message() == Some(
                refusal_text(refused),
            ),
        },
{
    let ghost all = records.deep_view();
    let mut writer = match Packer::from_writer(Vec::new()).write_header() {
        Ok(writer) => writer,
        Err(e) => {
            return Err(e);
        },
    };
    let ghost start = writer@;
    assert(all.skip(0) =~= all);
    for record in it: records
        invariant
            writer.wf(),
            all == records.deep_view(),
            write_all(start, all, 8) == write_all(writer@, all.skip(it.index() as int), 8),
    {
        proof {
            let rest = all.skip(it.index() as int);
            assert(rest.drop_first() =~= all.skip(it.index() + 1));
        }
        match writer.write_record(record) {
            Ok(_) => {},
            Err(e) => {
                return Err(e);
            },
        }
    }
    writer.close()
}

/// Pack the given `records` behind those of `container`, which already holds packed data,
/// and give the container back with a new table of contents behind the new records. This
/// operation is effectively an update: what `container` held stays where it was, the old
/// table and footer included, which no footer points to any more.
///
/// The new table and footer are those of version 1.1, whatever the version of `container`,
/// and the header is left as it is. So a container of version 1.0 still says 1.0
/// afterwards, and what reads it by its header does not find the new table: see
/// [`laws::lemma_update`] for what holds of a container of version 1.1.
///
/// # Errors
///
/// An invalid-file error where the table of `container` cannot be read; else the error of
/// the first record that is refused: see [`Packer::write_record`]. A record whose name the
/// container already holds is refused.
#[verifier::loop_isolation(false)]
pub fn pack_records_update(container: Vec<u8>, records: Vec<Record>) -> (r: Result<
    Vec<u8>,
    EasypackError,
>)
    ensures
        match table_of(container@) {
            None => r matches Err(e) && e.kind() == ErrorKind::InvalidFile && e.message() is Some
                && open_says(container@, e.message().unwrap()),
            Some(toc) => match updated(container@, toc, records.deep_view()) {
                Ok(bytes) => r matches Ok(grown) && grown@ == bytes,
                Err(refused) => r matches Err(e) && e.kind() == refused.kind && e.message()
                    == Some(refusal_text(refused)),
            },
        },
{
    let ghost all = records.deep_view();
    let file_size = container.len() as u64;
    let old_toc = {
        let mut unpacker = match get_unpacker(container.as_slice()) {
            Ok(unpacker) => unpacker,
            Err(e) => {
                return Err(e);
            },
        };
        // Init the unpacker, otherwise the Toc is empty
        match unpacker.init() {
            Ok(_) => {},
            Err(e) => {
                return Err(e);
            },
        }
        unpacker.toc_entries()
    };
    proof {
        let width = width_of(parse_header(container@).unwrap()).unwrap();
        let footer = parse_footer(container@, width).unwrap();
        lemma_parse_toc_fits(container@, footer.0, footer.1, width);
        lemma_toc_fits_wider(old_toc.deep_view(), width, 8);
    }
    let mut writer = match Packer::from_writer(container).append_mode(old_toc, file_size) {
        Ok(writer) => writer,
        Err(e) => {
            return Err(e);
        },
    };
    let ghost start = writer@;
    assert(all.skip(0) =~= all);
    for record in it: records
        invariant
            writer.wf(),
            all == records.deep_view(),
            write_all(start, all, 8) == write_all(writer@, all.skip(it.index() as int), 8),
    {
        proof {
            let rest = all.skip(it.index() as int);
            assert(rest.drop_first() =~= all.skip(it.index() + 1));
        }
        match writer.write_record(record) {
            Ok(_) => {},
            Err(e) => {
                return Err(e);
            },
        }
    }
    writer.close()
}

/// The characters of each of `names`.
pub open spec fn names_of(names: Seq<&str>) -> Seq<Seq<char>> {
    Seq::new(names.len(), |i: int| names[i]@)
}

/// Unpack the records associated with the `names` from `container`.
///
/// # Returns
///
/// A tuple with the records that were found, and the names of these that we
/// did not find, each in the order of `names`.
///
/// # Errors
///
/// An invalid-file error where the header or the table of `container` cannot be read, the
/// version is not supported, or a record that was asked for ends behind the container.
#[verifier::loop_isolation(false)]
pub fn unpack_records(container: &[u8], names: &[&str]) -> (r: Result<
    (Vec<Record>, Vec<String>),
    EasypackError,
>)
    ensures
        match table_of(container@) {
            None => r matches Err(e) && e.kind() == ErrorKind::InvalidFile && e.message() is Some
                && open_says(container@, e.message().unwrap()),
            Some(toc) => match unpacked(container@, toc, names_of(names@)) {
                None => r matches Err(e) && e.kind() == ErrorKind::InvalidFile && e.message()
                    == Some(lookup_complaint(container@, toc, names_of(names@))),
                Some(lists) => r matches Ok(pair) && pair.0.deep_view() == lists.found
                    && pair.1.deep_view() == lists.missing,
            },
        },
{
    let mut unpacker = match get_unpacker(container) {
        Ok(unpacker) => unpacker,
        Err(e) => {
            return Err(e);
        },
    };
    match unpacker.init() {
        Ok(_) => {},
        Err(e) => {
            return Err(e);
        },
    }
    let ghost toc = unpacker.table();
    let ghost all = names_of(names@);
    let mut found: Vec<Record> = Vec::new();
    let mut notfound: Vec<String> = Vec::new();
    proof {
        assert(all.skip(0) =~= all);
        let whole = unpacked(container@, toc, all);
        if whole is Some {
            assert(found.deep_view() + whole->0.found =~= whole->0.found);
            assert(notfound.deep_view() + whole->0.missing =~= whole->0.missing);
        }
    }
    let mut i: usize = 0;
    while i < names.len()
        invariant
            i <= names@.len(),
            unpacker.container() == container@,
            unpacker.table() == toc,
            unpacked(container@, toc, all) is None ==> lookup_complaint(container@, toc, all)
                == lookup_complaint(container@, toc, all.skip(i as int)),
            unpacked(container@, toc, all) == joined(
                Unpacked { found: found.deep_view(), missing: notfound.deep_view() },
                unpacked(container@, toc, all.skip(i as int)),
            ),
        decreases names@.len() - i,
    {
        let nameref: &str = names[i];
        let ghost rest = all.skip(i as int);
        let ghost tail = unpacked(container@, toc, all.skip(i + 1));
        let ghost before = Unpacked { found: found.deep_view(), missing: notfound.deep_view() };
        proof {
            assert(rest.drop_first() =~= all.skip(i + 1));
        }
        match unpacker.read_record(nameref) {
            Err(e) => {
                return Err(e);
            },
            Ok(None) => {
                notfound.push(nameref.to_owned());
                proof {
                    if tail is Some {
                        assert(before.missing + (seq![nameref@] + tail->0.missing)
                            =~= notfound.deep_view() + tail->0.missing);
                        assert(before.found + (Seq::<Blob>::empty() + tail->0.found)
                            =~= found.deep_view() + tail->0.found);
                    }
                }
            },
            Ok(Some(record)) => {
                let ghost blob = record@;
                found.push(record);
                proof {
                    if tail is Some {
                        assert(before.found + (seq![blob] + tail->0.found) =~= found.deep_view()
                            + tail->0.found);
                        assert(before.missing + (Seq::<Seq<char>>::empty() + tail->0.missing)
                            =~= notfound.deep_view() + tail->0.missing);
                    }
                }
            },
        }
        i = i + 1;
    }
    proof {
        let tail = unpacked(container@, toc, all.skip(i as int));
        assert(found.deep_view() + tail->0.found =~= found.deep_view());
        assert(notfound.deep_view() + tail->0.missing =~= notfound.deep_view());
    }
    Ok((found, notfound))
}

} // verus!
