//! Packer 1.1 version.
//!
//! All numbers are written in little endian format.
//!
//! The structure of the packed file is as following:
//!
//! * HEADER
//!
//! - 4 bytes magic number
//! - 1 byte for the major version
//! - 1 byte for the minor version
//!
//! * RECORDS
//!
//! A list of records. the location in the file and the size to read is specified
//! in the `ToC`
//!
//! * TOC (Table of Contents)
//!
//! A list of
//! - u64 (8 bytes) position in the file
//! - u64 (8 bytes) size of the content
//! - u8 (1 byte) size of the related name of the content
//! - as many bytes as specified above for the name of the content
//!
//! * FOOTER
//!
//! - u64 (8 bytes) the position of the `ToC` table in the file
//! - u64 (8 bytes) the number of records

use crate::endian::{lemma_capacity_values, lemma_le_bytes_len, put_le};
use crate::error::{EasypackError, ErrorKind};
use crate::layout::{
    entry_bytes, header_bytes, lemma_toc_bytes_push, name_fits, toc_bytes, toc_fits, Entry,
    MAX_NAME_LEN,
};
use crate::protocol::{
    closed, created, refusal_text, resumed, with_header, write_outcome, PackerState,
};
use crate::text::{decimal, decimal_text};
use crate::utils::{magic_bytes, Record, HEADER_SIZE};
use std::marker::PhantomData;
use vstd::prelude::*;
use vstd::string::StringExecFns;

verus! {

broadcast use vstd::slice::group_slice_axioms;

/// The steps of a packer: what it has written so far decides what it can do next.
pub trait Steps {
    /// Whether a packer in this step has its header behind it.
    spec fn header_written() -> bool;
}

/// No packer yet.
pub struct NoneStep {}

/// The packer is bound to its writer; the header comes next.
pub struct HeaderStep {}

/// The header is written; records come next, then the table of contents.
pub struct RecordStep {}

impl Steps for NoneStep {
    open spec fn header_written() -> bool {
        false
    }
}

impl Steps for HeaderStep {
    open spec fn header_written() -> bool {
        false
    }
}

impl Steps for RecordStep {
    open spec fn header_written() -> bool {
        true
    }
}

/// An entry of the table of contents: the name of a record, and where its data lies.
#[derive(Debug)]
pub struct TocEntry {
    record_name: String,
    data_start: u64,
    data_len: u64,
}

impl View for TocEntry {
    type V = Entry;

    closed spec fn view(&self) -> Entry {
        Entry {
            offset: self.data_start as nat,
            length: self.data_len as nat,
            name: self.record_name@,
        }
    }
}

impl DeepView for TocEntry {
    type V = Entry;

    open spec fn deep_view(&self) -> Entry {
        self.view()
    }
}

impl TocEntry {
    /// The entry of the record `record_name`, whose `data_len` bytes start at `data_start`.
    pub fn new(record_name: String, data_start: u64, data_len: u64) -> (entry: Self)
        ensures
            entry@ == (Entry {
                offset: data_start as nat,
                length: data_len as nat,
                name: record_name@,
            }),
    {
        Self { record_name, data_start, data_len }
    }

    /// Whether the entry is that of the record named `other`.
    pub fn same_record_name(&self, other: &str) -> (same: bool)
        ensures
            same == (self@.name == other@),
    {
        self.record_name == other.to_owned()
    }

    /// The entry as (start of the data, length of the data, name of the record).
    pub fn extract(self) -> (parts: (u64, u64, String))
        ensures
            parts.0 as nat == self@.offset,
            parts.1 as nat == self@.length,
            parts.2@ == self@.name,
    {
        (self.data_start, self.data_len, self.record_name)
    }
}

/// The `Packer`, implemented as an easy state machine to prevent API misuse.
///
/// # Usage.
///
/// - create the packer using `from_writer`;
/// - write the headers using `write_header`;
/// - write each record using `write_record`;
/// - write the `ToC` and the footer using `close`, which hands the writer back.
///
/// The steps before the records consume the packer, so that none can be left out or taken
/// twice. The writer is handed back by `close` alone: a packer that is dropped before takes
/// its bytes with it, and no container without a table of contents comes into being.
pub struct Packer<S: Steps> {
    // This is the writing position. It is needed to know where we are in the
    // file.
    pos: u64,
    writer: Vec<u8>,
    _step: PhantomData<S>,
    // The TableOfContent (`ToC`), filled in when a record is written.
    toc: Vec<TocEntry>,
}

impl<S: Steps> View for Packer<S> {
    type V = PackerState;

    closed spec fn view(&self) -> PackerState {
        PackerState { pos: self.pos as nat, sink: self.writer@, toc: self.toc.deep_view() }
    }
}

impl<S: Steps> Packer<S> {
    /// What holds of every packer that this module hands out: every name in its table fits an
    /// entry, and before the header nothing is written.
    pub closed spec fn wf(&self) -> bool {
        &&& toc_fits(self.toc.deep_view(), 8)
        &&& !S::header_written() ==> self.pos == 0 && self.toc@.len() == 0
    }
}

impl Packer<NoneStep> {
    /// Create a Packer, writing data using the given writer.
    #[must_use]
    pub fn from_writer(writer: Vec<u8>) -> (packer: Packer<HeaderStep>)
        ensures
            packer.wf(),
            packer@ == created(writer@),
    {
        let packer = Packer { pos: 0, writer, _step: PhantomData, toc: Vec::new() };
        assert(packer.toc.deep_view() =~= Seq::<Entry>::empty());
        packer
    }
}

impl Packer<HeaderStep> {
    /// Write the header of the file.
    /// The `ToC` is located at the bottom of the file, and we want to keep it
    /// like that since this allow us to expand the file without the need to
    /// rewrite it completely - we can just load the old `ToC`, change it / add
    /// new records, and write it back at the end. The old table will be
    /// ignored this way, but there won't be anything else other than some disk
    /// space lost.
    ///
    /// In memory no write fails: the result is always `Ok`.
    pub fn write_header(self) -> (r: Result<Packer<RecordStep>, EasypackError>)
        requires
            self.wf(),
        ensures
            r matches Ok(packer) && packer.wf() && packer@ == with_header(self@, 1, 1),
    {
        let mut writer = self.writer;
        let _ = write_header(&mut writer);
        let packer = Packer {
            pos: self.pos + HEADER_SIZE,
            writer,
            _step: PhantomData,
            toc: self.toc,
        };
        Ok(packer)
    }

    /// Go on behind the records of an existing container: `toc` is its table of contents,
    /// and the writer stands at `pos`, behind everything that the container holds.
    ///
    /// # Errors
    /// In case a name of `toc` is longer than an entry can hold; the first such name decides.
    #[verifier::loop_isolation(false)]
    pub fn append_mode(self, toc: Vec<TocEntry>, pos: u64) -> (r: Result<
        Packer<RecordStep>,
        EasypackError,
    >)
        ensures
            match r {
                Ok(packer) => toc_fits(toc.deep_view(), 8) && packer.wf() && packer@ == resumed(
                    self@.sink,
                    toc.deep_view(),
                    pos as nat,
                ),
                Err(e) => !toc_fits(toc.deep_view(), 8) && e.kind() == ErrorKind::RecordNameTooBig
                    && e.message() == Some(
                    "Unable to append to a table with a name len > u8::MAX bytes."@,
                ),
            },
    {
        proof {
            lemma_capacity_values();
        }
        let mut i: usize = 0;
        while i < toc.len()
            invariant
                i <= toc@.len(),
                forall|j: int| 0 <= j < i ==> name_fits((#[trigger] toc.deep_view()[j]).name),
            decreases toc@.len() - i,
        {
            if toc[i].record_name.as_str().as_bytes().len() > MAX_NAME_LEN {
                assert(!name_fits(toc.deep_view()[i as int].name));
                return Err(
                    EasypackError::RecordNameTooBig(
                        String::from_str("Unable to append to a table with a name len > u8::MAX bytes."),
                    ),
                );
            }
            i = i + 1;
        }
        Ok(Packer { pos, writer: self.writer, _step: PhantomData, toc })
    }
}

impl Packer<RecordStep> {
    /// Write a single record.
    /// This function internally update the `ToC`, that is written with the
    /// `close` call. A record that is refused leaves the packer as it was.
    /// # Errors
    /// In case the record's name is the same as another already inserted record, the name is
    /// too long, or the record ends behind the last position that the container can describe;
    /// in this order. The length of the data, which is looked at first, always fits 64 bits.
    #[verifier::loop_isolation(false)]
    pub fn write_record(&mut self, record: Record) -> (r: Result<(), EasypackError>)
        requires
            old(self).wf(),
        ensures
            final(self).wf(),
            match write_outcome(old(self)@, record@, 8) {
                Ok(next) => r is Ok && final(self)@ == next,
                Err(refused) => r matches Err(e) && e.kind() == refused.kind && e.message()
                    == Some(refusal_text(refused)) && final(self)@ == old(self)@,
            },
    {
        proof {
            lemma_capacity_values();
        }
        let data_len: u64 = record.data.len() as u64;

        let mut i: usize = 0;
        while i < self.toc.len()
            invariant
                *self == *old(self),
                i <= self.toc@.len(),
                forall|j: int|
                    0 <= j < i ==> (#[trigger] self.toc.deep_view()[j]).name != record.name@,
            decreases self.toc@.len() - i,
        {
            if self.toc[i].same_record_name(record.name.as_str()) {
                assert(self.toc.deep_view()[i as int].name == record.name@);
                let mut message = String::from_str("Name ");
                message.append(record.name.as_str());
                message.append(" has already been used.");
                return Err(EasypackError::RecordSameName(message));
            }
            i = i + 1;
        }
        if record.name.as_str().as_bytes().len() > MAX_NAME_LEN {
            return Err(
                EasypackError::RecordNameTooBig(
                    String::from_str("Unable to write a record with name len > u8::MAX bytes."),
                ),
            );
        }
        let data_start = self.pos;
        if data_len > u64::MAX - self.pos || self.toc.len() as u64 == u64::MAX {
            return Err(
                EasypackError::RecordTooBig(
                    String::from_str("Unable to write a record that the container cannot describe."),
                ),
            );
        }
        let data_end = self.pos + data_len;
        write_record(&mut self.writer, record.data.as_slice());
        let ghost before = self.toc.deep_view();
        let entry = TocEntry::new(record.name, data_start, data_len);
        self.toc.push(entry);
        assert(self.toc.deep_view() =~= before.push(entry@));
        self.pos = data_end;
        Ok(())
    }

    /// Write the toc, the footer, and consume the Packer. The result is the writer, which now
    /// holds the whole container.
    ///
    /// In memory no write fails: the result is always `Ok`.
    #[verifier::loop_isolation(false)]
    pub fn close(self) -> (r: Result<Vec<u8>, EasypackError>)
        requires
            self.wf(),
        ensures
            r matches Ok(container) && container@ == closed(self@, 8),
    {
        let table_pos = self.pos;
        let mut how_many: u64 = 0;
        let mut writer = self.writer;
        let toc = self.toc;
        let ghost sink = writer@;
        let ghost table = toc.deep_view();

        let mut i: usize = 0;
        while i < toc.len()
            invariant
                i <= toc@.len(),
                how_many == i,
                table == toc.deep_view(),
                toc_fits(table, 8),
                writer@ == sink + toc_bytes(table.take(i as int), 8),
            decreases toc@.len() - i,
        {
            proof {
                lemma_toc_bytes_push(table.take(i as int), table[i as int], 8);
                assert(table.take(i + 1) =~= table.take(i as int).push(table[i as int]));
            }
            match write_toc_entry(&mut writer, &toc[i]) {
                Ok(_) => {},
                Err(e) => {
                    return Err(e);
                },
            }
            how_many = how_many + 1;
            i = i + 1;
        }
        assert(table.take(toc@.len() as int) =~= table);

        // Then the last bytes tells where to find the toc in the file itself.
        put_le(&mut writer, table_pos, 8);
        put_le(&mut writer, how_many, 8);
        Ok(writer)
    }
}

/// Write the header of a container of version 1.1.
///
/// In memory no write fails: the result is always `Ok`.
pub fn write_header(w: &mut Vec<u8>) -> (r: Result<(), EasypackError>)
    ensures
        r is Ok,
        final(w)@ == old(w)@ + header_bytes(1, 1),
{
    write_record(w, magic_bytes());
    // Write version.
    w.push(1u8);
    w.push(1u8);
    Ok(())
}

/// What the error for an entry with a name that is too long says.
pub open spec fn long_name_text(name: Seq<char>) -> Seq<char> {
    "Record name is too big: len is "@ + decimal_text(vstd::utf8::encode_utf8(name).len())
        + ", while only names up to "@ + decimal_text(255) + " are allowed"@
}

/// Write the payload of a record.
pub fn write_record(w: &mut Vec<u8>, data: &[u8])
    ensures
        final(w)@ == old(w)@ + data@,
{
    w.extend_from_slice(data);
}

/// `Toc` contains the position in the file, the length of the string as u64,
/// the length of the string to be read, and and the bytes of the string
/// itself.
/// This function returns the amount of bytes being written. An entry that is refused
/// leaves the writer as it was.
/// # Errors
/// In case the name is longer than 255 bytes.
pub fn write_toc_entry(w: &mut Vec<u8>, toc_entry: &TocEntry) -> (r: Result<usize, EasypackError>)
    ensures
        match r {
            Ok(written) => name_fits(toc_entry@.name) && final(w)@ == old(w)@ + entry_bytes(
                toc_entry@,
                8,
            ) && written == entry_bytes(toc_entry@, 8).len(),
            Err(e) => !name_fits(toc_entry@.name) && e.kind() == ErrorKind::RecordNameTooBig
                && e.message() == Some(long_name_text(toc_entry@.name)) && final(w)@ == old(w)@,
        },
{
    let name = toc_entry.record_name.as_str().as_bytes();
    if name.len() > MAX_NAME_LEN {
        let mut message = String::from_str("Record name is too big: len is ");
        message.append(decimal(name.len() as u64).as_str());
        message.append(", while only names up to ");
        message.append(decimal(u8::MAX as u64).as_str());
        message.append(" are allowed");
        return Err(EasypackError::RecordNameTooBig(message));
    }
    put_le(w, toc_entry.data_start, 8);
    put_le(w, toc_entry.data_len, 8);
    w.push(name.len() as u8);
    write_record(w, name);
    proof {
        lemma_le_bytes_len(toc_entry@.offset, 8);
        lemma_le_bytes_len(toc_entry@.length, 8);
    }
    // This is the amount of bytes this function is writing.
    Ok(8 + 8 + 1 + name.len())
}

} // verus!
