//! Packer 1.0 version.
//!
//! All numbers are written in little endian format.
//! The structure of the packed file is as following:
//!
//! * HEADER
//!
//! - 4 bytes magic number
//! - 1 byte for the major version
//! - 1 byte for the minor version
//!
//! * RECORDS
//!
//! A list of records. the location in the file and the size to read is specified
//! in the `ToC`
//!
//! * TOC (Table of Contents)
//!
//! A list of
//! - u32 (4 bytes) position in the file
//! - u32 (4 bytes) size of the content
//! - u8 (1 byte) size of the related name of the content
//! - as many bytes as specified above for the name of the content
//!
//! * FOOTER
//!
//! - u32 (4 bytes) the position of the `ToC` table in the file
//! - u32 (4 bytes) the number of records

use crate::endian::{lemma_capacity_values, lemma_le_bytes_len, put_le};
use crate::error::{EasypackError, ErrorKind};
use crate::layout::{
    entry_bytes, header_bytes, lemma_toc_bytes_push, name_fits, narrow_entry, narrow_table,
    toc_bytes, toc_fits, Entry, MAX_NAME_LEN,
};
use crate::protocol::{
    closed, created, refusal_text, with_header, write_outcome, PackerState,
};
use crate::text::{decimal, decimal_text};
use crate::utils::{magic_bytes, Record, HEADER_SIZE};
use std::marker::PhantomData;
use vstd::prelude::*;
use vstd::string::StringExecFns;

verus! {

broadcast use vstd::slice::group_slice_axioms;

/// The steps of a packer: what it has written so far decides what it can do next.
pub trait Steps {
    /// Whether a packer in this step has its header behind it.
    spec fn header_written() -> bool;
}

/// No packer yet.
pub struct NoneStep {}

/// The packer is bound to its writer; the header comes next.
pub struct HeaderStep {}

/// The header is written; records come next, then the table of contents.
pub struct RecordStep {}

impl Steps for NoneStep {
    open spec fn header_written() -> bool {
        false
    }
}

impl Steps for HeaderStep {
    open spec fn header_written() -> bool {
        false
    }
}

impl Steps for RecordStep {
    open spec fn header_written() -> bool {
        true
    }
}

/// The packer, which can be used to pack data to the given writer.
///
/// The writer is handed back by `close` alone: a packer that is dropped before takes its
/// bytes with it, and no container without a table of contents comes into being.
pub struct Packer<S: Steps> {
    pos: u32,
    writer: Vec<u8>,
    _step: PhantomData<S>,
    toc: Vec<(u32, u32, String)>,
}

impl<S: Steps> View for Packer<S> {
    type V = PackerState;

    closed spec fn view(&self) -> PackerState {
        PackerState { pos: self.pos as nat, sink: self.writer@, toc: narrow_table(self.toc@) }
    }
}

impl<S: Steps> Packer<S> {
    /// What holds of every packer that this module hands out: every name in its table fits an
    /// entry, the number of entries fits the footer, and before the header nothing is
    /// written.
    pub closed spec fn wf(&self) -> bool {
        &&& toc_fits(narrow_table(self.toc@), 4)
        &&& self.toc@.len() <= u32::MAX
        &&& !S::header_written() ==> self.pos == 0 && self.toc@.len() == 0
    }
}

impl Packer<NoneStep> {
    /// Create a Packer, using the given writer.
    #[must_use]
    pub fn from_writer(writer: Vec<u8>) -> (packer: Packer<HeaderStep>)
        ensures
            packer.wf(),
            packer@ == created(writer@),
    {
        let packer = Packer { pos: 0, writer, _step: PhantomData, toc: Vec::new() };
        assert(narrow_table(packer.toc@) =~= Seq::<Entry>::empty());
        packer
    }
}

impl Packer<HeaderStep> {
    /// Write the header of the file.
    ///
    /// In memory no write fails: the result is always `Ok`.
    pub fn write_header(self) -> (r: Result<Packer<RecordStep>, EasypackError>)
        requires
            self.wf(),
        ensures
            r matches Ok(packer) && packer.wf() && packer@ == with_header(self@, 1, 0),
    {
        let mut writer = self.writer;
        let _ = write_header(&mut writer);
        let val: u32 = HEADER_SIZE as u32;
        let packer = Packer { pos: self.pos + val, writer, _step: PhantomData, toc: self.toc };
        Ok(packer)
    }
}

impl Packer<RecordStep> {
    /// Write a single record. A record that is refused leaves the packer as it was.
    /// # Errors
    /// In case the length of the record's data does not fit 32 bits, the record's name is the
    /// same as another already inserted record, the name is too long, or the record ends
    /// behind the last position that the container can describe; in this order.
    #[verifier::loop_isolation(false)]
    pub fn write_record(&mut self, record: Record) -> (r: Result<(), EasypackError>)
        requires
            old(self).wf(),
        ensures
            final(self).wf(),
            match write_outcome(old(self)@, record@, 4) {
                Ok(next) => r is Ok && final(self)@ == next,
                Err(refused) => r matches Err(e) && e.kind() == refused.kind && e.message()
                    == Some(refusal_text(refused)) && final(self)@ == old(self)@,
            },
    {
        proof {
            lemma_capacity_values();
        }
        if record.data.len() > u32::MAX as usize {
            return Err(
                EasypackError::RecordTooBig(
                    String::from_str("Unable to write a record that the container cannot describe."),
                ),
            );
        }
        let data_len: u32 = record.data.len() as u32;

        let mut i: usize = 0;
        while i < self.toc.len()
            invariant
                *self == *old(self),
                i <= self.toc@.len(),
                forall|j: int|
                    0 <= j < i ==> (#[trigger] narrow_table(self.toc@)[j]).name != record.name@,
            decreases self.toc@.len() - i,
        {
            if self.toc[i].2 == record.name {
                assert(narrow_table(self.toc@)[i as int].name == record.name@);
                let mut message = String::from_str("Name ");
                message.append(record.name.as_str());
                message.append(" has already been used.");
                return Err(EasypackError::RecordSameName(message));
            }
            i = i + 1;
        }
        if record.name.as_str().as_bytes().len() > MAX_NAME_LEN {
            return Err(
                EasypackError::RecordNameTooBig(
                    String::from_str("Unable to write a record with name len > u8::MAX bytes."),
                ),
            );
        }
        let data_start = self.pos;
        if data_len > u32::MAX - self.pos || self.toc.len() >= u32::MAX as usize {
            return Err(
                EasypackError::RecordTooBig(
                    String::from_str("Unable to write a record that the container cannot describe."),
                ),
            );
        }
        let data_end = self.pos + data_len;
        write_record(&mut self.writer, record.data.as_slice());
        let ghost before = narrow_table(self.toc@);
        let entry = (data_start, data_len, record.name);
        self.toc.push(entry);
        assert(narrow_table(self.toc@) =~= before.push(narrow_entry(entry)));
        self.pos = data_end;
        Ok(())
    }

    /// Write the toc, the footer, and consume the Packer. The result is the writer, which now
    /// holds the whole container.
    ///
    /// In memory no write fails: the result is always `Ok`.
    #[verifier::loop_isolation(false)]
    pub fn close(self) -> (r: Result<Vec<u8>, EasypackError>)
        requires
            self.wf(),
        ensures
            r matches Ok(container) && container@ == closed(self@, 4),
    {
        let table_pos = self.pos;
        let mut how_many: u32 = 0;
        let mut writer = self.writer;
        let toc = self.toc;
        let ghost sink = writer@;
        let ghost table = narrow_table(toc@);

        let mut i: usize = 0;
        while i < toc.len()
            invariant
                i <= toc@.len(),
                how_many == i,
                writer@ == sink + toc_bytes(table.take(i as int), 4),
            decreases toc@.len() - i,
        {
            proof {
                lemma_toc_bytes_push(table.take(i as int), table[i as int], 4);
                assert(table.take(i + 1) =~= table.take(i as int).push(table[i as int]));
            }
            match write_toc_entry(&mut writer, &toc[i]) {
                Ok(_) => {},
                Err(e) => {
                    return Err(e);
                },
            }
            how_many = how_many + 1;
            i = i + 1;
        }
        assert(table.take(toc@.len() as int) =~= table);

        put_le(&mut writer, table_pos as u64, 4);
        put_le(&mut writer, how_many as u64, 4);
        Ok(writer)
    }
}

/// Write the header of a container of version 1.0.
///
/// In memory no write fails: the result is always `Ok`.
pub fn write_header(w: &mut Vec<u8>) -> (r: Result<(), EasypackError>)
    ensures
        r is Ok,
        final(w)@ == old(w)@ + header_bytes(1, 0),
{
    write_record(w, magic_bytes());
    // Write version.
    w.push(1u8);
    w.push(0u8);
    Ok(())
}

/// What the error for an entry with a name that is too long says.
pub open spec fn long_name_text(name: Seq<char>) -> Seq<char> {
    "Record name is too big: len is "@ + decimal_text(vstd::utf8::encode_utf8(name).len())
        + ", while only names up to "@ + decimal_text(255) + " are allowed"@
}

/// Write the payload of a record.
pub fn write_record(w: &mut Vec<u8>, data: &[u8])
    ensures
        final(w)@ == old(w)@ + data@,
{
    w.extend_from_slice(data);
}

/// Toc contains the position in the file, the length of the data as u32, the
/// length of the string to be read, and and the bytes of the string itself.
/// An entry that is refused leaves the writer as it was.
/// # Errors
/// In case the name is longer than 255 bytes.
pub fn write_toc_entry(w: &mut Vec<u8>, toc_entry: &(u32, u32, String)) -> (r: Result<
    (),
    EasypackError,
>)
    ensures
        match r {
            Ok(_) => name_fits(toc_entry.2@) && final(w)@ == old(w)@ + entry_bytes(
                narrow_entry(*toc_entry),
                4,
            ),
            Err(e) => !name_fits(toc_entry.2@) && e.kind() == ErrorKind::RecordNameTooBig
                && e.message() == Some(long_name_text(toc_entry.2@)) && final(w)@ == old(w)@,
        },
{
    let name = toc_entry.2.as_str().as_bytes();
    if name.len() > MAX_NAME_LEN {
        let mut message = String::from_str("Record name is too big: len is ");
        message.append(decimal(name.len() as u64).as_str());
        message.append(", while only names up to ");
        message.append(decimal(u8::MAX as u64).as_str());
        message.append(" are allowed");
        return Err(EasypackError::RecordNameTooBig(message));
    }
    put_le(w, toc_entry.0 as u64, 4);
    put_le(w, toc_entry.1 as u64, 4);
    w.push(name.len() as u8);
    write_record(w, name);
    proof {
        lemma_le_bytes_len(narrow_entry(*toc_entry).offset, 4);
        lemma_le_bytes_len(narrow_entry(*toc_entry).length, 4);
    }
    Ok(())
}

} // verus!
