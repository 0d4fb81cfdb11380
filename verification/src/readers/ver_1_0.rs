//! The reader (unpacker) module.
//! It implements the basic functionalities to read data from a container of version 1.0.

use crate::endian::{get_le, lemma_capacity_values};
use crate::error::{EasypackError, ErrorKind};
use crate::layout::{
    after, find, lemma_find_first, lemma_find_none, narrow_entry, narrow_table, parse_container,
    parse_entry, parse_footer, parse_toc, read_at, Entry,
};
use crate::protocol::{lookup, Lookup};
use crate::complaints::{
    short_entry_text, short_read_text, table_complaint, toc_complaint,
};
use crate::readers::VersionedUnpacker;
use crate::text::{decimal, string_from_utf8};
use crate::utils::{copy_of, Blob, Record};
use crate::writers::TocEntry;
use vstd::prelude::*;
use vstd::string::StringExecFns;

verus! {

broadcast use vstd::slice::group_slice_axioms;

/// The unpacker, which can be used to read data from the given reader.
pub struct Unpacker<'r> {
    reader: &'r [u8],
    toc: Vec<(u32, u32, String)>,
}

impl<'r> VersionedUnpacker<'r> for Unpacker<'r> {
    closed spec fn container(&self) -> Seq<u8> {
        self.reader@
    }

    open spec fn width(&self) -> nat {
        4
    }

    closed spec fn table(&self) -> Seq<Entry> {
        narrow_table(self.toc@)
    }

    fn init(&mut self) -> (r: Result<(), EasypackError>) {
        self.read_toc()
    }

    fn read_record(&mut self, record_name: &str) -> (r: Result<Option<Record>, EasypackError>) {
        Unpacker::read_record(self, record_name)
    }

    fn toc_entries(&self) -> (entries: Vec<TocEntry>) {
        let mut entries: Vec<TocEntry> = Vec::new();
        let mut i: usize = 0;
        while i < self.toc.len()
            invariant
                i <= self.toc@.len(),
                entries.deep_view() == narrow_table(self.toc@).take(i as int),
            decreases self.toc@.len() - i,
        {
            let ghost before = entries.deep_view();
            let entry = TocEntry::new(
                self.toc[i].2.clone(),
                self.toc[i].0 as u64,
                self.toc[i].1 as u64,
            );
            entries.push(entry);
            assert(entries.deep_view() =~= before.push(entry@));
            assert(entries.deep_view() =~= narrow_table(self.toc@).take(i + 1));
            i = i + 1;
        }
        assert(narrow_table(self.toc@).take(self.toc@.len() as int) =~= narrow_table(self.toc@));
        entries
    }
}

impl<'r> Unpacker<'r> {
    /// Create an `Unpacker`, using the given reader. Its table of contents is empty until
    /// `read_toc` has read it.
    #[must_use]
    pub fn from_reader(reader: &'r [u8]) -> (unpacker: Self)
        ensures
            unpacker.container() == reader@,
            unpacker.table() == Seq::<Entry>::empty(),
    {
        let unpacker = Self { reader, toc: Vec::new() };
        assert(narrow_table(unpacker.toc@) =~= Seq::<Entry>::empty());
        unpacker
    }

    /// Read the `ToC` from the file.
    /// # Errors
    /// In the input file is invalid. The table is then as it was.
    pub fn read_toc(&mut self) -> (r: Result<(), EasypackError>)
        ensures
            final(self).container() == old(self).container(),
            match parse_container(old(self).container(), 4) {
                Some(toc) => r is Ok && final(self).table() == toc,
                None => r matches Err(e) && e.kind() == ErrorKind::InvalidFile && e.message()
                    == Some(table_complaint(old(self).container(), 4))
                    && final(self).table() == old(self).table(),
            },
    {
        let (toc_position, toc_len) = match read_footer(self.reader) {
            Ok(footer) => footer,
            Err(e) => {
                return Err(e);
            },
        };
        match read_toc_entries(self.reader, toc_position, toc_len) {
            Ok(toc) => {
                self.toc = toc;
                Ok(())
            },
            Err(e) => Err(e),
        }
    }

    /// Read a single record from the file, if there is some.
    /// # Errors
    /// In the input file is invalid.
    #[verifier::loop_isolation(false)]
    pub fn read_record(&mut self, name: &str) -> (r: Result<Option<Record>, EasypackError>)
        ensures
            final(self).container() == old(self).container(),
            final(self).table() == old(self).table(),
            match lookup(old(self).container(), old(self).table(), name@) {
                Lookup::Found(data) => r matches Ok(Some(record)) && record@ == (Blob {
                    name: name@,
                    data,
                }),
                Lookup::Missing => r matches Ok(None),
                Lookup::Truncated => r matches Err(e) && e.kind() == ErrorKind::InvalidFile
                    && e.message() == Some(
                    short_read_text(old(self).container(), find(old(self).table(), name@)->0.offset),
                ),
            },
    {
        let ghost table = narrow_table(self.toc@);
        let wanted = name.to_owned();
        let mut i: usize = 0;
        while i < self.toc.len()
            invariant
                *self == *old(self),
                i <= self.toc@.len(),
                forall|j: int| 0 <= j < i ==> (#[trigger] table[j]).name != name@,
            decreases self.toc@.len() - i,
        {
            if wanted == self.toc[i].2 {
                proof {
                    assert(table[i as int].name == name@);
                    lemma_find_first(table, name@, i as int);
                }
                let record_pos = self.toc[i].0;
                let record_len = self.toc[i].1;
                return match read_record(self.reader, record_pos, record_len as usize) {
                    Ok(data) => Ok(Some(Record::new(wanted, data))),
                    Err(e) => Err(e),
                };
            }
            i = i + 1;
        }
        proof {
            lemma_find_none(table, name@);
        }
        Ok(None)
    }
}

/// Read the footer: where the table of contents starts and how many entries it has.
/// # Errors
/// In case the container is shorter than a footer.
pub fn read_footer(r: &[u8]) -> (res: Result<(u32, u32), EasypackError>)
    ensures
        match parse_footer(r@, 4) {
            Some(footer) => res matches Ok(f) && f.0 == footer.0 && f.1 == footer.1,
            None => res matches Err(e) && e.kind() == ErrorKind::InvalidFile && e.message()
                == Some("Not enough bytes in the footer"@),
        },
{
    if r.len() < 8 {
        return Err(
            EasypackError::InvalidFileError(String::from_str("Not enough bytes in the footer")),
        );
    }
    proof {
        lemma_capacity_values();
    }
    let start = r.len() - 8;
    let v1 = get_le(r, start, 4) as u32;
    let v2 = get_le(r, start + 4, 4) as u32;
    Ok((v1, v2))
}

/// Read the `len` bytes of a record's data that start at `pos`.
/// # Errors
/// In case the container ends before the data does.
pub fn read_record(r: &[u8], pos: u32, len: usize) -> (res: Result<Vec<u8>, EasypackError>)
    ensures
        match read_at(r@, pos as nat, len as nat) {
            Some(data) => res matches Ok(bytes) && bytes@ == data,
            None => res matches Err(e) && e.kind() == ErrorKind::InvalidFile && e.message()
                == Some(short_read_text(r@, pos as nat)),
        },
{
    let start = pos as usize;
    let available = if start <= r.len() {
        r.len() - start
    } else {
        0
    };
    let bytes_read = if available < len {
        available
    } else {
        len
    };
    if bytes_read != len {
        let mut message = String::from_str("Not enough bytes to read: ");
        message.append(decimal(bytes_read as u64).as_str());
        return Err(EasypackError::InvalidFileError(message));
    }
    if len == 0 {
        let res: Vec<u8> = Vec::new();
        assert(res@ =~= Seq::<u8>::empty());
        return Ok(res);
    }
    Ok(copy_of(r, start, len))
}

/// What a failed read of a field of the `index`th entry is reported as.
fn short_entry(field: &str, index: u32, bytes_read: usize) -> (e: EasypackError)
    ensures
        e.kind() == ErrorKind::InvalidFile,
        e.message() == Some(short_entry_text(field@, index as nat, bytes_read as nat)),
{
    let mut message = String::from_str("Not enough bytes to read the ");
    message.append(field);
    message.append(" of the ");
    message.append(decimal(index as u64).as_str());
    message.append("th toc? bytes_read: ");
    message.append(decimal(bytes_read as u64).as_str());
    EasypackError::InvalidFileError(message)
}

/// Read the `how_many` entries of the table of contents that starts at `toc_position`.
/// # Errors
/// In case the container ends before an entry does, or a name is no UTF-8.
pub fn read_toc_entries(r: &[u8], toc_position: u32, how_many: u32) -> (res: Result<
    Vec<(u32, u32, String)>,
    EasypackError,
>)
    ensures
        match parse_toc(r@, toc_position as nat, how_many as nat, 4) {
            Some(toc) => res matches Ok(entries) && narrow_table(entries@) == toc,
            None => res matches Err(e) && e.kind() == ErrorKind::InvalidFile && e.message()
                == Some(toc_complaint(r@, toc_position as nat, how_many as nat, 4, 0)),
        },
{
    let total = r.len();
    // A table that starts behind the end has no byte to read.
    let mut at: usize = if toc_position as usize > total {
        total
    } else {
        toc_position as usize
    };
    let ghost mut pos: nat = toc_position as nat;
    let mut res: Vec<(u32, u32, String)> = Vec::new();
    proof {
        lemma_capacity_values();
        assert(narrow_table(res@) =~= Seq::<Entry>::empty());
        let whole = parse_toc(r@, pos, how_many as nat, 4);
        assert(after(narrow_table(res@), whole) == whole) by {
            if whole is Some {
                assert(narrow_table(res@) + whole->0 =~= whole->0);
            }
        }
    }

    let mut i: u32 = 0;
    while i < how_many
        invariant
            i <= how_many,
            total == r@.len(),
            at <= total,
            pos <= total ==> at == pos,
            pos > total ==> at == total,
            toc_complaint(r@, toc_position as nat, how_many as nat, 4, 0) == toc_complaint(
                r@,
                pos,
                (how_many - i) as nat,
                4,
                i as nat,
            ),
            parse_toc(r@, toc_position as nat, how_many as nat, 4) == after(
                narrow_table(res@),
                parse_toc(r@, pos, (how_many - i) as nat, 4),
            ),
        decreases how_many - i,
    {
        proof {
            lemma_capacity_values();
        }
        let bytes_read = total - at;
        if bytes_read < 4 {
            return Err(short_entry("pos", i, bytes_read));
        }
        let entry_pos = get_le(r, at, 4) as u32;

        let bytes_read = total - at - 4;
        if bytes_read < 4 {
            return Err(short_entry("pos", i, bytes_read));
        }
        let size = get_le(r, at + 4, 4) as u32;

        let bytes_read = total - at - 8;
        if bytes_read < 1 {
            return Err(short_entry("str_len", i, bytes_read));
        }
        let str_len = r[at + 8] as usize;

        let bytes_read = total - at - 9;
        if bytes_read < str_len {
            return Err(short_entry("name", i, bytes_read));
        }
        let buf = copy_of(r, at + 9, str_len);
        let name = match string_from_utf8(buf) {
            Ok(name) => name,
            Err(_) => {
                let mut message = String::from_str("The name of the ");
                message.append(decimal(i as u64).as_str());
                message.append("th toc is not UTF-8");
                return Err(EasypackError::InvalidFileError(message));
            },
        };

        proof {
            assert(parse_entry(r@, pos, 4) is Some);
            let parsed = parse_entry(r@, pos, 4).unwrap();
            let rest = parse_toc(r@, parsed.1, (how_many - i - 1) as nat, 4);
            let entry = narrow_entry((entry_pos, size, name));
            assert(parsed.0 == entry);
            assert(narrow_table(res@.push((entry_pos, size, name))) =~= narrow_table(res@).push(
                entry,
            ));
            if rest is Some {
                assert(narrow_table(res@) + (seq![entry] + rest->0) =~= narrow_table(res@).push(
                    entry,
                ) + rest->0);
            }
            pos = parsed.1;
        }
        res.push((entry_pos, size, name));
        at = at + 9 + str_len;
        i = i + 1;
    }
    proof {
        let rest = parse_toc(r@, pos, 0, 4);
        assert(narrow_table(res@) + rest->0 =~= narrow_table(res@));
    }
    Ok(res)
}

} // verus!
