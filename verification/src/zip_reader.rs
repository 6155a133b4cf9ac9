//! Minimal read-only ZIP reader: locate a named entry, decode it (deflate or
//! stored), and return it up to a byte cap.
//!
//! No field of the archive is trusted: every offset is held against the buffer
//! before it is used, every length against a cap. A malformed archive gives a
//! structured error.

use vstd::pervasive::unreached;
use vstd::prelude::*;
use vstd::slice::{slice_subrange, slice_to_vec};
use vstd::string::*;
use vstd::utf8::*;

use crate::inflate::{inflate_entry, inflated};
use crate::text::{decimal, decimal_text, has_prefix, same_text, starts_with, texts};
use crate::zip_error::ZipFailure;
pub use crate::zip_error::ZipReadError;

verus! {

/// Signature of a local file header (`PK\x03\x04`).
pub const LOCAL_FILE_HEADER_SIG: u32 = 0x04034b50;

/// Signature of an entry of the central directory (`PK\x01\x02`).
pub const CENTRAL_DIR_SIG: u32 = 0x02014b50;

/// Signature of the end-of-central-directory record (`PK\x05\x06`).
pub const END_OF_CENTRAL_DIR_SIG: u32 = 0x06054b50;

/// Compression method of an entry that is not compressed.
pub const METHOD_STORED: u16 = 0;

/// Compression method of an entry in deflate format.
pub const METHOD_DEFLATED: u16 = 8;

/// Length of an end-of-central-directory record without its comment.
pub const END_RECORD_LEN: usize = 22;

/// Longest comment of an end-of-central-directory record.
pub const MAX_COMMENT_LEN: usize = 65535;

/// Length of the fixed part of a central directory entry.
pub const CENTRAL_HEADER_LEN: usize = 46;

/// Length of the fixed part of a local file header.
pub const LOCAL_HEADER_LEN: usize = 30;

// ---------------------------------------------------------------------------
// Numbers
// ---------------------------------------------------------------------------

/// The little-endian 16-bit number at `at`.
pub open spec fn le16(buf: Seq<u8>, at: int) -> u16 {
    (buf[at] + 256 * buf[at + 1]) as u16
}

/// The little-endian 32-bit number at `at`.
pub open spec fn le32(buf: Seq<u8>, at: int) -> u32 {
    (buf[at] + 256 * buf[at + 1] + 65536 * buf[at + 2] + 16777216 * buf[at + 3]) as u32
}

/// An offset as far as a `usize` can tell it.
pub open spec fn clamped(offset: int) -> usize {
    if offset <= usize::MAX {
        offset as usize
    } else {
        usize::MAX
    }
}

/// Reads the little-endian 16-bit number at `at`.
pub fn read_u16_le(buf: &[u8], at: usize) -> (r: Result<u16, ZipReadError>)
    ensures
        at + 2 <= buf@.len() ==> r == Ok::<u16, ZipReadError>(le16(buf@, at as int)),
        at + 2 > buf@.len() ==> r is Err && r->Err_0@ == (ZipFailure::OffsetOutOfBounds {
            offset: at,
            len: 2,
        }),
{
    if at > buf.len() || buf.len() - at < 2 {
        return Err(ZipReadError::OffsetOutOfBounds { offset: at, len: 2 });
    }
    Ok(buf[at] as u16 + 256 * (buf[at + 1] as u16))
}

/// Reads the little-endian 32-bit number at `at`.
pub fn read_u32_le(buf: &[u8], at: usize) -> (r: Result<u32, ZipReadError>)
    ensures
        at + 4 <= buf@.len() ==> r == Ok::<u32, ZipReadError>(le32(buf@, at as int)),
        at + 4 > buf@.len() ==> r is Err && r->Err_0@ == (ZipFailure::OffsetOutOfBounds {
            offset: at,
            len: 4,
        }),
{
    if at > buf.len() || buf.len() - at < 4 {
        return Err(ZipReadError::OffsetOutOfBounds { offset: at, len: 4 });
    }
    Ok(
        buf[at] as u32 + 256 * (buf[at + 1] as u32) + 65536 * (buf[at + 2] as u32) + 16777216 * (
        buf[at + 3] as u32),
    )
}

// ---------------------------------------------------------------------------
// The end of the archive
// ---------------------------------------------------------------------------

/// The last place at or before `at`, but not before `low`, where an
/// end-of-central-directory signature stands.
pub open spec fn end_record_before(archive: Seq<u8>, at: int, low: int) -> Option<int>
    decreases at - low + 1,
{
    if at < low {
        None
    } else if le32(archive, at) == END_OF_CENTRAL_DIR_SIG {
        Some(at)
    } else {
        end_record_before(archive, at - 1, low)
    }
}

/// Where the end-of-central-directory record of `archive` stands: the last place
/// that leaves room for the record and at most a comment of the longest length
/// behind it.
pub open spec fn end_record(archive: Seq<u8>) -> Option<int> {
    let last = archive.len() - END_RECORD_LEN;
    let first = last - MAX_COMMENT_LEN;
    end_record_before(
        archive,
        last,
        if first < 0 {
            0
        } else {
            first
        },
    )
}

/// Looks for the end-of-central-directory record, from the tail of the archive.
pub fn find_eocd(archive: &[u8]) -> (r: Result<usize, ZipReadError>)
    ensures
        match end_record(archive@) {
            Some(at) => r is Ok && r->Ok_0 == at && 0 <= at <= archive@.len() - END_RECORD_LEN,
            None => r is Err && r->Err_0@ == ZipFailure::NotAZip,
        },
{
    if archive.len() < END_RECORD_LEN {
        return Err(ZipReadError::NotAZip);
    }
    let last: usize = archive.len() - END_RECORD_LEN;
    let first: usize = if last < MAX_COMMENT_LEN {
        0
    } else {
        last - MAX_COMMENT_LEN
    };
    let mut i: usize = last;
    loop
        invariant
            first <= i <= last == archive@.len() - END_RECORD_LEN,
            end_record(archive@) == end_record_before(archive@, i as int, first as int),
        decreases i,
    {
        match read_u32_le(archive, i) {
            Ok(sig) => {
                if sig == END_OF_CENTRAL_DIR_SIG {
                    return Ok(i);
                }
            },
            Err(e) => {
                return Err(e);
            },
        }
        if i == first {
            return Err(ZipReadError::NotAZip);
        }
        i = i - 1;
    }
}

/// Start and end of the central directory of `archive`.
pub open spec fn directory(archive: Seq<u8>) -> Result<(int, int), ZipFailure> {
    match end_record(archive) {
        None => Err(ZipFailure::NotAZip),
        Some(at) => {
            let start = le32(archive, at + 16);
            let size = le32(archive, at + 12);
            if start + size > archive.len() {
                Err(
                    ZipFailure::OffsetOutOfBounds { offset: start as usize, len: size as usize },
                )
            } else {
                Ok((start as int, start + size))
            }
        },
    }
}

fn read_directory(archive: &[u8]) -> (r: Result<(usize, usize), ZipReadError>)
    ensures
        match directory(archive@) {
            Ok((start, end)) => r is Ok && r->Ok_0.0 == start && r->Ok_0.1 == end && 0 <= start
                <= end <= archive@.len(),
            Err(e) => r is Err && r->Err_0@ == e,
        },
{
    let n: usize = archive.len();
    let eocd: usize = match find_eocd(archive) {
        Ok(at) => at,
        Err(e) => {
            return Err(e);
        },
    };
    let start: usize = match read_u32_le(archive, eocd + 16) {
        Ok(n) => n as usize,
        Err(e) => {
            return Err(e);
        },
    };
    let size: usize = match read_u32_le(archive, eocd + 12) {
        Ok(n) => n as usize,
        Err(e) => {
            return Err(e);
        },
    };
    if start > n || size > n - start {
        return Err(ZipReadError::OffsetOutOfBounds { offset: start, len: size });
    }
    Ok((start, start + size))
}

// ---------------------------------------------------------------------------
// The central directory
// ---------------------------------------------------------------------------

/// What an entry of the central directory says.
pub struct DirectoryEntry {
    pub name: Seq<u8>,
    pub method: u16,
    pub compressed_size: u32,
    pub uncompressed_size: u32,
    pub header_offset: u32,
    /// Where the next entry starts.
    pub next: int,
}

/// The entry of the central directory that starts at `at`, where the directory
/// ends at `end` and holds at least the fixed part of the entry.
pub open spec fn entry_at(archive: Seq<u8>, at: int, end: int) -> Result<
    DirectoryEntry,
    ZipFailure,
> {
    let name_start = at + CENTRAL_HEADER_LEN;
    let name_len = le16(archive, at + 28);
    if le32(archive, at) != CENTRAL_DIR_SIG {
        Err(
            ZipFailure::BadSignature {
                offset: at as usize,
                expected: CENTRAL_DIR_SIG,
                actual: le32(archive, at),
            },
        )
    } else if name_start + name_len > end {
        Err(
            ZipFailure::OffsetOutOfBounds {
                offset: name_start as usize,
                len: name_len as usize,
            },
        )
    } else {
        Ok(
            DirectoryEntry {
                name: archive.subrange(name_start, name_start + name_len),
                method: le16(archive, at + 10),
                compressed_size: le32(archive, at + 20),
                uncompressed_size: le32(archive, at + 24),
                header_offset: le32(archive, at + 42),
                next: name_start + name_len + le16(archive, at + 30) + le16(archive, at + 32),
            },
        )
    }
}

/// The failure of an entry that reaches beyond the directory.
pub open spec fn overrun(next: int) -> ZipFailure {
    ZipFailure::OffsetOutOfBounds { offset: clamped(next), len: 0 }
}

/// What the reader keeps of a directory entry.
struct EntryHeader {
    name_start: usize,
    name_end: usize,
    method: u16,
    compressed_size: u32,
    uncompressed_size: u32,
    header_offset: u32,
    /// Where the next entry starts, where a `usize` can tell.
    next: Option<usize>,
}

impl EntryHeader {
    spec fn tells(self, archive: Seq<u8>, entry: DirectoryEntry) -> bool {
        &&& self.name_start <= self.name_end <= archive.len()
        &&& entry.name == archive.subrange(self.name_start as int, self.name_end as int)
        &&& entry.method == self.method
        &&& entry.compressed_size == self.compressed_size
        &&& entry.uncompressed_size == self.uncompressed_size
        &&& entry.header_offset == self.header_offset
        &&& match self.next {
            Some(next) => next == entry.next,
            None => entry.next > usize::MAX,
        }
    }
}

/// Reads the entry of the central directory that starts at `at`.
fn read_entry_header(archive: &[u8], at: usize, end: usize) -> (r: Result<
    EntryHeader,
    ZipReadError,
>)
    requires
        at + CENTRAL_HEADER_LEN <= end <= archive@.len(),
    ensures
        match entry_at(archive@, at as int, end as int) {
            Ok(entry) => r is Ok && r->Ok_0.tells(archive@, entry) && r->Ok_0.name_start >= at
                && r->Ok_0.name_end <= end,
            Err(e) => r is Err && r->Err_0@ == e,
        },
{
    let n: usize = archive.len();
    let sig: u32 = match read_u32_le(archive, at) {
        Ok(v) => v,
        Err(e) => {
            return Err(e);
        },
    };
    if sig != CENTRAL_DIR_SIG {
        return Err(
            ZipReadError::BadSignature { offset: at, expected: CENTRAL_DIR_SIG, actual: sig },
        );
    }
    let name_start: usize = at + CENTRAL_HEADER_LEN;
    match (
        read_u16_le(archive, at + 10),
        read_u32_le(archive, at + 20),
        read_u32_le(archive, at + 24),
        read_u16_le(archive, at + 28),
        read_u16_le(archive, at + 30),
        read_u16_le(archive, at + 32),
        read_u32_le(archive, at + 42),
    ) {
        (
            Ok(method),
            Ok(compressed_size),
            Ok(uncompressed_size),
            Ok(name_len),
            Ok(extra_len),
            Ok(comment_len),
            Ok(header_offset),
        ) => {
            let name_len: usize = name_len as usize;
            if name_len > end - name_start {
                return Err(
                    ZipReadError::OffsetOutOfBounds { offset: name_start, len: name_len },
                );
            }
            let name_end: usize = name_start + name_len;
            let tail_len: usize = extra_len as usize + comment_len as usize;
            let next = name_end.checked_add(tail_len);
            Ok(
                EntryHeader {
                    name_start,
                    name_end,
                    method,
                    compressed_size,
                    uncompressed_size,
                    header_offset,
                    next,
                },
            )
        },
        _ => unreached(),
    }
}

/// Where the entry after `entry` starts, which is not beyond `end`.
fn next_entry(entry: &EntryHeader, end: usize) -> (r: Result<usize, ZipReadError>)
    ensures
        forall|archive: Seq<u8>, e: DirectoryEntry| #[trigger]
            entry.tells(archive, e) ==> if e.next > end {
                r is Err && r->Err_0@ == overrun(e.next)
            } else {
                r is Ok && r->Ok_0 == e.next
            },
{
    match entry.next {
        Some(next) => if next > end {
            Err(ZipReadError::OffsetOutOfBounds { offset: next, len: 0 })
        } else {
            Ok(next)
        },
        None => Err(ZipReadError::OffsetOutOfBounds { offset: usize::MAX, len: 0 }),
    }
}

/// The name of an entry, where it is valid UTF-8.
pub open spec fn name_text(name: Seq<u8>) -> Seq<Seq<char>> {
    if valid_utf8(name) {
        seq![decode_utf8(name)]
    } else {
        seq![]
    }
}

/// The names of the entries from the one at `at` to the end of the directory,
/// in the order of the directory. A name that is not valid UTF-8 is left out.
pub open spec fn names_from(archive: Seq<u8>, at: int, end: int) -> Result<
    Seq<Seq<char>>,
    ZipFailure,
>
    decreases end - at,
{
    if at + CENTRAL_HEADER_LEN > end {
        Ok(seq![])
    } else {
        match entry_at(archive, at, end) {
            Err(e) => Err(e),
            Ok(entry) => if entry.next > end {
                Err(overrun(entry.next))
            } else {
                match names_from(archive, entry.next, end) {
                    Err(e) => Err(e),
                    Ok(rest) => Ok(name_text(entry.name) + rest),
                }
            },
        }
    }
}

/// The names of the entries of `archive`.
pub open spec fn entry_names(archive: Seq<u8>) -> Result<Seq<Seq<char>>, ZipFailure> {
    match directory(archive) {
        Err(e) => Err(e),
        Ok((start, end)) => names_from(archive, start, end),
    }
}

/// What `String::from_utf8` of std says of bytes that are not valid UTF-8.
pub uninterp spec fn utf8_error(bytes: Seq<u8>) -> Seq<char>;

/// `String::from_utf8` of std: the text that `bytes` encode, or, where they are
/// not valid UTF-8, the message of the error.
#[verifier::external_body]
fn utf8_text(bytes: Vec<u8>) -> (r: Result<String, String>)
    ensures
        match r {
            Ok(s) => valid_utf8(bytes@) && s@ == decode_utf8(bytes@),
            Err(message) => !valid_utf8(bytes@) && message@ == utf8_error(bytes@),
        },
{
    String::from_utf8(bytes).map_err(|e| e.to_string())
}

/// Lists the names of the entries of `archive`, in the order of its directory.
/// Names that are not valid UTF-8 are left out.
pub fn list_entry_names(archive: &[u8]) -> (r: Result<Vec<String>, ZipReadError>)
    ensures
        match entry_names(archive@) {
            Ok(names) => r is Ok && texts(r->Ok_0@) == names,
            Err(e) => r is Err && r->Err_0@ == e,
        },
{
    let (start, end) = match read_directory(archive) {
        Ok(bounds) => bounds,
        Err(e) => {
            return Err(e);
        },
    };
    let mut names: Vec<String> = Vec::new();
    let mut cursor: usize = start;
    assert(texts(names@) =~= seq![]);
    proof {
        if let Ok(all) = names_from(archive@, start as int, end as int) {
            assert(Seq::<Seq<char>>::empty() + all =~= all);
        }
    }
    while end - cursor >= CENTRAL_HEADER_LEN
        invariant
            cursor <= end <= archive@.len(),
            match names_from(archive@, cursor as int, end as int) {
                Ok(rest) => entry_names(archive@) == Ok::<Seq<Seq<char>>, ZipFailure>(
                    texts(names@) + rest,
                ),
                Err(e) => entry_names(archive@) == Err::<Seq<Seq<char>>, ZipFailure>(e),
            },
        decreases end - cursor,
    {
        let entry = match read_entry_header(archive, cursor, end) {
            Ok(entry) => entry,
            Err(e) => {
                return Err(e);
            },
        };
        let ghost before = texts(names@);
        let ghost raw = archive@.subrange(entry.name_start as int, entry.name_end as int);
        match utf8_text(slice_to_vec(slice_subrange(archive, entry.name_start, entry.name_end))) {
            Ok(name) => {
                names.push(name);
                assert(texts(names@) =~= before.push(name@));
            },
            Err(_) => {},
        }
        assert(texts(names@) =~= before + name_text(raw));
        let next: usize = match next_entry(&entry, end) {
            Ok(next) => next,
            Err(e) => {
                return Err(e);
            },
        };
        proof {
            if let Ok(rest) = names_from(archive@, next as int, end as int) {
                assert(before + (name_text(raw) + rest) =~= texts(names@) + rest);
            }
        }
        cursor = next;
    }
    assert(texts(names@) + Seq::<Seq<char>>::empty() =~= texts(names@));
    Ok(names)
}

// ---------------------------------------------------------------------------
// Entries
// ---------------------------------------------------------------------------

/// The first entry named `name` from the one at `at` on. Entries behind it are
/// not looked at.
pub open spec fn entry_from(archive: Seq<u8>, at: int, end: int, name: Seq<u8>) -> Result<
    Option<DirectoryEntry>,
    ZipFailure,
>
    decreases end - at,
{
    if at + CENTRAL_HEADER_LEN > end {
        Ok(None)
    } else {
        match entry_at(archive, at, end) {
            Err(e) => Err(e),
            Ok(entry) => if entry.name == name {
                Ok(Some(entry))
            } else if entry.next > end {
                Err(overrun(entry.next))
            } else {
                entry_from(archive, entry.next, end, name)
            },
        }
    }
}

/// The first entry of `archive` named `name`.
pub open spec fn entry_named(archive: Seq<u8>, name: Seq<char>) -> Result<
    Option<DirectoryEntry>,
    ZipFailure,
> {
    match directory(archive) {
        Err(e) => Err(e),
        Ok((start, end)) => entry_from(archive, start, end, encode_utf8(name)),
    }
}

/// The data of an entry. The central directory tells the sizes and the method;
/// the lengths in the local header tell where the payload starts.
pub open spec fn entry_data(
    archive: Seq<u8>,
    header_offset: int,
    method: u16,
    compressed_size: u32,
    name: Seq<char>,
    cap: u64,
) -> Result<Seq<u8>, ZipFailure> {
    let start = header_offset + LOCAL_HEADER_LEN + le16(archive, header_offset + 26) + le16(
        archive,
        header_offset + 28,
    );
    let payload = archive.subrange(start, start + compressed_size);
    if header_offset + LOCAL_HEADER_LEN > archive.len() {
        Err(
            ZipFailure::OffsetOutOfBounds {
                offset: header_offset as usize,
                len: LOCAL_HEADER_LEN,
            },
        )
    } else if le32(archive, header_offset) != LOCAL_FILE_HEADER_SIG {
        Err(
            ZipFailure::BadSignature {
                offset: header_offset as usize,
                expected: LOCAL_FILE_HEADER_SIG,
                actual: le32(archive, header_offset),
            },
        )
    } else if start + compressed_size > archive.len() {
        Err(
            ZipFailure::OffsetOutOfBounds {
                offset: clamped(start),
                len: compressed_size as usize,
            },
        )
    } else if method == METHOD_STORED {
        if compressed_size > cap {
            Err(ZipFailure::EntryTooLarge { name, cap, actual: compressed_size as u64 })
        } else {
            Ok(payload)
        }
    } else if method == METHOD_DEFLATED {
        inflated(name, cap, payload)
    } else {
        Err(ZipFailure::UnsupportedCompression(method))
    }
}

/// The bytes of the entry of `archive` named `name`.
pub open spec fn entry_bytes(archive: Seq<u8>, name: Seq<char>, cap: u64) -> Result<
    Option<Seq<u8>>,
    ZipFailure,
> {
    match entry_named(archive, name) {
        Err(e) => Err(e),
        Ok(None) => Ok(None),
        Ok(Some(entry)) => if entry.uncompressed_size > cap {
            Err(
                ZipFailure::EntryTooLarge { name, cap, actual: entry.uncompressed_size as u64 },
            )
        } else {
            match entry_data(
                archive,
                entry.header_offset as int,
                entry.method,
                entry.compressed_size,
                name,
                cap,
            ) {
                Err(e) => Err(e),
                Ok(data) => Ok(Some(data)),
            }
        },
    }
}

/// Reads and decodes the payload of one entry.
fn decompress_entry(
    archive: &[u8],
    header_offset: usize,
    method: u16,
    compressed_size: u32,
    max_bytes: u64,
    entry_name: &str,
) -> (r: Result<Vec<u8>, ZipReadError>)
    ensures
        match entry_data(
            archive@,
            header_offset as int,
            method,
            compressed_size,
            entry_name@,
            max_bytes,
        ) {
            Ok(data) => r is Ok && r->Ok_0@ == data,
            Err(e) => r is Err && r->Err_0@ == e,
        },
        r is Ok ==> r->Ok_0@.len() <= max_bytes,
{
    let n: usize = archive.len();
    let size: usize = compressed_size as usize;
    if header_offset > n || n - header_offset < LOCAL_HEADER_LEN {
        return Err(
            ZipReadError::OffsetOutOfBounds { offset: header_offset, len: LOCAL_HEADER_LEN },
        );
    }
    let sig: u32 = match read_u32_le(archive, header_offset) {
        Ok(v) => v,
        Err(e) => {
            return Err(e);
        },
    };
    if sig != LOCAL_FILE_HEADER_SIG {
        return Err(
            ZipReadError::BadSignature {
                offset: header_offset,
                expected: LOCAL_FILE_HEADER_SIG,
                actual: sig,
            },
        );
    }
    let name_len: usize = match read_u16_le(archive, header_offset + 26) {
        Ok(v) => v as usize,
        Err(e) => {
            return Err(e);
        },
    };
    let extra_len: usize = match read_u16_le(archive, header_offset + 28) {
        Ok(v) => v as usize,
        Err(e) => {
            return Err(e);
        },
    };
    let start: usize = match (header_offset + LOCAL_HEADER_LEN).checked_add(name_len + extra_len) {
        Some(start) => start,
        None => {
            return Err(ZipReadError::OffsetOutOfBounds { offset: usize::MAX, len: size });
        },
    };
    if start > n || size > n - start {
        return Err(ZipReadError::OffsetOutOfBounds { offset: start, len: size });
    }
    let payload = slice_subrange(archive, start, start + size);
    if method == METHOD_STORED {
        if size as u64 > max_bytes {
            return Err(
                ZipReadError::EntryTooLarge {
                    name: entry_name.to_owned(),
                    cap: max_bytes,
                    actual: size as u64,
                },
            );
        }
        Ok(slice_to_vec(payload))
    } else if method == METHOD_DEFLATED {
        inflate_entry(payload, max_bytes, entry_name)
    } else {
        Err(ZipReadError::UnsupportedCompression(method))
    }
}

/// Whether `archive[from..to]` is `name`.
fn is_name(archive: &[u8], from: usize, to: usize, name: &[u8]) -> (r: bool)
    requires
        from <= to <= archive@.len(),
    ensures
        r == (archive@.subrange(from as int, to as int) == name@),
{
    let ghost part = archive@.subrange(from as int, to as int);
    if to - from != name.len() {
        return false;
    }
    let mut i: usize = 0;
    while i < name.len()
        invariant
            0 <= i <= name@.len() == to - from,
            from <= to <= archive@.len(),
            part == archive@.subrange(from as int, to as int),
            forall|k: int| 0 <= k < i ==> part[k] == name@[k],
        decreases name@.len() - i,
    {
        if archive[from + i] != name[i] {
            assert(part[i as int] != name@[i as int]);
            return false;
        }
        i = i + 1;
    }
    assert(part =~= name@);
    true
}

/// Reads the entry of `archive` named `entry_name`, up to `max_bytes` bytes.
/// Gives `Ok(None)` where there is no such entry.
pub fn read_entry_bytes(archive: &[u8], entry_name: &str, max_bytes: u64) -> (r: Result<
    Option<Vec<u8>>,
    ZipReadError,
>)
    ensures
        match entry_bytes(archive@, entry_name@, max_bytes) {
            Ok(None) => r is Ok && r->Ok_0 is None,
            Ok(Some(data)) => r is Ok && r->Ok_0 is Some && r->Ok_0->0@ == data,
            Err(e) => r is Err && r->Err_0@ == e,
        },
        r is Ok && r->Ok_0 is Some ==> r->Ok_0->0@.len() <= max_bytes,
{
    let (start, end) = match read_directory(archive) {
        Ok(bounds) => bounds,
        Err(e) => {
            return Err(e);
        },
    };
    let name = entry_name.as_bytes();
    let mut cursor: usize = start;
    while end - cursor >= CENTRAL_HEADER_LEN
        invariant
            cursor <= end <= archive@.len(),
            name@ == encode_utf8(entry_name@),
            entry_named(archive@, entry_name@) == entry_from(
                archive@,
                cursor as int,
                end as int,
                name@,
            ),
        decreases end - cursor,
    {
        let entry = match read_entry_header(archive, cursor, end) {
            Ok(entry) => entry,
            Err(e) => {
                return Err(e);
            },
        };
        if is_name(archive, entry.name_start, entry.name_end, name) {
            if entry.uncompressed_size as u64 > max_bytes {
                return Err(
                    ZipReadError::EntryTooLarge {
                        name: entry_name.to_owned(),
                        cap: max_bytes,
                        actual: entry.uncompressed_size as u64,
                    },
                );
            }
            return match decompress_entry(
                archive,
                entry.header_offset as usize,
                entry.method,
                entry.compressed_size,
                max_bytes,
                entry_name,
            ) {
                Ok(data) => Ok(Some(data)),
                Err(e) => Err(e),
            };
        }
        cursor =
        match next_entry(&entry, end) {
            Ok(next) => next,
            Err(e) => {
                return Err(e);
            },
        };
    }
    Ok(None)
}

/// The failure of an entry that was asked for as text and is none.
pub open spec fn not_text(name: Seq<char>, bytes: Seq<u8>) -> ZipFailure {
    ZipFailure::NotUtf8(
        "entry '"@ + name + "' is not valid UTF-8 ("@ + decimal(bytes.len()) + " bytes): "@
            + utf8_error(bytes),
    )
}

/// The text of the entry of `archive` named `name`.
pub open spec fn entry_text(archive: Seq<u8>, name: Seq<char>, cap: u64) -> Result<
    Option<Seq<char>>,
    ZipFailure,
> {
    match entry_bytes(archive, name, cap) {
        Err(e) => Err(e),
        Ok(None) => Ok(None),
        Ok(Some(bytes)) => if valid_utf8(bytes) {
            Ok(Some(decode_utf8(bytes)))
        } else {
            Err(not_text(name, bytes))
        },
    }
}

/// Reads the entry of `archive` named `entry_name` as text. Gives `Ok(None)`
/// where there is no such entry.
pub fn read_entry_text(archive: &[u8], entry_name: &str, max_bytes: u64) -> (r: Result<
    Option<String>,
    ZipReadError,
>)
    ensures
        match entry_text(archive@, entry_name@, max_bytes) {
            Ok(None) => r is Ok && r->Ok_0 is None,
            Ok(Some(content)) => r is Ok && r->Ok_0 is Some && r->Ok_0->0@ == content,
            Err(e) => r is Err && r->Err_0@ == e,
        },
        r is Ok && r->Ok_0 is Some ==> encode_utf8(r->Ok_0->0@).len() <= max_bytes,
{
    let bytes = match read_entry_bytes(archive, entry_name, max_bytes) {
        Ok(Some(bytes)) => bytes,
        Ok(None) => {
            return Ok(None);
        },
        Err(e) => {
            return Err(e);
        },
    };
    let len: usize = bytes.len();
    let ghost raw = bytes@;
    match utf8_text(bytes) {
        Ok(content) => {
            proof {
                decode_utf8_encode_utf8(raw);
            }
            Ok(Some(content))
        },
        Err(reason) => {
            let mut message = String::new();
            message.append("entry '");
            message.append(entry_name);
            message.append("' is not valid UTF-8 (");
            message.append(decimal_text(len as u64).as_str());
            message.append(" bytes): ");
            message.append(reason.as_str());
            assert(message@ =~= "entry '"@ + entry_name@ + "' is not valid UTF-8 ("@ + decimal(
                raw.len(),
            ) + " bytes): "@ + utf8_error(raw));
            Err(ZipReadError::NotUtf8(message))
        },
    }
}

// ---------------------------------------------------------------------------
// Groups of entries
// ---------------------------------------------------------------------------

/// A byte count as far as a `u64` can tell it.
pub open spec fn counted(n: nat) -> u64 {
    if n <= u64::MAX {
        n as u64
    } else {
        u64::MAX
    }
}

/// The texts of those of the entries `names` whose name starts with `prefix`,
/// added to `got`, whose texts hold `total` bytes.
pub open spec fn texts_from(
    archive: Seq<u8>,
    names: Seq<Seq<char>>,
    prefix: Seq<char>,
    entry_cap: u64,
    total_cap: u64,
    total: nat,
    got: Map<Seq<char>, Seq<char>>,
) -> Result<Map<Seq<char>, Seq<char>>, ZipFailure>
    decreases names.len(),
{
    if names.len() == 0 {
        Ok(got)
    } else {
        let name = names.first();
        let rest = names.drop_first();
        if !has_prefix(name, prefix) {
            texts_from(archive, rest, prefix, entry_cap, total_cap, total, got)
        } else {
            match entry_text(archive, name, entry_cap) {
                Err(e) => Err(e),
                Ok(None) => texts_from(archive, rest, prefix, entry_cap, total_cap, total, got),
                Ok(Some(content)) => {
                    let sum = total + encode_utf8(content).len();
                    if sum > total_cap {
                        Err(
                            ZipFailure::EntryTooLarge {
                                name,
                                cap: total_cap,
                                actual: counted(sum),
                            },
                        )
                    } else {
                        texts_from(
                            archive,
                            rest,
                            prefix,
                            entry_cap,
                            total_cap,
                            sum,
                            got.insert(name, content),
                        )
                    }
                },
            }
        }
    }
}

/// The texts of the entries of `archive` whose name starts with `prefix`, by name.
pub open spec fn prefix_texts(
    archive: Seq<u8>,
    prefix: Seq<char>,
    entry_cap: u64,
    total_cap: u64,
) -> Result<Map<Seq<char>, Seq<char>>, ZipFailure> {
    match entry_names(archive) {
        Err(e) => Err(e),
        Ok(names) => texts_from(archive, names, prefix, entry_cap, total_cap, 0, Map::empty()),
    }
}

/// Whether `pairs` hold what `map` does, each key once.
pub open spec fn pairs_of(
    pairs: Seq<(String, String)>,
    map: Map<Seq<char>, Seq<char>>,
) -> bool {
    &&& forall|i: int, j: int|
        0 <= i < j < pairs.len() ==> (#[trigger] pairs[i]).0@ != (#[trigger] pairs[j]).0@
    &&& forall|i: int|
        0 <= i < pairs.len() ==> map.contains_key((#[trigger] pairs[i]).0@)
            && map[pairs[i].0@] == pairs[i].1@
    &&& forall|k: Seq<char>| #[trigger]
        map.contains_key(k) ==> exists|i: int|
            0 <= i < pairs.len() && (#[trigger] pairs[i]).0@ == k
}

/// Puts `content` under `name` into `pairs`, in place of what stood there.
fn put(
    pairs: &mut Vec<(String, String)>,
    name: String,
    content: String,
    Ghost(map): Ghost<Map<Seq<char>, Seq<char>>>,
)
    requires
        pairs_of(old(pairs)@, map),
    ensures
        pairs_of(final(pairs)@, map.insert(name@, content@)),
{
    let ghost before = pairs@;
    let ghost after = map.insert(name@, content@);
    let mut i: usize = 0;
    while i < pairs.len()
        invariant
            0 <= i <= pairs@.len(),
            pairs@ == before,
            pairs_of(before, map),
            after == map.insert(name@, content@),
            forall|k: int| 0 <= k < i ==> (#[trigger] before[k]).0@ != name@,
        decreases pairs@.len() - i,
    {
        if same_text(pairs[i].0.as_str(), name.as_str()) {
            let ghost at = i as int;
            let ghost after_name = name@;
            pairs[i] = (name, content);
            assert forall|k: Seq<char>| #[trigger] after.contains_key(k) implies exists|j: int|
                0 <= j < pairs@.len() && (#[trigger] pairs@[j]).0@ == k by {
                if k == after_name {
                    assert(pairs@[at].0@ == k);
                } else {
                    assert(map.contains_key(k));
                    let j = choose|j: int| 0 <= j < before.len() && (#[trigger] before[j]).0@ == k;
                    assert(pairs@[j].0@ == k);
                }
            }
            return ;
        }
        i = i + 1;
    }
    pairs.push((name, content));
    assert forall|k: Seq<char>| #[trigger] after.contains_key(k) implies exists|j: int|
        0 <= j < pairs@.len() && (#[trigger] pairs@[j]).0@ == k by {
        if k == name@ {
            assert(pairs@[before.len() as int].0@ == k);
        } else {
            let j = choose|j: int| 0 <= j < before.len() && (#[trigger] before[j]).0@ == k;
            assert(pairs@[j].0@ == k);
        }
    }
}

/// Reads as text every entry of `archive` whose name starts with `prefix`: each
/// name once, with its text. `max_entry_bytes` caps each entry,
/// `max_total_bytes` the sum over the entries.
pub fn read_entries_with_prefix(
    archive: &[u8],
    prefix: &str,
    max_entry_bytes: u64,
    max_total_bytes: u64,
) -> (r: Result<Vec<(String, String)>, ZipReadError>)
    ensures
        match prefix_texts(archive@, prefix@, max_entry_bytes, max_total_bytes) {
            Ok(map) => r is Ok && pairs_of(r->Ok_0@, map),
            Err(e) => r is Err && r->Err_0@ == e,
        },
{
    let names = match list_entry_names(archive) {
        Ok(names) => names,
        Err(e) => {
            return Err(e);
        },
    };
    let ghost all = texts(names@);
    let ghost mut map: Map<Seq<char>, Seq<char>> = Map::empty();
    let mut out: Vec<(String, String)> = Vec::new();
    let mut total: u64 = 0;
    let mut i: usize = 0;
    assert(all.skip(0) =~= all);
    while i < names.len()
        invariant
            0 <= i <= names@.len(),
            all == texts(names@),
            pairs_of(out@, map),
            prefix_texts(archive@, prefix@, max_entry_bytes, max_total_bytes) == texts_from(
                archive@,
                all.skip(i as int),
                prefix@,
                max_entry_bytes,
                max_total_bytes,
                total as nat,
                map,
            ),
        decreases names@.len() - i,
    {
        assert(all.skip(i as int).first() == names@[i as int]@);
        assert(all.skip(i as int).drop_first() =~= all.skip(i as int + 1));
        if starts_with(names[i].as_str(), prefix) {
            match read_entry_text(archive, names[i].as_str(), max_entry_bytes) {
                Err(e) => {
                    return Err(e);
                },
                Ok(None) => {},
                Ok(Some(content)) => {
                    let len: u64 = content.as_str().as_bytes().len() as u64;
                    let name = names[i].clone();
                    match total.checked_add(len) {
                        None => {
                            return Err(
                                ZipReadError::EntryTooLarge {
                                    name,
                                    cap: max_total_bytes,
                                    actual: u64::MAX,
                                },
                            );
                        },
                        Some(sum) => {
                            if sum > max_total_bytes {
                                return Err(
                                    ZipReadError::EntryTooLarge {
                                        name,
                                        cap: max_total_bytes,
                                        actual: sum,
                                    },
                                );
                            }
                            total = sum;
                        },
                    }
                    let ghost entry = (name@, content@);
                    put(&mut out, name, content, Ghost(map));
                    proof {
                        map = map.insert(entry.0, entry.1);
                    }
                },
            }
        }
        i = i + 1;
    }
    Ok(out)
}

} // verus!
