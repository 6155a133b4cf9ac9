//! What can go wrong while an archive is read.

use vstd::prelude::*;
use vstd::string::*;

use crate::text::{decimal, decimal_text, hexadecimal, hexadecimal_text};

verus! {

/// Single failure type for the archive reader. An entry that is not there is no
/// failure: the readers answer `Ok(None)`.
#[allow(inconsistent_fields)]
#[derive(Debug)]
pub enum ZipReadError {
    /// The buffer is too small or holds no end-of-central-directory record.
    NotAZip,
    /// A header does not start with its signature.
    BadSignature { offset: usize, expected: u32, actual: u32 },
    /// An offset or a length taken from a header leads out of the archive.
    OffsetOutOfBounds { offset: usize, len: usize },
    /// The entry uses a compression method other than Stored and Deflated.
    UnsupportedCompression(u16),
    /// The entry, or the entries together, exceed the caller's byte cap.
    EntryTooLarge { name: String, cap: u64, actual: u64 },
    /// The deflate decoder failed.
    Inflate(String),
    /// The caller asked for text and the payload is not valid UTF-8.
    NotUtf8(String),
}

/// A [`ZipReadError`] with its texts as character sequences.
#[allow(inconsistent_fields)]
pub enum ZipFailure {
    NotAZip,
    BadSignature { offset: usize, expected: u32, actual: u32 },
    OffsetOutOfBounds { offset: usize, len: usize },
    UnsupportedCompression(u16),
    EntryTooLarge { name: Seq<char>, cap: u64, actual: u64 },
    Inflate(Seq<char>),
    NotUtf8(Seq<char>),
}

impl View for ZipReadError {
    type V = ZipFailure;

    open spec fn view(&self) -> ZipFailure {
        match *self {
            ZipReadError::NotAZip => ZipFailure::NotAZip,
            ZipReadError::BadSignature { offset, expected, actual } => ZipFailure::BadSignature {
                offset,
                expected,
                actual,
            },
            ZipReadError::OffsetOutOfBounds { offset, len } => ZipFailure::OffsetOutOfBounds {
                offset,
                len,
            },
            ZipReadError::UnsupportedCompression(m) => ZipFailure::UnsupportedCompression(m),
            ZipReadError::EntryTooLarge { name, cap, actual } => ZipFailure::EntryTooLarge {
                name: name@,
                cap,
                actual,
            },
            ZipReadError::Inflate(s) => ZipFailure::Inflate(s@),
            ZipReadError::NotUtf8(s) => ZipFailure::NotUtf8(s@),
        }
    }
}

impl ZipFailure {
    /// The message that tells of the failure.
    pub open spec fn message(self) -> Seq<char> {
        match self {
            ZipFailure::NotAZip => "not a zip archive (missing EOCD record)"@,
            ZipFailure::BadSignature { offset, expected, actual } => "bad signature at offset "@
                + decimal(offset as nat) + ": expected 0x"@ + hexadecimal(expected as nat, 8)
                + ", got 0x"@ + hexadecimal(actual as nat, 8),
            ZipFailure::OffsetOutOfBounds { offset, len } => "offset "@ + decimal(offset as nat)
                + "+"@ + decimal(len as nat) + " exceeds archive bounds"@,
            ZipFailure::UnsupportedCompression(m) => "unsupported compression method "@ + decimal(
                m as nat,
            ) + " (only Stored and Deflated are supported)"@,
            ZipFailure::EntryTooLarge { name, cap, actual } => "entry '"@ + name
                + "' decompresses to "@ + decimal(actual as nat) + " bytes, exceeds cap of "@
                + decimal(cap as nat),
            ZipFailure::Inflate(s) => "deflate decode error: "@ + s,
            ZipFailure::NotUtf8(s) => s,
        }
    }
}

impl ZipReadError {
    /// The message that tells of the failure.
    pub fn to_string(&self) -> (r: String)
        ensures
            r@ == self@.message(),
    {
        let mut r = String::new();
        match self {
            ZipReadError::NotAZip => {
                r.append("not a zip archive (missing EOCD record)");
            },
            ZipReadError::BadSignature { offset, expected, actual } => {
                r.append("bad signature at offset ");
                r.append(decimal_text(*offset as u64).as_str());
                r.append(": expected 0x");
                r.append(hexadecimal_text(*expected, 8).as_str());
                r.append(", got 0x");
                r.append(hexadecimal_text(*actual, 8).as_str());
            },
            ZipReadError::OffsetOutOfBounds { offset, len } => {
                r.append("offset ");
                r.append(decimal_text(*offset as u64).as_str());
                r.append("+");
                r.append(decimal_text(*len as u64).as_str());
                r.append(" exceeds archive bounds");
            },
            ZipReadError::UnsupportedCompression(m) => {
                r.append("unsupported compression method ");
                r.append(decimal_text(*m as u64).as_str());
                r.append(" (only Stored and Deflated are supported)");
            },
            ZipReadError::EntryTooLarge { name, cap, actual } => {
                r.append("entry '");
                r.append(name.as_str());
                r.append("' decompresses to ");
                r.append(decimal_text(*actual).as_str());
                r.append(" bytes, exceeds cap of ");
                r.append(decimal_text(*cap).as_str());
            },
            ZipReadError::Inflate(s) => {
                r.append("deflate decode error: ");
                r.append(s.as_str());
            },
            ZipReadError::NotUtf8(s) => {
                r.append(s.as_str());
            },
        }
        assert(r@ =~= self@.message());
        r
    }
}

} // verus!
