//! What the words of every error say.

use vstd::prelude::*;

use crate::bounded::{readable, Refusal};
use crate::errors::{SearchFailure, ToolFailure};
use crate::fs::{FileKind, FileStat};
use crate::text::{decimal, hexadecimal};
use crate::zip_error::ZipFailure;

verus! {

/// The words of an error of a tool say what kind it is and end with what it holds.
pub proof fn law_messages_of_tools(s: Seq<char>, inner: SearchFailure)
    ensures
        ToolFailure::InvalidPath(s).message() == "Invalid path: "@ + s,
        ToolFailure::PathEscapesWorkspace(s).message() == "Path escapes workspace: "@ + s,
        ToolFailure::NotFound(s).message() == "Path not found: "@ + s,
        ToolFailure::NotAFile(s).message() == "Not a regular file: "@ + s,
        ToolFailure::NotADirectory(s).message() == "Not a directory: "@ + s,
        ToolFailure::TooLarge(s).message() == "Operation exceeds size budget: "@ + s,
        ToolFailure::AlreadyExists(s).message() == "Path already exists: "@ + s,
        ToolFailure::RecursiveRequired(s).message() == "Recursive flag required: "@ + s,
        ToolFailure::InvalidArgument(s).message() == "Invalid argument: "@ + s,
        ToolFailure::InvalidGlob(s).message() == "Invalid glob: "@ + s,
        ToolFailure::Io(s).message() == "I/O error: "@ + s,
        ToolFailure::Search(inner).message() == inner.message(),
        SearchFailure::InvalidRegex(s).message() == "Invalid regex: "@ + s,
        SearchFailure::InvalidGlob(s).message() == "Invalid glob: "@ + s,
        SearchFailure::Walk(s).message() == "Cannot walk search root: "@ + s,
{
}

/// The words of an error of the reader of archives say what kind it is, and with it all
/// the numbers and names that it holds.
pub proof fn law_messages_of_archives(s: Seq<char>, a: usize, b: usize, c: u32, d: u32, m: u16)
    ensures
        ZipFailure::NotAZip.message() == "not a zip archive (missing EOCD record)"@,
        (ZipFailure::BadSignature { offset: a, expected: c, actual: d }).message()
            == "bad signature at offset "@ + decimal(a as nat) + ": expected 0x"@ + hexadecimal(
            c as nat,
            8,
        ) + ", got 0x"@ + hexadecimal(d as nat, 8),
        (ZipFailure::OffsetOutOfBounds { offset: a, len: b }).message() == "offset "@ + decimal(
            a as nat,
        ) + "+"@ + decimal(b as nat) + " exceeds archive bounds"@,
        ZipFailure::UnsupportedCompression(m).message() == "unsupported compression method "@
            + decimal(m as nat) + " (only Stored and Deflated are supported)"@,
        (ZipFailure::EntryTooLarge { name: s, cap: c as u64, actual: d as u64 }).message()
            == "entry '"@ + s + "' decompresses to "@ + decimal(d as nat)
            + " bytes, exceeds cap of "@ + decimal(c as nat),
        ZipFailure::Inflate(s).message() == "deflate decode error: "@ + s,
        ZipFailure::NotUtf8(s).message() == s,
{
}

/// What may be read is just a file that is no larger than the limit. The refusal of
/// anything else says why.
pub proof fn law_what_may_be_read(path: Seq<char>, stat: FileStat, limit: u64, verb: Seq<char>)
    ensures
        readable(path, stat, limit, verb) is Ok <==> stat.kind == FileKind::File && stat.len
            <= limit,
        stat.kind != FileKind::File ==> readable(path, stat, limit, verb) == Err::<(), Refusal>(
            Refusal::NotAFile("not a regular file: "@ + path),
        ),
        stat.kind == FileKind::File && stat.len > limit ==> readable(path, stat, limit, verb)
            == Err::<(), Refusal>(
            Refusal::TooLarge(
                path + " is "@ + decimal(stat.len as nat) + " bytes, "@ + verb + decimal(
                    limit as nat,
                ),
            ),
        ),
{
}

} // verus!
