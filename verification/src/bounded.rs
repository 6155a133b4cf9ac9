//! Which files are read whole.

use vstd::prelude::*;
use vstd::string::*;

use crate::errors::labelled;
use crate::fs::{FileKind, FileStat};
use crate::text::{decimal, decimal_text};

verus! {

/// Why a file is not read, in words.
#[derive(Debug)]
pub enum ReadRefusal {
    NotAFile(String),
    TooLarge(String),
}

/// A [`ReadRefusal`] with its words as a character sequence.
pub enum Refusal {
    NotAFile(Seq<char>),
    TooLarge(Seq<char>),
}

impl View for ReadRefusal {
    type V = Refusal;

    open spec fn view(&self) -> Refusal {
        match *self {
            ReadRefusal::NotAFile(s) => Refusal::NotAFile(s@),
            ReadRefusal::TooLarge(s) => Refusal::TooLarge(s@),
        }
    }
}

/// Whether what is at `path` is read: it is a file of at most `max_bytes` bytes.
/// `verb` tells what it exceeds where it is larger.
pub open spec fn readable(
    path: Seq<char>,
    stat: FileStat,
    max_bytes: u64,
    verb: Seq<char>,
) -> Result<(), Refusal> {
    if stat.kind != FileKind::File {
        Err(Refusal::NotAFile("not a regular file: "@ + path))
    } else if stat.len > max_bytes {
        Err(
            Refusal::TooLarge(
                path + " is "@ + decimal(stat.len as nat) + " bytes, "@ + verb + decimal(
                    max_bytes as nat,
                ),
            ),
        )
    } else {
        Ok(())
    }
}

fn check(path: &str, stat: FileStat, max_bytes: u64, verb: &str) -> (r: Result<(), ReadRefusal>)
    ensures
        match readable(path@, stat, max_bytes, verb@) {
            Ok(_) => r is Ok,
            Err(e) => r is Err && r->Err_0@ == e,
        },
{
    if stat.kind != FileKind::File {
        return Err(ReadRefusal::NotAFile(labelled("not a regular file: ", path)));
    }
    if stat.len > max_bytes {
        let mut message = path.to_owned();
        message.append(" is ");
        message.append(decimal_text(stat.len).as_str());
        message.append(" bytes, ");
        message.append(verb);
        message.append(decimal_text(max_bytes).as_str());
        return Err(ReadRefusal::TooLarge(message));
    }
    Ok(())
}

/// Whether the file at `path` is read.
pub fn check_file(path: &str, stat: FileStat, max_bytes: u64) -> (r: Result<(), ReadRefusal>)
    ensures
        match readable(path@, stat, max_bytes, "exceeds cap of "@) {
            Ok(_) => r is Ok,
            Err(e) => r is Err && r->Err_0@ == e,
        },
{
    check(path, stat, max_bytes, "exceeds cap of ")
}

/// Whether the archive at `path` is read.
pub fn check_archive(path: &str, stat: FileStat, max_bytes: u64) -> (r: Result<(), ReadRefusal>)
    ensures
        match readable(path@, stat, max_bytes, "archive exceeds cap of "@) {
            Ok(_) => r is Ok,
            Err(e) => r is Err && r->Err_0@ == e,
        },
{
    check(path, stat, max_bytes, "archive exceeds cap of ")
}

} // verus!
