//! What holds of the fields of every archive, byte by byte.

use vstd::prelude::*;
use vstd::utf8::{
    decode_utf8, decode_utf8_encode_utf8, encode_utf8, encode_utf8_decode_utf8,
    encode_utf8_valid_utf8, valid_utf8,
};

use crate::inflate::{
    inflate_result, inflated, inflated_from, InflateFault, InflateStatus,
};
use crate::text::decimal;
use crate::text_laws::{law_prefixes, smaller};
use crate::zip_error::ZipFailure;
use crate::zip_laws::law_end_record_is_last;
use crate::zip_reader::{
    directory, end_record, entry_at, entry_bytes, entry_from, entry_named, entry_names,
    entry_text, le16, le32, name_text, names_from, prefix_texts, texts_from, utf8_error,
    DirectoryEntry,
};

verus! {

// ---------------------------------------------------------------------------
// Numbers and signatures
// ---------------------------------------------------------------------------

/// The number that two bytes hold, the smaller first.
pub open spec fn two_bytes(buf: Seq<u8>, at: int) -> int {
    buf[at] + 256 * buf[at + 1]
}

/// The number that four bytes hold, the smallest first.
pub open spec fn four_bytes(buf: Seq<u8>, at: int) -> int {
    two_bytes(buf, at) + 65536 * two_bytes(buf, at + 2)
}

/// Whether a record of the given kind starts here: two letters and two numbers.
pub open spec fn record_at(buf: Seq<u8>, at: int, a: u8, b: u8) -> bool {
    buf[at] == 0x50 && buf[at + 1] == 0x4b && buf[at + 2] == a && buf[at + 3] == b
}

/// Numbers are read with their smallest byte first.
pub proof fn law_numbers(buf: Seq<u8>, at: int)
    ensures
        le16(buf, at) == two_bytes(buf, at),
        le32(buf, at) == four_bytes(buf, at),
{
}

proof fn lemma_signatures(buf: Seq<u8>, at: int)
    ensures
        le32(buf, at) == 0x06054b50 <==> record_at(buf, at, 5, 6),
        le32(buf, at) == 0x02014b50 <==> record_at(buf, at, 1, 2),
        le32(buf, at) == 0x04034b50 <==> record_at(buf, at, 3, 4),
{
    law_numbers(buf, at);
}

// ---------------------------------------------------------------------------
// The directory
// ---------------------------------------------------------------------------

/// Whether an end record can start here: it fits, and what follows it is no longer than a
/// comment.
pub open spec fn may_end_at(archive: Seq<u8>, at: int) -> bool {
    0 <= at && at + 22 <= archive.len() <= at + 22 + 65535
}

/// The directory of an archive is where its last end record says, as long as that says. An
/// archive without an end record is none, and one whose directory leads out of it is
/// refused.
pub proof fn law_where_the_directory_is(archive: Seq<u8>)
    ensures
        directory(archive) == Err::<(int, int), ZipFailure>(ZipFailure::NotAZip) <==> forall|
            at: int,
        |
            may_end_at(archive, at) ==> !#[trigger] record_at(archive, at, 5, 6),
        forall|at: int|
            may_end_at(archive, at) && #[trigger] record_at(archive, at, 5, 6) && (forall|
                later: int,
            |
                at < later && may_end_at(archive, later) ==> !#[trigger] record_at(
                    archive,
                    later,
                    5,
                    6,
                )) ==> {
                let start = four_bytes(archive, at + 16);
                let size = four_bytes(archive, at + 12);
                directory(archive) == if start + size > archive.len() {
                    Err(
                        ZipFailure::OffsetOutOfBounds {
                            offset: start as usize,
                            len: size as usize,
                        },
                    )
                } else {
                    Ok((start, start + size))
                }
            },
{
    law_end_record_is_last(archive);
    assert forall|at: int| #[trigger] record_at(archive, at, 5, 6) <==> le32(archive, at)
        == 0x06054b50 by {
        lemma_signatures(archive, at);
    }
    match end_record(archive) {
        Some(i) => {
            law_numbers(archive, i + 16);
            law_numbers(archive, i + 12);
            assert(record_at(archive, i, 5, 6));
            assert(may_end_at(archive, i));
            assert forall|at: int|
                may_end_at(archive, at) && #[trigger] record_at(archive, at, 5, 6) && (forall|
                    later: int,
                |
                    at < later && may_end_at(archive, later) ==> !#[trigger] record_at(
                        archive,
                        later,
                        5,
                        6,
                    )) implies at == i by {
                if at < i {
                    assert(!record_at(archive, i, 5, 6));
                }
                if i < at {
                    assert(le32(archive, at) != 0x06054b50);
                }
            }
        },
        None => {
            assert forall|at: int| may_end_at(archive, at) implies !#[trigger] record_at(
                archive,
                at,
                5,
                6,
            ) by {
                assert(le32(archive, at) != 0x06054b50);
            }
        },
    }
}

/// An entry of the directory is read field by field. It is refused where its signature is
/// not there or its name leads out of the directory.
pub proof fn law_entries_of_the_directory(archive: Seq<u8>, at: int, end: int)
    ensures
        ({
            let name_len = two_bytes(archive, at + 28);
            match entry_at(archive, at, end) {
                Ok(entry) => {
                    &&& record_at(archive, at, 1, 2)
                    &&& at + 46 + name_len <= end
                    &&& entry.name == archive.subrange(at + 46, at + 46 + name_len)
                    &&& entry.method == two_bytes(archive, at + 10)
                    &&& entry.compressed_size == four_bytes(archive, at + 20)
                    &&& entry.uncompressed_size == four_bytes(archive, at + 24)
                    &&& entry.header_offset == four_bytes(archive, at + 42)
                    &&& entry.next == at + 46 + name_len + two_bytes(archive, at + 30) + two_bytes(
                        archive,
                        at + 32,
                    )
                },
                Err(ZipFailure::BadSignature { offset, expected, actual }) => {
                    &&& !record_at(archive, at, 1, 2)
                    &&& offset == at as usize
                    &&& expected == 0x02014b50
                    &&& actual == four_bytes(archive, at)
                },
                Err(ZipFailure::OffsetOutOfBounds { offset, len }) => {
                    &&& record_at(archive, at, 1, 2)
                    &&& at + 46 + name_len > end
                    &&& offset == (at + 46) as usize
                    &&& len == name_len
                },
                Err(_) => false,
            }
        }),
{
    lemma_signatures(archive, at);
    law_numbers(archive, at);
    law_numbers(archive, at + 10);
    law_numbers(archive, at + 20);
    law_numbers(archive, at + 24);
    law_numbers(archive, at + 28);
    law_numbers(archive, at + 30);
    law_numbers(archive, at + 32);
    law_numbers(archive, at + 42);
}

/// Whether entry `i` is in the directory where it starts, and ends where the next starts.
pub open spec fn is_entry(
    archive: Seq<u8>,
    starts: Seq<int>,
    entries: Seq<DirectoryEntry>,
    end: int,
    i: int,
) -> bool {
    &&& starts[i] + 46 <= end
    &&& entry_at(archive, starts[i], end) == Ok::<DirectoryEntry, ZipFailure>(entries[i])
    &&& entries[i].next == starts[i + 1]
    &&& starts[i + 1] <= end
}

/// Whether the entries of the directory start at these places: the first at its start, each
/// where the one before it ends, all in the directory, and no other has room behind
/// the last.
pub open spec fn are_entries(
    archive: Seq<u8>,
    starts: Seq<int>,
    entries: Seq<DirectoryEntry>,
    start: int,
    end: int,
) -> bool {
    &&& starts.len() == entries.len() + 1
    &&& starts[0] == start
    &&& forall|i: int|
        0 <= i < entries.len() ==> #[trigger] is_entry(archive, starts, entries, end, i)
    &&& starts[entries.len() as int] + 46 > end
}

/// The texts of the names of entries, without those that are no text.
pub open spec fn name_texts_of(entries: Seq<DirectoryEntry>) -> Seq<Seq<char>>
    decreases entries.len(),
{
    if entries.len() == 0 {
        seq![]
    } else if valid_utf8(entries[0].name) {
        seq![decode_utf8(entries[0].name)] + name_texts_of(entries.drop_first())
    } else {
        name_texts_of(entries.drop_first())
    }
}

proof fn lemma_entry_before(
    archive: Seq<u8>,
    starts: Seq<int>,
    entries: Seq<DirectoryEntry>,
    entry: DirectoryEntry,
    at: int,
    end: int,
)
    requires
        are_entries(archive, starts, entries, entry.next, end),
        at + 46 <= end,
        entry_at(archive, at, end) == Ok::<DirectoryEntry, ZipFailure>(entry),
        entry.next <= end,
    ensures
        are_entries(archive, seq![at] + starts, seq![entry] + entries, at, end),
{
    let all = seq![at] + starts;
    let each = seq![entry] + entries;
    assert forall|i: int| 0 <= i < each.len() implies #[trigger] is_entry(
        archive,
        all,
        each,
        end,
        i,
    ) by {
        if i > 0 {
            assert(is_entry(archive, starts, entries, end, i - 1));
        }
        if i == 0 {
            assert(all[1] == starts[0]);
        } else {
            assert(each[i] == entries[i - 1]);
            assert(all[i] == starts[i - 1]);
            assert(all[i + 1] == starts[i]);
        }
    }
    assert(all[each.len() as int] == starts[entries.len() as int]);
}

proof fn lemma_names_from(archive: Seq<u8>, at: int, end: int) -> (r: (
    Seq<int>,
    Seq<DirectoryEntry>,
))
    requires
        names_from(archive, at, end) is Ok,
    ensures
        are_entries(archive, r.0, r.1, at, end),
        names_from(archive, at, end)->Ok_0 == name_texts_of(r.1),
    decreases end - at,
{
    if at + 46 > end {
        (seq![at], seq![])
    } else {
        let entry = entry_at(archive, at, end)->Ok_0;
        law_entries_of_the_directory(archive, at, end);
        let (starts, entries) = lemma_names_from(archive, entry.next, end);
        let each = seq![entry] + entries;
        lemma_entry_before(archive, starts, entries, entry, at, end);
        assert(each.drop_first() =~= entries);
        assert(each[0] == entry);
        assert(name_texts_of(each) =~= name_text(entry.name) + name_texts_of(entries));
        (seq![at] + starts, each)
    }
}

/// The names of an archive are those of all the entries of its directory, in their order,
/// each as often as it is there, without those that are no text.
pub proof fn law_the_names_of_an_archive(archive: Seq<u8>) -> (r: (Seq<int>, Seq<DirectoryEntry>))
    requires
        entry_names(archive) is Ok,
    ensures
        directory(archive) is Ok,
        are_entries(archive, r.0, r.1, directory(archive)->Ok_0.0, directory(archive)->Ok_0.1),
        entry_names(archive)->Ok_0 == name_texts_of(r.1),
{
    let (start, end) = directory(archive)->Ok_0;
    lemma_names_from(archive, start, end)
}

/// Whether the entries of the directory can be followed from `at` for `n` entries, to
/// `now`.
pub open spec fn follows_to(archive: Seq<u8>, at: int, end: int, n: nat, now: int) -> bool
    decreases n,
{
    if n == 0 {
        now == at
    } else {
        at + 46 <= end && match entry_at(archive, at, end) {
            Ok(entry) => entry.next <= end && follows_to(
                archive,
                entry.next,
                end,
                (n - 1) as nat,
                now,
            ),
            Err(_) => false,
        }
    }
}

/// Whether the directory goes wrong at `at`, with this failure.
pub open spec fn goes_wrong(archive: Seq<u8>, at: int, end: int, failure: ZipFailure) -> bool {
    at + 46 <= end && match entry_at(archive, at, end) {
        Err(e) => failure == e,
        Ok(entry) => entry.next > end && (failure matches ZipFailure::OffsetOutOfBounds {
            offset,
            len,
        } && len == 0 && (entry.next <= usize::MAX ==> offset == entry.next) && (entry.next
            > usize::MAX ==> offset == usize::MAX)),
    }
}

/// The names of an archive with a directory are refused only where an entry is wrong that
/// the entries before it lead to, and for what is wrong there.
pub proof fn law_when_names_are_refused(archive: Seq<u8>, at: int, end: int) -> (r: (nat, int))
    requires
        names_from(archive, at, end) is Err,
        0 <= at,
    ensures
        follows_to(archive, at, end, r.0, r.1),
        goes_wrong(archive, r.1, end, names_from(archive, at, end)->Err_0),
    decreases end - at,
{
    match entry_at(archive, at, end) {
        Err(_) => (0, at),
        Ok(entry) => if entry.next > end {
            (0, at)
        } else {
            let (n, now) = law_when_names_are_refused(archive, entry.next, end);
            ((n + 1) as nat, now)
        },
    }
}

// ---------------------------------------------------------------------------
// One entry
// ---------------------------------------------------------------------------

/// An entry is found by its name: the first in the directory whose name encodes it.
pub proof fn law_which_entry_is_found(archive: Seq<u8>, at: int, end: int, name: Seq<u8>) -> (r: (
    nat,
    int,
))
    requires
        entry_from(archive, at, end, name) matches Ok(Some(_)),
    ensures
        follows_to(archive, at, end, r.0, r.1),
        r.1 + 46 <= end,
        entry_at(archive, r.1, end) == Ok::<DirectoryEntry, ZipFailure>(
            entry_from(archive, at, end, name)->Ok_0->0,
        ),
        entry_from(archive, at, end, name)->Ok_0->0.name == name,
        forall|k: nat, now: int|
            k < r.0 && #[trigger] follows_to(archive, at, end, k, now) ==> entry_at(
                archive,
                now,
                end,
            )->Ok_0.name != name,
    decreases end - at,
{
    let entry = entry_at(archive, at, end)->Ok_0;
    if entry.name == name {
        (0, at)
    } else {
        let (n, now) = law_which_entry_is_found(archive, entry.next, end, name);
        assert forall|k: nat, there: int|
            k < n + 1 && #[trigger] follows_to(archive, at, end, k, there) implies entry_at(
            archive,
            there,
            end,
        )->Ok_0.name != name by {
            if k > 0 {
                assert(follows_to(archive, entry.next, end, (k - 1) as nat, there));
            }
        }
        ((n + 1) as nat, now)
    }
}

/// Whether none of the first `n` entries of the directory has this name.
pub open spec fn none_is_named(
    archive: Seq<u8>,
    at: int,
    end: int,
    name: Seq<u8>,
    n: nat,
) -> bool {
    forall|k: nat, now: int|
        k < n && #[trigger] follows_to(archive, at, end, k, now) ==> entry_at(
            archive,
            now,
            end,
        )->Ok_0.name != name
}

/// The search for an entry fails only where an entry is wrong that the entries before it
/// lead to, none of which has the name, and for what is wrong there. An entry that has
/// the name is found whatever is wrong behind it.
pub proof fn law_when_a_name_is_refused(archive: Seq<u8>, at: int, end: int, name: Seq<u8>) -> (r: (
    nat,
    int,
))
    requires
        entry_from(archive, at, end, name) is Err,
        0 <= at,
    ensures
        follows_to(archive, at, end, r.0, r.1),
        goes_wrong(archive, r.1, end, entry_from(archive, at, end, name)->Err_0),
        none_is_named(archive, at, end, name, r.0),
        entry_at(archive, r.1, end) matches Ok(entry) ==> entry.name != name,
    decreases end - at,
{
    match entry_at(archive, at, end) {
        Err(_) => (0, at),
        Ok(entry) => if entry.next > end {
            (0, at)
        } else {
            let (n, now) = law_when_a_name_is_refused(archive, entry.next, end, name);
            assert forall|k: nat, there: int|
                k < n + 1 && #[trigger] follows_to(archive, at, end, k, there) implies entry_at(
                archive,
                there,
                end,
            )->Ok_0.name != name by {
                if k > 0 {
                    assert(follows_to(archive, entry.next, end, (k - 1) as nat, there));
                }
            }
            ((n + 1) as nat, now)
        },
    }
}

/// An entry is looked for from the start of the directory, by the bytes that encode its
/// name. Where there is no directory, it is refused for that.
pub proof fn law_looking_for_an_entry(archive: Seq<u8>, name: Seq<char>)
    ensures
        match directory(archive) {
            Ok((start, end)) => entry_named(archive, name) == entry_from(
                archive,
                start,
                end,
                encode_utf8(name),
            ) && (entry_names(archive) == names_from(archive, start, end)),
            Err(e) => entry_named(archive, name) == Err::<Option<DirectoryEntry>, ZipFailure>(e)
                && entry_names(archive) == Err::<Seq<Seq<char>>, ZipFailure>(e),
        },
        entry_named(archive, name) matches Err(e) ==> forall|cap: u64| #[trigger]
            entry_bytes(archive, name, cap) == Err::<Option<Seq<u8>>, ZipFailure>(e),
{
}

/// The bytes of an entry are those behind its local header, as many as the directory says:
/// as they are where they are stored, decoded where they are deflated. An entry is
/// refused where its header is not there, where it leads out of the archive, where it
/// is packed in another way, and where it is larger than the cap allows.
pub proof fn law_the_bytes_of_an_entry(archive: Seq<u8>, name: Seq<char>, cap: u64)
    requires
        entry_named(archive, name) matches Ok(Some(_)),
    ensures
        ({
            let entry = entry_named(archive, name)->Ok_0->0;
            let at = entry.header_offset as int;
            let start = at + 30 + two_bytes(archive, at + 26) + two_bytes(archive, at + 28);
            let stop = start + entry.compressed_size;
            let found = entry_bytes(archive, name, cap);
            if entry.uncompressed_size > cap {
                found == Err::<Option<Seq<u8>>, ZipFailure>(
                    ZipFailure::EntryTooLarge { name, cap, actual: entry.uncompressed_size as u64 },
                )
            } else if at + 30 > archive.len() {
                found == Err::<Option<Seq<u8>>, ZipFailure>(
                    ZipFailure::OffsetOutOfBounds { offset: at as usize, len: 30 },
                )
            } else if !record_at(archive, at, 3, 4) {
                found == Err::<Option<Seq<u8>>, ZipFailure>(
                    ZipFailure::BadSignature {
                        offset: at as usize,
                        expected: 0x04034b50,
                        actual: four_bytes(archive, at) as u32,
                    },
                )
            } else if stop > archive.len() {
                found matches Err(ZipFailure::OffsetOutOfBounds { offset, len }) && len
                    == entry.compressed_size as usize && (start <= usize::MAX ==> offset == start)
                    && (start > usize::MAX ==> offset == usize::MAX)
            } else if entry.method == 0 {
                if entry.compressed_size > cap {
                    found == Err::<Option<Seq<u8>>, ZipFailure>(
                        ZipFailure::EntryTooLarge {
                            name,
                            cap,
                            actual: entry.compressed_size as u64,
                        },
                    )
                } else {
                    found == Ok::<Option<Seq<u8>>, ZipFailure>(
                        Some(archive.subrange(start, stop)),
                    )
                }
            } else if entry.method == 8 {
                match inflated(name, cap, archive.subrange(start, stop)) {
                    Ok(bytes) => found == Ok::<Option<Seq<u8>>, ZipFailure>(Some(bytes)),
                    Err(e) => found == Err::<Option<Seq<u8>>, ZipFailure>(e),
                }
            } else {
                found == Err::<Option<Seq<u8>>, ZipFailure>(
                    ZipFailure::UnsupportedCompression(entry.method),
                )
            }
        }),
{
    let entry = entry_named(archive, name)->Ok_0->0;
    let at = entry.header_offset as int;
    lemma_signatures(archive, at);
    law_numbers(archive, at);
    law_numbers(archive, at + 26);
    law_numbers(archive, at + 28);
}

/// An entry is read as a text if and only if its bytes encode one, and then as that. It
/// fails as its bytes do, and where they encode no text with words that say so.
pub proof fn law_the_text_of_an_entry(archive: Seq<u8>, name: Seq<char>, cap: u64)
    ensures
        forall|text: Seq<char>|
            entry_bytes(archive, name, cap) == Ok::<Option<Seq<u8>>, ZipFailure>(
                Some(#[trigger] encode_utf8(text)),
            ) ==> entry_text(archive, name, cap) == Ok::<Option<Seq<char>>, ZipFailure>(
                Some(text),
            ),
        entry_bytes(archive, name, cap) matches Err(e) ==> entry_text(archive, name, cap) == Err::<
            Option<Seq<char>>,
            ZipFailure,
        >(e),
        entry_bytes(archive, name, cap) matches Ok(Some(bytes)) ==> {
            (forall|text: Seq<char>| #[trigger] encode_utf8(text) != bytes) ==> entry_text(
                archive,
                name,
                cap,
            ) == Err::<Option<Seq<char>>, ZipFailure>(
                ZipFailure::NotUtf8(
                    "entry '"@ + name + "' is not valid UTF-8 ("@ + decimal(bytes.len())
                        + " bytes): "@ + utf8_error(bytes),
                ),
            )
        },
        entry_bytes(archive, name, cap) matches Ok(None) ==> entry_text(archive, name, cap) == Ok::<
            Option<Seq<char>>,
            ZipFailure,
        >(None),
{
    assert forall|text: Seq<char>|
        entry_bytes(archive, name, cap) == Ok::<Option<Seq<u8>>, ZipFailure>(
            Some(#[trigger] encode_utf8(text)),
        ) implies entry_text(archive, name, cap) == Ok::<Option<Seq<char>>, ZipFailure>(
        Some(text),
    ) by {
        encode_utf8_valid_utf8(text);
        encode_utf8_decode_utf8(text);
    }
    match entry_bytes(archive, name, cap) {
        Ok(Some(bytes)) => {
            if valid_utf8(bytes) {
                decode_utf8_encode_utf8(bytes);
                assert(encode_utf8(decode_utf8(bytes)) == bytes);
            }
        },
        _ => {},
    }
}

// ---------------------------------------------------------------------------
// Decoding
// ---------------------------------------------------------------------------

/// Whether the decoder, called again and again on what it left, `n` times in all, gives
/// `out`, in pieces of at most 64 KiB, and then says that it found the end. Each call but
/// the last gives or takes something, and none gives nothing once there is nothing left.
pub open spec fn decodes(
    n: nat,
    calls: Seq<(Seq<u8>, nat)>,
    input: Seq<u8>,
    out: Seq<u8>,
) -> bool
    decreases n,
{
    let (consumed, bytes, status) = inflate_result(calls, input, 65536, usize::BITS);
    if n == 0 || bytes.len() > 65536 {
        false
    } else if n == 1 {
        status is StreamEnd && out == bytes
    } else {
        &&& status is Progress || status is NeedDict
        &&& consumed <= input.len()
        &&& bytes.len() > 0 || 0 < consumed < input.len()
        &&& bytes.len() <= out.len()
        &&& out.take(bytes.len() as int) == bytes
        &&& decodes(
            (n - 1) as nat,
            calls.push((input, 65536nat)),
            input.skip(consumed as int),
            out.skip(bytes.len() as int),
        )
    }
}

proof fn lemma_decoded(
    n: nat,
    name: Seq<char>,
    cap: u64,
    calls: Seq<(Seq<u8>, nat)>,
    input: Seq<u8>,
    before: Seq<u8>,
    out: Seq<u8>,
)
    requires
        decodes(n, calls, input, out),
        before.len() + out.len() <= cap,
    ensures
        inflated_from(name, cap, calls, input, before) == Ok::<Seq<u8>, ZipFailure>(before + out),
    decreases n,
{
    let (consumed, bytes, status) = inflate_result(calls, input, 65536, usize::BITS);
    if n > 1 {
        let rest = out.skip(bytes.len() as int);
        let now = before + bytes;
        lemma_decoded(
            (n - 1) as nat,
            name,
            cap,
            calls.push((input, 65536nat)),
            input.skip(consumed as int),
            now,
            rest,
        );
        assert(now + rest =~= before + out);
    }
}

/// Compressed data that the decoder decodes gives just what the decoder gives, one piece
/// after the other, up to the end that it finds, if that is no more than the cap.
pub proof fn law_decoding(n: nat, name: Seq<char>, cap: u64, compressed: Seq<u8>, out: Seq<u8>)
    requires
        decodes(n, seq![], compressed, out),
        out.len() <= cap,
    ensures
        inflated(name, cap, compressed) == Ok::<Seq<u8>, ZipFailure>(out),
{
    lemma_decoded(n, name, cap, seq![], compressed, seq![], out);
    assert(Seq::<u8>::empty() + out =~= out);
}

/// The word for what the decoder found wrong.
pub open spec fn fault_word(fault: InflateFault) -> Seq<char> {
    match fault {
        InflateFault::ErrNo => "ErrNo"@,
        InflateFault::Stream => "Stream"@,
        InflateFault::Data => "Data"@,
        InflateFault::Mem => "Mem"@,
        InflateFault::Buf => "Buf"@,
        InflateFault::Version => "Version"@,
        InflateFault::Param => "Param"@,
    }
}

/// What comes of one call of the decoder, after it gave `before`: a fault fails, and so do
/// more bytes than the cap allows. Where the decoder found the end, all that it gave is
/// the result. Where it did not and there is nothing left, the data has no end.
/// Otherwise it is called again on what it left.
pub proof fn law_one_call(
    name: Seq<char>,
    cap: u64,
    calls: Seq<(Seq<u8>, nat)>,
    input: Seq<u8>,
    before: Seq<u8>,
)
    requires
        inflate_result(calls, input, 65536, usize::BITS).0 <= input.len(),
        input.len() <= usize::MAX,
        inflate_result(calls, input, 65536, usize::BITS).1.len() <= 65536,
        before.len() <= u32::MAX,
    ensures
        ({
            let (consumed, bytes, status) = inflate_result(calls, input, 65536, usize::BITS);
            let now = before + bytes;
            let result = inflated_from(name, cap, calls, input, before);
            match status {
                InflateStatus::Failed(fault) => result == Err::<Seq<u8>, ZipFailure>(
                    ZipFailure::Inflate(
                        "Err("@ + fault_word(fault) + ") after "@ + decimal(consumed) + " bytes"@,
                    ),
                ),
                _ => if now.len() > cap {
                    result matches Err(ZipFailure::EntryTooLarge { name: n, cap: c, actual }) && n
                        == name && c == cap && actual == now.len()
                } else if status is StreamEnd {
                    result == Ok::<Seq<u8>, ZipFailure>(now)
                } else if consumed == input.len() && bytes.len() == 0 {
                    result == Err::<Seq<u8>, ZipFailure>(
                        ZipFailure::Inflate("stream ended without StreamEnd marker"@),
                    )
                } else {
                    consumed + bytes.len() > 0 ==> result == inflated_from(
                        name,
                        cap,
                        calls.push((input, 65536nat)),
                        input.skip(consumed as int),
                        now,
                    )
                },
            }
        }),
        inflated(name, cap, input) == inflated_from(name, cap, seq![], input, seq![]),
{
}

// ---------------------------------------------------------------------------
// Entries below a prefix
// ---------------------------------------------------------------------------

/// Reading all entries below a prefix goes name by name: a name without the prefix is
/// passed over, an entry that cannot be read as text fails as it does alone, and the
/// texts together may not be longer than the cap.
pub proof fn law_reading_below_a_prefix(
    archive: Seq<u8>,
    name: Seq<char>,
    rest: Seq<Seq<char>>,
    prefix: Seq<char>,
    entry_cap: u64,
    total_cap: u64,
    total: nat,
    got: Map<Seq<char>, Seq<char>>,
)
    ensures
        texts_from(archive, seq![], prefix, entry_cap, total_cap, total, got) == Ok::<
            Map<Seq<char>, Seq<char>>,
            ZipFailure,
        >(got),
        ({
            let result = texts_from(
                archive,
                seq![name] + rest,
                prefix,
                entry_cap,
                total_cap,
                total,
                got,
            );
            let passed = texts_from(archive, rest, prefix, entry_cap, total_cap, total, got);
            if !exists|more: Seq<char>| name == #[trigger] (prefix + more) {
                result == passed
            } else {
                match entry_text(archive, name, entry_cap) {
                    Err(e) => result == Err::<Map<Seq<char>, Seq<char>>, ZipFailure>(e),
                    Ok(None) => result == passed,
                    Ok(Some(text)) => {
                        let sum = total + encode_utf8(text).len();
                        if sum > total_cap {
                            result matches Err(
                                ZipFailure::EntryTooLarge { name: n, cap, actual },
                            ) && n == name && cap == total_cap && actual == smaller(
                                sum as int,
                                u64::MAX as int,
                            )
                        } else {
                            result == texts_from(
                                archive,
                                rest,
                                prefix,
                                entry_cap,
                                total_cap,
                                sum,
                                got.insert(name, text),
                            )
                        }
                    },
                }
            }
        }),
        prefix_texts(archive, prefix, entry_cap, total_cap) == match entry_names(archive) {
            Err(e) => Err(e),
            Ok(names) => texts_from(
                archive,
                names,
                prefix,
                entry_cap,
                total_cap,
                0,
                Map::empty(),
            ),
        },
{
    let names = seq![name] + rest;
    assert(names.drop_first() =~= rest);
    assert(names.first() == name);
    law_prefixes(name, prefix);
}

} // verus!
