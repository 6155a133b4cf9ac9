//! What holds of the archive reader's functions taken together.

use vstd::prelude::*;
use vstd::utf8::*;

use crate::inflate::{inflate_result, inflated, inflated_from, INFLATE_ROOM};
use crate::text::has_prefix;
use crate::zip_error::ZipFailure;
use crate::zip_reader::{
    directory, end_record, end_record_before, entry_at, entry_bytes, entry_from, entry_named,
    entry_names, entry_text, le16, le32, name_text, names_from, prefix_texts, texts_from,
    DirectoryEntry, CENTRAL_HEADER_LEN, END_OF_CENTRAL_DIR_SIG, END_RECORD_LEN, LOCAL_HEADER_LEN,
    MAX_COMMENT_LEN, METHOD_DEFLATED,
};

verus! {

proof fn lemma_end_record_before(archive: Seq<u8>, at: int, low: int)
    ensures
        match end_record_before(archive, at, low) {
            Some(i) => low <= i <= at && le32(archive, i) == END_OF_CENTRAL_DIR_SIG && forall|j: int|
                i < j <= at ==> le32(archive, j) != END_OF_CENTRAL_DIR_SIG,
            None => forall|j: int| low <= j <= at ==> le32(archive, j) != END_OF_CENTRAL_DIR_SIG,
        },
    decreases at - low + 1,
{
    if at >= low && le32(archive, at) != END_OF_CENTRAL_DIR_SIG {
        lemma_end_record_before(archive, at - 1, low);
    }
}

/// The end-of-central-directory record is the last place in reach of the
/// archive's tail where its signature stands, and there is none only where no
/// such place exists.
pub proof fn law_end_record_is_last(archive: Seq<u8>)
    ensures
        match end_record(archive) {
            Some(i) => {
                &&& 0 <= i <= archive.len() - END_RECORD_LEN
                &&& archive.len() - END_RECORD_LEN - i <= MAX_COMMENT_LEN
                &&& le32(archive, i) == END_OF_CENTRAL_DIR_SIG
                &&& forall|j: int|
                    i < j <= archive.len() - END_RECORD_LEN ==> le32(archive, j)
                        != END_OF_CENTRAL_DIR_SIG
            },
            None => forall|j: int|
                0 <= j <= archive.len() - END_RECORD_LEN && archive.len() - END_RECORD_LEN - j
                    <= MAX_COMMENT_LEN ==> le32(archive, j) != END_OF_CENTRAL_DIR_SIG,
        },
{
    let last = archive.len() - END_RECORD_LEN;
    let first = last - MAX_COMMENT_LEN;
    lemma_end_record_before(
        archive,
        last,
        if first < 0 {
            0
        } else {
            first
        },
    );
}

/// A name is the text of an entry's name field where the field encodes it.
proof fn lemma_name_text(field: Seq<u8>, name: Seq<char>)
    ensures
        field == encode_utf8(name) <==> name_text(field).contains(name),
{
    if field == encode_utf8(name) {
        encode_utf8_valid_utf8(name);
        encode_utf8_decode_utf8(name);
        assert(name_text(field)[0] == name);
    }
    if name_text(field).contains(name) {
        assert(valid_utf8(field));
        decode_utf8_encode_utf8(field);
        assert(name_text(field) =~= seq![decode_utf8(field)]);
    }
}

proof fn lemma_listed_is_found(archive: Seq<u8>, at: int, end: int, name: Seq<char>)
    requires
        names_from(archive, at, end) is Ok,
    ensures
        entry_from(archive, at, end, encode_utf8(name)) is Ok,
        entry_from(archive, at, end, encode_utf8(name))->Ok_0 is Some <==> names_from(
            archive,
            at,
            end,
        )->Ok_0.contains(name),
    decreases end - at,
{
    if at + CENTRAL_HEADER_LEN <= end {
        let entry = entry_at(archive, at, end)->Ok_0;
        let rest = names_from(archive, entry.next, end)->Ok_0;
        lemma_name_text(entry.name, name);
        lemma_listed_is_found(archive, entry.next, end, name);
        let all = name_text(entry.name) + rest;
        if name_text(entry.name).contains(name) {
            let i = name_text(entry.name).index_of(name);
            assert(all[i] == name);
        }
        if rest.contains(name) {
            let i = rest.index_of(name);
            assert(all[name_text(entry.name).len() + i] == name);
        }
        if all.contains(name) {
            let i = all.index_of(name);
            if i < name_text(entry.name).len() {
                assert(name_text(entry.name)[i] == name);
            } else {
                assert(rest[i - name_text(entry.name).len()] == name);
            }
        }
    }
}

/// Where the names of an archive can be listed, an entry is found under a name,
/// by every reader, exactly where the name is listed.
pub proof fn law_listed_names_are_found(archive: Seq<u8>, name: Seq<char>, cap: u64)
    requires
        entry_names(archive) is Ok,
    ensures
        entry_named(archive, name) is Ok,
        entry_named(archive, name)->Ok_0 is Some <==> entry_names(archive)->Ok_0.contains(name),
        entry_bytes(archive, name, cap) == Ok::<Option<Seq<u8>>, ZipFailure>(None)
            <==> !entry_names(archive)->Ok_0.contains(name),
        entry_text(archive, name, cap) == Ok::<Option<Seq<char>>, ZipFailure>(None)
            <==> !entry_names(archive)->Ok_0.contains(name),
{
    let (start, end) = directory(archive)->Ok_0;
    lemma_listed_is_found(archive, start, end, name);
}

/// An archive whose directory cannot be located fails every reader in the same way.
pub proof fn law_no_directory_fails_every_reader(
    archive: Seq<u8>,
    name: Seq<char>,
    cap: u64,
    total_cap: u64,
)
    requires
        directory(archive) is Err,
    ensures
        entry_names(archive) == Err::<Seq<Seq<char>>, ZipFailure>(directory(archive)->Err_0),
        entry_bytes(archive, name, cap) == Err::<Option<Seq<u8>>, ZipFailure>(
            directory(archive)->Err_0,
        ),
        entry_text(archive, name, cap) == Err::<Option<Seq<char>>, ZipFailure>(
            directory(archive)->Err_0,
        ),
        prefix_texts(archive, name, cap, total_cap) == Err::<Map<Seq<char>, Seq<char>>, ZipFailure>(
            directory(archive)->Err_0,
        ),
{
}

/// An entry read as text is the entry read as bytes: the text encodes to the bytes.
pub proof fn law_text_encodes_to_the_bytes(archive: Seq<u8>, name: Seq<char>, cap: u64)
    requires
        entry_text(archive, name, cap) is Ok,
        entry_text(archive, name, cap)->Ok_0 is Some,
    ensures
        entry_bytes(archive, name, cap) == Ok::<Option<Seq<u8>>, ZipFailure>(
            Some(encode_utf8(entry_text(archive, name, cap)->Ok_0->0)),
        ),
{
    decode_utf8_encode_utf8(entry_bytes(archive, name, cap)->Ok_0->0);
}

/// Bytes of text in the entries among `names` whose name starts with `prefix`.
pub open spec fn text_bytes(
    archive: Seq<u8>,
    names: Seq<Seq<char>>,
    prefix: Seq<char>,
    cap: u64,
) -> nat
    decreases names.len(),
{
    if names.len() == 0 {
        0
    } else {
        let rest = text_bytes(archive, names.drop_first(), prefix, cap);
        match entry_text(archive, names.first(), cap) {
            Ok(Some(content)) if has_prefix(names.first(), prefix) => encode_utf8(content).len()
                + rest,
            _ => rest,
        }
    }
}

proof fn lemma_texts_from(
    archive: Seq<u8>,
    names: Seq<Seq<char>>,
    prefix: Seq<char>,
    entry_cap: u64,
    total_cap: u64,
    total: nat,
    got: Map<Seq<char>, Seq<char>>,
)
    requires
        texts_from(archive, names, prefix, entry_cap, total_cap, total, got) is Ok,
        total <= total_cap,
        forall|k: Seq<char>| #[trigger]
            names.contains(k) ==> entry_text(archive, k, entry_cap) != Ok::<
                Option<Seq<char>>,
                ZipFailure,
            >(None),
        forall|k: Seq<char>| #[trigger]
            got.contains_key(k) ==> entry_text(archive, k, entry_cap) == Ok::<
                Option<Seq<char>>,
                ZipFailure,
            >(Some(got[k])),
    ensures
        ({
            let map = texts_from(
                archive,
                names,
                prefix,
                entry_cap,
                total_cap,
                total,
                got,
            )->Ok_0;
            &&& forall|k: Seq<char>| #[trigger]
                map.contains_key(k) <==> got.contains_key(k) || (names.contains(k) && has_prefix(
                    k,
                    prefix,
                ))
            &&& forall|k: Seq<char>| #[trigger]
                map.contains_key(k) ==> entry_text(archive, k, entry_cap) == Ok::<
                    Option<Seq<char>>,
                    ZipFailure,
                >(Some(map[k]))
            &&& total + text_bytes(archive, names, prefix, entry_cap) <= total_cap
        }),
    decreases names.len(),
{
    if names.len() > 0 {
        let name = names.first();
        let rest = names.drop_first();
        assert(names.contains(name)) by {
            assert(names[0] == name);
        }
        assert forall|k: Seq<char>| #[trigger] names.contains(k) <==> k == name || rest.contains(
            k,
        ) by {
            if names.contains(k) && k != name {
                let i = names.index_of(k);
                assert(rest[i - 1] == k);
            }
            if rest.contains(k) {
                let i = rest.index_of(k);
                assert(names[i + 1] == k);
            }
        }
        assert forall|k: Seq<char>| #[trigger] rest.contains(k) implies entry_text(
            archive,
            k,
            entry_cap,
        ) != Ok::<Option<Seq<char>>, ZipFailure>(None) by {
            assert(names.contains(k));
        }
        if has_prefix(name, prefix) {
            let content = entry_text(archive, name, entry_cap)->Ok_0->0;
            lemma_texts_from(
                archive,
                rest,
                prefix,
                entry_cap,
                total_cap,
                total + encode_utf8(content).len(),
                got.insert(name, content),
            );
        } else {
            lemma_texts_from(archive, rest, prefix, entry_cap, total_cap, total, got);
        }
    }
}

/// Reading the entries under a prefix gives exactly the listed names that start
/// with it, each with what reading it alone gives, and stays within the budget:
/// the sum over the listed names does not exceed it.
pub proof fn law_prefix_gives_the_listed_entries(
    archive: Seq<u8>,
    prefix: Seq<char>,
    entry_cap: u64,
    total_cap: u64,
)
    requires
        prefix_texts(archive, prefix, entry_cap, total_cap) is Ok,
    ensures
        entry_names(archive) is Ok,
        ({
            let map = prefix_texts(archive, prefix, entry_cap, total_cap)->Ok_0;
            let names = entry_names(archive)->Ok_0;
            &&& forall|k: Seq<char>| #[trigger]
                map.contains_key(k) <==> names.contains(k) && has_prefix(k, prefix)
            &&& forall|k: Seq<char>| #[trigger]
                map.contains_key(k) ==> entry_text(archive, k, entry_cap) == Ok::<
                    Option<Seq<char>>,
                    ZipFailure,
                >(Some(map[k]))
            &&& text_bytes(archive, names, prefix, entry_cap) <= total_cap
        }),
{
    let names = entry_names(archive)->Ok_0;
    assert forall|k: Seq<char>| #[trigger] names.contains(k) implies entry_text(
        archive,
        k,
        entry_cap,
    ) != Ok::<Option<Seq<char>>, ZipFailure>(None) by {
        law_listed_names_are_found(archive, k, entry_cap);
    }
    lemma_texts_from(archive, names, prefix, entry_cap, total_cap, 0, Map::empty());
}

/// Whether each of `names` that starts with `prefix` can be read as text.
pub open spec fn all_readable(
    archive: Seq<u8>,
    names: Seq<Seq<char>>,
    prefix: Seq<char>,
    cap: u64,
) -> bool {
    forall|k: Seq<char>| #[trigger]
        names.contains(k) && has_prefix(k, prefix) ==> entry_text(archive, k, cap) is Ok
}

proof fn lemma_texts_succeed(
    archive: Seq<u8>,
    names: Seq<Seq<char>>,
    prefix: Seq<char>,
    entry_cap: u64,
    total_cap: u64,
    total: nat,
    got: Map<Seq<char>, Seq<char>>,
)
    requires
        total <= total_cap,
    ensures
        texts_from(archive, names, prefix, entry_cap, total_cap, total, got) is Ok <==> (
        all_readable(archive, names, prefix, entry_cap) && total + text_bytes(
            archive,
            names,
            prefix,
            entry_cap,
        ) <= total_cap),
    decreases names.len(),
{
    if names.len() > 0 {
        let name = names.first();
        let rest = names.drop_first();
        assert(names[0] == name);
        assert(names.contains(name));
        assert forall|k: Seq<char>| #[trigger] names.contains(k) <==> k == name || rest.contains(
            k,
        ) by {
            if names.contains(k) && k != name {
                let i = names.index_of(k);
                assert(rest[i - 1] == k);
            }
            if rest.contains(k) {
                let i = rest.index_of(k);
                assert(names[i + 1] == k);
            }
        }
        assert(all_readable(archive, names, prefix, entry_cap) <==> all_readable(
            archive,
            rest,
            prefix,
            entry_cap,
        ) && (has_prefix(name, prefix) ==> entry_text(archive, name, entry_cap) is Ok)) by {
            if all_readable(archive, names, prefix, entry_cap) {
                assert forall|k: Seq<char>| #[trigger]
                    rest.contains(k) && has_prefix(k, prefix) implies entry_text(
                    archive,
                    k,
                    entry_cap,
                ) is Ok by {
                    assert(names.contains(k));
                }
            }
        }
        if has_prefix(name, prefix) {
            match entry_text(archive, name, entry_cap) {
                Ok(Some(content)) => {
                    let sum = total + encode_utf8(content).len();
                    if sum <= total_cap {
                        lemma_texts_succeed(
                            archive,
                            rest,
                            prefix,
                            entry_cap,
                            total_cap,
                            sum,
                            got.insert(name, content),
                        );
                    }
                },
                Ok(None) => {
                    lemma_texts_succeed(archive, rest, prefix, entry_cap, total_cap, total, got);
                },
                Err(_) => {},
            }
        } else {
            lemma_texts_succeed(archive, rest, prefix, entry_cap, total_cap, total, got);
        }
    }
}

/// Reading the entries under a prefix succeeds if and only if the names of the
/// archive can be listed, each of them that starts with the prefix can be read as
/// text, and their texts are within the budget in all.
pub proof fn law_when_a_prefix_is_read(
    archive: Seq<u8>,
    prefix: Seq<char>,
    entry_cap: u64,
    total_cap: u64,
)
    ensures
        prefix_texts(archive, prefix, entry_cap, total_cap) is Ok <==> {
            &&& entry_names(archive) matches Ok(names)
            &&& all_readable(archive, names, prefix, entry_cap)
            &&& text_bytes(archive, names, prefix, entry_cap) <= total_cap
        },
{
    match entry_names(archive) {
        Ok(names) => {
            lemma_texts_succeed(archive, names, prefix, entry_cap, total_cap, 0, Map::empty());
        },
        Err(_) => {},
    }
}

proof fn lemma_missing_is_listed(archive: Seq<u8>, at: int, end: int, name: Seq<u8>)
    requires
        entry_from(archive, at, end, name) == Ok::<Option<DirectoryEntry>, ZipFailure>(None),
    ensures
        names_from(archive, at, end) is Ok,
    decreases end - at,
{
    if at + CENTRAL_HEADER_LEN <= end {
        let entry = entry_at(archive, at, end)->Ok_0;
        lemma_missing_is_listed(archive, entry.next, end, name);
    }
}

/// An entry is missing, to every reader, only where the names of the archive can
/// be listed and the name is not among them.
pub proof fn law_missing_entries_are_not_listed(archive: Seq<u8>, name: Seq<char>, cap: u64)
    ensures
        (entry_bytes(archive, name, cap) == Ok::<Option<Seq<u8>>, ZipFailure>(None)) <==> (
        entry_names(archive) matches Ok(names) && !names.contains(name)),
        (entry_text(archive, name, cap) == Ok::<Option<Seq<char>>, ZipFailure>(None)) <==> (
        entry_names(archive) matches Ok(names) && !names.contains(name)),
{
    match directory(archive) {
        Ok((start, end)) => {
            if entry_named(archive, name) == Ok::<Option<DirectoryEntry>, ZipFailure>(None) {
                lemma_missing_is_listed(archive, start, end, encode_utf8(name));
            }
        },
        Err(_) => {},
    }
    if entry_names(archive) is Ok {
        law_listed_names_are_found(archive, name, cap);
    }
}

proof fn lemma_larger_cap_inflates(
    name: Seq<char>,
    cap: u64,
    larger: u64,
    calls: Seq<(Seq<u8>, nat)>,
    input: Seq<u8>,
    out: Seq<u8>,
)
    requires
        cap <= larger,
        out.len() <= cap,
        inflated_from(name, cap, calls, input, out) is Ok,
    ensures
        inflated_from(name, larger, calls, input, out) == inflated_from(
            name,
            cap,
            calls,
            input,
            out,
        ),
    decreases input.len() + cap - out.len(),
{
    let (consumed, bytes, status) = inflate_result(calls, input, INFLATE_ROOM as nat, usize::BITS);
    let now = out + bytes;
    if now.len() <= cap && consumed <= input.len() && consumed + bytes.len() > 0 && !(
    status is StreamEnd) {
        lemma_larger_cap_inflates(
            name,
            cap,
            larger,
            calls.push((input, INFLATE_ROOM as nat)),
            input.skip(consumed as int),
            now,
        );
    }
}

/// A larger cap changes no success: what one entry gives within a cap, as bytes or
/// as text, it gives within every larger one.
pub proof fn law_larger_caps_change_no_entry(
    archive: Seq<u8>,
    name: Seq<char>,
    cap: u64,
    larger: u64,
)
    requires
        cap <= larger,
    ensures
        entry_bytes(archive, name, cap) is Ok ==> entry_bytes(archive, name, larger) == entry_bytes(
            archive,
            name,
            cap,
        ),
        entry_text(archive, name, cap) is Ok ==> entry_text(archive, name, larger) == entry_text(
            archive,
            name,
            cap,
        ),
{
    if entry_bytes(archive, name, cap) is Ok {
        match entry_named(archive, name) {
            Ok(Some(entry)) => {
                let at = entry.header_offset as int;
                let start = at + LOCAL_HEADER_LEN + le16(archive, at + 26) + le16(archive, at + 28);
                let payload = archive.subrange(start, start + entry.compressed_size);
                if entry.method == METHOD_DEFLATED && inflated(name, cap, payload) is Ok {
                    lemma_larger_cap_inflates(name, cap, larger, seq![], payload, seq![]);
                }
            },
            _ => {},
        }
    }
}

proof fn lemma_larger_caps(
    archive: Seq<u8>,
    names: Seq<Seq<char>>,
    prefix: Seq<char>,
    entry_cap: u64,
    larger_entry_cap: u64,
    total_cap: u64,
    larger_total_cap: u64,
    total: nat,
    got: Map<Seq<char>, Seq<char>>,
)
    requires
        entry_cap <= larger_entry_cap,
        total_cap <= larger_total_cap,
        texts_from(archive, names, prefix, entry_cap, total_cap, total, got) is Ok,
    ensures
        texts_from(archive, names, prefix, larger_entry_cap, larger_total_cap, total, got)
            == texts_from(archive, names, prefix, entry_cap, total_cap, total, got),
    decreases names.len(),
{
    if names.len() > 0 {
        let name = names.first();
        let rest = names.drop_first();
        law_larger_caps_change_no_entry(archive, name, entry_cap, larger_entry_cap);
        let (sum, more) = match entry_text(archive, name, entry_cap) {
            Ok(Some(content)) if has_prefix(name, prefix) => (
                total + encode_utf8(content).len(),
                got.insert(name, content),
            ),
            _ => (total, got),
        };
        lemma_larger_caps(
            archive,
            rest,
            prefix,
            entry_cap,
            larger_entry_cap,
            total_cap,
            larger_total_cap,
            sum,
            more,
        );
    }
}

/// Larger caps change no success: what the entries under a prefix give within a cap
/// for each and a budget for all, they give within every larger one.
pub proof fn law_larger_caps_change_no_prefix(
    archive: Seq<u8>,
    prefix: Seq<char>,
    entry_cap: u64,
    larger_entry_cap: u64,
    total_cap: u64,
    larger_total_cap: u64,
)
    requires
        entry_cap <= larger_entry_cap,
        total_cap <= larger_total_cap,
        prefix_texts(archive, prefix, entry_cap, total_cap) is Ok,
    ensures
        prefix_texts(archive, prefix, larger_entry_cap, larger_total_cap) == prefix_texts(
            archive,
            prefix,
            entry_cap,
            total_cap,
        ),
{
    lemma_larger_caps(
        archive,
        entry_names(archive)->Ok_0,
        prefix,
        entry_cap,
        larger_entry_cap,
        total_cap,
        larger_total_cap,
        0,
        Map::empty(),
    );
}

} // verus!
