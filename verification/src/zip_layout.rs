//! How archives are laid out, and that they are read back as they were laid out.

use vstd::prelude::*;
use vstd::utf8::*;

use crate::inflate::inflated;
use crate::zip_error::ZipFailure;
use crate::zip_reader::{
    directory, end_record_before, entry_at, entry_bytes, entry_data, entry_from, entry_named,
    entry_names, le16, le32, name_text, names_from, DirectoryEntry, CENTRAL_DIR_SIG,
    CENTRAL_HEADER_LEN, END_OF_CENTRAL_DIR_SIG, END_RECORD_LEN, LOCAL_FILE_HEADER_SIG,
    LOCAL_HEADER_LEN, MAX_COMMENT_LEN, METHOD_DEFLATED, METHOD_STORED,
};

verus! {

/// A 16-bit number, its low byte first.
pub open spec fn bytes16(n: u16) -> Seq<u8> {
    seq![(n % 256) as u8, (n / 256) as u8]
}

/// A 32-bit number, its low byte first.
pub open spec fn bytes32(n: u32) -> Seq<u8> {
    seq![
        (n % 256) as u8,
        (n / 256 % 256) as u8,
        (n / 65536 % 256) as u8,
        (n / 16777216) as u8,
    ]
}

/// A member of an archive: its name, its payload and how that is compressed, and
/// everything else that its two headers hold.
pub struct Member {
    pub name: Seq<u8>,
    pub method: u16,
    pub size: u32,
    pub payload: Seq<u8>,
    /// The fields of the local header that are not looked at.
    pub local_fields: Seq<u8>,
    pub local_name: Seq<u8>,
    pub local_extra: Seq<u8>,
    /// The fields of the directory entry that are not looked at.
    pub versions: Seq<u8>,
    pub stamps: Seq<u8>,
    pub attributes: Seq<u8>,
    pub extra: Seq<u8>,
    pub comment: Seq<u8>,
}

impl Member {
    /// Whether each field of the headers has its length, and each length fits its
    /// field.
    pub open spec fn fits(self) -> bool {
        &&& self.name.len() <= u16::MAX
        &&& self.payload.len() <= u32::MAX
        &&& self.local_fields.len() == 22
        &&& self.local_name.len() <= u16::MAX
        &&& self.local_extra.len() <= u16::MAX
        &&& self.versions.len() == 6
        &&& self.stamps.len() == 8
        &&& self.attributes.len() == 8
        &&& self.extra.len() <= u16::MAX
        &&& self.comment.len() <= u16::MAX
    }

    /// The local header, and the payload behind it.
    pub open spec fn local_part(self) -> Seq<u8> {
        bytes32(LOCAL_FILE_HEADER_SIG) + self.local_fields + bytes16(self.local_name.len() as u16)
            + bytes16(self.local_extra.len() as u16) + self.local_name + self.local_extra
            + self.payload
    }

    /// The directory entry of a member whose local header stands at `offset`.
    pub open spec fn central_part(self, offset: u32) -> Seq<u8> {
        bytes32(CENTRAL_DIR_SIG) + self.versions + bytes16(self.method) + self.stamps + bytes32(
            self.payload.len() as u32,
        ) + bytes32(self.size) + bytes16(self.name.len() as u16) + bytes16(self.extra.len() as u16)
            + bytes16(self.comment.len() as u16) + self.attributes + bytes32(offset) + self.name
            + self.extra + self.comment
    }
}

/// The local parts of the first `n` members.
pub open spec fn locals(members: Seq<Member>, n: nat) -> Seq<u8>
    decreases n,
{
    if n == 0 {
        seq![]
    } else {
        locals(members, (n - 1) as nat) + members[n - 1].local_part()
    }
}

/// The directory entries of the first `n` members.
pub open spec fn centrals(members: Seq<Member>, n: nat) -> Seq<u8>
    decreases n,
{
    if n == 0 {
        seq![]
    } else {
        let k = (n - 1) as nat;
        centrals(members, k) + members[k as int].central_part(locals(members, k).len() as u32)
    }
}

/// The record at the end of an archive, with the fields in it that are not looked
/// at and a comment.
pub open spec fn end_part(
    start: nat,
    size: nat,
    counts: Seq<u8>,
    comment: Seq<u8>,
) -> Seq<u8> {
    bytes32(END_OF_CENTRAL_DIR_SIG) + counts + bytes32(size as u32) + bytes32(start as u32)
        + bytes16(comment.len() as u16) + comment
}

/// The archive with these members.
pub open spec fn archive_of(members: Seq<Member>, counts: Seq<u8>, comment: Seq<u8>) -> Seq<u8> {
    let n = members.len();
    locals(members, n) + centrals(members, n) + end_part(
        locals(members, n).len(),
        centrals(members, n).len(),
        counts,
        comment,
    )
}

/// Whether an archive can be laid out: its members fit their headers, and the
/// places of its parts fit the fields that tell them.
pub open spec fn can_be_laid_out(
    members: Seq<Member>,
    counts: Seq<u8>,
    comment: Seq<u8>,
) -> bool {
    &&& forall|i: int| 0 <= i < members.len() ==> (#[trigger] members[i]).fits()
    &&& locals(members, members.len()).len() <= u32::MAX
    &&& centrals(members, members.len()).len() <= u32::MAX
    &&& counts.len() == 8
    &&& comment.len() <= MAX_COMMENT_LEN
}

/// Whether nothing behind the end record looks like another one.
pub open spec fn ends_once(members: Seq<Member>, counts: Seq<u8>, comment: Seq<u8>) -> bool {
    let archive = archive_of(members, counts, comment);
    let end = locals(members, members.len()).len() + centrals(members, members.len()).len();
    forall|at: int|
        end < at <= archive.len() - END_RECORD_LEN ==> #[trigger] le32(archive, at)
            != END_OF_CENTRAL_DIR_SIG
}

/// Whether `part` stands at `at` in `whole`.
pub open spec fn stands_at(whole: Seq<u8>, at: int, part: Seq<u8>) -> bool {
    &&& 0 <= at
    &&& at + part.len() <= whole.len()
    &&& forall|i: int| 0 <= i < part.len() ==> whole[at + i] == #[trigger] part[i]
}

proof fn lemma_number16(whole: Seq<u8>, at: int, part: Seq<u8>, k: int, n: u16)
    requires
        stands_at(whole, at, part),
        0 <= k,
        k + 2 <= part.len(),
        part[k] == bytes16(n)[0],
        part[k + 1] == bytes16(n)[1],
    ensures
        le16(whole, at + k) == n,
{
}

proof fn lemma_number32(whole: Seq<u8>, at: int, part: Seq<u8>, k: int, n: u32)
    requires
        stands_at(whole, at, part),
        0 <= k,
        k + 4 <= part.len(),
        part[k] == bytes32(n)[0],
        part[k + 1] == bytes32(n)[1],
        part[k + 2] == bytes32(n)[2],
        part[k + 3] == bytes32(n)[3],
    ensures
        le32(whole, at + k) == n,
{
}

proof fn lemma_bytes(whole: Seq<u8>, at: int, part: Seq<u8>, from: int, bytes: Seq<u8>)
    requires
        stands_at(whole, at, part),
        0 <= from,
        from + bytes.len() <= part.len(),
        forall|i: int| 0 <= i < bytes.len() ==> part[from + i] == #[trigger] bytes[i],
    ensures
        whole.subrange(at + from, at + from + bytes.len()) == bytes,
{
    let there = whole.subrange(at + from, at + from + bytes.len());
    assert forall|i: int| 0 <= i < bytes.len() implies there[i] == bytes[i] by {
        assert(part[from + i] == bytes[i]);
        assert(whole[at + (from + i)] == part[from + i]);
    }
    assert(there =~= bytes);
}

proof fn lemma_central_fields(m: Member, offset: u32, whole: Seq<u8>, at: int)
    requires
        m.fits(),
        stands_at(whole, at, m.central_part(offset)),
    ensures
        m.central_part(offset).len() == CENTRAL_HEADER_LEN + m.name.len() + m.extra.len()
            + m.comment.len(),
        le32(whole, at) == CENTRAL_DIR_SIG,
        le16(whole, at + 10) == m.method,
        le32(whole, at + 20) == m.payload.len(),
        le32(whole, at + 24) == m.size,
        le16(whole, at + 28) == m.name.len(),
        le16(whole, at + 30) == m.extra.len(),
        le16(whole, at + 32) == m.comment.len(),
        le32(whole, at + 42) == offset,
        whole.subrange(at + CENTRAL_HEADER_LEN, at + CENTRAL_HEADER_LEN + m.name.len()) == m.name,
{
    let p = m.central_part(offset);
    assert(p.len() == 46 + m.name.len() + m.extra.len() + m.comment.len());
    lemma_number32(whole, at, p, 0, CENTRAL_DIR_SIG);
    lemma_number16(whole, at, p, 10, m.method);
    lemma_number32(whole, at, p, 20, m.payload.len() as u32);
    lemma_number32(whole, at, p, 24, m.size);
    lemma_number16(whole, at, p, 28, m.name.len() as u16);
    lemma_number16(whole, at, p, 30, m.extra.len() as u16);
    lemma_number16(whole, at, p, 32, m.comment.len() as u16);
    lemma_number32(whole, at, p, 42, offset);
    assert forall|i: int| 0 <= i < m.name.len() implies p[46 + i] == #[trigger] m.name[i] by {}
    lemma_bytes(whole, at, p, 46, m.name);
}

proof fn lemma_local_fields(m: Member, whole: Seq<u8>, at: int)
    requires
        m.fits(),
        stands_at(whole, at, m.local_part()),
    ensures
        m.local_part().len() == LOCAL_HEADER_LEN + m.local_name.len() + m.local_extra.len()
            + m.payload.len(),
        le32(whole, at) == LOCAL_FILE_HEADER_SIG,
        le16(whole, at + 26) == m.local_name.len(),
        le16(whole, at + 28) == m.local_extra.len(),
        ({
            let start = at + LOCAL_HEADER_LEN + m.local_name.len() + m.local_extra.len();
            whole.subrange(start, start + m.payload.len()) == m.payload
        }),
{
    let p = m.local_part();
    assert(p.len() == 30 + m.local_name.len() + m.local_extra.len() + m.payload.len());
    lemma_number32(whole, at, p, 0, LOCAL_FILE_HEADER_SIG);
    lemma_number16(whole, at, p, 26, m.local_name.len() as u16);
    lemma_number16(whole, at, p, 28, m.local_extra.len() as u16);
    let from = 30 + m.local_name.len() + m.local_extra.len();
    assert forall|i: int| 0 <= i < m.payload.len() implies p[from + i]
        == #[trigger] m.payload[i] by {}
    lemma_bytes(whole, at, p, from as int, m.payload);
}

proof fn lemma_inner(whole: Seq<u8>, at: int, part: Seq<u8>, from: int, inner: Seq<u8>)
    requires
        stands_at(whole, at, part),
        stands_at(part, from, inner),
    ensures
        stands_at(whole, at + from, inner),
{
    assert forall|i: int| 0 <= i < inner.len() implies whole[at + from + i]
        == #[trigger] inner[i] by {
        assert(part[from + i] == inner[i]);
        assert(whole[at + (from + i)] == part[from + i]);
    }
}

proof fn lemma_local_stands(members: Seq<Member>, i: nat, n: nat)
    requires
        i < n,
    ensures
        stands_at(
            locals(members, n),
            locals(members, i).len() as int,
            members[i as int].local_part(),
        ),
    decreases n,
{
    let k = (n - 1) as nat;
    let before = locals(members, k);
    let whole = locals(members, n);
    if i == k {
        assert forall|j: int| 0 <= j < members[k as int].local_part().len() implies whole[
        before.len() + j] == #[trigger] members[k as int].local_part()[j] by {}
    } else {
        lemma_local_stands(members, i, k);
        assert(stands_at(whole, 0, before));
        lemma_inner(
            whole,
            0,
            before,
            locals(members, i).len() as int,
            members[i as int].local_part(),
        );
    }
}

proof fn lemma_central_stands(members: Seq<Member>, i: nat, n: nat)
    requires
        i < n,
    ensures
        stands_at(
            centrals(members, n),
            centrals(members, i).len() as int,
            members[i as int].central_part(locals(members, i).len() as u32),
        ),
    decreases n,
{
    let k = (n - 1) as nat;
    let before = centrals(members, k);
    let whole = centrals(members, n);
    if i == k {
        let part = members[k as int].central_part(locals(members, k).len() as u32);
        assert forall|j: int| 0 <= j < part.len() implies whole[before.len() + j]
            == #[trigger] part[j] by {}
    } else {
        lemma_central_stands(members, i, k);
        assert(stands_at(whole, 0, before));
        lemma_inner(
            whole,
            0,
            before,
            centrals(members, i).len() as int,
            members[i as int].central_part(locals(members, i).len() as u32),
        );
    }
}

proof fn lemma_locals_grow(members: Seq<Member>, i: nat, n: nat)
    requires
        i <= n,
    ensures
        locals(members, i).len() <= locals(members, n).len(),
        centrals(members, i).len() <= centrals(members, n).len(),
    decreases n,
{
    if i < n {
        lemma_locals_grow(members, i, (n - 1) as nat);
    }
}

proof fn lemma_end_record_before(archive: Seq<u8>, end: int, at: int, low: int)
    requires
        low <= end <= at,
        le32(archive, end) == END_OF_CENTRAL_DIR_SIG,
        forall|i: int| end < i <= at ==> #[trigger] le32(archive, i) != END_OF_CENTRAL_DIR_SIG,
    ensures
        end_record_before(archive, at, low) == Some(end),
    decreases at - end,
{
    if at > end {
        assert(le32(archive, at) != END_OF_CENTRAL_DIR_SIG);
        lemma_end_record_before(archive, end, at - 1, low);
    }
}

proof fn lemma_directory(members: Seq<Member>, counts: Seq<u8>, comment: Seq<u8>)
    requires
        can_be_laid_out(members, counts, comment),
        ends_once(members, counts, comment),
    ensures
        ({
            let n = members.len();
            let archive = archive_of(members, counts, comment);
            let start = locals(members, n).len();
            let end = start + centrals(members, n).len();
            &&& directory(archive) == Ok::<(int, int), ZipFailure>((start as int, end as int))
            &&& end <= archive.len()
            &&& stands_at(archive, 0, locals(members, n))
            &&& stands_at(archive, start as int, centrals(members, n))
        }),
{
    let n = members.len();
    let archive = archive_of(members, counts, comment);
    let l = locals(members, n);
    let c = centrals(members, n);
    let e = end_part(l.len(), c.len(), counts, comment);
    let end = (l.len() + c.len()) as int;
    assert(e.len() == 22 + comment.len());
    assert(archive.len() == end + e.len());
    assert(stands_at(archive, end, e)) by {
        assert forall|i: int| 0 <= i < e.len() implies archive[end + i] == #[trigger] e[i] by {}
    }
    assert(stands_at(archive, l.len() as int, c)) by {
        assert forall|i: int| 0 <= i < c.len() implies archive[l.len() + i]
            == #[trigger] c[i] by {}
    }
    assert(stands_at(archive, 0, l)) by {
        assert forall|i: int| 0 <= i < l.len() implies archive[0 + i] == #[trigger] l[i] by {}
    }
    lemma_number32(archive, end, e, 0, END_OF_CENTRAL_DIR_SIG);
    lemma_number32(archive, end, e, 12, c.len() as u32);
    lemma_number32(archive, end, e, 16, l.len() as u32);
    let last = archive.len() - END_RECORD_LEN;
    let first = last - MAX_COMMENT_LEN;
    lemma_end_record_before(
        archive,
        end,
        last,
        if first < 0 {
            0
        } else {
            first
        },
    );
}

/// What the directory of an archive tells of a member.
pub open spec fn told_of(m: Member, offset: nat, at: int) -> DirectoryEntry {
    DirectoryEntry {
        name: m.name,
        method: m.method,
        compressed_size: m.payload.len() as u32,
        uncompressed_size: m.size,
        header_offset: offset as u32,
        next: at + CENTRAL_HEADER_LEN + m.name.len() + m.extra.len() + m.comment.len(),
    }
}

proof fn lemma_entry_at(
    members: Seq<Member>,
    counts: Seq<u8>,
    comment: Seq<u8>,
    i: nat,
)
    requires
        can_be_laid_out(members, counts, comment),
        ends_once(members, counts, comment),
        i < members.len(),
    ensures
        ({
            let n = members.len();
            let archive = archive_of(members, counts, comment);
            let start = locals(members, n).len();
            let end = start + centrals(members, n).len();
            let at = (start + centrals(members, i).len()) as int;
            let told = told_of(members[i as int], locals(members, i).len(), at);
            &&& at + CENTRAL_HEADER_LEN <= end
            &&& entry_at(archive, at, end as int) == Ok::<DirectoryEntry, ZipFailure>(told)
            &&& told.next == start + centrals(members, (i + 1) as nat).len()
            &&& told.next <= end
        }),
{
    let n = members.len();
    let m = members[i as int];
    let archive = archive_of(members, counts, comment);
    let start = locals(members, n).len();
    let at = (start + centrals(members, i).len()) as int;
    let offset = locals(members, i).len() as u32;
    lemma_directory(members, counts, comment);
    lemma_central_stands(members, i, n);
    lemma_inner(
        archive,
        start as int,
        centrals(members, n),
        centrals(members, i).len() as int,
        m.central_part(offset),
    );
    assert(m.fits());
    lemma_central_fields(m, offset, archive, at);
    lemma_locals_grow(members, (i + 1) as nat, n);
}

/// The names of members from member `i` on, those that are text.
pub open spec fn member_names(members: Seq<Member>, i: nat) -> Seq<Seq<char>>
    decreases members.len() - i,
{
    if i >= members.len() {
        seq![]
    } else {
        name_text(members[i as int].name) + member_names(members, (i + 1) as nat)
    }
}

proof fn lemma_names_from(
    members: Seq<Member>,
    counts: Seq<u8>,
    comment: Seq<u8>,
    i: nat,
)
    requires
        can_be_laid_out(members, counts, comment),
        ends_once(members, counts, comment),
        i <= members.len(),
    ensures
        ({
            let n = members.len();
            let start = locals(members, n).len();
            let end = start + centrals(members, n).len();
            let at = start + centrals(members, i).len();
            names_from(archive_of(members, counts, comment), at as int, end as int) == Ok::<
                Seq<Seq<char>>,
                ZipFailure,
            >(member_names(members, i))
        }),
    decreases members.len() - i,
{
    if i < members.len() {
        lemma_entry_at(members, counts, comment, i);
        lemma_names_from(members, counts, comment, (i + 1) as nat);
    }
}

/// The names of an archive are those of its members that are text, in their
/// order.
pub proof fn law_the_names_of_the_members_are_listed(
    members: Seq<Member>,
    counts: Seq<u8>,
    comment: Seq<u8>,
)
    requires
        can_be_laid_out(members, counts, comment),
        ends_once(members, counts, comment),
    ensures
        entry_names(archive_of(members, counts, comment)) == Ok::<Seq<Seq<char>>, ZipFailure>(
            member_names(members, 0),
        ),
{
    lemma_directory(members, counts, comment);
    lemma_names_from(members, counts, comment, 0);
}

proof fn lemma_entry_from(
    members: Seq<Member>,
    counts: Seq<u8>,
    comment: Seq<u8>,
    i: nat,
    k: nat,
    name: Seq<u8>,
)
    requires
        can_be_laid_out(members, counts, comment),
        ends_once(members, counts, comment),
        i <= k <= members.len(),
        forall|j: int| i <= j < k ==> (#[trigger] members[j]).name != name,
        k < members.len() ==> members[k as int].name == name,
    ensures
        ({
            let n = members.len();
            let start = locals(members, n).len();
            let end = start + centrals(members, n).len();
            let at = start + centrals(members, i).len();
            let found = start + centrals(members, k).len();
            entry_from(archive_of(members, counts, comment), at as int, end as int, name) == (
            if k < members.len() {
                Ok::<Option<DirectoryEntry>, ZipFailure>(
                    Some(told_of(members[k as int], locals(members, k).len(), found as int)),
                )
            } else {
                Ok(None)
            })
        }),
    decreases members.len() - i,
{
    if i < members.len() {
        lemma_entry_at(members, counts, comment, i);
        if i < k {
            assert(members[i as int].name != name);
            lemma_entry_from(members, counts, comment, (i + 1) as nat, k, name);
        }
    }
}

/// A name that no member has is not found, and that is no error.
pub proof fn law_absent_names_are_not_found(
    members: Seq<Member>,
    counts: Seq<u8>,
    comment: Seq<u8>,
    name: Seq<char>,
    cap: u64,
)
    requires
        can_be_laid_out(members, counts, comment),
        ends_once(members, counts, comment),
        forall|j: int| 0 <= j < members.len() ==> (#[trigger] members[j]).name != encode_utf8(name),
    ensures
        entry_bytes(archive_of(members, counts, comment), name, cap) == Ok::<
            Option<Seq<u8>>,
            ZipFailure,
        >(None),
{
    lemma_directory(members, counts, comment);
    lemma_entry_from(members, counts, comment, 0, members.len(), encode_utf8(name));
}

/// What is read of a payload.
pub open spec fn payload_data(
    method: u16,
    payload: Seq<u8>,
    name: Seq<char>,
    cap: u64,
) -> Result<Seq<u8>, ZipFailure> {
    if method == METHOD_STORED {
        if payload.len() > cap {
            Err(ZipFailure::EntryTooLarge { name, cap, actual: payload.len() as u64 })
        } else {
            Ok(payload)
        }
    } else if method == METHOD_DEFLATED {
        inflated(name, cap, payload)
    } else {
        Err(ZipFailure::UnsupportedCompression(method))
    }
}

proof fn lemma_data_at(m: Member, archive: Seq<u8>, offset: int, name: Seq<char>, cap: u64)
    requires
        m.fits(),
        stands_at(archive, offset, m.local_part()),
    ensures
        entry_data(archive, offset, m.method, m.payload.len() as u32, name, cap) == payload_data(
            m.method,
            m.payload,
            name,
            cap,
        ),
{
    lemma_local_fields(m, archive, offset);
}

proof fn lemma_member_data(
    members: Seq<Member>,
    counts: Seq<u8>,
    comment: Seq<u8>,
    k: nat,
    name: Seq<char>,
    cap: u64,
)
    requires
        can_be_laid_out(members, counts, comment),
        ends_once(members, counts, comment),
        k < members.len(),
    ensures
        entry_data(
            archive_of(members, counts, comment),
            locals(members, k).len() as int,
            members[k as int].method,
            members[k as int].payload.len() as u32,
            name,
            cap,
        ) == payload_data(members[k as int].method, members[k as int].payload, name, cap),
{
    let n = members.len();
    let m = members[k as int];
    let archive = archive_of(members, counts, comment);
    let offset = locals(members, k).len() as int;
    lemma_directory(members, counts, comment);
    lemma_local_stands(members, k, n);
    lemma_inner(archive, 0, locals(members, n), offset, m.local_part());
    assert(m.fits());
    lemma_data_at(m, archive, offset, name, cap);
}

/// Reading gives back what was put into an archive. The first member with a name
/// is read by it: one that is stored gives its payload, one that is deflated
/// gives what its payload decodes to, unless it is larger than the cap or is said
/// to be.
pub proof fn law_members_are_read_back(
    members: Seq<Member>,
    counts: Seq<u8>,
    comment: Seq<u8>,
    k: nat,
    name: Seq<char>,
    cap: u64,
)
    requires
        can_be_laid_out(members, counts, comment),
        ends_once(members, counts, comment),
        k < members.len(),
        members[k as int].name == encode_utf8(name),
        forall|j: int| 0 <= j < k ==> (#[trigger] members[j]).name != encode_utf8(name),
    ensures
        entry_bytes(archive_of(members, counts, comment), name, cap) == (
        if members[k as int].size > cap {
            Err::<Option<Seq<u8>>, ZipFailure>(
                ZipFailure::EntryTooLarge { name, cap, actual: members[k as int].size as u64 },
            )
        } else {
            match payload_data(members[k as int].method, members[k as int].payload, name, cap) {
                Ok(data) => Ok(Some(data)),
                Err(e) => Err(e),
            }
        }),
{
    let m = members[k as int];
    let archive = archive_of(members, counts, comment);
    lemma_directory(members, counts, comment);
    lemma_entry_from(members, counts, comment, 0, k, encode_utf8(name));
    lemma_locals_grow(members, k, members.len());
    lemma_member_data(members, counts, comment, k, name, cap);
    let told = entry_named(archive, name)->Ok_0->0;
    assert(told.header_offset == locals(members, k).len());
}

} // verus!
