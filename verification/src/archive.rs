//! The container adapter: a ZIP archive as an ordered list of named members.
//!
//! Reading and writing the archive format is the `zip` crate's work. This
//! module states what the library relies on when it calls it, and holds the
//! verified loops that unpack an archive into members and pack members into
//! an archive.

use vstd::prelude::*;
use vstd::utf8::{decode_utf8, valid_utf8};
use crate::error::DocxHandlebarsError;

verus! {

/// `std::io::Cursor`, the in-memory reader that an archive is opened over.
/// It is carried through; nothing is known of what is inside.
#[verifier::external_type_specification]
#[verifier::external_body]
#[verifier::reject_recursive_types(T)]
pub struct ExCursor<T>(std::io::Cursor<T>);

/// `zip::ZipArchive`, an opened archive. What it holds is spoken of through
/// [`archive_members`].
#[verifier::external_type_specification]
#[verifier::external_body]
#[verifier::reject_recursive_types(R)]
pub struct ExZipArchive<R>(zip::ZipArchive<R>);

/// A ZIP archive that is being written into memory.
///
/// Holds a `zip::ZipWriter` over an in-memory cursor. The writer's type is
/// bounded by traits of `std::io`, so it is kept behind this struct; what it
/// has been given is spoken of through [`writer_members`].
#[verifier::external_body]
pub struct ArchiveWriter {
    inner: zip::ZipWriter<std::io::Cursor<Vec<u8>>>,
}

/// What an archive says of one member: its path, and what comes of reading
/// it. `None`: the member cannot be opened (encrypted, or compressed in a way
/// that is not supported). `Some(None)`: it opens, but its bytes cannot be
/// read to the end. `Some(Some(bytes))`: its content.
pub type MemberListing = (Seq<char>, Option<Option<Seq<u8>>>);

/// The members that `zip::ZipArchive::new` finds in `bytes`, in the order of
/// the archive's directory; `None` where it refuses the bytes.
pub uninterp spec fn zip_listing(bytes: Seq<u8>) -> Option<Seq<MemberListing>>;

/// The members that an opened archive holds, in the order of its directory.
pub uninterp spec fn archive_members(
    archive: zip::ZipArchive<std::io::Cursor<Vec<u8>>>,
) -> Seq<MemberListing>;

/// What an archive writer has been given for one member: its path, its
/// content, and the compression level (`None`: the writer's default).
pub type WrittenMember = (Seq<char>, Seq<u8>, Option<i64>);

/// What an archive writer makes of one more member.
pub enum WriteOutcome {
    /// The member is taken in.
    Taken,
    /// The writer refuses to start the member.
    EntryRefused,
    /// The member is started and its content cannot be written.
    DataRefused,
}

/// The members that a writer has taken in, in the order of writing, where it
/// has taken in every member it was given; `None` once it has refused one.
pub uninterp spec fn writer_members(writer: ArchiveWriter) -> Option<Seq<WrittenMember>>;

/// What a writer that has taken in exactly the members `before` makes of
/// one more member, given to `ZipWriter::start_file` and `Write::write_all`.
/// The writer works in memory, so this depends on the members alone.
pub uninterp spec fn write_outcome(before: Seq<WrittenMember>, member: WrittenMember) -> WriteOutcome;

/// The bytes that `ZipWriter::finish` gives for a writer that has taken in
/// exactly these members; `None` where it fails. The writer stamps each
/// member with the fixed default date of the format, so the bytes depend on
/// the members alone.
pub uninterp spec fn archive_of(members: Seq<WrittenMember>) -> Option<Seq<u8>>;

/// Why the archive reader or writer gave up on a member; each holds the
/// outside error's description.
#[derive(Debug, Clone, PartialEq, Eq)]
pub enum ArchiveFault {
    /// The archive refused the member itself.
    Entry(String),
    /// The member's bytes could not be read or written.
    Data(String),
}

/// One member of an archive: its path and its content.
#[derive(Debug, Clone, PartialEq, Eq)]
pub struct ArchiveMember {
    pub name: String,
    pub data: Vec<u8>,
}

impl View for ArchiveMember {
    type V = (Seq<char>, Seq<u8>);

    open spec fn view(&self) -> (Seq<char>, Seq<u8>) {
        (self.name@, self.data@)
    }
}

/// The values of a list of members.
pub open spec fn member_views(members: Seq<ArchiveMember>) -> Seq<(Seq<char>, Seq<u8>)> {
    Seq::new(members.len(), |i: int| members[i]@)
}

/// The member's content can be read in full.
pub open spec fn readable(member: MemberListing) -> bool {
    member.1 matches Some(Some(_))
}

/// The member's content; empty where it cannot be read.
pub open spec fn payload(member: MemberListing) -> Seq<u8> {
    match member.1 {
        Some(Some(bytes)) => bytes,
        _ => Seq::empty(),
    }
}

/// The first position at or after `i` whose member cannot be read; the
/// number of members where every one can.
pub open spec fn first_unreadable(members: Seq<MemberListing>, i: int) -> int
    decreases members.len() - i,
{
    if i < 0 || i >= members.len() {
        members.len() as int
    } else if !readable(members[i]) {
        i
    } else {
        first_unreadable(members, i + 1)
    }
}

/// The paths and contents of the first `n` members.
pub open spec fn contents(members: Seq<MemberListing>, n: int) -> Seq<(Seq<char>, Seq<u8>)> {
    Seq::new(n as nat, |i: int| (members[i].0, payload(members[i])))
}

/// The first position whose member has the path `name`; the number of
/// members where none has.
pub open spec fn position_of(members: Seq<MemberListing>, name: Seq<char>, i: int) -> int
    decreases members.len() - i,
{
    if i < 0 || i >= members.len() {
        members.len() as int
    } else if members[i].0 == name {
        i
    } else {
        position_of(members, name, i + 1)
    }
}

/// The archive has a member `name` that can be opened.
pub open spec fn opens_member(members: Seq<MemberListing>, name: Seq<char>) -> bool {
    let k = position_of(members, name, 0);
    k < members.len() && members[k].1 is Some
}

/// The content of the member `name` as text: `None` where the member is
/// absent, cannot be read, or is not UTF-8.
pub open spec fn text_of_member(members: Seq<MemberListing>, name: Seq<char>) -> Option<
    Seq<char>,
> {
    let k = position_of(members, name, 0);
    if k < members.len() && readable(members[k]) && valid_utf8(payload(members[k])) {
        Some(decode_utf8(payload(members[k])))
    } else {
        None
    }
}

/// The position that [`first_unreadable`] gives holds a member that cannot
/// be read where it is not the end, and every member from `i` up to it can
/// be read.
pub proof fn lemma_first_unreadable(members: Seq<MemberListing>, i: int)
    requires
        0 <= i <= members.len(),
    ensures
        i <= first_unreadable(members, i) <= members.len(),
        first_unreadable(members, i) < members.len() ==> !readable(
            members[first_unreadable(members, i)],
        ),
        forall|j: int| i <= j < first_unreadable(members, i) ==> readable(members[j]),
    decreases members.len() - i,
{
    if i < members.len() && readable(members[i]) {
        lemma_first_unreadable(members, i + 1);
    }
}

/// `zip::ZipArchive::new` over an in-memory cursor: it succeeds exactly on
/// the bytes that have a listing, and the archive then holds that listing.
/// On refusal the error's description is returned.
#[verifier::external_body]
pub(crate) fn open_archive(bytes: Vec<u8>) -> (r: Result<
    zip::ZipArchive<std::io::Cursor<Vec<u8>>>,
    String,
>)
    ensures
        r is Ok <==> zip_listing(bytes@) is Some,
        r matches Ok(archive) ==> zip_listing(bytes@) == Some(archive_members(archive)),
{
    zip::ZipArchive::new(std::io::Cursor::new(bytes)).map_err(|e| e.to_string())
}

/// `ZipArchive::len`: the number of members.
#[verifier::external_body]
pub(crate) fn member_count(archive: &zip::ZipArchive<std::io::Cursor<Vec<u8>>>) -> (n: usize)
    ensures
        n == archive_members(*archive).len(),
{
    archive.len()
}

/// `ZipArchive::by_index`, then `ZipFile::name` and `Read::read_to_end` on
/// the member it gives: the member's path and content. A position past the
/// end, or a member that cannot be opened, is an `Entry` fault; content that
/// cannot be read to the end is a `Data` fault. The archive holds afterwards
/// what it held before.
#[verifier::external_body]
pub(crate) fn read_member(
    archive: &mut zip::ZipArchive<std::io::Cursor<Vec<u8>>>,
    index: usize,
) -> (r: Result<ArchiveMember, ArchiveFault>)
    ensures
        archive_members(*final(archive)) == archive_members(*old(archive)),
        index >= archive_members(*old(archive)).len() ==> r matches Err(ArchiveFault::Entry(_)),
        index < archive_members(*old(archive)).len() ==> match archive_members(
            *old(archive),
        )[index as int].1 {
            None => r matches Err(ArchiveFault::Entry(_)),
            Some(None) => r matches Err(ArchiveFault::Data(_)),
            Some(Some(bytes)) => r matches Ok(member) && member@ == (
                archive_members(*old(archive))[index as int].0,
                bytes,
            ),
        },
{
    let mut file = match archive.by_index(index) {
        Ok(file) => file,
        Err(e) => return Err(ArchiveFault::Entry(e.to_string())),
    };
    let name = file.name().to_string();
    let mut data = Vec::new();
    match std::io::Read::read_to_end(&mut file, &mut data) {
        Ok(_) => Ok(ArchiveMember { name, data }),
        Err(e) => Err(ArchiveFault::Data(e.to_string())),
    }
}

/// `ZipArchive::by_name`: whether the archive has a member of that path
/// that can be opened. The archive holds afterwards what it held before.
#[verifier::external_body]
pub(crate) fn has_member(
    archive: &mut zip::ZipArchive<std::io::Cursor<Vec<u8>>>,
    name: &str,
) -> (r: bool)
    ensures
        archive_members(*final(archive)) == archive_members(*old(archive)),
        r == opens_member(archive_members(*old(archive)), name@),
{
    archive.by_name(name).is_ok()
}

/// `ZipArchive::by_name`, then `Read::read_to_string` on the member it
/// gives: the member's content as text, where the member is there, can be
/// read and is UTF-8. The archive holds afterwards what it held before.
#[verifier::external_body]
pub(crate) fn member_text(
    archive: &mut zip::ZipArchive<std::io::Cursor<Vec<u8>>>,
    name: &str,
) -> (r: Option<String>)
    ensures
        archive_members(*final(archive)) == archive_members(*old(archive)),
        r is Some <==> text_of_member(archive_members(*old(archive)), name@) is Some,
        r matches Some(s) ==> text_of_member(archive_members(*old(archive)), name@) == Some(s@),
{
    let mut file = archive.by_name(name).ok()?;
    let mut text = String::new();
    std::io::Read::read_to_string(&mut file, &mut text).ok()?;
    Some(text)
}

/// `zip::ZipWriter::new` over an empty in-memory cursor: nothing is written
/// yet.
#[verifier::external_body]
pub(crate) fn new_writer() -> (writer: ArchiveWriter)
    ensures
        writer_members(writer) == Some(Seq::<WrittenMember>::empty()),
{
    ArchiveWriter { inner: zip::ZipWriter::new(std::io::Cursor::new(Vec::new())) }
}

/// `ZipWriter::start_file` with the deflate method (a value of the outside
/// crate, so it is named where the call is made) at the given level, then
/// `Write::write_all`. For a writer that has refused nothing so far, what
/// comes of the member is [`write_outcome`] of what the writer holds and the
/// member: taken in, it is the last one written; a refused start is an
/// `Entry` fault, a failed write a `Data` fault. Nothing is claimed of the
/// writer after a fault.
#[verifier::external_body]
pub(crate) fn write_member(
    writer: &mut ArchiveWriter,
    name: &str,
    data: &[u8],
    level: Option<i64>,
) -> (r: Result<(), ArchiveFault>)
    ensures
        writer_members(*old(writer)) matches Some(before) ==> match write_outcome(
            before,
            (name@, data@, level),
        ) {
            WriteOutcome::Taken => r is Ok && writer_members(*final(writer)) == Some(
                before.push((name@, data@, level)),
            ),
            WriteOutcome::EntryRefused => r matches Err(ArchiveFault::Entry(_)),
            WriteOutcome::DataRefused => r matches Err(ArchiveFault::Data(_)),
        },
{
    let options = zip::write::SimpleFileOptions::default().compression_method(
        zip::CompressionMethod::Deflated,
    ).compression_level(level);
    writer.inner.start_file(name, options).map_err(|e| ArchiveFault::Entry(e.to_string()))?;
    std::io::Write::write_all(&mut writer.inner, data).map_err(
        |e| ArchiveFault::Data(e.to_string()),
    )
}

/// `ZipWriter::finish`: the bytes of the archive that the writer has built,
/// or the error's description. For a writer that has refused nothing, the
/// outcome is [`archive_of`] the members it holds.
#[verifier::external_body]
pub(crate) fn finish_writer(writer: ArchiveWriter) -> (r: Result<Vec<u8>, String>)
    ensures
        writer_members(writer) matches Some(members) ==> match archive_of(members) {
            Some(bytes) => r matches Ok(out) && out@ == bytes,
            None => r is Err,
        },
{
    match writer.inner.finish() {
        Ok(cursor) => Ok(cursor.into_inner()),
        Err(e) => Err(e.to_string()),
    }
}

/// `String::from_utf8`: the bytes as text, exactly where they are UTF-8.
#[verifier::external_body]
pub(crate) fn strict_text(bytes: Vec<u8>) -> (r: Option<String>)
    ensures
        r is Some <==> valid_utf8(bytes@),
        r matches Some(s) ==> s@ == decode_utf8(bytes@),
{
    String::from_utf8(bytes).ok()
}

/// The error that a reader's or writer's fault becomes.
pub fn fault_error(fault: ArchiveFault) -> (e: DocxHandlebarsError)
    ensures
        match fault {
            ArchiveFault::Entry(d) => e matches DocxHandlebarsError::Zip(t) && t@ == d@,
            ArchiveFault::Data(d) => e matches DocxHandlebarsError::Io(t) && t@ == d@,
        },
{
    match fault {
        ArchiveFault::Entry(d) => DocxHandlebarsError::Zip(d),
        ArchiveFault::Data(d) => DocxHandlebarsError::Io(d),
    }
}

/// Reads every member of an archive, in the order of its directory.
///
/// Fails with `Zip` where the bytes are no archive or the first member that
/// cannot be read does not open, with `Io` where that member opens and its
/// bytes cannot be read; succeeds with all paths and contents otherwise.
pub fn unpack(bytes: Vec<u8>) -> (r: std::result::Result<Vec<ArchiveMember>, DocxHandlebarsError>)
    ensures
        match zip_listing(bytes@) {
            None => r matches Err(DocxHandlebarsError::Zip(_)),
            Some(listing) => {
                let k = first_unreadable(listing, 0);
                if k == listing.len() {
                    r matches Ok(members) && member_views(members@) == contents(
                        listing,
                        listing.len() as int,
                    )
                } else if listing[k].1 is None {
                    r matches Err(DocxHandlebarsError::Zip(_))
                } else {
                    r matches Err(DocxHandlebarsError::Io(_))
                }
            },
        },
{
    let ghost source = bytes@;
    let mut archive = match open_archive(bytes) {
        Ok(archive) => archive,
        Err(detail) => {
            return Err(DocxHandlebarsError::Zip(detail));
        },
    };
    let ghost listing = archive_members(archive);
    let n = member_count(&archive);
    let mut members: Vec<ArchiveMember> = Vec::new();
    let mut i: usize = 0;
    assert(member_views(members@) =~= contents(listing, 0));
    while i < n
        invariant
            i <= n,
            n == listing.len(),
            archive_members(archive) == listing,
            source == bytes@,
            zip_listing(source) == Some(listing),
            first_unreadable(listing, 0) == first_unreadable(listing, i as int),
            member_views(members@) == contents(listing, i as int),
        decreases n - i,
    {
        proof {
            lemma_first_unreadable(listing, i as int);
        }
        match read_member(&mut archive, i) {
            Ok(member) => {
                let ghost before = members@;
                assert(readable(listing[i as int]));
                assert(member@ == (listing[i as int].0, payload(listing[i as int])));
                assert(member_views(before).len() == i);
                members.push(member);
                assert forall|j: int| 0 <= j < i + 1 implies member_views(members@)[j]
                    == contents(listing, i + 1)[j] by {
                    if j < i {
                        assert(member_views(before)[j] == contents(listing, i as int)[j]);
                    }
                }
                assert(member_views(members@) =~= contents(listing, i + 1));
            },
            Err(fault) => {
                assert(!readable(listing[i as int]));
                assert(first_unreadable(listing, 0) == i);
                return Err(fault_error(fault));
            },
        }
        i = i + 1;
    }
    Ok(members)
}

/// The members as an archive writer is given them, each at `level`.
pub open spec fn written(members: Seq<(Seq<char>, Seq<u8>)>, level: Option<i64>) -> Seq<
    WrittenMember,
> {
    Seq::new(members.len(), |i: int| (members[i].0, members[i].1, level))
}

/// The first position at or after `i` whose member the writer does not
/// take in, after it has taken in every member before; the number of
/// members where it takes in every one.
pub open spec fn first_refused(members: Seq<WrittenMember>, i: int) -> int
    decreases members.len() - i,
{
    if i < 0 || i >= members.len() {
        members.len() as int
    } else if !(write_outcome(members.take(i), members[i]) is Taken) {
        i
    } else {
        first_refused(members, i + 1)
    }
}

/// Why packing fails.
pub enum PackFault {
    /// The writer refuses to start a member.
    Entry,
    /// The content of a member cannot be written.
    Data,
    /// The archive cannot be finished.
    Finish,
}

/// What comes of giving the members to a new archive writer, in order, and
/// finishing the archive: its bytes, or the first failure.
pub open spec fn packing(members: Seq<WrittenMember>) -> Result<Seq<u8>, PackFault> {
    let k = first_refused(members, 0);
    if k < members.len() {
        if write_outcome(members.take(k), members[k]) is EntryRefused {
            Err(PackFault::Entry)
        } else {
            Err(PackFault::Data)
        }
    } else {
        match archive_of(members) {
            Some(bytes) => Ok(bytes),
            None => Err(PackFault::Finish),
        }
    }
}

/// `r` is what packing returns on an outcome: the bytes, `Zip` where the
/// writer refuses a member or cannot finish, `Io` where it cannot write a
/// member's content.
pub open spec fn pack_reports(
    r: std::result::Result<Vec<u8>, DocxHandlebarsError>,
    outcome: Result<Seq<u8>, PackFault>,
) -> bool {
    match outcome {
        Ok(bytes) => r matches Ok(out) && out@ == bytes,
        Err(PackFault::Entry) => r matches Err(DocxHandlebarsError::Zip(_)),
        Err(PackFault::Data) => r matches Err(DocxHandlebarsError::Io(_)),
        Err(PackFault::Finish) => r matches Err(DocxHandlebarsError::Zip(_)),
    }
}

/// `r` is what packing the members, each deflated at `level`, returns.
pub open spec fn packed(
    members: Seq<(Seq<char>, Seq<u8>)>,
    level: Option<i64>,
    r: std::result::Result<Vec<u8>, DocxHandlebarsError>,
) -> bool {
    pack_reports(r, packing(written(members, level)))
}

/// Writes the members into a new archive, in order, deflated at `level`
/// (`None`: the writer's default level), and finishes the archive.
///
/// Succeeds exactly where the writer takes in every member and finishes;
/// the bytes are then the archive of these members. The first member that
/// the writer refuses gives `Zip`, the first whose content cannot be written
/// `Io`, a failure to finish `Zip`.
pub fn pack(members: &Vec<ArchiveMember>, level: Option<i64>) -> (r: std::result::Result<
    Vec<u8>,
    DocxHandlebarsError,
>)
    ensures
        packed(member_views(members@), level, r),
{
    let mut writer = new_writer();
    let mut i: usize = 0;
    let ghost goal = written(member_views(members@), level);
    assert(goal.take(0) =~= Seq::<WrittenMember>::empty());
    while i < members.len()
        invariant
            i <= members.len(),
            goal == written(member_views(members@), level),
            goal.len() == members.len(),
            writer_members(writer) == Some(goal.take(i as int)),
            first_refused(goal, 0) == first_refused(goal, i as int),
        decreases members.len() - i,
    {
        assert(goal[i as int] == (members@[i as int].name@, members@[i as int].data@, level));
        match write_member(
            &mut writer,
            members[i].name.as_str(),
            members[i].data.as_slice(),
            level,
        ) {
            Ok(()) => {},
            Err(fault) => {
                return Err(fault_error(fault));
            },
        }
        assert(goal.take(i + 1) =~= goal.take(i as int).push(
            (members@[i as int].name@, members@[i as int].data@, level),
        ));
        i = i + 1;
    }
    assert(goal.take(members.len() as int) =~= goal);
    match finish_writer(writer) {
        Ok(bytes) => Ok(bytes),
        Err(detail) => Err(DocxHandlebarsError::Zip(detail)),
    }
}

} // verus!
