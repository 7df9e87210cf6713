//! A loaded document: the archive's bytes, the text of the document body,
//! and every other member as it came.

use vstd::prelude::*;
use vstd::slice::slice_to_vec;
use vstd::string::*;
use vstd::utf8::{decode_utf8, valid_utf8};
use crate::archive::{
    archive_members, contents, fault_error, member_count, member_views, open_archive, pack,
    packed, payload, read_member, readable, strict_text, zip_listing, ArchiveMember,
    MemberListing,
};
use crate::error::DocxHandlebarsError;
use crate::events::{document_rewritten, document_text_runs, gather_text, rewrite_markup};
use crate::utils::DOCUMENT_PATH;

verus! {

/// The first position at or after `i` whose member has the path `name`; the
/// number of members where none has.
pub open spec fn index_of_name(files: Seq<(Seq<char>, Seq<u8>)>, name: Seq<char>, i: int) -> int
    decreases files.len() - i,
{
    if i < 0 || i >= files.len() {
        files.len() as int
    } else if files[i].0 == name {
        i
    } else {
        index_of_name(files, name, i + 1)
    }
}

/// The members with `name` set to `data`: a member of that path is
/// replaced where it stands, a new one is put last.
pub open spec fn inserted(files: Seq<(Seq<char>, Seq<u8>)>, name: Seq<char>, data: Seq<u8>) -> Seq<
    (Seq<char>, Seq<u8>),
> {
    let k = index_of_name(files, name, 0);
    if k < files.len() {
        files.update(k, (name, data))
    } else {
        files.push((name, data))
    }
}

/// No path occurs twice.
pub open spec fn distinct_names(files: Seq<(Seq<char>, Seq<u8>)>) -> bool {
    forall|i: int, j: int| 0 <= i < j < files.len() ==> files[i].0 != files[j].0
}

/// The loading stops at the member: it cannot be read, or it is the body
/// and is not UTF-8.
pub open spec fn stops_loading(member: MemberListing) -> bool {
    !readable(member) || (member.0 == DOCUMENT_PATH@ && !valid_utf8(payload(member)))
}

/// The first position at or after `i` where the loading stops; the number
/// of members where it does not stop.
pub open spec fn first_stop(members: Seq<MemberListing>, i: int) -> int
    decreases members.len() - i,
{
    if i < 0 || i >= members.len() {
        members.len() as int
    } else if stops_loading(members[i]) {
        i
    } else {
        first_stop(members, i + 1)
    }
}

/// The position that [`first_stop`] gives is one where the loading stops,
/// where it is not the end, and the loading stops at none from `i` up to it.
pub proof fn lemma_first_stop(members: Seq<MemberListing>, i: int)
    requires
        0 <= i <= members.len(),
    ensures
        i <= first_stop(members, i) <= members.len(),
        first_stop(members, i) < members.len() ==> stops_loading(
            members[first_stop(members, i)],
        ),
        forall|j: int| i <= j < first_stop(members, i) ==> !stops_loading(members[j]),
    decreases members.len() - i,
{
    if i < members.len() && !stops_loading(members[i]) {
        lemma_first_stop(members, i + 1);
    }
}

/// The body text and the other members after the first `n` members of an
/// archive have been taken in: the body is the member at the document path,
/// decoded as UTF-8; every other member is kept under its path.
pub open spec fn absorbed(members: Seq<(Seq<char>, Seq<u8>)>, n: int) -> (
    Seq<char>,
    Seq<(Seq<char>, Seq<u8>)>,
)
    decreases n,
{
    if n <= 0 {
        (Seq::empty(), Seq::empty())
    } else {
        let before = absorbed(members, n - 1);
        let member = members[n - 1];
        if member.0 == DOCUMENT_PATH@ {
            (decode_utf8(member.1), before.1)
        } else {
            (before.0, inserted(before.1, member.0, member.1))
        }
    }
}

/// The description carried by the error for a body that is not UTF-8.
pub open spec fn body_encoding_message() -> Seq<char> {
    "word/document.xml is not valid UTF-8"@
}

/// The description carried by the error for an archive without a document
/// body.
pub open spec fn missing_body_message() -> Seq<char> {
    "无法找到 word/document.xml 文件"@
}

/// The position that [`index_of_name`] gives holds a member of that path
/// where it is not the end, and no member from `i` up to it has the path.
pub proof fn lemma_index_of_name(files: Seq<(Seq<char>, Seq<u8>)>, name: Seq<char>, i: int)
    requires
        0 <= i <= files.len(),
    ensures
        i <= index_of_name(files, name, i) <= files.len(),
        index_of_name(files, name, i) < files.len() ==> files[index_of_name(files, name, i)].0
            == name,
        forall|j: int| i <= j < index_of_name(files, name, i) ==> files[j].0 != name,
    decreases files.len() - i,
{
    if i < files.len() && files[i].0 != name {
        lemma_index_of_name(files, name, i + 1);
    }
}

/// Setting a member keeps the paths distinct.
pub proof fn lemma_inserted_distinct(files: Seq<(Seq<char>, Seq<u8>)>, name: Seq<char>, data: Seq<u8>)
    requires
        distinct_names(files),
    ensures
        distinct_names(inserted(files, name, data)),
{
    lemma_index_of_name(files, name, 0);
}

/// Sets the member `name` to `data`.
fn insert_member(files: &mut Vec<ArchiveMember>, name: String, data: Vec<u8>)
    ensures
        member_views(final(files)@) == inserted(member_views(old(files)@), name@, data@),
{
    let ghost before = member_views(files@);
    let mut k: usize = 0;
    while k < files.len()
        invariant
            k <= files.len(),
            files@ == old(files)@,
            before == member_views(files@),
            index_of_name(before, name@, 0) == index_of_name(before, name@, k as int),
        decreases files.len() - k,
    {
        assert(before[k as int] == files@[k as int]@);
        if files[k].name == name {
            files.set(k, ArchiveMember { name, data });
            assert(member_views(files@) =~= before.update(k as int, (name@, data@)));
            return ;
        }
        k = k + 1;
    }
    files.push(ArchiveMember { name, data });
    assert(member_views(files@) =~= before.push((name@, data@)));
}

/// A document template: the archive it was loaded from, the text of its
/// body, and its other members.
pub struct DocxProcessor {
    zip_content: Vec<u8>,
    document_content: String,
    other_files: Vec<ArchiveMember>,
}

/// `after` is the processor `before` with the archive `bytes` loaded, and
/// `r` what the loading returns.
///
/// The bytes are kept in any case. Where they are no archive, the body and
/// the other members stay as they were and the error is `Zip`. Otherwise the
/// members are taken in, in order, up to the first at which the loading
/// stops, with `Zip` (the member does not open), `Io` (its bytes cannot be
/// read) or `Utf8` (it is the body and is not UTF-8). An archive that yields
/// no body text is a `DocumentFormat` error.
pub open spec fn loaded(
    before: DocxProcessor,
    after: DocxProcessor,
    bytes: Seq<u8>,
    r: std::result::Result<(), DocxHandlebarsError>,
) -> bool {
    &&& after.source() == bytes
    &&& match zip_listing(bytes) {
        None => {
            &&& r matches Err(DocxHandlebarsError::Zip(_))
            &&& after.content() == before.content()
            &&& after.others() == before.others()
        },
        Some(listing) => {
            let k = first_stop(listing, 0);
            let state = absorbed(contents(listing, listing.len() as int), k);
            &&& after.content() == state.0
            &&& after.others() == state.1
            &&& distinct_names(after.others())
            &&& if k < listing.len() {
                if listing[k].1 is None {
                    r matches Err(DocxHandlebarsError::Zip(_))
                } else if !readable(listing[k]) {
                    r matches Err(DocxHandlebarsError::Io(_))
                } else {
                    r matches Err(DocxHandlebarsError::Utf8(d)) && d@ == body_encoding_message()
                }
            } else if state.0.len() == 0 {
                r matches Err(DocxHandlebarsError::DocumentFormat(d)) && d@
                    == missing_body_message()
            } else {
                r is Ok
            }
        },
    }
}

impl DocxProcessor {
    /// The bytes the document was loaded from.
    pub closed spec fn source(&self) -> Seq<u8> {
        self.zip_content@
    }

    /// The text of the document body.
    pub closed spec fn content(&self) -> Seq<char> {
        self.document_content@
    }

    /// The members other than the document body, in the order they were
    /// first met.
    pub closed spec fn others(&self) -> Seq<(Seq<char>, Seq<u8>)> {
        member_views(self.other_files@)
    }

    /// A processor with nothing loaded.
    pub fn new() -> (p: Self)
        ensures
            p.source() == Seq::<u8>::empty(),
            p.content() == Seq::<char>::empty(),
            p.others() == Seq::<(Seq<char>, Seq<u8>)>::empty(),
    {
        let p = DocxProcessor {
            zip_content: Vec::new(),
            document_content: String::new(),
            other_files: Vec::new(),
        };
        assert(member_views(p.other_files@) =~= Seq::<(Seq<char>, Seq<u8>)>::empty());
        p
    }

    /// Loads a document from the bytes of its archive, as [`loaded`]
    /// describes.
    pub fn load_from_bytes(&mut self, bytes: &[u8]) -> (r: std::result::Result<
        (),
        DocxHandlebarsError,
    >)
        ensures
            loaded(*old(self), *final(self), bytes@, r),
    {
        self.zip_content = slice_to_vec(bytes);
        self.extract_contents()
    }

    /// Takes the members of the kept archive in.
    fn extract_contents(&mut self) -> (r: std::result::Result<(), DocxHandlebarsError>)
        ensures
            loaded(*old(self), *final(self), old(self).source(), r),
    {
        let mut archive = match open_archive(slice_to_vec(self.zip_content.as_slice())) {
            Ok(archive) => archive,
            Err(detail) => {
                return Err(DocxHandlebarsError::Zip(detail));
            },
        };
        let ghost listing = archive_members(archive);
        let ghost all = contents(listing, listing.len() as int);
        let n = member_count(&archive);
        self.other_files = Vec::new();
        self.document_content = String::new();
        assert(member_views(self.other_files@) =~= Seq::<(Seq<char>, Seq<u8>)>::empty());
        let mut i: usize = 0;
        while i < n
            invariant
                i <= n,
                n == listing.len(),
                archive_members(archive) == listing,
                all == contents(listing, listing.len() as int),
                zip_listing(old(self).source()) == Some(listing),
                self.source() == old(self).source(),
                first_stop(listing, 0) == first_stop(listing, i as int),
                self.content() == absorbed(all, i as int).0,
                self.others() == absorbed(all, i as int).1,
                distinct_names(self.others()),
            decreases n - i,
        {
            proof {
                lemma_first_stop(listing, i as int);
            }
            match read_member(&mut archive, i) {
                Ok(member) => {
                    assert(readable(listing[i as int]));
                    assert(member@ == all[i as int]);
                    let ArchiveMember { name, data } = member;
                    if name == String::from_str(DOCUMENT_PATH) {
                        match strict_text(data) {
                            Some(text) => {
                                self.document_content = text;
                            },
                            None => {
                                return Err(
                                    DocxHandlebarsError::Utf8(
                                        String::from_str("word/document.xml is not valid UTF-8"),
                                    ),
                                );
                            },
                        }
                    } else {
                        proof {
                            lemma_inserted_distinct(self.others(), name@, data@);
                        }
                        insert_member(&mut self.other_files, name, data);
                    }
                },
                Err(fault) => {
                    assert(!readable(listing[i as int]));
                    return Err(fault_error(fault));
                },
            }
            i = i + 1;
        }
        if self.document_content.as_str().is_empty() {
            return Err(DocxHandlebarsError::document_format("无法找到 word/document.xml 文件"));
        }
        Ok(())
    }

    /// The text of the document body.
    pub fn get_content(&self) -> (s: &str)
        ensures
            s@ == self.content(),
    {
        self.document_content.as_str()
    }

    /// The members of the document with `new_content` as its body: the body
    /// first, then every other member with its path and bytes as loaded.
    pub fn output_members(&self, new_content: &str) -> (members: Vec<ArchiveMember>)
        ensures
            member_views(members@) == seq![(DOCUMENT_PATH@, new_content.spec_bytes())]
                + self.others(),
    {
        let mut members: Vec<ArchiveMember> = Vec::new();
        members.push(
            ArchiveMember {
                name: String::from_str(DOCUMENT_PATH),
                data: slice_to_vec(new_content.as_bytes()),
            },
        );
        let mut i: usize = 0;
        assert(member_views(members@) =~= seq![(DOCUMENT_PATH@, new_content.spec_bytes())]
            + self.others().take(0));
        while i < self.other_files.len()
            invariant
                i <= self.other_files.len(),
                member_views(members@) == seq![(DOCUMENT_PATH@, new_content.spec_bytes())]
                    + self.others().take(i as int),
            decreases self.other_files.len() - i,
        {
            let ghost before = member_views(members@);
            members.push(
                ArchiveMember {
                    name: self.other_files[i].name.clone(),
                    data: slice_to_vec(self.other_files[i].data.as_slice()),
                },
            );
            assert(member_views(members@) =~= before.push(self.other_files@[i as int]@));
            assert(self.others().take(i + 1) =~= self.others().take(i as int).push(
                self.other_files@[i as int]@,
            ));
            assert(member_views(members@) =~= seq![(DOCUMENT_PATH@, new_content.spec_bytes())]
                + self.others().take(i + 1));
            i = i + 1;
        }
        assert(self.others().take(self.other_files.len() as int) =~= self.others());
        members
    }

    /// The members of the document with `body` as the bytes of its body: the
    /// body first, at the document path, then every other member as loaded.
    pub open spec fn members_with_body(&self, body: Seq<u8>) -> Seq<(Seq<char>, Seq<u8>)> {
        seq![(DOCUMENT_PATH@, body)] + self.others()
    }

    /// Packs the document, with `new_content` as its body, into an archive:
    /// the members of [`Self::output_members`], deflated at the writer's
    /// default level. It succeeds exactly where the archive writer takes in
    /// every member and finishes; the bytes are then the archive of these
    /// members.
    pub fn create_docx_with_content(&self, new_content: &str) -> (r: std::result::Result<
        Vec<u8>,
        DocxHandlebarsError,
    >)
        ensures
            packed(self.members_with_body(new_content.spec_bytes()), None, r),
    {
        let members = self.output_members(new_content);
        pack(&members, None)
    }

    /// The text of the body's text runs, with entities resolved, as the
    /// markup reader sees it.
    ///
    /// Fails with `Xml` where the reader fails or a text run cannot be
    /// unescaped.
    pub fn extract_text_content(&self) -> (r: std::result::Result<String, DocxHandlebarsError>)
        ensures
            match document_text_runs(self.content()) {
                Some(text) => r matches Ok(s) && s@ == text,
                None => r matches Err(DocxHandlebarsError::Xml(_)),
            },
    {
        gather_text(self.document_content.as_str())
    }

    /// The body written out again event by event, every event as the reader
    /// gives it. The argument is not read.
    ///
    /// Fails with `Xml` where the reader fails.
    pub fn process_template_in_xml(&self, _template_content: &str) -> (r: std::result::Result<
        String,
        DocxHandlebarsError,
    >)
        ensures
            match document_rewritten(self.content()) {
                Some(markup) => r matches Ok(s) && s@ == markup,
                None => r matches Err(DocxHandlebarsError::Xml(_)),
            },
    {
        rewrite_markup(self.document_content.as_str())
    }
}

impl Default for DocxProcessor {
    fn default() -> (p: Self)
        ensures
            p.source() == Seq::<u8>::empty(),
            p.content() == Seq::<char>::empty(),
            p.others() == Seq::<(Seq<char>, Seq<u8>)>::empty(),
    {
        Self::new()
    }
}

} // verus!
