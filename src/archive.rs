//! A flat, store-only zip archive built in memory, and the choice of what a
//! directory listing contributes to it.
use std::io::Cursor;
use vstd::prelude::*;
use zip::result::ZipError;
use zip::write::FileOptions;
use zip::{CompressionMethod, ZipWriter};

verus! {

#[verifier::external_type_specification]
#[verifier::external_body]
pub struct ExIoError(std::io::Error);

#[verifier::external_type_specification]
#[verifier::external_body]
pub struct ExZipError(zip::result::ZipError);

/// A zip writer over an in-memory buffer. Verus cannot declare
/// `zip::ZipWriter` itself, whose bounds name `std::io::Write` and
/// `std::io::Seek`, so it is held here out of the verifier's sight.
#[verifier::external_body]
pub struct ZipBuffer {
    writer: ZipWriter<Cursor<Vec<u8>>>,
}

/// The members that a zip writer holds so far, in the order they were begun:
/// each one's name and the bytes written to it.
pub uninterp spec fn zip_members(w: ZipBuffer) -> Seq<(Seq<char>, Seq<u8>)>;

/// Whether a zip writer is still open: it has not been closed by a failure.
pub uninterp spec fn zip_open(w: ZipBuffer) -> bool;

/// The most bytes one member may hold without the zip64 extensions.
pub open spec fn member_limit() -> nat {
    u32::MAX as nat
}

/// `members` with `bytes` appended to the contents of its last member.
pub open spec fn append_to_last(members: Seq<(Seq<char>, Seq<u8>)>, bytes: Seq<u8>) -> Seq<(Seq<char>, Seq<u8>)> {
    if members.len() == 0 {
        members
    } else {
        members.update(members.len() - 1, (members.last().0, members.last().1 + bytes))
    }
}

/// Relies on `zip::ZipWriter::new`: a new writer over an empty buffer is open
/// and holds no members.
#[verifier::external_body]
fn new_writer() -> (w: ZipBuffer)
    ensures
        zip_members(w) == Seq::<(Seq<char>, Seq<u8>)>::empty(),
        zip_open(w),
{
    ZipBuffer { writer: ZipWriter::new(Cursor::new(Vec::new())) }
}

/// Relies on `zip::ZipWriter::start_file` with the `Stored` method: on success
/// the writer has begun a new, empty member under the given name. An open
/// writer over a memory buffer, whose members all stayed within the limit,
/// succeeds and stays open.
#[verifier::external_body]
fn start_stored(w: &mut ZipBuffer, name: &str) -> (r: Result<(), ZipError>)
    ensures
        r is Ok ==> zip_members(*final(w)) == zip_members(*old(w)).push((name@, Seq::<u8>::empty())),
        zip_open(*old(w)) ==> r is Ok && zip_open(*final(w)),
{
    w.writer.start_file(name, FileOptions::default().compression_method(CompressionMethod::Stored))
}

/// Relies on `std::io::Write::write_all` over zip's `Write` impl for
/// `ZipWriter`: on success every byte went to the member begun last. On an
/// open writer with a member begun, writing to a memory buffer fails only when
/// that member would grow past `u32::MAX` bytes.
#[verifier::external_body]
fn write_bytes(w: &mut ZipBuffer, bytes: &[u8]) -> (r: Result<(), std::io::Error>)
    ensures
        r is Ok ==> zip_members(*final(w)) == append_to_last(zip_members(*old(w)), bytes@),
        zip_open(*old(w)) && zip_members(*old(w)).len() > 0 && zip_members(*old(w)).last().1.len()
            + bytes@.len() <= member_limit() ==> r is Ok && zip_open(*final(w)),
{
    std::io::Write::write_all(&mut w.writer, bytes)
}

/// Relies on `zip::ZipWriter::finish`: it writes the central directory and
/// hands back the buffer that holds the whole archive; an open writer over a
/// memory buffer succeeds.
#[verifier::external_body]
fn finish_writer(w: ZipBuffer) -> (r: Result<Vec<u8>, ZipError>)
    ensures
        zip_open(w) ==> r is Ok,
{
    let mut w = w.writer;
    w.finish().map(|c| c.into_inner())
}

/// Why writing an archive failed.
pub enum ArchiveError {
    /// The zip writer refused to begin a member or to finish the archive.
    Zip(ZipError),
    /// The zip writer refused a member's bytes.
    Io(std::io::Error),
}

/// One file to be archived: its bare name and its contents.
pub struct Member {
    pub name: String,
    pub bytes: Vec<u8>,
}

impl View for Member {
    type V = (Seq<char>, Seq<u8>);

    open spec fn view(&self) -> (Seq<char>, Seq<u8>) {
        (self.name@, self.bytes@)
    }
}

/// A zip archive being written in memory, every member stored uncompressed.
pub struct Archive {
    writer: ZipBuffer,
}

impl Archive {
    /// The members written so far, in order: name and contents.
    pub closed spec fn members(&self) -> Seq<(Seq<char>, Seq<u8>)> {
        zip_members(self.writer)
    }

    /// Whether members can still be added and the archive finished.
    pub closed spec fn is_open(&self) -> bool {
        zip_open(self.writer)
    }

    /// An archive with no members.
    pub fn new() -> (r: Archive)
        ensures
            r.members() == Seq::<(Seq<char>, Seq<u8>)>::empty(),
            r.is_open(),
    {
        Archive { writer: new_writer() }
    }

    /// Adds one member under `name`, holding `bytes` verbatim. An open archive
    /// takes any member of at most `u32::MAX` bytes.
    pub fn add_stored(&mut self, name: &str, bytes: &[u8]) -> (r: Result<(), ArchiveError>)
        ensures
            r is Ok ==> final(self).members() == old(self).members().push((name@, bytes@)),
            old(self).is_open() && bytes@.len() <= member_limit() ==> r is Ok && final(self).is_open(),
    {
        match start_stored(&mut self.writer, name) {
            Ok(()) => {},
            Err(e) => return Err(ArchiveError::Zip(e)),
        }
        match write_bytes(&mut self.writer, bytes) {
            Ok(()) => {},
            Err(e) => return Err(ArchiveError::Io(e)),
        }
        proof {
            let m = old(self).members().push((name@, Seq::<u8>::empty()));
            assert(m.last().1 + bytes@ =~= bytes@);
            assert(m.update(m.len() - 1, (name@, bytes@)) =~= old(self).members().push((name@, bytes@)));
        }
        Ok(())
    }

    /// Finishes the archive and returns its bytes; an open archive always
    /// finishes.
    pub fn finish(self) -> (r: Result<Vec<u8>, ArchiveError>)
        ensures
            self.is_open() ==> r is Ok,
    {
        match finish_writer(self.writer) {
            Ok(b) => Ok(b),
            Err(e) => Err(ArchiveError::Zip(e)),
        }
    }
}

/// The views of a sequence of members.
pub open spec fn members_view(ms: Seq<Member>) -> Seq<(Seq<char>, Seq<u8>)> {
    ms.map_values(|m: Member| m@)
}

/// Whether every member fits the size limit of one member.
pub open spec fn all_fit(members: Seq<Member>) -> bool {
    forall|k: int| 0 <= k < members.len() ==> #[trigger] members[k].bytes@.len() <= member_limit()
}

/// Writes every member, in order, into a new archive; the first failure ends
/// the work. Members within the size limit are always written.
pub fn pack(members: &Vec<Member>) -> (r: Result<Archive, ArchiveError>)
    ensures
        r is Ok ==> r->Ok_0.members() == members_view(members@),
        all_fit(members@) ==> r is Ok && r->Ok_0.is_open(),
{
    let mut archive = Archive::new();
    let mut i: usize = 0;
    while i < members.len()
        invariant
            i <= members@.len(),
            archive.members() == members_view(members@.subrange(0, i as int)),
            all_fit(members@) ==> archive.is_open(),
        decreases members@.len() - i,
    {
        let m = &members[i];
        assert(all_fit(members@) ==> members@[i as int].bytes@.len() <= member_limit());
        match archive.add_stored(m.name.as_str(), m.bytes.as_slice()) {
            Ok(()) => {},
            Err(e) => return Err(e),
        }
        proof {
            assert(members_view(members@.subrange(0, i + 1)) =~= members_view(
                members@.subrange(0, i as int),
            ).push(members@[i as int]@));
        }
        i = i + 1;
    }
    proof {
        assert(members@.subrange(0, i as int) =~= members@);
    }
    Ok(archive)
}

/// One entry of a directory listing: its bare name, and whether it is a
/// regular file (directories and other kinds are not).
pub struct Entry {
    pub name: String,
    pub is_file: bool,
}

/// Which entries of a listing are regular files.
pub open spec fn file_flags(entries: Seq<Entry>) -> Seq<bool> {
    entries.map_values(|e: Entry| e.is_file)
}

/// The positions of the regular files among the flags, in order.
pub open spec fn file_positions(flags: Seq<bool>) -> Seq<int>
    decreases flags.len(),
{
    if flags.len() == 0 {
        Seq::empty()
    } else if flags.last() {
        file_positions(flags.drop_last()).push(flags.len() - 1)
    } else {
        file_positions(flags.drop_last())
    }
}

/// The entries of a listing that become members of the archive: the regular
/// files, each once, in listing order. Directories contribute nothing.
pub proof fn only_files_become_members(flags: Seq<bool>)
    ensures
        forall|i: int| 0 <= i < flags.len() ==> (file_positions(flags).contains(i) <==> flags[i]),
        forall|k: int| 0 <= k < file_positions(flags).len() ==> 0 <= #[trigger] file_positions(flags)[k] < flags.len(),
        forall|k: int, l: int| 0 <= k < l < file_positions(flags).len() ==> file_positions(flags)[k] < file_positions(flags)[l],
    decreases flags.len(),
{
    if flags.len() > 0 {
        let rest = flags.drop_last();
        only_files_become_members(rest);
        let p = file_positions(rest);
        assert forall|i: int| 0 <= i < flags.len() implies (file_positions(flags).contains(i) <==> flags[i]) by {
            if i < flags.len() - 1 {
                assert(rest[i] == flags[i]);
                if flags.last() {
                    if file_positions(flags).contains(i) {
                        let k = choose|k: int| 0 <= k < file_positions(flags).len() && file_positions(flags)[k] == i;
                        assert(k < p.len());
                        assert(p[k] == i);
                    }
                    if p.contains(i) {
                        let k = choose|k: int| 0 <= k < p.len() && p[k] == i;
                        assert(file_positions(flags)[k] == i);
                    }
                }
            } else {
                if flags.last() {
                    assert(file_positions(flags)[p.len() as int] == i);
                } else {
                    if p.contains(i) {
                        let k = choose|k: int| 0 <= k < p.len() && p[k] == i;
                        assert(p[k] < rest.len());
                    }
                }
            }
        }
    }
}

/// The positions of the entries that become members of the archive: the
/// regular files, in listing order.
pub fn members_of(entries: &Vec<Entry>) -> (r: Vec<usize>)
    ensures
        r@.map_values(|i: usize| i as int) == file_positions(file_flags(entries@)),
{
    let mut r: Vec<usize> = Vec::new();
    let mut i: usize = 0;
    while i < entries.len()
        invariant
            i <= entries@.len(),
            r@.map_values(|j: usize| j as int) == file_positions(file_flags(entries@).subrange(0, i as int)),
        decreases entries@.len() - i,
    {
        proof {
            let f = file_flags(entries@).subrange(0, i + 1);
            assert(f.drop_last() =~= file_flags(entries@).subrange(0, i as int));
            assert(f.last() == entries@[i as int].is_file);
        }
        if entries[i].is_file {
            r.push(i);
            proof {
                assert(r@.map_values(|j: usize| j as int) =~= file_positions(
                    file_flags(entries@).subrange(0, i as int),
                ).push(i as int));
            }
        }
        i = i + 1;
    }
    proof {
        assert(file_flags(entries@).subrange(0, i as int) =~= file_flags(entries@));
    }
    r
}

} // verus!
