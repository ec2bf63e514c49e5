//! Shape archives: deflate-compressed containers built with the `zip`
//! crate.

use std::io::{Cursor, Write};
use vstd::prelude::*;
use zip::write::SimpleFileOptions;
use zip::ZipWriter;

verus! {

/// An archive under construction: a `zip::ZipWriter` over a buffer in
/// memory.
#[verifier::external_body]
pub struct ArchiveWriter {
    writer: ZipWriter<Cursor<Vec<u8>>>,
}

/// The names of the files that an archive under construction holds, in
/// the order in which they were added.
pub uninterp spec fn archive_names(w: ArchiveWriter) -> Seq<Seq<char>>;

/// The contents of the files that an archive under construction holds, in
/// the order in which they were added.
pub uninterp spec fn archive_contents(w: ArchiveWriter) -> Seq<Seq<u8>>;

/// Whether an archive that holds the given files takes one more file of
/// the given name and content. The writer refuses a name that the archive
/// holds already, a name too long for the header of an entry, and a
/// content too large for an entry of the plain format.
pub uninterp spec fn archive_accepts(
    names: Seq<Seq<char>>,
    contents: Seq<Seq<u8>>,
    name: Seq<char>,
    content: Seq<u8>,
) -> bool;

/// The bytes of the finished archive that holds the given files, each
/// deflated and with the permissions `0644`; `None` where the writer
/// cannot finish it.
pub uninterp spec fn archive_bytes(names: Seq<Seq<char>>, contents: Seq<Seq<u8>>) -> Option<
    Seq<u8>,
>;

/// Whether an archive takes the first `k` of the given files, one after
/// the other.
pub open spec fn all_accepted(names: Seq<Seq<char>>, contents: Seq<Seq<u8>>, k: int) -> bool
    decreases k,
{
    k <= 0 || (all_accepted(names, contents, k - 1) && archive_accepts(
        names.take(k - 1),
        contents.take(k - 1),
        names[k - 1],
        contents[k - 1],
    ))
}

/// The archive of the given files: its bytes where the writer takes every
/// file in turn and finishes the archive, and `None` where it refuses.
pub open spec fn archive_of(names: Seq<Seq<char>>, contents: Seq<Seq<u8>>) -> Option<Seq<u8>> {
    if all_accepted(names, contents, names.len() as int) {
        archive_bytes(names, contents)
    } else {
        None
    }
}

/// Files that an archive takes are taken up to any earlier point too.
pub proof fn lemma_accepted_before(
    names: Seq<Seq<char>>,
    contents: Seq<Seq<u8>>,
    k: int,
    n: int,
)
    requires
        k <= n,
        all_accepted(names, contents, n),
    ensures
        all_accepted(names, contents, k),
    decreases n - k,
{
    if k < n && n > 0 {
        lemma_accepted_before(names, contents, k, n - 1);
    }
}

/// `ZipWriter::new` over a buffer in memory: an archive without files.
#[verifier::external_body]
pub(crate) fn archive_new() -> (w: ArchiveWriter)
    ensures
        archive_names(w) == Seq::<Seq<char>>::empty(),
        archive_contents(w) == Seq::<Seq<u8>>::empty(),
{
    ArchiveWriter { writer: ZipWriter::new(Cursor::new(Vec::new())) }
}

/// `ZipWriter::start_file` with deflate compression and the permissions
/// `0644`, followed by `write_all` of the content. Whether both succeed
/// depends on the files that the archive holds and on the new file alone,
/// since the archive is written to memory. Where both succeed the archive
/// holds one more file; where one fails nothing is said of the archive.
#[verifier::external_body]
pub(crate) fn archive_add(w: &mut ArchiveWriter, name: &str, content: &[u8]) -> (ok: bool)
    ensures
        ok == archive_accepts(
            archive_names(*old(w)),
            archive_contents(*old(w)),
            name@,
            content@,
        ),
        ok ==> archive_names(*final(w)) == archive_names(*old(w)).push(name@),
        ok ==> archive_contents(*final(w)) == archive_contents(*old(w)).push(content@),
{
    let options = SimpleFileOptions::default().compression_method(
        zip::CompressionMethod::Deflated,
    ).unix_permissions(0o644);
    w.writer.start_file(name, options).is_ok() && w.writer.write_all(content).is_ok()
}

/// `ZipWriter::finish`: the bytes of the finished archive, or `None`
/// where finishing fails.
#[verifier::external_body]
pub(crate) fn archive_finish(w: ArchiveWriter) -> (r: Option<Vec<u8>>)
    ensures
        r is Some <==> archive_bytes(archive_names(w), archive_contents(w)) is Some,
        r matches Some(bytes) ==> archive_bytes(archive_names(w), archive_contents(w)) == Some(
            bytes@,
        ),
{
    match w.writer.finish() {
        Ok(buffer) => Some(buffer.into_inner()),
        Err(_) => None,
    }
}

} // verus!
