//! The archive that holds the entries of a tile, read and written by `zip`.

use vstd::prelude::*;

verus! {

/// The error of `zip`. Nothing is known of it but that it is one.
#[verifier::external_type_specification]
#[verifier::external_body]
pub struct ExZipError(zip::result::ZipError);

/// An archive in the making, held in memory by a `zip::ZipWriter`.
#[verifier::external_body]
pub struct ArchiveWriter {
    inner: zip::ZipWriter<std::io::Cursor<Vec<u8>>>,
}

/// What `zip` finds under `name` in the archive `archive`: `None` where it
/// cannot open the archive or cannot read the entry, `Some(None)` where the
/// archive has no entry of that name, else the bytes of the entry.
pub uninterp spec fn archive_entry(archive: Seq<u8>, name: Seq<char>) -> Option<Option<Seq<u8>>>;

/// The entries written to an archive in the making, each with its name.
pub uninterp spec fn writer_entries(writer: ArchiveWriter) -> Seq<(Seq<char>, Seq<u8>)>;

/// Whether `zip` takes the entry `name` with the bytes `content` into an
/// archive in the making that holds `entries`.
pub uninterp spec fn archive_takes(
    entries: Seq<(Seq<char>, Seq<u8>)>,
    name: Seq<char>,
    content: Seq<u8>,
) -> bool;

/// The bytes of the archive that `zip` makes of `entries`, each deflated
/// and written with the default options; `None` where it makes none.
pub uninterp spec fn archive_of(entries: Seq<(Seq<char>, Seq<u8>)>) -> Option<Seq<u8>>;

/// Reads the entry `name` of the archive `archive` with
/// `zip::ZipArchive::new` and `by_name_decrypt` (with an empty password, so
/// that an entry marked as encrypted is an error). The result is what
/// `archive_entry` names: it depends on the two arguments alone. An archive
/// that does not open and an entry that cannot be read give the error of
/// `zip`; a name that the archive lacks gives `Ok(None)`.
#[verifier::external_body]
pub(crate) fn read_archive_entry(archive: &[u8], name: &str) -> (r: Result<
    Option<Vec<u8>>,
    zip::result::ZipError,
>)
    ensures
        match r {
            Ok(Some(bytes)) => archive_entry(archive@, name@) == Some(Some(bytes@)),
            Ok(None) => archive_entry(archive@, name@) == Some(None::<Seq<u8>>),
            Err(_) => archive_entry(archive@, name@) is None,
        },
{
    let mut zip = zip::ZipArchive::new(std::io::Cursor::new(archive))?;
    let mut entry = match zip.by_name_decrypt(name, &[]) {
        Ok(Ok(entry)) => entry,
        Ok(Err(_)) => return Err(zip::result::ZipError::UnsupportedArchive(
            zip::result::ZipError::PASSWORD_REQUIRED,
        )),
        Err(zip::result::ZipError::FileNotFound) => return Ok(None),
        Err(e) => return Err(e),
    };
    let mut bytes = Vec::new();
    std::io::Read::read_to_end(&mut entry, &mut bytes)?;
    Ok(Some(bytes))
}

/// Starts an archive in memory with `zip::ZipWriter::new`: it has no entry
/// yet.
#[verifier::external_body]
pub(crate) fn archive_writer() -> (writer: ArchiveWriter)
    ensures
        writer_entries(writer).len() == 0,
{
    ArchiveWriter { inner: zip::ZipWriter::new(std::io::Cursor::new(Vec::new())) }
}

/// Adds the entry `name` with the bytes `content`, deflated, with
/// `start_file` and `write_all`. Whether both succeed depends on what the
/// archive holds and on the entry alone, the archive being in memory and
/// `zip` built without its clock: `archive_takes` names it. Where they
/// succeed the archive has one entry more; nothing is said of the archive
/// after a failure.
#[verifier::external_body]
pub(crate) fn archive_add(writer: &mut ArchiveWriter, name: &str, content: &[u8]) -> (r: Result<
    (),
    zip::result::ZipError,
>)
    ensures
        r is Ok <==> archive_takes(writer_entries(*old(writer)), name@, content@),
        r is Ok ==> writer_entries(*final(writer)) == writer_entries(*old(writer)).push(
            (name@, content@),
        ),
{
    let options = zip::write::FileOptions::default().compression_method(
        zip::CompressionMethod::Deflated,
    );
    writer.inner.start_file(name, options)?;
    std::io::Write::write_all(&mut writer.inner, content)?;
    Ok(())
}

/// Ends the archive with `finish` and hands out its bytes. Whether there
/// are any, and which, depends on the entries alone: `zip` is built
/// without its clock, so every entry is stamped with the same date.
/// `archive_of` names the result.
#[verifier::external_body]
pub(crate) fn archive_finish(writer: ArchiveWriter) -> (r: Result<Vec<u8>, zip::result::ZipError>)
    ensures
        match r {
            Ok(bytes) => archive_of(writer_entries(writer)) == Some(bytes@),
            Err(_) => archive_of(writer_entries(writer)) is None,
        },
{
    let mut writer = writer;
    Ok(writer.inner.finish()?.into_inner())
}

} // verus!
