//! The ZIP container. A `.udf` is a ZIP archive that (almost always) holds `content.xml`;
//! other entries (`sign.sgn`, `mimetype`, `meta.xml`, ...) are ignored.

use vstd::prelude::*;
use crate::{SpecUdfError, UdfError};

verus! {

/// Why an archive entry could not be read.
#[derive(Debug)]
pub enum ArchiveFailure {
    /// The bytes are not a ZIP archive (with the library's message).
    Open(String),
    /// The archive has no entry of that name (or the entry cannot be opened).
    MissingEntry,
    /// The entry could not be read to the end (with the library's message).
    Read(String),
}

pub enum SpecArchiveFailure {
    Open(Seq<char>),
    MissingEntry,
    Read(Seq<char>),
}

impl View for ArchiveFailure {
    type V = SpecArchiveFailure;

    open spec fn view(&self) -> SpecArchiveFailure {
        match self {
            ArchiveFailure::Open(m) => SpecArchiveFailure::Open(m@),
            ArchiveFailure::MissingEntry => SpecArchiveFailure::MissingEntry,
            ArchiveFailure::Read(m) => SpecArchiveFailure::Read(m@),
        }
    }
}

/// What the `zip` crate gives for entry `name` of the archive `archive`: its bytes, or the
/// step that failed.
pub uninterp spec fn archive_entry(archive: Seq<u8>, name: Seq<char>) -> Result<Seq<u8>, SpecArchiveFailure>;

/// Opens `archive` with `zip::ZipArchive::new` over an in-memory cursor, looks the entry up
/// with `ZipArchive::by_name` and reads it with `Read::read_to_end`. Each failure is
/// reported with the step it happened in; the result is the same for the same arguments.
#[verifier::external_body]
fn read_archive_entry(archive: &[u8], name: &str) -> (r: Result<Vec<u8>, ArchiveFailure>)
    ensures
        match r {
            Ok(v) => archive_entry(archive@, name@) == Ok::<Seq<u8>, SpecArchiveFailure>(v@),
            Err(e) => archive_entry(archive@, name@) == Err::<Seq<u8>, SpecArchiveFailure>(e@),
        },
{
    let mut zip = match ::zip::ZipArchive::new(std::io::Cursor::new(archive)) {
        Ok(z) => z,
        Err(e) => return Err(ArchiveFailure::Open(e.to_string())),
    };
    let mut buf = Vec::new();
    let r = match zip.by_name(name) {
        Ok(mut f) => match std::io::Read::read_to_end(&mut f, &mut buf) {
            Ok(_) => Ok(buf),
            Err(e) => Err(ArchiveFailure::Read(e.to_string())),
        },
        Err(_) => Err(ArchiveFailure::MissingEntry),
    };
    r
}

/// The `UdfError` for a failure to get `content.xml` out of the archive.
pub open spec fn spec_archive_error(f: SpecArchiveFailure) -> SpecUdfError {
    match f {
        SpecArchiveFailure::Open(m) => SpecUdfError::InvalidZip(m),
        SpecArchiveFailure::MissingEntry => SpecUdfError::MissingContentXml,
        SpecArchiveFailure::Read(m) => SpecUdfError::InvalidZip(m),
    }
}

/// The outcome of reading `content.xml` from the archive, as the parser reports it: the
/// entry's bytes, `InvalidZip` (with the library's message) for bytes that are not an
/// archive or an entry that cannot be read, `MissingContentXml` for an absent entry.
pub fn content_xml_from_entry(entry: Result<Vec<u8>, ArchiveFailure>) -> (r: Result<Vec<u8>, UdfError>)
    ensures
        match entry {
            Ok(v) => r matches Ok(w) && w@ == v@,
            Err(f) => r matches Err(e) && e@ == spec_archive_error(f@),
        },
{
    match entry {
        Ok(v) => Ok(v),
        Err(ArchiveFailure::Open(m)) => Err(UdfError::InvalidZip(m)),
        Err(ArchiveFailure::MissingEntry) => Err(UdfError::MissingContentXml),
        Err(ArchiveFailure::Read(m)) => Err(UdfError::InvalidZip(m)),
    }
}

/// Open the ZIP from raw bytes and return the bytes of `content.xml`: a non-ZIP input or
/// an unreadable entry is `InvalidZip`, an archive without the entry `MissingContentXml`.
pub fn extract_content_xml(bytes: &[u8]) -> (r: Result<Vec<u8>, UdfError>)
    ensures
        match r {
            Ok(v) => archive_entry(bytes@, "content.xml"@) == Ok::<Seq<u8>, SpecArchiveFailure>(
                v@,
            ),
            Err(e) => match archive_entry(bytes@, "content.xml"@) {
                Ok(_) => false,
                Err(f) => e@ == spec_archive_error(f),
            },
        },
{
    content_xml_from_entry(read_archive_entry(bytes, "content.xml"))
}

} // verus!
