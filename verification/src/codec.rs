//! Archive codec: deterministic archive naming, the in-memory single-file
//! tar.gz pack/unpack pair, the command lines handed to the external
//! archiver, its exit-status policy, and the extraction fallback chain.
//!
//! The compressor and archiver processes themselves run outside the crate;
//! everything decided about them is decided here.

use vstd::prelude::*;
use vstd::string::*;
use crate::errors::EngineError;
use crate::strutil::{lower_of, replaced, to_lowercase, str_to_chars, chars_to_string,
    replace_char};

verus! {

/// The compression backend chosen for a call: the fast multi-core codec
/// when the host has it, otherwise the universally available one.
#[derive(Clone, Copy, Debug, PartialEq, Eq, Structural)]
pub enum Codec {
    Zstd,
    Gzip,
}

/// The archive filename extension the codec implies.
pub open spec fn extension_of(c: Codec) -> Seq<char> {
    match c {
        Codec::Zstd => ".tar.zst"@,
        Codec::Gzip => ".tar.gz"@,
    }
}

/// The backend implied by what the host offers; re-evaluated per call, so
/// behaviour always follows current host state.
pub fn select_codec(zstd_available: bool) -> (c: Codec)
    ensures
        c == (if zstd_available { Codec::Zstd } else { Codec::Gzip }),
{
    if zstd_available { Codec::Zstd } else { Codec::Gzip }
}

/// The archive name for an ordinary source: its name lower-cased, spaces
/// drawn to dashes, dots to underscores, plus the codec's extension.
pub open spec fn archive_stem(name: Seq<char>) -> Seq<char> {
    replaced(replaced(lower_of(name), ' ', '-'), '.', '_')
}

/// The archive filename for the source called `name`.
pub fn archive_file_name(name: &str, codec: Codec) -> (r: String)
    ensures
        r@ == archive_stem(name@) + extension_of(codec),
{
    let lowered = to_lowercase(name);
    let chars = str_to_chars(lowered.as_str());
    let dashed = replace_char(&chars, ' ', '-');
    let underscored = replace_char(&dashed, '.', '_');
    let stem = chars_to_string(&underscored);
    match codec {
        Codec::Zstd => stem.concat(".tar.zst"),
        Codec::Gzip => stem.concat(".tar.gz"),
    }
}

/// The archive filename for a reserved inventory identifier: the identifier
/// itself plus the codec's extension.
pub fn reserved_archive_name(id: &str, codec: Codec) -> (r: String)
    ensures
        r@ == id@ + extension_of(codec),
{
    match codec {
        Codec::Zstd => String::from_str(id).concat(".tar.zst"),
        Codec::Gzip => String::from_str(id).concat(".tar.gz"),
    }
}

/// The bytes of a gzip-compressed tar archive holding one file `name` with
/// contents `data`. The encoding is the outside libraries'; it is a
/// function of the entry alone.
pub uninterp spec fn tar_gz_of(name: Seq<char>, data: Seq<u8>) -> Seq<u8>;

/// The single file entry a gzip-compressed tar archive holds, or `None`
/// when the bytes are not such an archive. Decoding is a function of the
/// bytes alone.
pub uninterp spec fn untar_of(bytes: Seq<u8>) -> Option<(Seq<char>, Seq<u8>)>;

/// An entry name this codec accepts: nonempty, free of path separators
/// and NUL characters, and not the parent-directory component. Such a
/// name is a single normal path component, which the archive format
/// stores verbatim; it covers every name the engine packs under — the
/// reserved snapshot payload names and plain file names.
pub open spec fn packable_name(name: Seq<char>) -> bool {
    &&& name.len() > 0
    &&& name != ".."@
    &&& forall|i: int| 0 <= i < name.len() ==> name[i] != '/' && name[i] != '\0'
}

/// Relies on tar::Builder and flate2::write::GzEncoder: building an
/// archive is deterministic in the entry, and reading the archive back
/// (see `unpack_bytes`) yields the entry that was appended. A packable
/// name is one normal path component, so tar stores it unchanged (names
/// over the header field take the GNU long-name extension, byte for
/// byte); NUL characters, which tar rejects, and separators, which it
/// normalizes, are excluded up front. Writes go to an in-memory buffer,
/// which cannot fail, so packing always succeeds.
#[verifier::external_body]
fn pack_bytes(name: &str, data: &Vec<u8>) -> (r: Option<Vec<u8>>)
    requires
        packable_name(name@),
    ensures
        r is Some,
        r matches Some(b) ==> b@ == tar_gz_of(name@, data@) && untar_of(b@) == Some(
            (name@, data@),
        ),
{
    let enc = flate2::write::GzEncoder::new(Vec::new(), flate2::Compression::default());
    let mut builder = tar::Builder::new(enc);
    let mut header = tar::Header::new_gnu();
    header.set_size(data.len() as u64);
    header.set_mode(0o644);
    if builder.append_data(&mut header, name, data.as_slice()).is_err() {
        return None;
    }
    match builder.into_inner() {
        Ok(enc) => enc.finish().ok(),
        Err(_) => None,
    }
}

/// Relies on tar::Archive and flate2::read::GzDecoder: reading the first
/// entry of a single-file archive is deterministic in the archive bytes.
#[verifier::external_body]
fn unpack_bytes(bytes: &Vec<u8>) -> (r: Option<(String, Vec<u8>)>)
    ensures
        match r {
            Some(p) => untar_of(bytes@) == Some((p.0@, p.1@)),
            None => untar_of(bytes@) is None,
        },
{
    let dec = flate2::read::GzDecoder::new(bytes.as_slice());
    let mut archive = tar::Archive::new(dec);
    let mut entry = archive.entries().ok()?.next()?.ok()?;
    let name = entry.path().ok()?.to_string_lossy().into_owned();
    let mut buf = Vec::new();
    std::io::Read::read_to_end(&mut entry, &mut buf).ok()?;
    Some((name, buf))
}

/// Packs one file into a compressed archive. Every packable name is
/// guaranteed an archive that decodes back to exactly this entry.
pub fn create_file_archive(name: &str, data: &Vec<u8>) -> (r: Option<Vec<u8>>)
    requires
        packable_name(name@),
    ensures
        r is Some,
        r matches Some(b) ==> b@ == tar_gz_of(name@, data@) && untar_of(b@) == Some(
            (name@, data@),
        ),
{
    pack_bytes(name, data)
}

/// Whether a proposed entry name is one this codec accepts.
pub fn is_packable_name(name: &str) -> (r: bool)
    ensures
        r == packable_name(name@),
{
    let chars = crate::strutil::str_to_chars(name);
    if chars.len() == 0 {
        return false;
    }
    if crate::strutil::str_eq(name, "..") {
        return false;
    }
    let mut i: usize = 0;
    while i < chars.len()
        invariant
            chars@ == name@,
            i <= name@.len(),
            forall|j: int| 0 <= j < i ==> name@[j] != '/' && name@[j] != '\0',
        decreases name@.len() - i,
    {
        if chars[i] == '/' || chars[i] == '\0' {
            return false;
        }
        i = i + 1;
    }
    true
}

/// Reads the single file out of a compressed archive; `None` exactly when
/// the bytes do not decode as one.
pub fn read_file_archive(bytes: &Vec<u8>) -> (r: Option<(String, Vec<u8>)>)
    ensures
        match r {
            Some(p) => untar_of(bytes@) == Some((p.0@, p.1@)),
            None => untar_of(bytes@) is None,
        },
{
    unpack_bytes(bytes)
}

/// Round trip: packing any file under a packable name and reading the
/// archive back yields exactly the file that went in, name and bytes
/// alike.
pub fn archive_round_trip(name: &str, data: &Vec<u8>) -> (r: Option<(String, Vec<u8>)>)
    requires
        packable_name(name@),
    ensures
        r matches Some(p) && p.0@ == name@ && p.1@ == data@,
{
    match create_file_archive(name, data) {
        Some(bytes) => read_file_archive(&bytes),
        None => None,
    }
}

/// What became of an archiving process.
#[derive(Clone, Copy, Debug, PartialEq, Eq, Structural)]
pub enum ArchiveOutcome {
    /// The archive is on disk; warnings (nonzero exit with the target
    /// present) do not demote a run.
    Completed,
    /// The process failed and left no archive behind.
    Failed,
    /// Cancellation was observed; the partial target must be deleted.
    Cancelled,
}

/// The exit-status policy of the archive step: cancellation supersedes
/// everything; otherwise a clean exit, or any exit that still left the
/// target on disk, counts as success.
pub fn classify_archive_exit(exit_ok: bool, target_exists: bool, cancelled: bool) -> (r:
    ArchiveOutcome)
    ensures
        cancelled ==> r is Cancelled,
        !cancelled && (exit_ok || target_exists) ==> r is Completed,
        !cancelled && !exit_ok && !target_exists ==> r is Failed,
{
    if cancelled {
        ArchiveOutcome::Cancelled
    } else if exit_ok || target_exists {
        ArchiveOutcome::Completed
    } else {
        ArchiveOutcome::Failed
    }
}

/// The arguments handed to the external archiver for directory creation.
pub open spec fn create_args_spec(target: Seq<char>, source_name: Seq<char>, codec: Codec)
    -> Seq<Seq<char>> {
    match codec {
        Codec::Zstd => seq![
            "--use-compress-program=/opt/homebrew/bin/zstd -T0"@,
            "-cf"@,
            target,
            "--exclude"@,
            "*.sock"@,
            "--exclude"@,
            "*/sockets/*"@,
            source_name,
        ],
        Codec::Gzip => seq![
            "-czf"@,
            target,
            "--exclude"@,
            "*.sock"@,
            "--exclude"@,
            "*/sockets/*"@,
            source_name,
        ],
    }
}

/// Builds the archiver's argument list: compressor choice, target, the
/// socket exclusions that must not abort a run, and the source.
pub fn tar_create_args(target: &str, source_name: &str, codec: Codec) -> (r: Vec<String>)
    ensures
        r.deep_view() == create_args_spec(target@, source_name@, codec),
{
    let mut r: Vec<String> = Vec::new();
    match codec {
        Codec::Zstd => {
            r.push(String::from_str("--use-compress-program=/opt/homebrew/bin/zstd -T0"));
            r.push(String::from_str("-cf"));
        },
        Codec::Gzip => {
            r.push(String::from_str("-czf"));
        },
    }
    r.push(String::from_str(target));
    r.push(String::from_str("--exclude"));
    r.push(String::from_str("*.sock"));
    r.push(String::from_str("--exclude"));
    r.push(String::from_str("*/sockets/*"));
    r.push(String::from_str(source_name));
    proof {
        assert(r.deep_view() =~~= create_args_spec(target@, source_name@, codec));
    }
    r
}

/// One attempt in the extraction fallback chain.
#[derive(Clone, Copy, Debug, PartialEq, Eq, Structural)]
pub enum ExtractStep {
    /// The metadata-preserving, merge-capable extractor.
    Ditto,
    /// The tar-compatible tool with fast-codec decompression.
    TarZstd,
    /// The tar-compatible tool with the universal decompression format.
    TarGzip,
}

/// Extraction always starts with the metadata-preserving extractor.
pub fn first_extract_step() -> (r: ExtractStep)
    ensures
        r is Ditto,
{
    ExtractStep::Ditto
}

/// The next attempt after `cur` failed: fall back to the tar-compatible
/// tool, trying fast-codec decompression first when the host has it, then
/// the universal format; after that, give up.
pub fn next_extract_step(cur: ExtractStep, zstd_available: bool) -> (r: Option<ExtractStep>)
    ensures
        cur is Ditto && zstd_available ==> r == Some(ExtractStep::TarZstd),
        cur is Ditto && !zstd_available ==> r == Some(ExtractStep::TarGzip),
        cur is TarZstd ==> r == Some(ExtractStep::TarGzip),
        cur is TarGzip ==> r is None,
    {
    match cur {
        ExtractStep::Ditto => {
            if zstd_available {
                Some(ExtractStep::TarZstd)
            } else {
                Some(ExtractStep::TarGzip)
            }
        },
        ExtractStep::TarZstd => Some(ExtractStep::TarGzip),
        ExtractStep::TarGzip => None,
    }
}

/// When overwrite is off and the destination is present, extraction fails
/// with `AlreadyExists` — distinctly from any I/O failure — before any
/// tool runs.
pub fn extract_precheck(target_exists: bool, overwrite: bool) -> (r: Result<(), EngineError>)
    ensures
        target_exists && !overwrite ==> r == Result::<(), EngineError>::Err(
            EngineError::AlreadyExists,
        ),
        !(target_exists && !overwrite) ==> r is Ok,
{
    if target_exists && !overwrite {
        Err(EngineError::AlreadyExists)
    } else {
        Ok(())
    }
}

/// The arguments for one extraction attempt with the tar-compatible tool.
pub open spec fn extract_args_spec(archive: Seq<char>, overwrite: bool, step: ExtractStep)
    -> Seq<Seq<char>> {
    let keep: Seq<Seq<char>> = if overwrite { seq![] } else { seq!["-k"@] };
    match step {
        ExtractStep::Ditto => seq![],
        ExtractStep::TarZstd => keep + seq![
            "--use-compress-program=zstd -d"@,
            "-xf"@,
            archive,
        ],
        ExtractStep::TarGzip => keep + seq!["-xzf"@, archive],
    }
}

/// Builds one extraction attempt's argument list; `-k` keeps existing
/// files when overwrite is off. (The metadata-preserving extractor takes
/// its own fixed arguments; see `ditto_extract_args`.)
pub fn tar_extract_args(archive: &str, overwrite: bool, step: ExtractStep) -> (r: Vec<
    String,
>)
    ensures
        r.deep_view() == extract_args_spec(archive@, overwrite, step),
{
    let mut r: Vec<String> = Vec::new();
    match step {
        ExtractStep::Ditto => {},
        ExtractStep::TarZstd => {
            if !overwrite {
                r.push(String::from_str("-k"));
            }
            r.push(String::from_str("--use-compress-program=zstd -d"));
            r.push(String::from_str("-xf"));
            r.push(String::from_str(archive));
        },
        ExtractStep::TarGzip => {
            if !overwrite {
                r.push(String::from_str("-k"));
            }
            r.push(String::from_str("-xzf"));
            r.push(String::from_str(archive));
        },
    }
    proof {
        assert(r.deep_view() =~~= extract_args_spec(archive@, overwrite, step));
    }
    r
}

/// The fixed argument list of the metadata-preserving extractor: extract
/// the archive into the destination's parent, merging with what is there.
pub fn ditto_extract_args(archive: &str, dest_parent: &str) -> (r: Vec<String>)
    ensures
        r.deep_view() == seq!["-x"@, "-k"@, archive@, dest_parent@],
{
    let mut r: Vec<String> = Vec::new();
    r.push(String::from_str("-x"));
    r.push(String::from_str("-k"));
    r.push(String::from_str(archive));
    r.push(String::from_str(dest_parent));
    proof {
        assert(r.deep_view() =~~= seq!["-x"@, "-k"@, archive@, dest_parent@]);
    }
    r
}

} // verus!
