//! The experimental `.nspkg` container codec.
//!
//! A small, versioned, chunked binary format: a header carrying the
//! container's self-reported identity and a metadata payload, followed by an
//! index of opaque chunks, followed by the chunk bytes themselves.
//!
//! The layout is **version zero and explicitly experimental**. It does not
//! support in-place editing, streaming, encryption, signatures or
//! deduplication, and every chunk is stored uncompressed. The reader
//! validates bounds and rejects malformed or truncated input by returning a
//! [`ContainerError`]; it never panics on untrusted bytes.
//!
//! ## Wire layout (version 0)
//!
//! ```text
//! magic:              [u8; 8]           b"NSPKGCTR"
//! format_version:     u16 LE            0
//! self_identity:      tag(u8) + fields  0 = package (puid), 1 = asset (puid, category)
//! metadata:           u32 LE len + bytes
//! chunk_count:        u32 LE
//! chunk_count × {
//!     id:              u32 LE
//!     kind:            u32 LE len + bytes (UTF-8)
//!     compression:     u8               0 = uncompressed
//!     offset:          u64 LE           absolute byte offset in the file
//!     size:            u64 LE
//!     checksum:        u64 LE           FNV-1a of the chunk's bytes
//! }
//! <chunk bytes, back to back, in index order>
//! ```

use vstd::bytes::*;
use vstd::prelude::*;
use vstd::utf8::{decode_utf8, encode_utf8, valid_utf8};

use crate::category::AssetCategory;
use crate::chunk::{ChunkCompression, ChunkDescriptor, ChunkId, DescriptorView};
use crate::filename::{ClassifiedFilename, ClassifiedView};
use crate::ident::{ident_error_text, is_valid_segment, lemma_validate_ok, spec_validate_segment};
use crate::roundtrip::{encodable, law_encode_parse_round_trip};
use crate::package_id::PackageId;
use crate::puid::AssetPuid;
use crate::text::{decimal, decimal_text, join, owned, utf8_text};
use crate::version::{FormatVersion, EXPERIMENTAL_V0_NUMBER};
use crate::wire::{
    enc_bytes, fnv1a64, fnv1a64_spec, write_all, write_bytes, write_u16, write_u32, write_u64, write_u8, rd_bytes,
    rd_take, rd_u16, rd_u32, rd_u64, rd_u8, read_bytes, read_u16, read_u32, read_u64, read_u8, take,
};

verus! {

/// Identity tag of a complete package.
pub const IDENTITY_TAG_PACKAGE: u8 = 0;

/// Identity tag of an individually packaged asset.
pub const IDENTITY_TAG_ASSET: u8 = 1;

/// Compression tag of an uncompressed chunk.
pub const COMPRESSION_TAG_UNCOMPRESSED: u8 = 0;

/// The magic bytes `NSPKGCTR`.
pub open spec fn magic() -> Seq<u8> {
    seq![0x4eu8, 0x53u8, 0x50u8, 0x4bu8, 0x47u8, 0x43u8, 0x54u8, 0x52u8]
}

/// Everything that can go wrong building or parsing a container. Every
/// variant is returned, never panicked, even for adversarial input.
#[derive(Debug, PartialEq, Eq)]
pub enum ContainerError {
    /// The data is truncated, or an offset/size runs past the end of the
    /// buffer.
    Truncated,
    /// Bad magic bytes; this is not a Northstar container.
    BadMagic,
    /// Unsupported container format version.
    UnsupportedVersion(u16),
    /// Bytes that should hold a string are not valid UTF-8.
    InvalidUtf8,
    /// The self-identity in the header is invalid; the message says why.
    InvalidIdentity(String),
    DuplicateChunkId(ChunkId),
    UnknownChunkId(ChunkId),
    ChunkIntegrityMismatch(ChunkId),
    UnsupportedCompression(u8),
}

/// The mathematical content of a [`ContainerError`].
pub enum ContainerFault {
    Truncated,
    BadMagic,
    UnsupportedVersion(u16),
    InvalidUtf8,
    InvalidIdentity(Seq<char>),
    DuplicateChunkId(u32),
    UnknownChunkId(u32),
    ChunkIntegrityMismatch(u32),
    UnsupportedCompression(u8),
}

impl View for ContainerError {
    type V = ContainerFault;

    open spec fn view(&self) -> ContainerFault {
        match self {
            ContainerError::Truncated => ContainerFault::Truncated,
            ContainerError::BadMagic => ContainerFault::BadMagic,
            ContainerError::UnsupportedVersion(v) => ContainerFault::UnsupportedVersion(*v),
            ContainerError::InvalidUtf8 => ContainerFault::InvalidUtf8,
            ContainerError::InvalidIdentity(m) => ContainerFault::InvalidIdentity(m@),
            ContainerError::DuplicateChunkId(id) => ContainerFault::DuplicateChunkId(id.0),
            ContainerError::UnknownChunkId(id) => ContainerFault::UnknownChunkId(id.0),
            ContainerError::ChunkIntegrityMismatch(id) => ContainerFault::ChunkIntegrityMismatch(
                id.0,
            ),
            ContainerError::UnsupportedCompression(t) => ContainerFault::UnsupportedCompression(*t),
        }
    }
}

impl Clone for ContainerError {
    fn clone(&self) -> (r: Self)
        ensures
            r@ == self@,
    {
        match self {
            ContainerError::Truncated => ContainerError::Truncated,
            ContainerError::BadMagic => ContainerError::BadMagic,
            ContainerError::UnsupportedVersion(v) => ContainerError::UnsupportedVersion(*v),
            ContainerError::InvalidUtf8 => ContainerError::InvalidUtf8,
            ContainerError::InvalidIdentity(m) => ContainerError::InvalidIdentity(m.clone()),
            ContainerError::DuplicateChunkId(id) => ContainerError::DuplicateChunkId(*id),
            ContainerError::UnknownChunkId(id) => ContainerError::UnknownChunkId(*id),
            ContainerError::ChunkIntegrityMismatch(id) => ContainerError::ChunkIntegrityMismatch(
                *id,
            ),
            ContainerError::UnsupportedCompression(t) => ContainerError::UnsupportedCompression(*t),
        }
    }
}

/// The text of a chunk id as `Debug` prints it: `ChunkId(<n>)`.
pub open spec fn chunk_id_text(id: u32) -> Seq<char> {
    "ChunkId("@ + decimal_text(id as u64) + ")"@
}

/// The human-readable description of each failure.
pub open spec fn container_error_text(f: ContainerFault) -> Seq<char> {
    match f {
        ContainerFault::Truncated =>
            "container data is truncated or an offset/size runs past the end of the buffer"@,
        ContainerFault::BadMagic => "bad magic bytes; this is not a Northstar container"@,
        ContainerFault::UnsupportedVersion(v) => "unsupported container format version "@
            + decimal_text(v as u64),
        ContainerFault::InvalidUtf8 =>
            "container bytes are not valid UTF-8 where a string was expected"@,
        ContainerFault::InvalidIdentity(m) => "invalid self-identity in container header: "@ + m,
        ContainerFault::DuplicateChunkId(id) => "duplicate chunk id "@ + chunk_id_text(id),
        ContainerFault::UnknownChunkId(id) => "unknown chunk id "@ + chunk_id_text(id),
        ContainerFault::ChunkIntegrityMismatch(id) => "chunk "@ + chunk_id_text(id)
            + " failed its integrity check"@,
        ContainerFault::UnsupportedCompression(t) => "unsupported chunk compression tag "@
            + decimal_text(t as u64),
    }
}

fn chunk_id_string(id: ChunkId) -> (s: String)
    ensures
        s@ == chunk_id_text(id.0),
{
    let n = decimal(id.0 as u64);
    join(join(owned("ChunkId("), n.as_str()), ")")
}

impl ContainerError {
    /// Human-readable description of the failure.
    pub fn message(&self) -> (m: String)
        ensures
            m@ == container_error_text(self@),
    {
        match self {
            ContainerError::Truncated => owned(
                "container data is truncated or an offset/size runs past the end of the buffer",
            ),
            ContainerError::BadMagic => owned("bad magic bytes; this is not a Northstar container"),
            ContainerError::UnsupportedVersion(v) => {
                let n = decimal(*v as u64);
                join(owned("unsupported container format version "), n.as_str())
            },
            ContainerError::InvalidUtf8 => owned(
                "container bytes are not valid UTF-8 where a string was expected",
            ),
            ContainerError::InvalidIdentity(m) => join(
                owned("invalid self-identity in container header: "),
                m.as_str(),
            ),
            ContainerError::DuplicateChunkId(id) => {
                let t = chunk_id_string(*id);
                join(owned("duplicate chunk id "), t.as_str())
            },
            ContainerError::UnknownChunkId(id) => {
                let t = chunk_id_string(*id);
                join(owned("unknown chunk id "), t.as_str())
            },
            ContainerError::ChunkIntegrityMismatch(id) => {
                let t = chunk_id_string(*id);
                join(join(owned("chunk "), t.as_str()), " failed its integrity check")
            },
            ContainerError::UnsupportedCompression(t) => {
                let n = decimal(*t as u64);
                join(owned("unsupported chunk compression tag "), n.as_str())
            },
        }
    }
}

/// The logical content of a container: who it says it is, its metadata, and
/// its chunks (descriptor and bytes) in index order.
pub struct ContainerContent {
    pub identity: ClassifiedView,
    pub metadata: Seq<u8>,
    pub chunks: Seq<(DescriptorView, Seq<u8>)>,
}

// ---------------------------------------------------------------------
// what parsing means
// ---------------------------------------------------------------------

/// A length-prefixed UTF-8 string at `pos`.
pub open spec fn rd_str(buf: Seq<u8>, pos: int) -> Result<(Seq<char>, int), ContainerFault> {
    match rd_bytes(buf, pos) {
        None => Err(ContainerFault::Truncated),
        Some((b, p)) => if valid_utf8(b) {
            Ok((decode_utf8(b), p))
        } else {
            Err(ContainerFault::InvalidUtf8)
        },
    }
}

/// The self-identity at `pos`: a tag, then one string (package) or two
/// (asset PUID, category), each validated as an identity segment.
pub open spec fn rd_identity(buf: Seq<u8>, pos: int) -> Result<
    (ClassifiedView, int),
    ContainerFault,
> {
    match rd_u8(buf, pos) {
        None => Err(ContainerFault::Truncated),
        Some((tag, p)) => if tag == IDENTITY_TAG_PACKAGE {
            match rd_str(buf, p) {
                Err(e) => Err(e),
                Ok((s, q)) => match spec_validate_segment(s) {
                    Err(e) => Err(
                        ContainerFault::InvalidIdentity(
                            "invalid package id: "@ + ident_error_text(e),
                        ),
                    ),
                    Ok(_) => Ok((ClassifiedView::Package(s), q)),
                },
            }
        } else if tag == IDENTITY_TAG_ASSET {
            match rd_str(buf, p) {
                Err(e) => Err(e),
                Ok((s, q)) => match spec_validate_segment(s) {
                    Err(e) => Err(
                        ContainerFault::InvalidIdentity("invalid asset puid: "@ + ident_error_text(e)),
                    ),
                    Ok(_) => match rd_str(buf, q) {
                        Err(e) => Err(e),
                        Ok((k, r)) => match spec_validate_segment(k) {
                            Err(e) => Err(
                                ContainerFault::InvalidIdentity(
                                    "invalid asset category: "@ + ident_error_text(e),
                                ),
                            ),
                            Ok(_) => Ok((ClassifiedView::Asset(s, k), r)),
                        },
                    },
                },
            }
        } else {
            Err(
                ContainerFault::InvalidIdentity(
                    "unknown identity tag "@ + decimal_text(tag as u64),
                ),
            )
        },
    }
}

/// One parsed index entry: the chunk's descriptor and where its bytes are.
pub struct EntryView {
    pub descriptor: DescriptorView,
    pub offset: int,
    pub size: int,
    /// The FNV-1a checksum the index records for the chunk's bytes.
    pub checksum: u64,
}

/// True when one of `entries` already uses `id`.
pub open spec fn has_id(entries: Seq<EntryView>, id: u32) -> bool {
    exists|j: int| 0 <= j < entries.len() && (#[trigger] entries[j]).descriptor.id == id
}

/// The index entry at `pos`, given the entries read before it.
pub open spec fn rd_entry(buf: Seq<u8>, pos: int, prior: Seq<EntryView>) -> Result<
    (EntryView, int),
    ContainerFault,
> {
    match rd_u32(buf, pos) {
        None => Err(ContainerFault::Truncated),
        Some((id, p1)) => match rd_str(buf, p1) {
            Err(e) => Err(e),
            Ok((kind, p2)) => match rd_u8(buf, p2) {
                None => Err(ContainerFault::Truncated),
                Some((tag, p3)) => if tag != COMPRESSION_TAG_UNCOMPRESSED {
                    Err(ContainerFault::UnsupportedCompression(tag))
                } else {
                    match rd_u64(buf, p3) {
                        None => Err(ContainerFault::Truncated),
                        Some((offset, p4)) => match rd_u64(buf, p4) {
                            None => Err(ContainerFault::Truncated),
                            Some((size, p5)) => match rd_u64(buf, p5) {
                                None => Err(ContainerFault::Truncated),
                                Some((checksum, p6)) => if has_id(prior, id) {
                                    Err(ContainerFault::DuplicateChunkId(id))
                                } else if offset > usize::MAX || size > usize::MAX || offset + size
                                    > usize::MAX || offset + size > buf.len() {
                                    Err(ContainerFault::Truncated)
                                } else if fnv1a64_spec(buf.subrange(offset as int, offset + size))
                                    != checksum {
                                    Err(ContainerFault::ChunkIntegrityMismatch(id))
                                } else {
                                    Ok(
                                        (
                                            EntryView {
                                                descriptor: DescriptorView {
                                                    id,
                                                    kind,
                                                    compression: ChunkCompression::Uncompressed,
                                                },
                                                offset: offset as int,
                                                size: size as int,
                                                checksum,
                                            },
                                            p6,
                                        ),
                                    )
                                },
                            },
                        },
                    }
                },
            },
        },
    }
}

/// `count` index entries starting at `pos`, appended to `acc`.
pub open spec fn rd_entries(buf: Seq<u8>, pos: int, count: nat, acc: Seq<EntryView>) -> Result<
    Seq<EntryView>,
    ContainerFault,
>
    decreases count,
{
    if count == 0 {
        Ok(acc)
    } else {
        match rd_entry(buf, pos, acc) {
            Err(e) => Err(e),
            Ok((entry, p)) => rd_entries(buf, p, (count - 1) as nat, acc.push(entry)),
        }
    }
}

/// The chunks the entries describe, with their bytes taken from `buf`.
pub open spec fn entry_chunks(buf: Seq<u8>, entries: Seq<EntryView>) -> Seq<
    (DescriptorView, Seq<u8>),
> {
    entries.map_values(
        |e: EntryView| (e.descriptor, buf.subrange(e.offset, e.offset + e.size)),
    )
}

/// What parsing `buf` yields: the container's content, or the first
/// problem found reading it front to back.
pub open spec fn spec_parse(buf: Seq<u8>) -> Result<ContainerContent, ContainerFault> {
    match rd_take(buf, 0, 8) {
        None => Err(ContainerFault::Truncated),
        Some((m, p0)) => if m != magic() {
            Err(ContainerFault::BadMagic)
        } else {
            match rd_u16(buf, p0) {
                None => Err(ContainerFault::Truncated),
                Some((version, p1)) => if version != EXPERIMENTAL_V0_NUMBER {
                    Err(ContainerFault::UnsupportedVersion(version))
                } else {
                    match rd_identity(buf, p1) {
                        Err(e) => Err(e),
                        Ok((identity, p2)) => match rd_bytes(buf, p2) {
                            None => Err(ContainerFault::Truncated),
                            Some((metadata, p3)) => match rd_u32(buf, p3) {
                                None => Err(ContainerFault::Truncated),
                                Some((count, p4)) => match rd_entries(
                                    buf,
                                    p4,
                                    count as nat,
                                    Seq::empty(),
                                ) {
                                    Err(e) => Err(e),
                                    Ok(entries) => Ok(
                                        ContainerContent {
                                            identity,
                                            metadata,
                                            chunks: entry_chunks(buf, entries),
                                        },
                                    ),
                                },
                            },
                        },
                    }
                },
            }
        },
    }
}

/// The bytes of the first chunk with id `id`, if any.
pub open spec fn chunk_lookup(chunks: Seq<(DescriptorView, Seq<u8>)>, id: u32) -> Option<Seq<u8>>
    decreases chunks.len(),
{
    if chunks.len() == 0 {
        None
    } else if chunks[0].0.id == id {
        Some(chunks[0].1)
    } else {
        chunk_lookup(chunks.drop_first(), id)
    }
}

// ---------------------------------------------------------------------
// reader
// ---------------------------------------------------------------------

/// The exec result of a spec read, with the error viewed.
pub open spec fn read_matches<T>(
    r: Result<(T, usize), ContainerError>,
    s: Result<(T, int), ContainerFault>,
) -> bool {
    match s {
        Ok((v, p)) => r matches Ok((w, q)) && w == v && q == p,
        Err(f) => r matches Err(e) && e@ == f,
    }
}

fn read_str<'a>(buf: &'a [u8], pos: usize) -> (r: Result<(&'a str, usize), ContainerError>)
    requires
        pos <= buf@.len(),
    ensures
        match rd_str(buf@, pos as int) {
            Ok((s, p)) => r matches Ok((t, q)) && t@ == s && q == p,
            Err(f) => r matches Err(e) && e@ == f,
        },
{
    match read_bytes(buf, pos) {
        None => Err(ContainerError::Truncated),
        Some((b, p)) => match utf8_text(b) {
            Some(s) => Ok((s, p)),
            None => Err(ContainerError::InvalidUtf8),
        },
    }
}

fn read_identity(buf: &[u8], pos: usize) -> (r: Result<(ClassifiedFilename, usize), ContainerError>)
    requires
        pos <= buf@.len(),
    ensures
        match rd_identity(buf@, pos as int) {
            Ok((c, p)) => r matches Ok((d, q)) && d@ == c && q == p,
            Err(f) => r matches Err(e) && e@ == f,
        },
{
    let (tag, p) = match read_u8(buf, pos) {
        Some(x) => x,
        None => {
            return Err(ContainerError::Truncated);
        },
    };
    if tag == IDENTITY_TAG_PACKAGE {
        let (s, q) = match read_str(buf, p) {
            Ok(x) => x,
            Err(e) => {
                return Err(e);
            },
        };
        proof {
            lemma_validate_ok(s@);
        }
        match PackageId::new(s) {
            Ok(puid) => Ok((ClassifiedFilename::Package { puid }, q)),
            Err(e) => Err(ContainerError::InvalidIdentity(e.message())),
        }
    } else if tag == IDENTITY_TAG_ASSET {
        let (s, q) = match read_str(buf, p) {
            Ok(x) => x,
            Err(e) => {
                return Err(e);
            },
        };
        proof {
            lemma_validate_ok(s@);
        }
        let puid = match AssetPuid::new(s) {
            Ok(puid) => puid,
            Err(e) => {
                return Err(ContainerError::InvalidIdentity(e.message()));
            },
        };
        let (k, r) = match read_str(buf, q) {
            Ok(x) => x,
            Err(e) => {
                return Err(e);
            },
        };
        proof {
            lemma_validate_ok(k@);
        }
        match AssetCategory::new(k) {
            Ok(category) => Ok((ClassifiedFilename::Asset { puid, category }, r)),
            Err(e) => Err(ContainerError::InvalidIdentity(e.message())),
        }
    } else {
        let n = decimal(tag as u64);
        Err(ContainerError::InvalidIdentity(join(owned("unknown identity tag "), n.as_str())))
    }
}


/// True when `m` is the magic.
fn is_magic(m: &[u8]) -> (b: bool)
    requires
        m@.len() == 8,
    ensures
        b == (m@ == magic()),
{
    let r = m[0] == 0x4e && m[1] == 0x53 && m[2] == 0x50 && m[3] == 0x4b && m[4] == 0x47 && m[5]
        == 0x43 && m[6] == 0x54 && m[7] == 0x52;
    proof {
        if r {
            assert(m@ =~= magic());
        }
    }
    r
}

/// True when one of `prior` has id `id`.
fn contains_id(prior: &Vec<ChunkDescriptor>, id: u32) -> (b: bool)
    ensures
        b == exists|j: int| 0 <= j < prior@.len() && (#[trigger] prior@[j]).id.0 == id,
{
    let n = prior.len();
    let mut i: usize = 0;
    while i < n
        invariant
            n == prior@.len(),
            i <= n,
            forall|j: int| 0 <= j < i ==> (#[trigger] prior@[j]).id.0 != id,
        decreases n - i,
    {
        if prior[i].id.0 == id {
            assert(prior@[i as int].id.0 == id);
            return true;
        }
        i = i + 1;
    }
    false
}

/// The exec result of reading one index entry.
pub open spec fn entry_matches(
    r: Result<(ChunkDescriptor, usize, usize, usize), ContainerError>,
    s: Result<(EntryView, int), ContainerFault>,
) -> bool {
    match s {
        Ok((e, p)) => r matches Ok((d, off, size, q)) && d@ == e.descriptor && off == e.offset
            && size == e.size && q == p,
        Err(f) => r matches Err(x) && x@ == f,
    }
}

fn read_entry(buf: &[u8], pos: usize, prior: &Vec<ChunkDescriptor>, acc: Ghost<Seq<EntryView>>) -> (r:
    Result<(ChunkDescriptor, usize, usize, usize), ContainerError>)
    requires
        pos <= buf@.len(),
        prior@.len() == acc@.len(),
        forall|j: int| 0 <= j < acc@.len() ==> (#[trigger] prior@[j]).id.0 == acc@[j].descriptor.id,
    ensures
        entry_matches(r, rd_entry(buf@, pos as int, acc@)),
{
    let blen = buf.len();
    let (id, p1) = match read_u32(buf, pos) {
        Some(x) => x,
        None => {
            return Err(ContainerError::Truncated);
        },
    };
    let (kind, p2) = match read_str(buf, p1) {
        Ok(x) => x,
        Err(e) => {
            return Err(e);
        },
    };
    let (tag, p3) = match read_u8(buf, p2) {
        Some(x) => x,
        None => {
            return Err(ContainerError::Truncated);
        },
    };
    if tag != COMPRESSION_TAG_UNCOMPRESSED {
        return Err(ContainerError::UnsupportedCompression(tag));
    }
    let (offset, p4) = match read_u64(buf, p3) {
        Some(x) => x,
        None => {
            return Err(ContainerError::Truncated);
        },
    };
    let (size, p5) = match read_u64(buf, p4) {
        Some(x) => x,
        None => {
            return Err(ContainerError::Truncated);
        },
    };
    let (checksum, p6) = match read_u64(buf, p5) {
        Some(x) => x,
        None => {
            return Err(ContainerError::Truncated);
        },
    };
    if contains_id(prior, id) {
        proof {
            let j = choose|j: int| 0 <= j < prior@.len() && (#[trigger] prior@[j]).id.0 == id;
            assert(acc@[j].descriptor.id == id);
        }
        return Err(ContainerError::DuplicateChunkId(ChunkId(id)));
    }
    assert(!has_id(acc@, id)) by {
        if has_id(acc@, id) {
            let j = choose|j: int| 0 <= j < acc@.len() && (#[trigger] acc@[j]).descriptor.id == id;
            assert(prior@[j].id.0 == id);
        }
    }
    if offset > usize::MAX as u64 || size > usize::MAX as u64 {
        return Err(ContainerError::Truncated);
    }
    let offset = offset as usize;
    let size = size as usize;
    if size > usize::MAX - offset {
        return Err(ContainerError::Truncated);
    }
    let end = offset + size;
    if end > blen {
        return Err(ContainerError::Truncated);
    }
    let chunk = vstd::slice::slice_subrange(buf, offset, end);
    if fnv1a64(chunk) != checksum {
        return Err(ContainerError::ChunkIntegrityMismatch(ChunkId(id)));
    }
    let descriptor = ChunkDescriptor {
        id: ChunkId(id),
        kind: owned(kind),
        compression: ChunkCompression::Uncompressed,
    };
    Ok((descriptor, offset, size, p6))
}

/// A parsed, validated view over a container's bytes.
///
/// [`ContainerReader::parse`] performs full structural validation up front
/// (bounds, UTF-8, per-chunk integrity checksums), so accessors after a
/// successful parse cannot fail on corrupted data.
#[derive(Debug)]
pub struct ContainerReader<'a> {
    buf: &'a [u8],
    self_identity: ClassifiedFilename,
    metadata: &'a [u8],
    descriptors: Vec<ChunkDescriptor>,
    placements: Vec<(usize, usize)>,
}

impl<'a> View for ContainerReader<'a> {
    type V = ContainerContent;

    closed spec fn view(&self) -> ContainerContent {
        ContainerContent {
            identity: self.self_identity@,
            metadata: self.metadata@,
            chunks: Seq::new(
                self.descriptors@.len(),
                |i: int|
                    (
                        self.descriptors@[i]@,
                        self.buf@.subrange(
                            self.placements@[i].0 as int,
                            self.placements@[i].0 + self.placements@[i].1,
                        ),
                    ),
            ),
        }
    }
}

impl<'a> ContainerReader<'a> {
    #[verifier::type_invariant]
    closed spec fn wf(self) -> bool {
        &&& self.descriptors@.len() == self.placements@.len()
        &&& forall|i: int|
            0 <= i < self.placements@.len() ==> #[trigger] self.placements@[i].0
                + self.placements@[i].1 <= self.buf@.len()
    }

    /// Parses and fully validates `buf`. The result is exactly what
    /// [`spec_parse`] says: the container's content on success, otherwise
    /// the first problem met reading the buffer front to back.
    pub fn parse(buf: &'a [u8]) -> (res: Result<Self, ContainerError>)
        ensures
            match spec_parse(buf@) {
                Ok(c) => res matches Ok(r) && r@ == c,
                Err(f) => res matches Err(e) && e@ == f,
            },
    {
        let (m, p0) = match take(buf, 0, 8) {
            Some(x) => x,
            None => {
                return Err(ContainerError::Truncated);
            },
        };
        if !is_magic(m) {
            return Err(ContainerError::BadMagic);
        }
        let (version, p1) = match read_u16(buf, p0) {
            Some(x) => x,
            None => {
                return Err(ContainerError::Truncated);
            },
        };
        if version != EXPERIMENTAL_V0_NUMBER {
            return Err(ContainerError::UnsupportedVersion(version));
        }
        let (self_identity, p2) = match read_identity(buf, p1) {
            Ok(x) => x,
            Err(e) => {
                return Err(e);
            },
        };
        let (metadata, p3) = match read_bytes(buf, p2) {
            Some(x) => x,
            None => {
                return Err(ContainerError::Truncated);
            },
        };
        let (count, p4) = match read_u32(buf, p3) {
            Some(x) => x,
            None => {
                return Err(ContainerError::Truncated);
            },
        };
        let mut descriptors: Vec<ChunkDescriptor> = Vec::new();
        let mut placements: Vec<(usize, usize)> = Vec::new();
        let mut pos = p4;
        let ghost mut acc: Seq<EntryView> = Seq::empty();
        let mut i: u32 = 0;
        #[verifier::loop_isolation(false)]
        while i < count
            invariant
                pos <= buf@.len(),
                i <= count,
                rd_entries(buf@, p4 as int, count as nat, Seq::empty()) == rd_entries(
                    buf@,
                    pos as int,
                    (count - i) as nat,
                    acc,
                ),
                acc.len() == i,
                descriptors@.len() == i,
                placements@.len() == i,
                forall|j: int|
                    0 <= j < i ==> {
                        &&& (#[trigger] descriptors@[j])@ == acc[j].descriptor
                        &&& descriptors@[j].id.0 == acc[j].descriptor.id
                        &&& placements@[j].0 == acc[j].offset
                        &&& placements@[j].1 == acc[j].size
                        &&& acc[j].offset + acc[j].size <= buf@.len()
                    },
                forall|j: int|
                    0 <= j < i ==> #[trigger] placements@[j].0 + placements@[j].1 <= buf@.len(),
            decreases count - i,
        {
            let r = read_entry(buf, pos, &descriptors, Ghost(acc));
            match r {
                Err(e) => {
                    return Err(e);
                },
                Ok((d, offset, size, next)) => {
                    let ghost entry = rd_entry(buf@, pos as int, acc)->Ok_0.0;
                    proof {
                        acc = acc.push(entry);
                    }
                    descriptors.push(d);
                    placements.push((offset, size));
                    pos = next;
                    i = i + 1;
                },
            }
        }
        let ghost entries = acc;
        let r = ContainerReader { buf, self_identity, metadata, descriptors, placements };
        proof {
            assert(r@.chunks =~= entry_chunks(buf@, entries));
        }
        Ok(r)
    }

    /// The container format version this reader speaks: always version
    /// zero.
    pub fn format_version(&self) -> (v: FormatVersion)
        ensures
            v.0 == EXPERIMENTAL_V0_NUMBER,
    {
        FormatVersion::experimental_v0()
    }

    /// The container's self-reported identity.
    pub fn self_identity(&self) -> (c: &ClassifiedFilename)
        ensures
            c@ == self@.identity,
    {
        &self.self_identity
    }

    /// The metadata payload.
    pub fn metadata(&self) -> (m: &'a [u8])
        ensures
            m@ == self@.metadata,
    {
        self.metadata
    }

    /// The chunk descriptors, in index order.
    pub fn chunk_descriptors(&self) -> (d: &[ChunkDescriptor])
        ensures
            d@.len() == self@.chunks.len(),
            forall|i: int| 0 <= i < d@.len() ==> (#[trigger] d@[i])@ == self@.chunks[i].0,
    {
        self.descriptors.as_slice()
    }

    /// The bytes of the chunk with id `id`, or `UnknownChunkId` when the
    /// container has no such chunk.
    pub fn chunk_bytes(&self, id: ChunkId) -> (res: Result<&'a [u8], ContainerError>)
        ensures
            match chunk_lookup(self@.chunks, id.0) {
                Some(b) => res matches Ok(s) && s@ == b,
                None => res == Err::<&[u8], ContainerError>(ContainerError::UnknownChunkId(id)),
            },
    {
        proof {
            use_type_invariant(self);
        }
        let ghost chunks = self@.chunks;
        let n = self.descriptors.len();
        let blen = self.buf.len();
        assert(chunks.subrange(0, n as int) =~= chunks);
        let mut i: usize = 0;
        while i < n
            invariant
                n == self.descriptors@.len(),
                n == self.placements@.len(),
                chunks == self@.chunks,
                blen == self.buf@.len(),
                i <= n,
                chunk_lookup(chunks, id.0) == chunk_lookup(chunks.subrange(i as int, n as int), id.0),
                forall|j: int|
                    0 <= j < n ==> #[trigger] self.placements@[j].0 + self.placements@[j].1
                        <= self.buf@.len(),
            decreases n - i,
        {
            let ghost rest = chunks.subrange(i as int, n as int);
            assert(rest.drop_first() =~= chunks.subrange(i + 1, n as int));
            if self.descriptors[i].id.0 == id.0 {
                let (offset, size) = self.placements[i];
                assert(offset == self.placements@[i as int].0 && size == self.placements@[i as int].1);
                assert(self.placements@[i as int].0 + self.placements@[i as int].1 <= self.buf@.len());
                return Ok(vstd::slice::slice_subrange(self.buf, offset, offset + size));
            }
            i = i + 1;
        }
        Err(ContainerError::UnknownChunkId(id))
    }
}


// ---------------------------------------------------------------------
// what encoding means
// ---------------------------------------------------------------------

/// A string as its UTF-8 bytes with a `u32` length prefix.
pub open spec fn enc_str(s: Seq<char>) -> Seq<u8> {
    enc_bytes(encode_utf8(s))
}

/// The encoded self-identity.
pub open spec fn enc_identity(c: ClassifiedView) -> Seq<u8> {
    match c {
        ClassifiedView::Package(p) => seq![IDENTITY_TAG_PACKAGE] + enc_str(p),
        ClassifiedView::Asset(p, k) => seq![IDENTITY_TAG_ASSET] + enc_str(p) + enc_str(k),
    }
}

/// One encoded index entry for a chunk whose bytes start at `offset`.
pub open spec fn enc_entry(d: DescriptorView, offset: int, data: Seq<u8>) -> Seq<u8> {
    spec_u32_to_le_bytes(d.id) + enc_str(d.kind) + seq![COMPRESSION_TAG_UNCOMPRESSED]
        + spec_u64_to_le_bytes(offset as u64) + spec_u64_to_le_bytes(data.len() as u64)
        + spec_u64_to_le_bytes(fnv1a64_spec(data))
}

/// The length of one encoded index entry.
pub open spec fn entry_len(d: DescriptorView) -> int {
    4 + 4 + encode_utf8(d.kind).len() as int + 1 + 24
}

/// Total size of the chunks' bytes.
pub open spec fn data_total(chunks: Seq<(DescriptorView, Seq<u8>)>) -> int
    decreases chunks.len(),
{
    if chunks.len() == 0 {
        0
    } else {
        data_total(chunks.drop_last()) + chunks.last().1.len()
    }
}

/// Total size of the chunks' index entries.
pub open spec fn index_len(chunks: Seq<(DescriptorView, Seq<u8>)>) -> int
    decreases chunks.len(),
{
    if chunks.len() == 0 {
        0
    } else {
        index_len(chunks.drop_last()) + entry_len(chunks.last().0)
    }
}

/// The encoded index when chunk data starts at `base`.
pub open spec fn enc_index(chunks: Seq<(DescriptorView, Seq<u8>)>, base: int) -> Seq<u8>
    decreases chunks.len(),
{
    if chunks.len() == 0 {
        Seq::empty()
    } else {
        let init = chunks.drop_last();
        enc_index(init, base) + enc_entry(chunks.last().0, base + data_total(init), chunks.last().1)
    }
}

/// The chunks' bytes back to back.
pub open spec fn enc_data(chunks: Seq<(DescriptorView, Seq<u8>)>) -> Seq<u8>
    decreases chunks.len(),
{
    if chunks.len() == 0 {
        Seq::empty()
    } else {
        enc_data(chunks.drop_last()) + chunks.last().1
    }
}

/// Magic, version, identity, metadata and chunk count.
pub open spec fn header_prefix(c: ContainerContent) -> Seq<u8> {
    magic() + spec_u16_to_le_bytes(EXPERIMENTAL_V0_NUMBER) + enc_identity(c.identity) + enc_bytes(
        c.metadata,
    ) + spec_u32_to_le_bytes(c.chunks.len() as u32)
}

/// Where chunk data starts: after the header prefix and the index.
pub open spec fn data_start(c: ContainerContent) -> int {
    header_prefix(c).len() + index_len(c.chunks)
}

/// The encoding of `c`. Lengths are written as `u32`, truncating as the
/// writer always has; the round-trip law names the sizes that fit.
pub open spec fn spec_encode(c: ContainerContent) -> Seq<u8> {
    header_prefix(c) + enc_index(c.chunks, data_start(c)) + enc_data(c.chunks)
}

pub proof fn lemma_enc_index_len(chunks: Seq<(DescriptorView, Seq<u8>)>, base: int)
    ensures
        enc_index(chunks, base).len() == index_len(chunks),
        index_len(chunks) >= 0,
    decreases chunks.len(),
{
    if chunks.len() > 0 {
        lemma_enc_index_len(chunks.drop_last(), base);
        vstd::bytes::lemma_auto_spec_u32_to_from_le_bytes();
        vstd::bytes::lemma_auto_spec_u64_to_from_le_bytes();
    }
}

pub proof fn lemma_enc_data_len(chunks: Seq<(DescriptorView, Seq<u8>)>)
    ensures
        enc_data(chunks).len() == data_total(chunks),
        data_total(chunks) >= 0,
    decreases chunks.len(),
{
    if chunks.len() > 0 {
        lemma_enc_data_len(chunks.drop_last());
    }
}

/// Sizes of prefixes grow with the prefix.
pub proof fn lemma_totals_monotone(chunks: Seq<(DescriptorView, Seq<u8>)>, i: int)
    requires
        0 <= i <= chunks.len(),
    ensures
        0 <= data_total(chunks.take(i)) <= data_total(chunks),
        0 <= index_len(chunks.take(i)) <= index_len(chunks),
    decreases chunks.len(),
{
    lemma_enc_data_len(chunks.take(i));
    lemma_enc_index_len(chunks.take(i), 0);
    if i < chunks.len() {
        assert(chunks.drop_last().take(i) =~= chunks.take(i));
        lemma_totals_monotone(chunks.drop_last(), i);
        lemma_enc_data_len(chunks.drop_last());
        lemma_enc_index_len(chunks.drop_last(), 0);
    } else {
        assert(chunks.take(i) =~= chunks);
    }
}

pub proof fn lemma_encode_len(c: ContainerContent)
    ensures
        spec_encode(c).len() == data_start(c) + data_total(c.chunks),
        header_prefix(c).len() <= data_start(c) <= spec_encode(c).len(),
{
    lemma_enc_index_len(c.chunks, data_start(c));
    lemma_enc_data_len(c.chunks);
}

// ---------------------------------------------------------------------
// writer
// ---------------------------------------------------------------------

/// The compression tag written for `c`.
fn compression_tag(c: ChunkCompression) -> (t: u8)
    ensures
        t == COMPRESSION_TAG_UNCOMPRESSED,
{
    match c {
        ChunkCompression::Uncompressed => COMPRESSION_TAG_UNCOMPRESSED,
    }
}

/// The encoded size of a string: its `u32` length prefix and its bytes.
pub fn encoded_str_len(s: &str) -> (n: usize)
    requires
        encode_utf8(s@).len() + 4 <= usize::MAX,
    ensures
        n == enc_str(s@).len(),
{
    proof {
        vstd::bytes::lemma_auto_spec_u32_to_from_le_bytes();
    }
    4 + s.len()
}

/// The encoded size of a byte payload: its `u32` length prefix and the
/// bytes.
pub fn encoded_str_len_for_bytes(b: &[u8]) -> (n: usize)
    requires
        b@.len() + 4 <= usize::MAX,
    ensures
        n == enc_bytes(b@).len(),
{
    proof {
        vstd::bytes::lemma_auto_spec_u32_to_from_le_bytes();
    }
    4 + b.len()
}

/// The encoded size of a self-identity.
pub fn encoded_identity_len(identity: &ClassifiedFilename) -> (n: usize)
    requires
        enc_identity(identity@).len() <= usize::MAX,
    ensures
        n == enc_identity(identity@).len(),
{
    proof {
        vstd::bytes::lemma_auto_spec_u32_to_from_le_bytes();
    }
    match identity {
        ClassifiedFilename::Package { puid } => 1 + encoded_str_len(puid.as_str()),
        ClassifiedFilename::Asset { puid, category } => {
            1 + encoded_str_len(puid.as_str()) + encoded_str_len(category.as_str())
        },
    }
}

fn write_str(out: &mut Vec<u8>, s: &str)
    ensures
        final(out)@ == old(out)@ + enc_str(s@),
{
    write_bytes(out, s.as_bytes());
}

/// True when every string of the identity is a valid segment.
pub open spec fn identity_valid(c: ClassifiedView) -> bool {
    match c {
        ClassifiedView::Package(p) => is_valid_segment(p),
        ClassifiedView::Asset(p, k) => is_valid_segment(p) && is_valid_segment(k),
    }
}

fn write_identity(out: &mut Vec<u8>, identity: &ClassifiedFilename)
    ensures
        final(out)@ == old(out)@ + enc_identity(identity@),
        identity_valid(identity@),
{
    match identity {
        ClassifiedFilename::Package { puid } => {
            write_u8(out, IDENTITY_TAG_PACKAGE);
            write_str(out, puid.as_str());
        },
        ClassifiedFilename::Asset { puid, category } => {
            write_u8(out, IDENTITY_TAG_ASSET);
            write_str(out, puid.as_str());
            write_str(out, category.as_str());
        },
    }
    assert(out@ =~= old(out)@ + enc_identity(identity@));
}

/// Builds one container in memory. File I/O (if any) is the caller's
/// responsibility: this type only ever produces bytes.
pub struct ContainerWriter {
    self_identity: ClassifiedFilename,
    metadata: Vec<u8>,
    chunks: Vec<(ChunkDescriptor, Vec<u8>)>,
}

/// True when no two chunks share an id.
pub open spec fn distinct_ids(chunks: Seq<(DescriptorView, Seq<u8>)>) -> bool {
    forall|i: int, j: int|
        0 <= i < j < chunks.len() ==> (#[trigger] chunks[i]).0.id != (#[trigger] chunks[j]).0.id
}

/// True when one of the chunks has id `id`.
pub open spec fn uses_id(chunks: Seq<(DescriptorView, Seq<u8>)>, id: u32) -> bool {
    exists|j: int| 0 <= j < chunks.len() && (#[trigger] chunks[j]).0.id == id
}

/// The view of a stored chunk.
pub open spec fn stored_chunk(p: (ChunkDescriptor, Vec<u8>)) -> (DescriptorView, Seq<u8>) {
    (p.0@, p.1@)
}

impl View for ContainerWriter {
    type V = ContainerContent;

    closed spec fn view(&self) -> ContainerContent {
        ContainerContent {
            identity: self.self_identity@,
            metadata: self.metadata@,
            chunks: self.chunks@.map_values(|p: (ChunkDescriptor, Vec<u8>)| stored_chunk(p)),
        }
    }
}

impl ContainerWriter {
    #[verifier::type_invariant]
    closed spec fn wf(self) -> bool {
        forall|i: int, j: int|
            0 <= i < j < self.chunks@.len() ==> (#[trigger] self.chunks@[i]).0.id.0 != (
            #[trigger] self.chunks@[j]).0.id.0
    }

    /// A writer for a container that identifies itself as `self_identity`,
    /// with no metadata and no chunks.
    pub fn new(self_identity: ClassifiedFilename) -> (w: Self)
        ensures
            w@ == (ContainerContent {
                identity: self_identity@,
                metadata: Seq::empty(),
                chunks: Seq::empty(),
            }),
    {
        let w = ContainerWriter { self_identity, metadata: Vec::new(), chunks: Vec::new() };
        assert(w@.chunks =~= Seq::<(DescriptorView, Seq<u8>)>::empty());
        w
    }

    /// Attaches a metadata payload: opaque bytes, no schema imposed.
    pub fn with_metadata(self, metadata: Vec<u8>) -> (w: Self)
        ensures
            w@ == (ContainerContent { metadata: metadata@, ..self@ }),
    {
        proof {
            use_type_invariant(&self);
        }
        ContainerWriter { self_identity: self.self_identity, metadata, chunks: self.chunks }
    }

    /// Appends one chunk. Rejects a descriptor id already used by a chunk
    /// pushed earlier, leaving the writer unchanged.
    pub fn push_chunk(&mut self, descriptor: ChunkDescriptor, bytes: Vec<u8>) -> (res: Result<
        (),
        ContainerError,
    >)
        ensures
            uses_id(old(self)@.chunks, descriptor.id.0) ==> res == Err::<(), ContainerError>(
                ContainerError::DuplicateChunkId(descriptor.id),
            ) && final(self)@ == old(self)@,
            !uses_id(old(self)@.chunks, descriptor.id.0) ==> res is Ok && final(self)@ == (
            ContainerContent {
                chunks: old(self)@.chunks.push((descriptor@, bytes@)),
                ..old(self)@
            }),
    {
        proof {
            use_type_invariant(&*self);
        }
        let id = descriptor.id;
        let n = self.chunks.len();
        let mut i: usize = 0;
        while i < n
            invariant
                n == self.chunks@.len(),
                i <= n,
                self@ == old(self)@,
                self.chunks@ == old(self).chunks@,
                id == descriptor.id,
                forall|j: int| 0 <= j < i ==> (#[trigger] self.chunks@[j]).0.id.0 != id.0,
            decreases n - i,
        {
            if self.chunks[i].0.id.0 == id.0 {
                assert(old(self)@.chunks[i as int] == stored_chunk(self.chunks@[i as int]));
                assert(old(self)@.chunks[i as int].0.id == id.0);
                return Err(ContainerError::DuplicateChunkId(id));
            }
            i = i + 1;
        }
        assert(!uses_id(old(self)@.chunks, id.0)) by {
            if uses_id(old(self)@.chunks, id.0) {
                let j = choose|j: int|
                    0 <= j < old(self)@.chunks.len() && (#[trigger] old(self)@.chunks[j]).0.id
                        == id.0;
                assert(old(self)@.chunks[j] == stored_chunk(self.chunks@[j]));
            }
        }
        let mut chunks: Vec<(ChunkDescriptor, Vec<u8>)> = Vec::new();
        std::mem::swap(&mut chunks, &mut self.chunks);
        chunks.push((descriptor, bytes));
        assert forall|a: int, b: int| 0 <= a < b < chunks@.len() implies (
        #[trigger] chunks@[a]).0.id.0 != (#[trigger] chunks@[b]).0.id.0 by {
            if b == n {
                assert(chunks@[a] == old(self).chunks@[a]);
            } else {
                assert(chunks@[a] == old(self).chunks@[a]);
                assert(chunks@[b] == old(self).chunks@[b]);
            }
        }
        self.chunks = chunks;
        assert(self@.chunks =~= old(self)@.chunks.push((descriptor@, bytes@)));
        Ok(())
    }

    /// Encodes the container to bytes, exactly as [`spec_encode`] lays
    /// them out. The chunk ids are always distinct.
    pub fn encode(&self) -> (out: Vec<u8>)
        requires
            spec_encode(self@).len() <= usize::MAX,
        ensures
            out@ == spec_encode(self@),
            distinct_ids(self@.chunks),
            identity_valid(self@.identity),
            encodable(self@) ==> spec_parse(out@) == Ok::<ContainerContent, ContainerFault>(self@),
    {
        proof {
            use_type_invariant(self);
            lemma_encode_len(self@);
            assert forall|i: int, j: int| 0 <= i < j < self@.chunks.len() implies (
            #[trigger] self@.chunks[i]).0.id != (#[trigger] self@.chunks[j]).0.id by {
                assert(self@.chunks[i] == stored_chunk(self.chunks@[i]));
                assert(self@.chunks[j] == stored_chunk(self.chunks@[j]));
            }
        }
        let ghost c = self@;
        let mut out: Vec<u8> = Vec::new();
        write_u8(&mut out, 0x4e);
        write_u8(&mut out, 0x53);
        write_u8(&mut out, 0x50);
        write_u8(&mut out, 0x4b);
        write_u8(&mut out, 0x47);
        write_u8(&mut out, 0x43);
        write_u8(&mut out, 0x54);
        write_u8(&mut out, 0x52);
        assert(out@ =~= magic());
        write_u16(&mut out, EXPERIMENTAL_V0_NUMBER);
        write_identity(&mut out, &self.self_identity);
        write_bytes(&mut out, self.metadata.as_slice());
        let n = self.chunks.len();
        write_u32(&mut out, n as u32);
        assert(out@ =~= header_prefix(c));
        let ghost prefix = out@;
        let prefix_len = out.len();

        // The index has a fixed layout per entry, so where chunk data starts
        // is known before any offset is written.
        let mut index_total: usize = 0;
        let mut i: usize = 0;
        while i < n
            invariant
                n == self.chunks@.len(),
                n == c.chunks.len(),
                c == self@,
                i <= n,
                index_total == index_len(c.chunks.take(i as int)),
                prefix_len == header_prefix(c).len(),
                prefix_len + index_len(c.chunks) <= usize::MAX,
                forall|k: int| 0 <= k < n ==> c.chunks[k] == stored_chunk(#[trigger] self.chunks@[k]),
            decreases n - i,
        {
            proof {
                lemma_totals_monotone(c.chunks, i + 1);
                assert(c.chunks.take(i + 1).drop_last() =~= c.chunks.take(i as int));
                assert(c.chunks.take(i + 1).last() == c.chunks[i as int]);
            }
            let kind_len = self.chunks[i].0.kind.as_str().len();
            index_total = index_total + 4 + 4 + kind_len + 1 + 24;
            i = i + 1;
        }
        assert(c.chunks.take(n as int) =~= c.chunks);
        let header_len = prefix_len + index_total;
        let mut offset = header_len;
        i = 0;
        assert(c.chunks.take(0) =~= Seq::<(DescriptorView, Seq<u8>)>::empty());
        while i < n
            invariant
                n == self.chunks@.len(),
                n == c.chunks.len(),
                c == self@,
                i <= n,
                header_len == data_start(c),
                data_start(c) + data_total(c.chunks) <= usize::MAX,
                offset == data_start(c) + data_total(c.chunks.take(i as int)),
                out@ == prefix + enc_index(c.chunks.take(i as int), data_start(c)),
                prefix == header_prefix(c),
                forall|k: int| 0 <= k < n ==> c.chunks[k] == stored_chunk(#[trigger] self.chunks@[k]),
            decreases n - i,
        {
            proof {
                lemma_totals_monotone(c.chunks, i + 1);
                assert(c.chunks.take(i + 1).drop_last() =~= c.chunks.take(i as int));
                assert(c.chunks.take(i + 1).last() == c.chunks[i as int]);
            }
            let entry = &self.chunks[i];
            let d = &entry.0;
            let bytes = entry.1.as_slice();
            let ghost before = out@;
            write_u32(&mut out, d.id.0);
            write_str(&mut out, d.kind.as_str());
            write_u8(&mut out, compression_tag(d.compression));
            write_u64(&mut out, offset as u64);
            write_u64(&mut out, bytes.len() as u64);
            write_u64(&mut out, fnv1a64(bytes));
            proof {
                assert(out@ =~= before + enc_entry(c.chunks[i as int].0, offset as int, c.chunks[i as int].1));
                assert(out@ =~= prefix + enc_index(c.chunks.take(i + 1), data_start(c)));
            }
            offset = offset + bytes.len();
            i = i + 1;
        }
        assert(c.chunks.take(n as int) =~= c.chunks);
        let ghost indexed = out@;
        i = 0;
        while i < n
            invariant
                n == self.chunks@.len(),
                n == c.chunks.len(),
                c == self@,
                i <= n,
                out@ == indexed + enc_data(c.chunks.take(i as int)),
                forall|k: int| 0 <= k < n ==> c.chunks[k] == stored_chunk(#[trigger] self.chunks@[k]),
            decreases n - i,
        {
            proof {
                assert(c.chunks.take(i + 1).drop_last() =~= c.chunks.take(i as int));
                assert(c.chunks.take(i + 1).last() == c.chunks[i as int]);
            }
            write_all(&mut out, self.chunks[i].1.as_slice());
            assert(out@ =~= indexed + enc_data(c.chunks.take(i + 1)));
            i = i + 1;
        }
        assert(out@ =~= spec_encode(c));
        proof {
            if encodable(c) {
                law_encode_parse_round_trip(c);
            }
        }
        out
    }
}

} // verus!
