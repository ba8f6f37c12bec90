//! The `.canasset` binary container.
//!
//! A file starts with a fixed 64-byte header (magic, version, section count,
//! total size, a 16-byte UUID, reserved bytes), followed by a table of
//! 16-byte section entries (kind, offset, size, flags); section data is
//! reached through the offsets. All integers are little-endian.
use vstd::prelude::*;
use vstd::slice::slice_subrange;

verus! {

/// Magic bytes at offset 0 of every .canasset file: `CANASSET`.
pub const CANASSET_MAGIC: [u8; 8] = [0x43u8, 0x41u8, 0x4Eu8, 0x41u8, 0x53u8, 0x53u8, 0x45u8, 0x54u8];

/// Current format version.
pub const CANASSET_VERSION: u32 = 1;

/// Maximum number of sections in a .canasset file.
pub const MAX_SECTIONS: usize = 32;

/// Size of the fixed header in bytes.
pub const HEADER_SIZE: usize = 64;

/// Size of one section-table entry in bytes.
pub const SECTION_ENTRY_SIZE: usize = 16;

/// Section type identifiers.
#[derive(Debug, Clone, Copy, PartialEq, Eq, Structural)]
pub enum SectionKind {
    Metadata,
    MeshLod0,
    MeshLod1,
    MeshLod2,
    MeshLod3,
    MeshShadow,
    Collision,
    TextureAlbedo,
    TextureNormal,
    /// Roughness in R, metallic in G (packed).
    TextureRoughnessMetal,
    TextureEmissive,
    TextureAO,
    Material,
    AudioClip,
    /// Any code this engine does not know.
    Unknown,
}

/// The kind a section code stands for.
pub open spec fn kind_of_code(v: u32) -> SectionKind {
    if v == 0 { SectionKind::Metadata }
    else if v == 1 { SectionKind::MeshLod0 }
    else if v == 2 { SectionKind::MeshLod1 }
    else if v == 3 { SectionKind::MeshLod2 }
    else if v == 4 { SectionKind::MeshLod3 }
    else if v == 5 { SectionKind::MeshShadow }
    else if v == 6 { SectionKind::Collision }
    else if v == 7 { SectionKind::TextureAlbedo }
    else if v == 8 { SectionKind::TextureNormal }
    else if v == 9 { SectionKind::TextureRoughnessMetal }
    else if v == 10 { SectionKind::TextureEmissive }
    else if v == 11 { SectionKind::TextureAO }
    else if v == 12 { SectionKind::Material }
    else if v == 13 { SectionKind::AudioClip }
    else { SectionKind::Unknown }
}

/// The code written for each kind.
pub open spec fn code_of_kind(k: SectionKind) -> u32 {
    match k {
        SectionKind::Metadata => 0,
        SectionKind::MeshLod0 => 1,
        SectionKind::MeshLod1 => 2,
        SectionKind::MeshLod2 => 3,
        SectionKind::MeshLod3 => 4,
        SectionKind::MeshShadow => 5,
        SectionKind::Collision => 6,
        SectionKind::TextureAlbedo => 7,
        SectionKind::TextureNormal => 8,
        SectionKind::TextureRoughnessMetal => 9,
        SectionKind::TextureEmissive => 10,
        SectionKind::TextureAO => 11,
        SectionKind::Material => 12,
        SectionKind::AudioClip => 13,
        SectionKind::Unknown => 0xFFFF_FFFF,
    }
}

impl SectionKind {
    pub fn from_u32(v: u32) -> (k: Self)
        ensures
            k == kind_of_code(v),
    {
        match v {
            0 => SectionKind::Metadata,
            1 => SectionKind::MeshLod0,
            2 => SectionKind::MeshLod1,
            3 => SectionKind::MeshLod2,
            4 => SectionKind::MeshLod3,
            5 => SectionKind::MeshShadow,
            6 => SectionKind::Collision,
            7 => SectionKind::TextureAlbedo,
            8 => SectionKind::TextureNormal,
            9 => SectionKind::TextureRoughnessMetal,
            10 => SectionKind::TextureEmissive,
            11 => SectionKind::TextureAO,
            12 => SectionKind::Material,
            13 => SectionKind::AudioClip,
            _ => SectionKind::Unknown,
        }
    }

    /// The section code of this kind.
    pub fn code(self) -> (v: u32)
        ensures
            v == code_of_kind(self),
    {
        match self {
            SectionKind::Metadata => 0,
            SectionKind::MeshLod0 => 1,
            SectionKind::MeshLod1 => 2,
            SectionKind::MeshLod2 => 3,
            SectionKind::MeshLod3 => 4,
            SectionKind::MeshShadow => 5,
            SectionKind::Collision => 6,
            SectionKind::TextureAlbedo => 7,
            SectionKind::TextureNormal => 8,
            SectionKind::TextureRoughnessMetal => 9,
            SectionKind::TextureEmissive => 10,
            SectionKind::TextureAO => 11,
            SectionKind::Material => 12,
            SectionKind::AudioClip => 13,
            SectionKind::Unknown => 0xFFFF_FFFF,
        }
    }
}

/// A kind survives the trip through its code and back.
pub proof fn law_section_code_round_trip(k: SectionKind)
    ensures
        kind_of_code(code_of_kind(k)) == k,
{
}

/// The section kinds with codes, in the order of their codes as the file
/// format fixes them: metadata 0, mesh LoDs 1 to 4, shadow mesh 5,
/// collision 6, albedo 7, normal map 8, roughness/metal 9, emissive 10,
/// ambient occlusion 11, material 12, audio clip 13.
pub open spec fn section_kinds_by_code() -> Seq<SectionKind> {
    seq![
        SectionKind::Metadata,
        SectionKind::MeshLod0,
        SectionKind::MeshLod1,
        SectionKind::MeshLod2,
        SectionKind::MeshLod3,
        SectionKind::MeshShadow,
        SectionKind::Collision,
        SectionKind::TextureAlbedo,
        SectionKind::TextureNormal,
        SectionKind::TextureRoughnessMetal,
        SectionKind::TextureEmissive,
        SectionKind::TextureAO,
        SectionKind::Material,
        SectionKind::AudioClip,
    ]
}

/// Reading a code follows the format's code table: code `v` below 14 is
/// the kind at place `v` of the table, any other code is `Unknown`; and the
/// code written for each known kind is its place in the table.
pub proof fn law_section_code_table(v: u32)
    ensures
        section_kinds_by_code().len() == 14,
        v < 14 ==> kind_of_code(v) == section_kinds_by_code()[v as int],
        v >= 14 ==> kind_of_code(v) == SectionKind::Unknown,
        forall|i: int| 0 <= i < 14 ==> code_of_kind(#[trigger] section_kinds_by_code()[i]) == i,
        code_of_kind(SectionKind::Unknown) == u32::MAX,
        kind_of_code(8) == SectionKind::TextureNormal,
        kind_of_code(9) == SectionKind::TextureRoughnessMetal,
{
}

/// Little-endian `u32` at byte `off`.
pub open spec fn le_u32(b: Seq<u8>, off: int) -> int {
    b[off] as int + 0x100 * b[off + 1] + 0x1_0000 * b[off + 2] + 0x100_0000 * b[off + 3]
}

/// Little-endian `u64` at byte `off`.
pub open spec fn le_u64(b: Seq<u8>, off: int) -> int {
    le_u32(b, off) + 0x1_0000_0000 * le_u32(b, off + 4)
}

fn read_u32(b: &[u8], off: usize) -> (v: u32)
    requires
        off + 4 <= b@.len(),
    ensures
        v == le_u32(b@, off as int),
{
    let b0 = b[off] as u32;
    let b1 = b[off + 1] as u32;
    let b2 = b[off + 2] as u32;
    let b3 = b[off + 3] as u32;
    assert(b0 + 0x100 * b1 + 0x1_0000 * b2 + 0x100_0000 * b3 <= u32::MAX) by (nonlinear_arith)
        requires b0 < 256, b1 < 256, b2 < 256, b3 < 256;
    b0 + 0x100 * b1 + 0x1_0000 * b2 + 0x100_0000 * b3
}

fn read_u64(b: &[u8], off: usize) -> (v: u64)
    requires
        off + 8 <= b@.len(),
    ensures
        v == le_u64(b@, off as int),
{
    let _len = b.len();
    let lo = read_u32(b, off) as u64;
    let hi = read_u32(b, off + 4) as u64;
    assert(lo + 0x1_0000_0000 * hi <= u64::MAX) by (nonlinear_arith)
        requires lo <= u32::MAX, hi <= u32::MAX;
    lo + 0x1_0000_0000 * hi
}

/// `N` bytes starting at `off`.
fn read_bytes<const N: usize>(b: &[u8], off: usize) -> (a: [u8; N])
    requires
        off + N <= b@.len(),
    ensures
        a@ == b@.subrange(off as int, off + N),
{
    let mut a = [0u8; N];
    let len = b.len();
    let mut i: usize = 0;
    while i < N
        invariant
            len == b@.len(),
            off + N <= b@.len(),
            i <= N,
            a@.len() == N,
            forall|j: int| 0 <= j < i ==> a@[j] == b@[off + j],
        decreases N - i,
    {
        a.set(i, b[off + i]);
        i = i + 1;
    }
    assert(a@ =~= b@.subrange(off as int, off + N));
    a
}

/// Fixed-size file header: exactly 64 bytes.
#[derive(Debug, Clone, Copy)]
pub struct CanAssetHeader {
    /// Must equal `CANASSET_MAGIC`.
    pub magic: [u8; 8],
    /// Format version: `CANASSET_VERSION`.
    pub version: u32,
    /// Number of sections following the header.
    pub section_count: u32,
    /// Total file size in bytes.
    pub total_size: u64,
    /// Asset UUID for content-addressed caching.
    pub uuid: [u8; 16],
    /// Padding to 64 bytes.
    pub reserved: [u8; 24],
}

/// The bytes are long enough for a header and start with the magic.
pub open spec fn magic_ok(b: Seq<u8>) -> bool {
    &&& b.len() >= 64
    &&& b.subrange(0, 8) == CANASSET_MAGIC@
}

/// The bytes hold a header this engine reads: long enough, the magic, and
/// the current version.
pub open spec fn header_ok(b: Seq<u8>) -> bool {
    &&& magic_ok(b)
    &&& le_u32(b, 8) == CANASSET_VERSION
}

/// The bytes hold a header of another format version.
pub open spec fn header_ok_but_version(b: Seq<u8>) -> bool {
    &&& magic_ok(b)
    &&& le_u32(b, 8) != CANASSET_VERSION
}

/// Whether the bytes are long enough for a header and start with the magic.
fn has_magic(bytes: &[u8]) -> (b: bool)
    ensures
        b == magic_ok(bytes@),
{
    if bytes.len() < HEADER_SIZE {
        return false;
    }
    let mut i: usize = 0;
    while i < 8
        invariant
            i <= 8,
            bytes@.len() >= 64,
            forall|j: int| 0 <= j < i ==> bytes@[j] == CANASSET_MAGIC@[j],
        decreases 8 - i,
    {
        if bytes[i] != CANASSET_MAGIC[i] {
            assert(bytes@.subrange(0, 8)[i as int] == bytes@[i as int]);
            return false;
        }
        i = i + 1;
    }
    assert(bytes@.subrange(0, 8) =~= CANASSET_MAGIC@);
    true
}

/// `h` is the header stored at the start of `b`.
pub open spec fn header_decodes(b: Seq<u8>, h: CanAssetHeader) -> bool {
    &&& h.magic@ == b.subrange(0, 8)
    &&& h.version == le_u32(b, 8)
    &&& h.section_count == le_u32(b, 12)
    &&& h.total_size == le_u64(b, 16)
    &&& h.uuid@ == b.subrange(24, 40)
    &&& h.reserved@ == b.subrange(40, 64)
}

impl CanAssetHeader {
    /// Size of the header in bytes.
    pub const SIZE: usize = 64;

    pub fn new(uuid: [u8; 16], section_count: u32, total_size: u64) -> (h: Self)
        ensures
            h.magic == CANASSET_MAGIC,
            h.version == CANASSET_VERSION,
            h.section_count == section_count,
            h.total_size == total_size,
            h.uuid == uuid,
            h.reserved@ == Seq::new(24, |i: int| 0u8),
    {
        let h = CanAssetHeader {
            magic: CANASSET_MAGIC,
            version: CANASSET_VERSION,
            section_count,
            total_size,
            uuid,
            reserved: [0u8; 24],
        };
        assert(h.reserved@ =~= Seq::new(24, |i: int| 0u8));
        h
    }

    /// Parses the header from the start of `bytes`; `None` when they are
    /// too short or the magic or version does not match.
    pub fn from_bytes(bytes: &[u8]) -> (r: Option<Self>)
        ensures
            r is Some <==> header_ok(bytes@),
            r matches Some(h) ==> header_decodes(bytes@, h),
    {
        if bytes.len() < HEADER_SIZE {
            return None;
        }
        let magic: [u8; 8] = read_bytes(bytes, 0);
        let mut i: usize = 0;
        while i < 8
            invariant
                i <= 8,
                magic@.len() == 8,
                bytes@.len() >= 64,
                magic@ == bytes@.subrange(0, 8),
                forall|j: int| 0 <= j < i ==> magic@[j] == CANASSET_MAGIC@[j],
            decreases 8 - i,
        {
            if magic[i] != CANASSET_MAGIC[i] {
                assert(bytes@.subrange(0, 8)[i as int] == magic@[i as int]);
                assert(bytes@.subrange(0, 8) != CANASSET_MAGIC@);
                return None;
            }
            i = i + 1;
        }
        assert(magic@ =~= CANASSET_MAGIC@);
        let version = read_u32(bytes, 8);
        if version != CANASSET_VERSION {
            return None;
        }
        Some(CanAssetHeader {
            magic,
            version,
            section_count: read_u32(bytes, 12),
            total_size: read_u64(bytes, 16),
            uuid: read_bytes(bytes, 24),
            reserved: read_bytes(bytes, 40),
        })
    }
}

/// One entry of the section table: exactly 16 bytes.
#[derive(Debug, Clone, Copy, PartialEq, Eq, Structural)]
pub struct SectionEntry {
    /// The section's kind code.
    pub kind: u32,
    /// Byte offset from the start of the file to the section data.
    pub offset: u32,
    /// Byte length of the section data.
    pub size: u32,
    /// Reserved (checksum or compression flags).
    pub flags: u32,
}

/// `e` is the entry stored at byte `off` of `b`.
pub open spec fn entry_decodes(b: Seq<u8>, off: int, e: SectionEntry) -> bool {
    &&& e.kind == le_u32(b, off)
    &&& e.offset == le_u32(b, off + 4)
    &&& e.size == le_u32(b, off + 8)
    &&& e.flags == le_u32(b, off + 12)
}

impl SectionEntry {
    pub fn kind(&self) -> (k: SectionKind)
        ensures
            k == kind_of_code(self.kind),
    {
        SectionKind::from_u32(self.kind)
    }
}

/// Why a byte buffer is not a `.canasset` file.
#[derive(Debug)]
pub enum AssetFormatError {
    /// Shorter than a header, or missing the magic bytes.
    InvalidMagic,
    /// A header of another format version.
    VersionMismatch,
    /// Shorter than its section table.
    TruncatedFile,
    /// A section lies outside the file.
    OutOfBounds,
    Io(std::io::Error),
}

#[verifier::external_type_specification]
#[verifier::external_body]
pub struct ExIoError(std::io::Error);

/// A loaded `.canasset` file: its header, its section table and all its
/// bytes.
pub struct CanAsset {
    pub header: CanAssetHeader,
    pub sections: Vec<SectionEntry>,
    pub data: Vec<u8>,
}

/// The file is long enough for the section table that its header announces.
pub open spec fn table_fits(b: Seq<u8>) -> bool {
    b.len() >= 64 + 16 * le_u32(b, 12)
}

/// Index of the first section of kind `kind` at or after `from`, if any.
pub open spec fn first_of_kind(s: Seq<SectionEntry>, kind: SectionKind, from: int) -> Option<int>
    decreases s.len() - from,
{
    if from < 0 || from >= s.len() {
        None
    } else if kind_of_code(s[from].kind) == kind {
        Some(from)
    } else {
        first_of_kind(s, kind, from + 1)
    }
}

/// Whether some section has kind `kind`.
pub open spec fn has_kind(s: Seq<SectionEntry>, kind: SectionKind) -> bool {
    exists|i: int| 0 <= i < s.len() && kind_of_code(s[i].kind) == kind
}

proof fn lemma_first_of_kind(s: Seq<SectionEntry>, kind: SectionKind, from: int)
    requires
        0 <= from <= s.len(),
    ensures
        first_of_kind(s, kind, from) matches Some(i) ==> from <= i < s.len() && kind_of_code(s[i].kind) == kind
            && forall|j: int| from <= j < i ==> kind_of_code(s[j].kind) != kind,
        first_of_kind(s, kind, from) is None ==> forall|j: int| from <= j < s.len() ==> kind_of_code(s[j].kind) != kind,
    decreases s.len() - from,
{
    if from < s.len() && kind_of_code(s[from].kind) != kind {
        lemma_first_of_kind(s, kind, from + 1);
    }
}

impl CanAsset {
    /// Parses a `.canasset` from its bytes: the header, then the section
    /// table behind it.
    pub fn from_bytes(data: Vec<u8>) -> (r: Result<Self, AssetFormatError>)
        ensures
            r is Ok <==> header_ok(data@) && table_fits(data@),
            r matches Err(e) ==> (e is InvalidMagic <==> !magic_ok(data@)),
            r matches Err(e) ==> (e is VersionMismatch <==> header_ok_but_version(data@)),
            r matches Err(e) ==> (e is TruncatedFile <==> header_ok(data@) && !table_fits(data@)),
            r matches Ok(a) ==> header_decodes(data@, a.header)
                && a.sections@.len() == le_u32(data@, 12)
                && (forall|i: int| 0 <= i < a.sections@.len() ==>
                    entry_decodes(data@, 64 + 16 * i, #[trigger] a.sections@[i]))
                && a.data@ == data@,
    {
        let header = match CanAssetHeader::from_bytes(data.as_slice()) {
            Some(h) => h,
            None => {
                if has_magic(data.as_slice()) {
                    return Err(AssetFormatError::VersionMismatch);
                }
                return Err(AssetFormatError::InvalidMagic);
            },
        };
        let count = header.section_count as u64;
        if (data.len() as u64) < 64 + 16 * count {
            return Err(AssetFormatError::TruncatedFile);
        }
        let mut sections: Vec<SectionEntry> = Vec::new();
        let dlen = data.len();
        let mut i: u64 = 0;
        while i < count
            invariant
                dlen == data@.len(),
                count == le_u32(data@, 12),
                data@.len() >= 64 + 16 * count,
                i <= count,
                sections@.len() == i,
                forall|j: int| 0 <= j < i ==> entry_decodes(data@, 64 + 16 * j, #[trigger] sections@[j]),
            decreases count - i,
        {
            let off = (64 + 16 * i) as usize;
            let e = SectionEntry {
                kind: read_u32(data.as_slice(), off),
                offset: read_u32(data.as_slice(), off + 4),
                size: read_u32(data.as_slice(), off + 8),
                flags: read_u32(data.as_slice(), off + 12),
            };
            sections.push(e);
            i = i + 1;
        }
        Ok(CanAsset { header, sections, data })
    }

    /// The bytes of the first section of kind `kind`; `None` when there is no
    /// such section or it runs past the end of the file.
    pub fn section_data(&self, kind: SectionKind) -> (r: Option<&[u8]>)
        ensures
            r is Some <==> (first_of_kind(self.sections@, kind, 0) matches Some(i)
                && self.sections@[i].offset + self.sections@[i].size <= self.data@.len()),
            r matches Some(s) ==> (first_of_kind(self.sections@, kind, 0) matches Some(i)
                && s@ == self.data@.subrange(
                    self.sections@[i].offset as int,
                    self.sections@[i].offset + self.sections@[i].size,
                )),
    {
        let mut i: usize = 0;
        while i < self.sections.len()
            invariant
                i <= self.sections@.len(),
                forall|j: int| 0 <= j < i ==> kind_of_code(self.sections@[j].kind) != kind,
            decreases self.sections.len() - i,
        {
            let entry = self.sections[i];
            if entry.kind() == kind {
                proof {
                    lemma_first_of_kind(self.sections@, kind, 0);
                    assert(first_of_kind(self.sections@, kind, 0) == Some(i as int)) by {
                        if let Some(f) = first_of_kind(self.sections@, kind, 0) {
                            assert(f == i);
                        }
                    }
                }
                let start = entry.offset as u64;
                let end = start + entry.size as u64;
                if end <= self.data.len() as u64 {
                    return Some(slice_subrange(self.data.as_slice(), start as usize, end as usize));
                } else {
                    return None;
                }
            }
            i = i + 1;
        }
        proof {
            lemma_first_of_kind(self.sections@, kind, 0);
        }
        None
    }

    /// Whether a section of kind `kind` exists.
    pub fn has_section(&self, kind: SectionKind) -> (b: bool)
        ensures
            b == has_kind(self.sections@, kind),
    {
        let mut i: usize = 0;
        while i < self.sections.len()
            invariant
                i <= self.sections@.len(),
                forall|j: int| 0 <= j < i ==> kind_of_code(self.sections@[j].kind) != kind,
            decreases self.sections.len() - i,
        {
            if self.sections[i].kind() == kind {
                return true;
            }
            i = i + 1;
        }
        false
    }

    /// Number of level-of-detail meshes present (of the four levels).
    pub fn lod_count(&self) -> (n: u8)
        ensures
            n == (if has_kind(self.sections@, SectionKind::MeshLod0) { 1int } else { 0 })
                + (if has_kind(self.sections@, SectionKind::MeshLod1) { 1int } else { 0 })
                + (if has_kind(self.sections@, SectionKind::MeshLod2) { 1int } else { 0 })
                + (if has_kind(self.sections@, SectionKind::MeshLod3) { 1int } else { 0 }),
    {
        let mut n: u8 = 0;
        if self.has_section(SectionKind::MeshLod0) { n = n + 1; }
        if self.has_section(SectionKind::MeshLod1) { n = n + 1; }
        if self.has_section(SectionKind::MeshLod2) { n = n + 1; }
        if self.has_section(SectionKind::MeshLod3) { n = n + 1; }
        n
    }
}

} // verus!
