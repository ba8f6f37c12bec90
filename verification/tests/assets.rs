use canopy::assets::server::{AssetRegistry, LoadState};
use canopy::assets::format::{
    AssetFormatError, CanAsset, CanAssetHeader, SectionEntry, SectionKind, CANASSET_MAGIC, CANASSET_VERSION,
};
use canopy::assets::handle::{AssetId, AssetIdCounter, Handle};
use canopy::assets::types::{Texture, TextureFormat, VertexLayout};

fn put_u32(b: &mut Vec<u8>, v: u32) {
    b.extend_from_slice(&v.to_le_bytes());
}

/// A file with the given section entries `(kind, offset, size)` and `payload`
/// after the table.
fn canasset_bytes(sections: &[(u32, u32, u32)], payload: &[u8]) -> Vec<u8> {
    let mut b = Vec::new();
    b.extend_from_slice(&CANASSET_MAGIC);
    put_u32(&mut b, CANASSET_VERSION);
    put_u32(&mut b, sections.len() as u32);
    let total = 64 + 16 * sections.len() + payload.len();
    b.extend_from_slice(&(total as u64).to_le_bytes());
    b.extend_from_slice(&[7u8; 16]);
    b.extend_from_slice(&[0u8; 24]);
    for &(kind, offset, size) in sections {
        put_u32(&mut b, kind);
        put_u32(&mut b, offset);
        put_u32(&mut b, size);
        put_u32(&mut b, 0);
    }
    b.extend_from_slice(payload);
    b
}

#[test]
fn section_kind_codes_round_trip() {
    assert_eq!(SectionKind::from_u32(0), SectionKind::Metadata);
    assert_eq!(SectionKind::from_u32(4), SectionKind::MeshLod3);
    assert_eq!(SectionKind::from_u32(13), SectionKind::AudioClip);
    assert_eq!(SectionKind::from_u32(14), SectionKind::Unknown);
    assert_eq!(SectionKind::from_u32(u32::MAX), SectionKind::Unknown);
    for v in 0..14u32 {
        assert_eq!(SectionKind::from_u32(v).code(), v);
    }
}

#[test]
fn new_header_has_magic_and_version() {
    let h = CanAssetHeader::new([1u8; 16], 3, 1000);
    assert_eq!(h.magic, CANASSET_MAGIC);
    assert_eq!(h.version, 1);
    assert_eq!(h.section_count, 3);
    assert_eq!(h.total_size, 1000);
    assert_eq!(h.reserved, [0u8; 24]);
}

#[test]
fn header_parses_little_endian_fields() {
    let bytes = canasset_bytes(&[(1, 80, 4)], &[9, 9, 9, 9]);
    let h = CanAssetHeader::from_bytes(&bytes).unwrap();
    assert_eq!(h.section_count, 1);
    assert_eq!(h.total_size, 84);
    assert_eq!(h.uuid, [7u8; 16]);
}

#[test]
fn header_rejects_bad_magic_short_input_and_other_versions() {
    let mut bytes = canasset_bytes(&[], &[]);
    assert!(CanAssetHeader::from_bytes(&bytes[..63]).is_none());
    bytes[8] = 2;
    assert!(CanAssetHeader::from_bytes(&bytes).is_none());
    bytes[8] = 1;
    bytes[0] = b'X';
    assert!(CanAssetHeader::from_bytes(&bytes).is_none());
}

#[test]
fn parses_sections_and_finds_their_data() {
    let payload = [1u8, 2, 3, 4, 5, 6];
    let bytes = canasset_bytes(&[(1, 112, 2), (2, 114, 4), (1, 112, 6)], &payload);
    let asset = CanAsset::from_bytes(bytes).unwrap();
    assert_eq!(asset.sections.len(), 3);
    assert_eq!(asset.sections[1], SectionEntry { kind: 2, offset: 114, size: 4, flags: 0 });
    assert_eq!(asset.sections[0].kind(), SectionKind::MeshLod0);
    // The first section of a kind wins.
    assert_eq!(asset.section_data(SectionKind::MeshLod0), Some(&[1u8, 2][..]));
    assert_eq!(asset.section_data(SectionKind::MeshLod1), Some(&[3u8, 4, 5, 6][..]));
    assert_eq!(asset.section_data(SectionKind::Collision), None);
    assert!(asset.has_section(SectionKind::MeshLod1));
    assert!(!asset.has_section(SectionKind::MeshLod2));
    assert_eq!(asset.lod_count(), 2);
}

#[test]
fn section_past_the_end_has_no_data() {
    let bytes = canasset_bytes(&[(7, 80, 10)], &[0u8; 4]);
    let asset = CanAsset::from_bytes(bytes).unwrap();
    assert!(asset.has_section(SectionKind::TextureAlbedo));
    assert_eq!(asset.section_data(SectionKind::TextureAlbedo), None);
}

#[test]
fn invalid_magic_is_reported() {
    let mut bytes = canasset_bytes(&[], &[]);
    bytes[1] = 0;
    assert!(matches!(CanAsset::from_bytes(bytes), Err(AssetFormatError::InvalidMagic)));
    assert!(matches!(CanAsset::from_bytes(vec![0u8; 10]), Err(AssetFormatError::InvalidMagic)));
}

#[test]
fn other_version_is_a_version_mismatch() {
    let mut bytes = canasset_bytes(&[], &[]);
    bytes[8] = 2;
    assert!(matches!(CanAsset::from_bytes(bytes), Err(AssetFormatError::VersionMismatch)));
}

#[test]
fn header_size_is_sixty_four() {
    assert_eq!(CanAssetHeader::SIZE, 64);
}

#[test]
fn truncated_table_is_reported() {
    let mut bytes = canasset_bytes(&[(1, 0, 0)], &[]);
    bytes.truncate(70);
    assert!(matches!(CanAsset::from_bytes(bytes), Err(AssetFormatError::TruncatedFile)));
}

#[test]
fn lod_count_counts_each_level_once() {
    let bytes = canasset_bytes(&[(1, 0, 0), (2, 0, 0), (3, 0, 0), (4, 0, 0), (4, 0, 0), (0, 0, 0)], &[]);
    let asset = CanAsset::from_bytes(bytes).unwrap();
    assert_eq!(asset.lod_count(), 4);
}

#[test]
fn asset_ids_and_handles() {
    assert!(!AssetId::invalid().is_valid());
    assert!(AssetId(5).is_valid());
    let mut counter = AssetIdCounter::new();
    let a = counter.next_id();
    let b = counter.next_id();
    assert_eq!(a, AssetId(1));
    assert_eq!(b, AssetId(2));
    let h: Handle<Texture> = Handle::new(a);
    assert!(h.is_valid());
    assert_eq!(h.clone().id, a);
    assert!(!Handle::<Texture>::invalid().is_valid());
    assert!(Handle::<Texture>::new(AssetId(3)) == Handle::new(AssetId(3)));
    assert!(Handle::<Texture>::new(AssetId(3)) != Handle::new(AssetId(4)));
}

#[test]
fn texture_memory_is_its_data_length() {
    let t = Texture {
        width: 4,
        height: 4,
        mip_count: 1,
        format: TextureFormat::Rgba8,
        data: vec![0u8; 64],
        mip_offsets: vec![0],
    };
    assert_eq!(t.memory_bytes(), 64);
}

#[test]
fn vertex_layouts() {
    let full = VertexLayout::full();
    assert!(full.has_normals && full.has_tangents && full.has_uv0 && full.has_uv1 && full.has_vertex_color);
    let pos = VertexLayout::position_only();
    assert!(!pos.has_normals && !pos.has_uv0);
}

#[test]
fn registry_gives_one_id_per_path() {
    let mut r = AssetRegistry::new();
    let a = r.register("buildings/tower.canasset");
    let b = r.register("props/crate.canasset");
    let a2 = r.register("buildings/tower.canasset");
    assert!(a.is_valid() && b.is_valid());
    assert_eq!(a.asset_id(), a2.asset_id());
    assert_ne!(a.asset_id(), b.asset_id());
    assert_eq!(r.registered_count(), 2);
    assert_eq!(r.load_state(&a), LoadState::Queued);
    assert!(!r.is_ready("buildings/tower.canasset"));
}

#[test]
fn registry_records_loads_and_failures() {
    let mut r = AssetRegistry::new();
    let a = r.register("a.canasset");
    let b = r.register("b.canasset");
    r.record_loaded("a.canasset", 1000);
    assert!(r.is_ready("a.canasset"));
    assert_eq!(r.load_state(&a), LoadState::Ready);
    assert_eq!(r.used_memory_bytes(), 1000);
    r.record_loaded("never-registered.canasset", 24);
    assert_eq!(r.used_memory_bytes(), 1024);
    assert!(!r.is_ready("never-registered.canasset"));
    r.record_failed("b.canasset", "io error".to_string());
    assert_eq!(r.load_state(&b), LoadState::Failed("io error".to_string()));
    assert_eq!(r.load_state(&Handle::new(AssetId(99))), LoadState::Queued);
    assert_eq!(r.registered_count(), 2);
}

#[test]
fn loaded_asset_is_not_read_or_counted_again() {
    let mut r = AssetRegistry::new();
    let (h, read) = r.begin_load("a.canasset");
    assert!(read);
    r.record_loaded("a.canasset", 500);
    let (h2, read2) = r.begin_load("a.canasset");
    assert!(!read2);
    assert_eq!(h.asset_id(), h2.asset_id());
    assert_eq!(r.used_memory_bytes(), 500);
    assert_eq!(r.registered_count(), 1);
}
