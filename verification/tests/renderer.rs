use canopy::platform::input::{InputState, KeyCode};
use canopy::assets::handle::AssetId;
use canopy::renderer::debug::{class_breakdown, classify_asset, classify_stem, ActiveOverlayPane, PerfToolkitToggles};
use canopy::renderer::gpu_assets::{GpuResourceManager, MAX_GPU_MEMORY_BYTES};

/// One frame in which exactly `pressed` went down, with `held` held from before.
fn frame(held: &[KeyCode], pressed: &[KeyCode]) -> InputState {
    let mut input = InputState::new();
    for &k in held {
        input.set_key(k, true);
    }
    input.advance_frame();
    for &k in pressed {
        input.set_key(k, true);
    }
    input
}

#[test]
fn f3_switches_the_toolkit() {
    let mut t = PerfToolkitToggles::default();
    assert!(!t.enabled && t.active_overlay.is_none());
    t.update_toggle_state(&frame(&[], &[KeyCode::F3]));
    assert!(t.enabled);
    t.update_toggle_state(&frame(&[], &[KeyCode::Grave]));
    assert!(!t.enabled);
}

#[test]
fn chords_toggle_panes_while_modifier_held() {
    let mut t = PerfToolkitToggles { enabled: true, active_overlay: None };
    t.update_toggle_state(&frame(&[KeyCode::F3], &[KeyCode::G]));
    assert_eq!(t.active_overlay, Some(ActiveOverlayPane::FpsGraph));
    t.update_toggle_state(&frame(&[KeyCode::F3], &[KeyCode::G]));
    assert_eq!(t.active_overlay, None);
    t.update_toggle_state(&frame(&[KeyCode::Grave], &[KeyCode::L]));
    assert_eq!(t.active_overlay, Some(ActiveOverlayPane::Timings));
    // Without the modifier the chord key does nothing.
    t.update_toggle_state(&frame(&[], &[KeyCode::W]));
    assert_eq!(t.active_overlay, Some(ActiveOverlayPane::Timings));
    // Later chords in the same frame win.
    t.update_toggle_state(&frame(&[KeyCode::F3], &[KeyCode::W, KeyCode::C]));
    assert_eq!(t.active_overlay, Some(ActiveOverlayPane::Culling));
}

#[test]
fn switching_off_hides_the_pane() {
    let mut t = PerfToolkitToggles { enabled: true, active_overlay: Some(ActiveOverlayPane::Help) };
    t.update_toggle_state(&frame(&[], &[KeyCode::F3]));
    assert!(!t.enabled);
    assert_eq!(t.active_overlay, None);
}

#[test]
fn disabled_toolkit_ignores_chords() {
    let mut t = PerfToolkitToggles::default();
    t.update_toggle_state(&frame(&[KeyCode::F3], &[KeyCode::S]));
    assert!(!t.enabled);
    assert_eq!(t.active_overlay, None);
}

#[test]
fn classify_stem_takes_the_first_word_in_lower_case() {
    assert_eq!(classify_stem("Tree_Oak_01"), "tree");
    assert_eq!(classify_stem("ROCK"), "rock");
    assert_eq!(classify_stem("_lead"), "");
    assert_eq!(classify_stem("Émile_x"), "Émile");
}

#[test]
fn classify_asset_uses_the_file_stem() {
    assert_eq!(classify_asset("assets/meshes/Building_Tall_02.canasset"), "building");
    assert_eq!(classify_asset("Lamp"), "lamp");
    assert_eq!(classify_asset("props/crate.v2.canasset"), "crate.v2");
    assert_eq!(classify_asset(""), "unknown");
}

const GIB: usize = 1024 * 1024 * 1024;

#[test]
fn uploads_are_accounted_and_marked_with_the_frame() {
    let mut gpu: GpuResourceManager<&str, ()> = GpuResourceManager::new();
    gpu.begin_frame();
    gpu.upload_mesh(AssetId(1), 100, || "mesh one");
    let m = gpu.get_mesh(AssetId(1)).unwrap();
    assert_eq!(m.resource, "mesh one");
    assert_eq!(m.memory_bytes, 100);
    assert_eq!(m.last_used_frame, 1);
    assert_eq!(gpu.memory_in_use(), 100);
    assert!(gpu.get_mesh(AssetId(2)).is_none());
    assert!(gpu.get_texture(AssetId(1)).is_none());
}

#[test]
fn uploading_a_resident_mesh_does_nothing() {
    let mut gpu: GpuResourceManager<u32, ()> = GpuResourceManager::default();
    gpu.upload_mesh(AssetId(1), 10, || 7);
    let mut called = false;
    gpu.upload_mesh(AssetId(1), 999, || {
        called = true;
        8
    });
    assert!(!called);
    assert_eq!(gpu.get_mesh(AssetId(1)).unwrap().resource, 7);
    assert_eq!(gpu.memory_in_use(), 10);
}

#[test]
fn eviction_removes_least_recently_used_first() {
    let mut gpu: GpuResourceManager<char, ()> = GpuResourceManager::new();
    gpu.upload_mesh(AssetId(1), GIB, || 'a'); // frame 0
    gpu.begin_frame();
    gpu.upload_mesh(AssetId(2), 3 * GIB / 4, || 'b'); // frame 1
    gpu.begin_frame();
    gpu.mark_mesh_used(AssetId(1)); // 'a' now used in frame 2
    gpu.upload_mesh(AssetId(3), GIB / 2, || 'c');
    assert!(gpu.get_mesh(AssetId(1)).is_some());
    assert!(gpu.get_mesh(AssetId(2)).is_none());
    assert!(gpu.get_mesh(AssetId(3)).is_some());
    assert_eq!(gpu.memory_in_use(), GIB + GIB / 2);
    assert!(gpu.memory_in_use() <= MAX_GPU_MEMORY_BYTES);
}

#[test]
fn eviction_stops_once_there_is_room() {
    let mut gpu: GpuResourceManager<u8, ()> = GpuResourceManager::new();
    for i in 0..8u64 {
        gpu.upload_mesh(AssetId(i), GIB / 4, || i as u8);
        gpu.begin_frame();
    }
    assert_eq!(gpu.memory_in_use(), 2 * GIB);
    gpu.upload_mesh(AssetId(9), GIB / 2, || 9);
    // Only the two oldest had to go.
    assert!(gpu.get_mesh(AssetId(0)).is_none());
    assert!(gpu.get_mesh(AssetId(1)).is_none());
    for i in 2..8u64 {
        assert!(gpu.get_mesh(AssetId(i)).is_some());
    }
    assert_eq!(gpu.memory_in_use(), 2 * GIB);
}

#[test]
fn oversized_upload_evicts_everything() {
    let mut gpu: GpuResourceManager<u8, ()> = GpuResourceManager::new();
    gpu.upload_mesh(AssetId(1), 10, || 1);
    gpu.upload_mesh(AssetId(2), 3 * GIB, || 2);
    assert!(gpu.get_mesh(AssetId(1)).is_none());
    assert_eq!(gpu.memory_in_use(), 3 * GIB);
}

fn texts(v: &[&str]) -> Vec<String> {
    v.iter().map(|s| s.to_string()).collect()
}

#[test]
fn class_breakdown_counts_and_orders_by_count() {
    let rows = class_breakdown(&texts(&["tree", "rock", "tree"]));
    assert_eq!(rows, vec![("tree".to_string(), 2), ("rock".to_string(), 1)]);
}

#[test]
fn class_breakdown_breaks_ties_by_name() {
    let rows = class_breakdown(&texts(&["tree", "bush", "rock", "bush", "tree", "rock", "ant"]));
    assert_eq!(
        rows,
        vec![
            ("bush".to_string(), 2),
            ("rock".to_string(), 2),
            ("tree".to_string(), 2),
            ("ant".to_string(), 1),
        ]
    );
}

#[test]
fn class_breakdown_of_nothing_is_empty() {
    assert!(class_breakdown(&Vec::new()).is_empty());
}

#[test]
fn class_breakdown_of_classified_assets() {
    let classes: Vec<String> = ["assets/oak_01.canasset", "assets/oak_02.canasset", "assets/Rock.canasset"]
        .iter()
        .map(|p| classify_asset(p))
        .collect();
    let rows = class_breakdown(&classes);
    assert_eq!(rows.len(), 2);
    assert_eq!(rows[0], ("oak".to_string(), 2));
    assert_eq!(rows[1].1, 1);
}

#[test]
fn classify_asset_takes_the_file_stem_of_a_path() {
    assert_eq!(classify_asset("assets/buildings/residential_01.canasset"), "residential");
    assert_eq!(classify_asset("Tower.canasset"), "tower");
    assert_eq!(classify_asset(""), "unknown");
    assert_eq!(classify_asset("assets/.."), "unknown");
    assert_eq!(classify_asset("props/crate_big/."), "crate");
    assert_eq!(classify_asset("archive.tar.gz"), "archive.tar");
    assert_eq!(classify_asset(".hidden"), ".hidden");
}

#[test]
fn eviction_stops_after_a_large_old_resident_makes_room() {
    let mut gpu: GpuResourceManager<u8, ()> = GpuResourceManager::new();
    gpu.upload_mesh(AssetId(0), GIB, || 0);
    gpu.begin_frame();
    for i in 1..5u64 {
        gpu.upload_mesh(AssetId(i), GIB / 4, || i as u8);
        gpu.begin_frame();
    }
    assert_eq!(gpu.memory_in_use(), 2 * GIB);
    gpu.upload_mesh(AssetId(9), GIB / 2, || 9);
    assert!(gpu.get_mesh(AssetId(0)).is_none());
    for i in 1..5u64 {
        assert!(gpu.get_mesh(AssetId(i)).is_some());
    }
    assert_eq!(gpu.memory_in_use(), GIB + GIB / 2);
}
