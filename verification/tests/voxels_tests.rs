//! Exercises the transactional voxel world: edits, symmetry mirroring,
//! the protected origin, column shifts, and round-trip undo.

use levelcore::math::{IVec2, IVec3, LVec3};
use levelcore::voxels::{
    Common, CommittedEditorState, MaterialId, RenderRequest, SelectedFace, SymmetryKind,
    VoxelMarker, Voxels, SHIFT_LIMIT,
};

fn v(x: i32, y: i32, z: i32) -> IVec3 {
    IVec3 { x, y, z }
}

fn col(x: i32, y: i32) -> IVec2 {
    IVec2 { x, y }
}

fn common() -> Common {
    Common {
        gray_material: MaterialId(1),
        red_material: MaterialId(2),
        blue_material: MaterialId(3),
    }
}

fn snapshot() -> CommittedEditorState {
    CommittedEditorState {
        selection: vec![SelectedFace { voxel: v(1, 0, 0), normal: v(0, 1, 0) }],
    }
}

#[test]
fn add_then_remove_then_undo_restores_absence() {
    let c = common();
    let mut w = Voxels::new_empty();
    let mut out: Vec<RenderRequest> = Vec::new();
    w.add_voxel(&c, v(1, 0, 0), c.gray_material, &mut out);
    w.remove_voxel(v(1, 0, 0), &mut out);
    let snap = snapshot();
    w.commit_changes(snap.clone());
    let restored = w.undo_last_action(&mut out);
    assert!(!w.has_voxel(v(1, 0, 0)));
    assert!(!w.has_voxel(v(-1, 0, 0)));
    assert_eq!(restored, snap);
}

#[test]
fn round_trip_undo_restores_mappings() {
    let c = common();
    let mut w = Voxels::new_empty();
    let mut out: Vec<RenderRequest> = Vec::new();
    w.add_voxel(&c, v(2, 1, 0), c.red_material, &mut out);
    w.shift_column(col(5, 5), 40, &mut out);
    w.commit_changes(snapshot());

    // A committed batch of edits of every kind...
    w.add_voxel(&c, v(2, 1, 0), c.blue_material, &mut out);
    w.add_voxel(&c, v(3, 0, 1), c.gray_material, &mut out);
    w.remove_voxel(v(2, 1, 0), &mut out);
    w.shift_column(col(5, 5), -15, &mut out);
    w.shift_column(col(7, 0), 9, &mut out);
    w.commit_changes(CommittedEditorState { selection: vec![] });

    // ...is fully reverted by one undo.
    let _ = w.undo_last_action(&mut out);
    assert_eq!(w.get_material(v(2, 1, 0)), Some(c.red_material));
    assert_eq!(w.get_material(v(-2, 1, 0)), Some(c.blue_material));
    assert!(!w.has_voxel(v(3, 0, 1)));
    assert!(!w.has_voxel(v(-3, 0, -1)));
    assert_eq!(w.column_shift_of(col(5, 5)), 40);
    assert_eq!(w.column_shift_of(col(-5, -5)), 40);
    assert_eq!(w.column_shift_of(col(7, 0)), 0);
    assert_eq!(w.column_shift_of(col(-7, 0)), 0);
}

#[test]
fn origin_cell_is_protected_from_removal() {
    let c = common();
    let mut w = Voxels::new_empty();
    let mut out: Vec<RenderRequest> = Vec::new();
    w.add_voxel(&c, v(0, 0, 0), c.gray_material, &mut out);
    assert!(w.has_voxel(v(0, 0, 0)));
    w.remove_voxel(v(0, 0, 0), &mut out);
    assert!(w.has_voxel(v(0, 0, 0)));
    assert_eq!(w.get_material(v(0, 0, 0)), Some(c.gray_material));
}

#[test]
fn rotation_symmetry_pairs_red_with_blue() {
    let c = common();
    let mut w = Voxels::new_empty();
    let mut out: Vec<RenderRequest> = Vec::new();
    w.add_voxel(&c, v(1, 2, 3), c.red_material, &mut out);
    assert_eq!(w.get_material(v(1, 2, 3)), Some(c.red_material));
    assert_eq!(w.get_material(v(-1, 2, -3)), Some(c.blue_material));

    w.add_voxel(&c, v(4, 0, 0), c.blue_material, &mut out);
    assert_eq!(w.get_material(v(4, 0, 0)), Some(c.blue_material));
    assert_eq!(w.get_material(v(-4, 0, 0)), Some(c.red_material));

    // Other materials pass through unchanged.
    w.add_voxel(&c, v(0, 0, 5), c.gray_material, &mut out);
    assert_eq!(w.get_material(v(0, 0, -5)), Some(c.gray_material));
}

#[test]
fn center_column_edits_stay_on_the_axis() {
    let c = common();
    let mut w = Voxels::new_empty();
    let mut out: Vec<RenderRequest> = Vec::new();
    w.add_voxel(&c, v(0, 7, 0), c.red_material, &mut out);
    let cells = w.iter_voxels();
    assert_eq!(cells.len(), 1);
    assert_eq!(cells[0].0, v(0, 7, 0));
}

#[test]
fn mirror_x_symmetry_keeps_z() {
    let c = common();
    let mut w = Voxels::new_empty();
    let mut out: Vec<RenderRequest> = Vec::new();
    w.set_symmetry(SymmetryKind::MirrorX);
    w.add_voxel(&c, v(2, 0, 3), c.red_material, &mut out);
    assert_eq!(w.get_material(v(-2, 0, 3)), Some(c.blue_material));
    assert!(!w.has_voxel(v(-2, 0, -3)));
}

#[test]
fn symmetry_off_affects_single_cell() {
    let c = common();
    let mut w = Voxels::new_empty();
    let mut out: Vec<RenderRequest> = Vec::new();
    w.set_symmetry(SymmetryKind::Off);
    w.add_voxel(&c, v(2, 0, 3), c.red_material, &mut out);
    assert!(w.has_voxel(v(2, 0, 3)));
    assert!(!w.has_voxel(v(-2, 0, -3)));
}

#[test]
fn shift_column_accumulates_and_mirrors() {
    let mut w = Voxels::new_empty();
    let mut out: Vec<RenderRequest> = Vec::new();
    w.shift_column(col(3, 4), 10, &mut out);
    w.shift_column(col(3, 4), 5, &mut out);
    assert_eq!(w.column_shift_of(col(3, 4)), 15);
    assert_eq!(w.column_shift_of(col(-3, -4)), 15);
    assert_eq!(w.column_shift_of(col(3, -4)), 0);
}

#[test]
fn shift_beyond_the_bound_is_rejected() {
    let mut w = Voxels::new_empty();
    let mut out: Vec<RenderRequest> = Vec::new();
    w.shift_column(col(1, 1), SHIFT_LIMIT, &mut out);
    assert_eq!(w.column_shift_of(col(1, 1)), SHIFT_LIMIT);
    w.shift_column(col(1, 1), 1, &mut out);
    assert_eq!(w.column_shift_of(col(1, 1)), SHIFT_LIMIT);
}

#[test]
fn has_changes_tracks_commit_boundaries() {
    let c = common();
    let mut w = Voxels::new_empty();
    let mut out: Vec<RenderRequest> = Vec::new();
    assert!(w.has_changes_to_commit());
    w.commit_changes(CommittedEditorState { selection: vec![] });
    assert!(!w.has_changes_to_commit());
    w.add_voxel(&c, v(1, 1, 1), c.gray_material, &mut out);
    assert!(w.has_changes_to_commit());
    w.commit_changes(CommittedEditorState { selection: vec![] });
    assert!(!w.has_changes_to_commit());
}

#[test]
fn undo_without_boundary_clears_everything() {
    let c = common();
    let mut w = Voxels::new_empty();
    let mut out: Vec<RenderRequest> = Vec::new();
    w.add_voxel(&c, v(1, 1, 1), c.gray_material, &mut out);
    let restored = w.undo_last_action(&mut out);
    assert!(restored.selection.is_empty());
    assert!(!w.has_voxel(v(1, 1, 1)));
    assert!(!w.has_voxel(v(-1, 1, -1)));
}

#[test]
fn replacing_a_voxel_and_undoing_restores_the_old_material() {
    let c = common();
    let mut w = Voxels::new_empty();
    let mut out: Vec<RenderRequest> = Vec::new();
    w.set_symmetry(SymmetryKind::Off);
    w.add_voxel(&c, v(1, 0, 0), c.gray_material, &mut out);
    w.commit_changes(CommittedEditorState { selection: vec![] });
    w.add_voxel(&c, v(1, 0, 0), c.red_material, &mut out);
    assert_eq!(w.get_material(v(1, 0, 0)), Some(c.red_material));
    w.commit_changes(CommittedEditorState { selection: vec![] });
    let _ = w.undo_last_action(&mut out);
    assert_eq!(w.get_material(v(1, 0, 0)), Some(c.gray_material));
}

#[test]
fn iter_voxels_snapshots_every_cell() {
    let c = common();
    let mut w = Voxels::new_empty();
    let mut out: Vec<RenderRequest> = Vec::new();
    w.set_symmetry(SymmetryKind::Off);
    w.add_voxel(&c, v(1, 0, 0), c.gray_material, &mut out);
    w.add_voxel(&c, v(2, 0, 0), c.red_material, &mut out);
    let cells = w.iter_voxels();
    assert_eq!(cells.len(), 2);
    assert!(cells.iter().any(|e| e.0 == v(1, 0, 0) && e.1.material == c.gray_material));
    assert!(cells.iter().any(|e| e.0 == v(2, 0, 0) && e.1.material == c.red_material));
}

#[test]
fn render_requests_report_despawns_and_redraws() {
    let c = common();
    let mut w = Voxels::new_empty();
    let mut out: Vec<RenderRequest> = Vec::new();
    w.set_symmetry(SymmetryKind::Off);
    w.add_voxel(&c, v(1, 0, 0), c.gray_material, &mut out);
    assert!(out.contains(&RenderRequest::Redraw(v(1, 0, 0))));
    out.clear();
    w.set_rendered(v(1, 0, 0), levelcore::voxels::EntityId(42));
    w.remove_voxel(v(1, 0, 0), &mut out);
    assert!(out.contains(&RenderRequest::Despawn(levelcore::voxels::EntityId(42))));
}

#[test]
fn voxel_marker_center_scales_by_voxel_size() {
    let m = VoxelMarker(v(2, -1, 3));
    assert_eq!(m.center(), LVec3 { x: 256, y: -128, z: 384 });
}

#[test]
fn undo_restores_a_displaced_origin_cell() {
    let c = common();
    let mut w = Voxels::new_empty();
    let mut out: Vec<RenderRequest> = Vec::new();
    w.add_voxel(&c, v(0, 0, 0), c.gray_material, &mut out);
    w.commit_changes(CommittedEditorState { selection: vec![] });
    w.add_voxel(&c, v(0, 0, 0), c.red_material, &mut out);
    assert_eq!(w.get_material(v(0, 0, 0)), Some(c.red_material));
    w.commit_changes(CommittedEditorState { selection: vec![] });
    let _ = w.undo_last_action(&mut out);
    // The displaced origin cell comes back with its old material.
    assert_eq!(w.get_material(v(0, 0, 0)), Some(c.gray_material));
}

#[test]
fn removing_an_absent_cell_records_nothing() {
    let mut w = Voxels::new_empty();
    let mut out: Vec<RenderRequest> = Vec::new();
    w.commit_changes(CommittedEditorState { selection: vec![] });
    w.remove_voxel(v(9, 9, 9), &mut out);
    // Nothing was removed, so nothing was logged or requested.
    assert!(!w.has_changes_to_commit());
    assert!(out.is_empty());
}

#[test]
fn redraw_requests_despawn_then_redraw() {
    let c = common();
    let mut w = Voxels::new_empty();
    let mut out: Vec<RenderRequest> = Vec::new();
    w.set_symmetry(SymmetryKind::Off);
    w.add_voxel(&c, v(1, 2, 3), c.gray_material, &mut out);
    w.set_rendered(v(1, 2, 3), levelcore::voxels::EntityId(7));
    out.clear();
    w.redraw_voxel(v(1, 2, 3), &mut out);
    assert_eq!(
        out,
        vec![
            RenderRequest::Despawn(levelcore::voxels::EntityId(7)),
            RenderRequest::Redraw(v(1, 2, 3)),
        ],
    );
    // Redrawing an absent cell requests nothing.
    out.clear();
    w.redraw_voxel(v(8, 8, 8), &mut out);
    assert!(out.is_empty());
}

#[test]
fn shifting_a_column_requests_redraws_of_its_cells() {
    let c = common();
    let mut w = Voxels::new_empty();
    let mut out: Vec<RenderRequest> = Vec::new();
    w.set_symmetry(SymmetryKind::Off);
    w.add_voxel(&c, v(1, 0, 0), c.gray_material, &mut out);
    w.add_voxel(&c, v(1, 5, 0), c.red_material, &mut out);
    w.add_voxel(&c, v(2, 0, 0), c.blue_material, &mut out);
    out.clear();
    w.shift_column(col(1, 0), 10, &mut out);
    assert!(out.contains(&RenderRequest::Redraw(v(1, 0, 0))));
    assert!(out.contains(&RenderRequest::Redraw(v(1, 5, 0))));
    assert!(!out.contains(&RenderRequest::Redraw(v(2, 0, 0))));
}
