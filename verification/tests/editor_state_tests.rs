//! Exercises the editor world and the grid/world coordinate conversions.

use levelcore::building::Building;
use levelcore::editor_state::{
    from_flat, grid_to_world, to_flat, world_to_grid, EditorTool, EditorWorld,
};
use levelcore::math::{IVec2, IVec3, LVec3};

fn p(x: i32, y: i32) -> IVec2 {
    IVec2 { x, y }
}

fn square() -> Vec<IVec2> {
    vec![p(0, 0), p(4, 0), p(4, 4), p(0, 4)]
}

#[test]
fn new_world_selects_buildings() {
    let w = EditorWorld::new();
    assert_eq!(*w.tool(), EditorTool::SelectBuilding);
    assert!(w.buildings().is_empty());
}

#[test]
fn switching_tools() {
    let mut w = EditorWorld::new();
    w.set_tool(EditorTool::CreateBuilding);
    assert_eq!(*w.tool(), EditorTool::CreateBuilding);
}

#[test]
fn inserting_and_reading_buildings() {
    let mut w = EditorWorld::new();
    w.insert_building(Building::new(0, square()));
    assert_eq!(w.buildings().len(), 1);
    assert_eq!(w.buildings()[0].points().as_slice(), square().as_slice());
}

#[test]
fn moving_a_point_keeps_validity() {
    let mut w = EditorWorld::new();
    w.insert_building(Building::new(0, square()));
    w.set_building_point(0, 2, p(5, 5));
    assert_eq!(w.buildings()[0].points()[2], p(5, 5));
}

#[test]
fn translating_a_building_moves_every_point() {
    let mut w = EditorWorld::new();
    w.insert_building(Building::new(0, square()));
    w.translate_building(0, p(10, -2));
    assert_eq!(
        w.buildings()[0].points().as_slice(),
        [p(10, -2), p(14, -2), p(14, 2), p(10, 2)],
    );
    // An index past the end is ignored.
    w.translate_building(5, p(1, 1));
    assert_eq!(w.buildings()[0].points()[0], p(10, -2));
}

#[test]
fn grid_world_round_trip() {
    let g = IVec3 { x: 3, y: -2, z: 7 };
    let w = grid_to_world(g);
    assert_eq!(w, LVec3 { x: 384, y: -256, z: 896 });
    assert_eq!(world_to_grid(w), g);
}

#[test]
fn world_to_grid_rounds_half_away_from_zero() {
    assert_eq!(
        world_to_grid(LVec3 { x: 200, y: -200, z: 64 }),
        IVec3 { x: 2, y: -2, z: 1 },
    );
    assert_eq!(
        world_to_grid(LVec3 { x: 63, y: -63, z: -64 }),
        IVec3 { x: 0, y: 0, z: -1 },
    );
}

#[test]
fn flat_conversions() {
    assert_eq!(from_flat(p(3, 9), 5), IVec3 { x: 3, y: 5, z: 9 });
    assert_eq!(to_flat(IVec3 { x: 3, y: 5, z: 9 }), p(3, 9));
}

#[test]
fn invalid_point_move_is_rejected() {
    let mut w = EditorWorld::new();
    w.insert_building(Building::new(0, square()));
    // Moving a corner onto another corner would break the outline: the
    // move is silently rejected and the building is unchanged.
    w.set_building_point(0, 2, p(0, 0));
    assert_eq!(w.buildings()[0].points().as_slice(), square().as_slice());
}
