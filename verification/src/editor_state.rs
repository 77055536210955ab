//! The editor's persistent world: the buildings placed so far and the
//! active tool, plus the conversions between grid and world coordinates.

use vstd::prelude::*;
use crate::building::{Building, BuildingValidity, outline_valid};
use crate::geometry::in_grid;
use crate::math::{IVec2, IVec3, LVec3};
use crate::voxels::VOXEL_SIZE;

verus! {

/// The editing tool the user is working with.
#[derive(Copy, Clone, Debug, Eq, PartialEq, Structural)]
pub enum EditorTool {
    /// Create a new building
    CreateBuilding,
    /// Select a building
    SelectBuilding,
}

/// The persisted editor world: every inserted building, and the tool.
pub struct EditorWorld {
    buildings: Vec<Building>,
    editor_tool: EditorTool,
}

impl EditorWorld {
    /// The buildings in insertion order.
    pub closed spec fn buildings_view(self) -> Seq<Building> {
        self.buildings@
    }

    /// The active tool.
    pub closed spec fn tool_view(self) -> EditorTool {
        self.editor_tool
    }

    /// Create a new empty editor.
    pub fn new() -> (r: EditorWorld)
        ensures
            r.buildings_view().len() == 0,
            r.tool_view() == EditorTool::SelectBuilding,
    {
        EditorWorld { buildings: Vec::new(), editor_tool: EditorTool::SelectBuilding }
    }

    /// Get the current tool.
    pub fn tool(&self) -> (r: &EditorTool)
        ensures
            *r == self.tool_view(),
    {
        &self.editor_tool
    }

    /// Sets the current tool.
    pub fn set_tool(&mut self, tool: EditorTool)
        ensures
            final(self).tool_view() == tool,
            final(self).buildings_view() == old(self).buildings_view(),
    {
        self.editor_tool = tool;
    }

    /// Get the current buildings in the editor.
    pub fn buildings(&self) -> (r: &Vec<Building>)
        ensures
            r@ == self.buildings_view(),
    {
        &self.buildings
    }

    /// Add a new building to the editor.
    pub fn insert_building(&mut self, building: Building)
        ensures
            final(self).buildings_view() == old(self).buildings_view().push(building),
            final(self).tool_view() == old(self).tool_view(),
    {
        self.buildings.push(building);
    }

    /// Changes the position of a point in a building. A move whose
    /// updated outline would be invalid is silently rejected: the
    /// building does not change, so every stored building stays valid.
    pub fn set_building_point(&mut self, building: usize, point: usize, p: IVec2)
        requires
            building < old(self).buildings_view().len(),
            point < old(self).buildings_view()[building as int].outline@.len(),
            in_grid(p),
            forall|i: int|
                0 <= i < old(self).buildings_view()[building as int].outline@.len()
                    ==> in_grid(#[trigger] old(self).buildings_view()[
                        building as int].outline@[i]),
        ensures
            final(self).buildings_view().len() == old(self).buildings_view().len(),
            final(self).buildings_view()[building as int].floor_y
                == old(self).buildings_view()[building as int].floor_y,
            final(self).buildings_view()[building as int].outline@ == ({
                let updated = old(self).buildings_view()[
                    building as int].outline@.update(point as int, p);
                if outline_valid(
                    updated,
                    BuildingValidity { allow_one_point: false, allow_two_points: false },
                ) {
                    updated
                } else {
                    old(self).buildings_view()[building as int].outline@
                }
            }),
            forall|i: int| 0 <= i < old(self).buildings_view().len() && i != building
                ==> final(self).buildings_view()[i] == #[trigger] old(self).buildings_view()[i],
            final(self).tool_view() == old(self).tool_view(),
    {
        let mut b = self.buildings.remove(building);
        let previous = b.outline[point];
        b.outline[point] = p;
        if !b.is_valid(BuildingValidity::default()) {
            // The move would break the outline: reject it.
            b.outline[point] = previous;
            proof {
                assert(b.outline@
                    =~= old(self).buildings_view()[building as int].outline@);
            }
        }
        self.buildings.insert(building, b);
        proof {
            assert forall|i: int| 0 <= i < old(self).buildings_view().len() && i != building
                implies final(self).buildings_view()[i]
                    == #[trigger] old(self).buildings_view()[i] by {
                if i < building {
                } else {
                    assert(old(self).buildings_view().remove(building as int)[i - 1]
                        == old(self).buildings_view()[i]);
                }
            }
        }
    }

    /// Translate an existing building by the specified amount. An index
    /// past the end is ignored.
    pub fn translate_building(&mut self, building_index: usize, delta: IVec2)
        requires
            building_index < old(self).buildings_view().len()
                ==> forall|i: int|
                    0 <= i < old(self).buildings_view()[building_index as int].outline@.len()
                        ==> i32::MIN <= (#[trigger] old(self).buildings_view()[
                            building_index as int].outline@[i]).x + delta.x <= i32::MAX
                            && i32::MIN <= old(self).buildings_view()[
                                building_index as int].outline@[i].y + delta.y <= i32::MAX,
        ensures
            final(self).tool_view() == old(self).tool_view(),
            final(self).buildings_view().len() == old(self).buildings_view().len(),
            building_index >= old(self).buildings_view().len()
                ==> final(self).buildings_view() == old(self).buildings_view(),
            building_index < old(self).buildings_view().len() ==> {
                let ob = old(self).buildings_view()[building_index as int];
                let nb = final(self).buildings_view()[building_index as int];
                &&& nb.floor_y == ob.floor_y
                &&& nb.outline@.len() == ob.outline@.len()
                &&& forall|i: int| 0 <= i < ob.outline@.len()
                    ==> (#[trigger] nb.outline@[i]) == (IVec2 {
                        x: (ob.outline@[i].x + delta.x) as i32,
                        y: (ob.outline@[i].y + delta.y) as i32,
                    })
            },
            forall|i: int| 0 <= i < old(self).buildings_view().len() && i != building_index
                ==> final(self).buildings_view()[i] == #[trigger] old(self).buildings_view()[i],
    {
        if building_index >= self.buildings.len() {
            return ;
        }
        let mut b = self.buildings.remove(building_index);
        let ghost ob = b;
        let n = b.outline.len();
        let mut i: usize = 0;
        while i < n
            invariant
                n == b.outline@.len() == ob.outline@.len(),
                b.floor_y == ob.floor_y,
                0 <= i <= n,
                forall|k: int| 0 <= k < ob.outline@.len()
                    ==> i32::MIN <= (#[trigger] ob.outline@[k]).x + delta.x <= i32::MAX
                        && i32::MIN <= ob.outline@[k].y + delta.y <= i32::MAX,
                forall|k: int| 0 <= k < i ==> (#[trigger] b.outline@[k]) == (IVec2 {
                    x: (ob.outline@[k].x + delta.x) as i32,
                    y: (ob.outline@[k].y + delta.y) as i32,
                }),
                forall|k: int| i <= k < n ==> (#[trigger] b.outline@[k]) == ob.outline@[k],
            decreases n - i,
        {
            let q = b.outline[i];
            b.outline[i] = IVec2 { x: q.x + delta.x, y: q.y + delta.y };
            i = i + 1;
        }
        self.buildings.insert(building_index, b);
        proof {
            assert forall|i2: int|
                0 <= i2 < old(self).buildings_view().len() && i2 != building_index
                implies final(self).buildings_view()[i2]
                    == #[trigger] old(self).buildings_view()[i2] by {
                if i2 > building_index {
                    assert(old(self).buildings_view().remove(building_index as int)[i2 - 1]
                        == old(self).buildings_view()[i2]);
                }
            }
        }
    }
}

impl Default for EditorWorld {
    /// An empty editor with the selection tool active.
    fn default() -> (r: EditorWorld)
        ensures
            r.buildings_view().len() == 0,
            r.tool_view() == EditorTool::SelectBuilding,
    {
        EditorWorld::new()
    }
}

/// Rounds `v / VOXEL_SIZE` to the nearest integer, halves away from zero.
pub open spec fn round_to_grid(v: int) -> int {
    let d = VOXEL_SIZE as int;
    if v >= 0 {
        (v + d / 2) / d
    } else {
        -(((-v) + d / 2) / d)
    }
}

/// The world-space position of a grid point: each coordinate scaled by
/// the voxel size.
pub fn grid_to_world(p: IVec3) -> (r: LVec3)
    ensures
        r.x == p.x * VOXEL_SIZE,
        r.y == p.y * VOXEL_SIZE,
        r.z == p.z * VOXEL_SIZE,
{
    LVec3 {
        x: p.x as i64 * VOXEL_SIZE,
        y: p.y as i64 * VOXEL_SIZE,
        z: p.z as i64 * VOXEL_SIZE,
    }
}

/// The grid cell whose center is nearest to a world-space position,
/// rounding halves away from zero on each coordinate.
pub fn world_to_grid(p: LVec3) -> (r: IVec3)
    requires
        i32::MIN <= round_to_grid(p.x as int) <= i32::MAX,
        i32::MIN <= round_to_grid(p.y as int) <= i32::MAX,
        i32::MIN <= round_to_grid(p.z as int) <= i32::MAX,
    ensures
        r.x == round_to_grid(p.x as int),
        r.y == round_to_grid(p.y as int),
        r.z == round_to_grid(p.z as int),
{
    let x = round_component(p.x);
    let y = round_component(p.y);
    let z = round_component(p.z);
    IVec3 { x, y, z }
}

/// Rounds one world coordinate to its grid cell index.
fn round_component(v: i64) -> (r: i32)
    requires
        i32::MIN <= round_to_grid(v as int) <= i32::MAX,
    ensures
        r == round_to_grid(v as int),
{
    if v >= 0 {
        let q: i64 = (v + VOXEL_SIZE / 2) / VOXEL_SIZE;
        proof {
            assert(q == (v + VOXEL_SIZE / 2) as int / VOXEL_SIZE as int);
        }
        q as i32
    } else {
        let q: i64 = ((-v) + VOXEL_SIZE / 2) / VOXEL_SIZE;
        proof {
            assert(q == ((-v) + VOXEL_SIZE / 2) as int / VOXEL_SIZE as int);
        }
        (-q) as i32
    }
}

/// Scaling a grid point to world space and reading it back yields the
/// same grid point: the two conversions are inverse on cell centers.
pub proof fn lemma_grid_world_round_trip(v: int)
    ensures
        round_to_grid(v * (VOXEL_SIZE as int)) == v,
{
    if v >= 0 {
        assert((v * (VOXEL_SIZE as int) + (VOXEL_SIZE as int) / 2) / (VOXEL_SIZE as int) == v)
            by (nonlinear_arith)
            requires
                v >= 0,
        ;
    } else {
        assert(((-(v * (VOXEL_SIZE as int))) + (VOXEL_SIZE as int) / 2) / (VOXEL_SIZE as int)
            == -v) by (nonlinear_arith)
            requires
                v < 0,
        ;
    }
}

/// Lifts a flat 2D grid point to 3D at the given height: x and y of the
/// flat point become x and z.
pub fn from_flat(p: IVec2, y: i32) -> (r: IVec3)
    ensures
        r == (IVec3 { x: p.x, y, z: p.y }),
{
    IVec3 { x: p.x, y, z: p.y }
}

/// Projects a 3D grid point down to its flat 2D column.
pub fn to_flat(p: IVec3) -> (r: IVec2)
    ensures
        r == (IVec2 { x: p.x, y: p.z }),
{
    IVec2 { x: p.x, y: p.z }
}

} // verus!
