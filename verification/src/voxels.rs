//! The transactional voxel world engine: a sparse map from integer grid
//! coordinates to colored cells, with a tagged-command undo log, commit
//! boundaries grouping low-level edits into user-visible actions, optional
//! bilateral symmetry mirroring of edits, and per-column vertical render
//! offsets.
//!
//! The engine owns only the logical state. Everything the renderer must do
//! is reported as [`RenderRequest`] values: the engine stores an opaque
//! entity handle per cell as a weak back-reference, asks for despawns and
//! redraws through the requests, and never interprets the handles.

use vstd::prelude::*;
use crate::math::{IVec2, IVec3, LVec3};
use crate::store::{VoxelStore, ShiftStore};

verus! {

/// Edge length of one voxel in world units.
pub const VOXEL_SIZE: i64 = 128;

/// Bound on the accumulated vertical offset of a column. The offset should
/// stay small against the voxel grid; shifts that would push a column's
/// accumulated offset outside `[-SHIFT_LIMIT, SHIFT_LIMIT]` are rejected
/// as no-ops.
pub const SHIFT_LIMIT: i32 = 1_000_000;

/// Opaque handle to a render material. The engine compares handles but
/// never interprets them.
#[derive(Copy, Clone, PartialEq, Eq, Structural, Hash, Debug)]
pub struct MaterialId(pub u64);

/// Opaque handle to a spawned visual, owned by the rendering collaborator.
#[derive(Copy, Clone, PartialEq, Eq, Structural, Hash, Debug)]
pub struct EntityId(pub u64);

/// A voxel cell: its material, and a weak back-reference to its rendered
/// visual used only to request despawns.
#[derive(Copy, Clone, PartialEq, Eq, Hash, Debug)]
pub struct VoxelInfo {
    pub material: MaterialId,
    pub rendered: Option<EntityId>,
}

/// The bilateral symmetry applied to edits.
#[derive(Copy, Clone, PartialEq, Eq, Structural, Hash, Debug)]
pub enum SymmetryKind {
    /// Edits affect only their own cell.
    Off,
    /// Edits are mirrored through the vertical axis: `(x, y, z)` pairs
    /// with `(-x, y, -z)`.
    Rotation,
    /// Edits are mirrored across the x axis: `(x, y, z)` pairs with
    /// `(-x, y, z)`.
    MirrorX,
}

/// The shared material handles the engine's color-complement rule reads.
#[derive(Copy, Clone, PartialEq, Eq, Structural, Debug)]
pub struct Common {
    pub gray_material: MaterialId,
    pub red_material: MaterialId,
    pub blue_material: MaterialId,
}

/// One selected voxel face, the payload of an editor-state snapshot.
#[derive(Copy, Clone, PartialEq, Eq, Structural, Hash, Debug)]
pub struct SelectedFace {
    pub voxel: IVec3,
    pub normal: IVec3,
}

/// A snapshot of incidental editor state recorded at a commit boundary and
/// handed back when the action is undone.
#[derive(Clone, PartialEq, Debug)]
pub struct CommittedEditorState {
    pub selection: Vec<SelectedFace>,
}

/// A request to the rendering collaborator: drop a spawned visual, or
/// (re)draw the cell at a position. The engine never performs these itself.
#[derive(Copy, Clone, PartialEq, Eq, Structural, Debug)]
pub enum RenderRequest {
    Despawn(EntityId),
    Redraw(IVec3),
}

/// One reversal command of the undo log. Each state-mutating primitive
/// pushes exactly one; applying commands in reverse order restores the
/// logical state they recorded.
#[derive(Copy, Clone, PartialEq, Eq, Structural, Debug)]
pub enum UndoEntry {
    /// Put a removed cell back with this material.
    Reinsert { voxel: IVec3, material: MaterialId },
    /// Take an added cell out again.
    Delete { voxel: IVec3 },
    /// Move a column's accumulated offset by this amount.
    ShiftColumn { column: IVec2, amount: i32 },
}

/// Marker attached by the renderer to a spawned voxel visual.
#[derive(Copy, Clone, PartialEq, Eq, Structural, Hash, Debug)]
pub struct VoxelMarker(pub IVec3);

impl VoxelMarker {
    /// Return the center of the voxel in world space.
    pub fn center(&self) -> (r: LVec3)
        ensures
            r.x == self.0.x * VOXEL_SIZE,
            r.y == self.0.y * VOXEL_SIZE,
            r.z == self.0.z * VOXEL_SIZE,
    {
        LVec3 {
            x: self.0.x as i64 * VOXEL_SIZE,
            y: self.0.y as i64 * VOXEL_SIZE,
            z: self.0.z as i64 * VOXEL_SIZE,
        }
    }
}

/// The protected origin cell.
pub open spec fn origin_cell() -> IVec3 {
    IVec3 { x: 0, y: 0, z: 0 }
}

/// The mirrored coordinate of an edit, if the symmetry pairs this cell
/// with another one. Cells on the center column pair with nothing.
pub open spec fn mirror_of(sym: SymmetryKind, v: IVec3) -> Option<IVec3> {
    if v.x == 0 && v.z == 0 {
        None
    } else {
        match sym {
            SymmetryKind::Off => None,
            SymmetryKind::Rotation => Some(
                IVec3 { x: (-(v.x as int)) as i32, y: v.y, z: (-(v.z as int)) as i32 },
            ),
            SymmetryKind::MirrorX => Some(
                IVec3 { x: (-(v.x as int)) as i32, y: v.y, z: v.z },
            ),
        }
    }
}

/// The paired material of a mirrored edit: red and blue swap, anything
/// else passes through unchanged.
pub open spec fn complement_spec(common: Common, mat: MaterialId) -> MaterialId {
    if mat == common.red_material {
        common.blue_material
    } else if mat == common.blue_material {
        common.red_material
    } else {
        mat
    }
}

/// Removing one cell: a no-op at the protected origin, otherwise the key
/// leaves the material map.
pub open spec fn mat_remove_one(m: Map<IVec3, MaterialId>, v: IVec3) -> Map<IVec3, MaterialId> {
    if v == origin_cell() {
        m
    } else {
        m.remove(v)
    }
}

/// The material map after `remove_voxel(v)`: the cell itself and, when the
/// symmetry pairs it, its mirror cell are removed, except at the origin.
pub open spec fn mat_remove_result(
    m: Map<IVec3, MaterialId>,
    sym: SymmetryKind,
    v: IVec3,
) -> Map<IVec3, MaterialId> {
    let m1 = mat_remove_one(m, v);
    match mirror_of(sym, v) {
        Some(mv) => mat_remove_one(m1, mv),
        None => m1,
    }
}

/// The material map after `add_voxel(v, mat)`: the cell receives the
/// material and, when the symmetry pairs it, the mirror cell receives the
/// complement material.
pub open spec fn mat_add_result(
    m: Map<IVec3, MaterialId>,
    sym: SymmetryKind,
    common: Common,
    v: IVec3,
    mat: MaterialId,
) -> Map<IVec3, MaterialId> {
    let m1 = m.insert(v, mat);
    match mirror_of(sym, v) {
        Some(mv) => m1.insert(mv, complement_spec(common, mat)),
        None => m1,
    }
}

/// The cell map after the protected removal of `v`: a no-op at the
/// origin, otherwise the key leaves the map.
pub open spec fn cells_remove_one(c: Map<IVec3, VoxelInfo>, v: IVec3) -> Map<IVec3, VoxelInfo> {
    if v == origin_cell() {
        c
    } else {
        c.remove(v)
    }
}

/// The cell map after `remove_voxel(v)`: the cell itself and, when the
/// symmetry pairs it, its mirror cell are removed, except at the origin.
pub open spec fn cells_remove_result(
    c: Map<IVec3, VoxelInfo>,
    sym: SymmetryKind,
    v: IVec3,
) -> Map<IVec3, VoxelInfo> {
    let c1 = cells_remove_one(c, v);
    match mirror_of(sym, v) {
        Some(mv) => cells_remove_one(c1, mv),
        None => c1,
    }
}

/// The reversal commands recorded when the cell at `v` is displaced:
/// exactly one per present cell, carrying the displaced material.
pub open spec fn displace_log(c: Map<IVec3, VoxelInfo>, v: IVec3) -> Seq<UndoEntry> {
    if c.dom().contains(v) {
        seq![UndoEntry::Reinsert { voxel: v, material: c[v].material }]
    } else {
        Seq::empty()
    }
}

/// The despawn requests issued when the cell at `v` is displaced: one for
/// its rendered visual, when it has one.
pub open spec fn displace_requests(c: Map<IVec3, VoxelInfo>, v: IVec3) -> Seq<RenderRequest> {
    if c.dom().contains(v) {
        match c[v].rendered {
            Some(e) => seq![RenderRequest::Despawn(e)],
            None => Seq::empty(),
        }
    } else {
        Seq::empty()
    }
}

/// What the protected removal records: nothing at the origin.
pub open spec fn removal_log(c: Map<IVec3, VoxelInfo>, v: IVec3) -> Seq<UndoEntry> {
    if v == origin_cell() {
        Seq::empty()
    } else {
        displace_log(c, v)
    }
}

/// What the protected removal requests: nothing at the origin.
pub open spec fn removal_requests(c: Map<IVec3, VoxelInfo>, v: IVec3) -> Seq<RenderRequest> {
    if v == origin_cell() {
        Seq::empty()
    } else {
        displace_requests(c, v)
    }
}

/// The requests `redraw_voxel(v)` issues on a present cell: the old
/// visual's despawn when one was stored, then the redraw; nothing on an
/// absent cell.
pub open spec fn redraw_requests(c: Map<IVec3, VoxelInfo>, v: IVec3) -> Seq<RenderRequest> {
    if c.dom().contains(v) {
        match c[v].rendered {
            Some(e) => seq![RenderRequest::Despawn(e), RenderRequest::Redraw(v)],
            None => seq![RenderRequest::Redraw(v)],
        }
    } else {
        Seq::empty()
    }
}

/// The accumulated offset of a column: the stored value, or zero when the
/// column has no entry.
pub open spec fn shift_at(s: Map<IVec2, i32>, c: IVec2) -> int {
    if s.dom().contains(c) {
        s[c] as int
    } else {
        0
    }
}

/// Moves a column's accumulated offset by `d`, keeping the map canonical:
/// a column whose offset returns to zero loses its entry.
pub open spec fn shift_upd(s: Map<IVec2, i32>, c: IVec2, d: int) -> Map<IVec2, i32> {
    let v = shift_at(s, c) + d;
    if v == 0 {
        s.remove(c)
    } else {
        s.insert(c, v as i32)
    }
}

/// The column-shift map after `shift_column(c, by)` on one column: the
/// update applies unless it would push the accumulated offset out of
/// bounds, in which case nothing changes.
pub open spec fn shift_apply(s: Map<IVec2, i32>, c: IVec2, by: int) -> Map<IVec2, i32> {
    let v = shift_at(s, c) + by;
    if -SHIFT_LIMIT <= v <= SHIFT_LIMIT {
        shift_upd(s, c, by)
    } else {
        s
    }
}

/// What one undo command does to the material map.
pub open spec fn apply_entry_mats(
    m: Map<IVec3, MaterialId>,
    e: UndoEntry,
) -> Map<IVec3, MaterialId> {
    match e {
        UndoEntry::Reinsert { voxel, material } => m.insert(voxel, material),
        UndoEntry::Delete { voxel } => m.remove(voxel),
        UndoEntry::ShiftColumn { .. } => m,
    }
}

/// What one undo command does to the column-shift map.
pub open spec fn apply_entry_shifts(s: Map<IVec2, i32>, e: UndoEntry) -> Map<IVec2, i32> {
    match e {
        UndoEntry::ShiftColumn { column, amount } => shift_upd(s, column, amount as int),
        _ => s,
    }
}

/// The material map after replaying the undo log backwards down to length
/// `j`: the state the log recorded when it had `j` entries.
pub open spec fn rewind_mats(
    m: Map<IVec3, MaterialId>,
    log: Seq<UndoEntry>,
    j: int,
) -> Map<IVec3, MaterialId>
    decreases log.len(),
{
    if log.len() == 0 || log.len() <= j {
        m
    } else {
        rewind_mats(apply_entry_mats(m, log.last()), log.drop_last(), j)
    }
}

/// The column-shift map after replaying the undo log backwards down to
/// length `j`.
pub open spec fn rewind_shifts(
    s: Map<IVec2, i32>,
    log: Seq<UndoEntry>,
    j: int,
) -> Map<IVec2, i32>
    decreases log.len(),
{
    if log.len() == 0 || log.len() <= j {
        s
    } else {
        rewind_shifts(apply_entry_shifts(s, log.last()), log.drop_last(), j)
    }
}

/// All stored offsets are nonzero and within the shift bound.
pub open spec fn shifts_bounded(s: Map<IVec2, i32>) -> bool {
    forall|c: IVec2| #[trigger] s.dom().contains(c)
        ==> s[c] != 0 && -SHIFT_LIMIT <= s[c] <= SHIFT_LIMIT
}

/// Appending one undo command and applying it right away cancels out: the
/// rewound history is unchanged at every depth the old log covered.
pub proof fn lemma_rewind_push_mats(
    m: Map<IVec3, MaterialId>,
    log: Seq<UndoEntry>,
    e: UndoEntry,
    j: int,
)
    requires
        0 <= j <= log.len(),
    ensures
        rewind_mats(m, log.push(e), j) == rewind_mats(apply_entry_mats(m, e), log, j),
{
    assert(log.push(e).drop_last() =~= log);
    assert(log.push(e).last() == e);
}

/// The column-shift twin of `lemma_rewind_push_mats`.
pub proof fn lemma_rewind_push_shifts(
    s: Map<IVec2, i32>,
    log: Seq<UndoEntry>,
    e: UndoEntry,
    j: int,
)
    requires
        0 <= j <= log.len(),
    ensures
        rewind_shifts(s, log.push(e), j) == rewind_shifts(apply_entry_shifts(s, e), log, j),
{
    assert(log.push(e).drop_last() =~= log);
    assert(log.push(e).last() == e);
}

/// Undoing a column shift restores the exact canonical map it started
/// from, provided no value leaves the 32-bit range.
pub proof fn lemma_shift_upd_inverse(s: Map<IVec2, i32>, c: IVec2, d: int)
    requires
        i32::MIN <= shift_at(s, c) + d <= i32::MAX,
        shifts_bounded(s),
    ensures
        shift_upd(shift_upd(s, c, d), c, -d) == s,
{
    let v0 = shift_at(s, c);
    let v1 = v0 + d;
    if v1 == 0 {
        let mid = s.remove(c);
        assert(shift_at(mid, c) == 0);
        if v0 == 0 {
            assert(!s.dom().contains(c));
            assert(mid.remove(c) =~= s);
        } else {
            assert(s.dom().contains(c) && s[c] == v0);
            assert(mid.insert(c, v0 as i32) =~= s);
        }
    } else {
        let mid = s.insert(c, v1 as i32);
        assert(shift_at(mid, c) == v1);
        if v0 == 0 {
            assert(!s.dom().contains(c));
            assert(mid.remove(c) =~= s);
        } else {
            assert(s.dom().contains(c) && s[c] == v0);
            assert(mid.insert(c, v0 as i32) =~= s);
        }
    }
}

/// Rewinding a log to its own current length changes nothing: a commit
/// boundary taken now records exactly the current logical state. Together
/// with the history preservation that every mutator guarantees and the
/// contract of `undo_last_action`, this is the round-trip undo law: edits
/// made after a boundary, once committed and undone, leave the voxel and
/// column-shift mappings exactly as they were at that boundary.
pub proof fn lemma_rewind_here(
    m: Map<IVec3, MaterialId>,
    s: Map<IVec2, i32>,
    log: Seq<UndoEntry>,
)
    ensures
        rewind_mats(m, log, log.len() as int) == m,
        rewind_shifts(s, log, log.len() as int) == s,
{
}

/// Round-trip undo: when a boundary was taken at `before`'s state and a
/// run of edits carried `before` to `after` while preserving history down
/// to `before`'s log length, rewinding `after` to that boundary yields
/// exactly `before`'s voxel and column-shift mappings — which is the state
/// `undo_last_action` restores when that boundary is the one it pops to.
pub proof fn lemma_round_trip_undo(before: Voxels, after: Voxels)
    requires
        history_preserved(before, after, before.log().len() as int),
    ensures
        rewind_mats(after.mats(), after.log(), before.log().len() as int) == before.mats(),
        rewind_shifts(after.shifts(), after.log(), before.log().len() as int)
            == before.shifts(),
{
    lemma_rewind_here(before.mats(), before.shifts(), before.log());
}

/// Protected origin: removing a voxel — directly, through symmetry, at
/// the origin itself or anywhere else — never changes whether the origin
/// cell is present, nor its material.
pub proof fn lemma_remove_protects_origin(
    m: Map<IVec3, MaterialId>,
    sym: SymmetryKind,
    v: IVec3,
)
    requires
        v.x != i32::MIN,
        v.z != i32::MIN,
    ensures
        mat_remove_result(m, sym, v).dom().contains(origin_cell())
            == m.dom().contains(origin_cell()),
        m.dom().contains(origin_cell())
            ==> mat_remove_result(m, sym, v)[origin_cell()] == m[origin_cell()],
{
    match mirror_of(sym, v) {
        Some(mv) => {
            assert(mv != origin_cell());
        }
        None => {}
    }
}

/// Symmetry pairing: with rotation symmetry, adding a material to a cell
/// off the center column gives the mirrored cell `(-x, y, -z)` the
/// complement material — red yields blue and blue yields red — while the
/// cell itself receives the material as asked, and no other cell changes.
pub proof fn lemma_symmetry_pairing(
    m: Map<IVec3, MaterialId>,
    common: Common,
    v: IVec3,
    mat: MaterialId,
)
    requires
        v.x != i32::MIN,
        v.z != i32::MIN,
        !(v.x == 0 && v.z == 0),
    ensures
        ({
            let mv = mirror_of(SymmetryKind::Rotation, v).unwrap();
            let r = mat_add_result(m, SymmetryKind::Rotation, common, v, mat);
            &&& mv == (IVec3 { x: (-v.x) as i32, y: v.y, z: (-v.z) as i32 })
            &&& mv != v
            &&& r.dom().contains(v) && r[v] == mat
            &&& r.dom().contains(mv) && r[mv] == complement_spec(common, mat)
            &&& mat == common.red_material ==> r[mv] == common.blue_material
            &&& (mat == common.blue_material && mat != common.red_material)
                ==> r[mv] == common.red_material
            &&& forall|p: IVec3| p != v && p != mv
                ==> (#[trigger] r.dom().contains(p) == m.dom().contains(p)
                    && (m.dom().contains(p) ==> r[p] == m[p]))
        }),
{
    let mv = mirror_of(SymmetryKind::Rotation, v).unwrap();
    if v.x != 0 {
        assert(mv.x == -v.x && -v.x != v.x);
    } else {
        assert(v.z != 0 && mv.z == -v.z && -v.z != v.z);
    }
}

/// Editing the exact center column affects only that cell: no symmetry
/// pairing applies there, whatever the symmetry kind.
pub proof fn lemma_center_column_add(
    m: Map<IVec3, MaterialId>,
    sym: SymmetryKind,
    common: Common,
    v: IVec3,
    mat: MaterialId,
)
    requires
        v.x == 0 && v.z == 0,
    ensures
        mat_add_result(m, sym, common, v, mat) == m.insert(v, mat),
        forall|p: IVec3| p != v ==> (#[trigger] mat_add_result(m, sym, common, v, mat).dom().contains(p)
            == m.dom().contains(p)
            && (m.dom().contains(p) ==> mat_add_result(m, sym, common, v, mat)[p] == m[p])),
{
}

/// Whether a shift command's amount is small enough that undoing it can
/// never overflow a 32-bit accumulator.
pub open spec fn entry_amount_ok(e: UndoEntry) -> bool {
    match e {
        UndoEntry::ShiftColumn { column: _, amount } =>
            -2 * SHIFT_LIMIT <= amount <= 2 * SHIFT_LIMIT,
        _ => true,
    }
}

/// The undo history agrees between two worlds at every depth up to
/// `upto`: rewinding either one's log to any boundary at or below that
/// length yields the same voxel mapping and the same column-shift mapping.
/// Every mutator preserves this for the whole log it started with, which
/// is the round-trip undo guarantee: committed work can always be rewound
/// to the exact logical state at any earlier boundary.
pub open spec fn history_preserved(a: Voxels, b: Voxels, upto: int) -> bool {
    forall|j: int| #![trigger rewind_mats(b.mats(), b.log(), j)]
        #![trigger rewind_shifts(b.shifts(), b.log(), j)]
        0 <= j <= upto ==> rewind_mats(b.mats(), b.log(), j) == rewind_mats(a.mats(), a.log(), j)
            && rewind_shifts(b.shifts(), b.log(), j) == rewind_shifts(a.shifts(), a.log(), j)
}

/// History agreement composes across successive operations.
pub proof fn lemma_history_trans(a: Voxels, b: Voxels, c: Voxels)
    requires
        history_preserved(a, b, a.log().len() as int),
        history_preserved(b, c, b.log().len() as int),
        a.log().len() <= b.log().len(),
    ensures
        history_preserved(a, c, a.log().len() as int),
{
    assert forall|j: int|
        0 <= j <= a.log().len()
        implies #[trigger] rewind_mats(c.mats(), c.log(), j) == rewind_mats(a.mats(), a.log(), j)
            && #[trigger] rewind_shifts(c.shifts(), c.log(), j)
                == rewind_shifts(a.shifts(), a.log(), j) by {
        assert(rewind_mats(b.mats(), b.log(), j) == rewind_mats(a.mats(), a.log(), j));
        assert(rewind_shifts(b.shifts(), b.log(), j) == rewind_shifts(a.shifts(), a.log(), j));
    }
}

/// Two worlds with the same logical state and log share their history.
pub proof fn lemma_history_refl(a: Voxels, b: Voxels, upto: int)
    requires
        b.mats() == a.mats(),
        b.shifts() == a.shifts(),
        b.log() == a.log(),
    ensures
        history_preserved(a, b, upto),
{
}

/// Pushing one reversal command whose application restores the previous
/// logical state keeps the whole recorded history intact.
proof fn lemma_push_entry_history(a: Voxels, b: Voxels, e: UndoEntry)
    requires
        b.log() == a.log().push(e),
        apply_entry_mats(b.mats(), e) == a.mats(),
        apply_entry_shifts(b.shifts(), e) == a.shifts(),
    ensures
        history_preserved(a, b, a.log().len() as int),
{
    assert forall|j: int| #![trigger rewind_mats(b.mats(), b.log(), j)]
        #![trigger rewind_shifts(b.shifts(), b.log(), j)]
        0 <= j <= a.log().len() as int
        implies rewind_mats(b.mats(), b.log(), j) == rewind_mats(a.mats(), a.log(), j)
            && rewind_shifts(b.shifts(), b.log(), j) == rewind_shifts(a.shifts(), a.log(), j) by {
        lemma_rewind_push_mats(b.mats(), a.log(), e, j);
        lemma_rewind_push_shifts(b.shifts(), a.log(), e, j);
    }
}

/// Pushing one well-behaved reversal command preserves well-formedness.
proof fn lemma_push_entry_wf(a: Voxels, b: Voxels, e: UndoEntry)
    requires
        a.wf(),
        b.voxel_fill.wf(),
        b.column_shift.wf(),
        b.log() == a.log().push(e),
        b.marks() == a.marks(),
        entry_amount_ok(e),
        apply_entry_shifts(b.shifts(), e) == a.shifts(),
        shifts_bounded(b.shifts()),
    ensures
        b.wf(),
{
    assert forall|j: int| 0 <= j <= b.log().len()
        implies shifts_bounded(#[trigger] rewind_shifts(b.shifts(), b.log(), j)) by {
        if j <= a.log().len() {
            lemma_rewind_push_shifts(b.shifts(), a.log(), e, j);
            assert(shifts_bounded(rewind_shifts(a.shifts(), a.log(), j)));
        }
    }
    assert forall|i: int| 0 <= i < b.log().len()
        implies entry_amount_ok(#[trigger] b.log()[i]) by {
        if i < a.log().len() {
            assert(entry_amount_ok(a.log()[i]));
        }
    }
    assert forall|i: int| 0 <= i < b.marks().len()
        implies (#[trigger] b.marks()[i]).0 <= b.log().len() by {
        assert(a.marks()[i].0 <= a.log().len());
    }
    assert forall|i: int, j: int| #![trigger b.marks()[i], b.marks()[j]]
        0 <= i < j < b.marks().len() implies b.marks()[i].0 <= b.marks()[j].0 by {
        assert(a.marks()[i].0 <= a.marks()[j].0);
    }
}

/// A world whose stores, shifts, log and boundaries match a well-formed
/// one is well-formed itself; lets unrelated updates keep the invariant.
proof fn lemma_unchanged_wf(a: Voxels, b: Voxels)
    requires
        a.wf(),
        b.shifts() == a.shifts(),
        b.log() == a.log(),
        b.marks() == a.marks(),
        b.voxel_fill.wf(),
        b.column_shift.wf(),
    ensures
        b.wf(),
{
    assert forall|j: int| 0 <= j <= b.log().len()
        implies shifts_bounded(#[trigger] rewind_shifts(b.shifts(), b.log(), j)) by {
        assert(shifts_bounded(rewind_shifts(a.shifts(), a.log(), j)));
    }
    assert forall|i: int| 0 <= i < b.log().len()
        implies entry_amount_ok(#[trigger] b.log()[i]) by {
        assert(entry_amount_ok(a.log()[i]));
    }
    assert forall|i: int| 0 <= i < b.marks().len()
        implies (#[trigger] b.marks()[i]).0 <= b.log().len() by {
        assert(a.marks()[i].0 <= a.log().len());
    }
    assert forall|i: int, j: int| #![trigger b.marks()[i], b.marks()[j]]
        0 <= i < j < b.marks().len() implies b.marks()[i].0 <= b.marks()[j].0 by {
        assert(a.marks()[i].0 <= a.marks()[j].0);
    }
}

/// The voxel world: the authoritative sparse voxel state, its undo log,
/// and the commit boundaries that group edits into undoable actions.
pub struct Voxels {
    symmetry: SymmetryKind,
    voxel_fill: VoxelStore,
    /// A shift to apply to all voxels in a column.
    /// The accumulated shift is kept within `SHIFT_LIMIT`.
    column_shift: ShiftStore,
    /// Reversal commands undoing operations on the voxel data.
    undo_log: Vec<UndoEntry>,
    /// The editor state just before applying the last action.
    pub editor_state_before: Option<CommittedEditorState>,
    /// The log lengths to roll back to when performing an 'undo'.
    undo_commit_indexes: Vec<(usize, CommittedEditorState)>,
}

impl Voxels {
    /// The material of every present cell: the logical voxel mapping.
    pub closed spec fn mats(self) -> Map<IVec3, MaterialId> {
        Map::new(
            |p: IVec3| self.voxel_fill.view_map().dom().contains(p),
            |p: IVec3| self.voxel_fill.view_map()[p].material,
        )
    }

    /// The full cell map, weak render back-references included.
    pub closed spec fn cells(self) -> Map<IVec3, VoxelInfo> {
        self.voxel_fill.view_map()
    }

    /// The canonical column-shift mapping: present columns have a nonzero
    /// accumulated offset.
    pub closed spec fn shifts(self) -> Map<IVec2, i32> {
        self.column_shift.view_map()
    }

    /// The undo log as a sequence of reversal commands.
    pub closed spec fn log(self) -> Seq<UndoEntry> {
        self.undo_log@
    }

    /// The commit boundaries: log length and snapshot per user action.
    pub closed spec fn marks(self) -> Seq<(usize, CommittedEditorState)> {
        self.undo_commit_indexes@
    }

    /// The active symmetry.
    pub closed spec fn sym(self) -> SymmetryKind {
        self.symmetry
    }

    /// The snapshot recorded just before the last applied action.
    pub closed spec fn snapshot_before(self) -> Option<CommittedEditorState> {
        self.editor_state_before
    }

    /// Well-formedness: the stores have distinct keys, stored shifts are
    /// nonzero and bounded, every state the undo log can rewind to keeps
    /// its shifts bounded, shift commands carry bounded amounts, and the
    /// commit boundaries are nondecreasing positions inside the log.
    pub closed spec fn wf(self) -> bool {
        &&& self.voxel_fill.wf()
        &&& self.column_shift.wf()
        &&& shifts_bounded(self.shifts())
        &&& (forall|i: int| 0 <= i < self.log().len() ==> entry_amount_ok(#[trigger] self.log()[i]))
        &&& (forall|j: int|
            0 <= j <= self.log().len()
                ==> shifts_bounded(#[trigger] rewind_shifts(self.shifts(), self.log(), j)))
        &&& (forall|i: int| 0 <= i < self.marks().len()
                ==> (#[trigger] self.marks()[i]).0 <= self.log().len())
        &&& (forall|i: int, j: int| #![trigger self.marks()[i], self.marks()[j]]
                0 <= i < j < self.marks().len() ==> self.marks()[i].0 <= self.marks()[j].0)
    }

    /// A fresh world: empty, with rotation symmetry on.
    pub fn new_empty() -> (r: Voxels)
        ensures
            r.wf(),
            r.mats() == Map::<IVec3, MaterialId>::empty(),
            r.shifts() == Map::<IVec2, i32>::empty(),
            r.log() == Seq::<UndoEntry>::empty(),
            r.marks().len() == 0,
            r.sym() == SymmetryKind::Rotation,
            r.snapshot_before() == Option::<CommittedEditorState>::None,
    {
        let r = Voxels {
            symmetry: SymmetryKind::Rotation,
            voxel_fill: VoxelStore::new(),
            column_shift: ShiftStore::new(),
            undo_log: Vec::new(),
            editor_state_before: None,
            undo_commit_indexes: Vec::new(),
        };
        proof {
            assert(r.mats() =~= Map::<IVec3, MaterialId>::empty());
            assert(r.log() =~= Seq::<UndoEntry>::empty());
        }
        r
    }

    /// Switches the symmetry applied to subsequent edits.
    pub fn set_symmetry(&mut self, kind: SymmetryKind)
        requires
            old(self).wf(),
        ensures
            final(self).wf(),
            final(self).sym() == kind,
            final(self).mats() == old(self).mats(),
            final(self).cells() == old(self).cells(),
            final(self).shifts() == old(self).shifts(),
            final(self).log() == old(self).log(),
            final(self).marks() == old(self).marks(),
            final(self).snapshot_before() == old(self).snapshot_before(),
    {
        self.symmetry = kind;
        proof {
            assert(final(self).mats() =~= old(self).mats());
            lemma_unchanged_wf(*old(self), *self);
        }
    }

    /// The mirrored coordinate this edit also affects, if any: nothing on
    /// the center column, otherwise the symmetry's pairing of the cell.
    pub fn apply_symmetry(&self, voxel: IVec3) -> (r: Option<IVec3>)
        requires
            voxel.x != i32::MIN,
            voxel.z != i32::MIN,
        ensures
            r == mirror_of(self.sym(), voxel),
    {
        if voxel.x == 0 && voxel.z == 0 {
            return None;
        }
        match self.symmetry {
            SymmetryKind::Off => None,
            SymmetryKind::Rotation => Some(IVec3 { x: -voxel.x, y: voxel.y, z: -voxel.z }),
            SymmetryKind::MirrorX => Some(IVec3 { x: -voxel.x, y: voxel.y, z: voxel.z }),
        }
    }

    /// Whether a cell is present at the position.
    pub fn has_voxel(&self, voxel: IVec3) -> (r: bool)
        requires
            self.wf(),
        ensures
            r == self.mats().dom().contains(voxel),
    {
        let got = self.voxel_fill.get(voxel);
        got.is_some()
    }

    /// Gets the voxel at the specified location, if any.
    pub fn get_voxel(&self, voxel: IVec3) -> (r: Option<VoxelInfo>)
        requires
            self.wf(),
        ensures
            r == (if self.cells().dom().contains(voxel) {
                Some(self.cells()[voxel])
            } else {
                Option::<VoxelInfo>::None
            }),
    {
        self.voxel_fill.get(voxel)
    }

    /// The material of the cell at the position, if one is present.
    pub fn get_material(&self, voxel: IVec3) -> (r: Option<MaterialId>)
        requires
            self.wf(),
        ensures
            r == (if self.mats().dom().contains(voxel) {
                Some(self.mats()[voxel])
            } else {
                Option::<MaterialId>::None
            }),
    {
        match self.voxel_fill.get(voxel) {
            Some(info) => Some(info.material),
            None => None,
        }
    }

    /// The accumulated vertical render offset of a column.
    pub fn column_shift_of(&self, column: IVec2) -> (r: i32)
        requires
            self.wf(),
        ensures
            r as int == shift_at(self.shifts(), column),
    {
        match self.column_shift.get(column) {
            Some(v) => v,
            None => 0,
        }
    }

    /// Records the rendered visual of a present cell; the engine keeps the
    /// handle only to request a despawn later. Logical state is untouched.
    pub fn set_rendered(&mut self, voxel: IVec3, entity: EntityId)
        requires
            old(self).wf(),
        ensures
            final(self).wf(),
            final(self).mats() == old(self).mats(),
            final(self).cells() == (if old(self).cells().dom().contains(voxel) {
                old(self).cells().insert(
                    voxel,
                    VoxelInfo {
                        material: old(self).cells()[voxel].material,
                        rendered: Some(entity),
                    },
                )
            } else {
                old(self).cells()
            }),
            final(self).shifts() == old(self).shifts(),
            final(self).log() == old(self).log(),
            final(self).marks() == old(self).marks(),
            final(self).sym() == old(self).sym(),
            final(self).snapshot_before() == old(self).snapshot_before(),
    {
        match self.voxel_fill.get(voxel) {
            Some(info) => {
                self.voxel_fill.set(
                    voxel,
                    VoxelInfo { material: info.material, rendered: Some(entity) },
                );
                proof {
                    assert(final(self).mats() =~= old(self).mats());
                    lemma_unchanged_wf(*old(self), *self);
                }
            }
            None => {}
        }
    }

    /// The log length the next undo rolls back to: the boundary below the
    /// one being popped, or the log's start.
    pub open spec fn undo_floor(self) -> int {
        if self.marks().len() >= 2 {
            self.marks()[self.marks().len() - 2].0 as int
        } else {
            0
        }
    }

    /// Applies the reversal commands of the last committed action: pops
    /// the most recent commit boundary, replays the undo log backwards
    /// down to the previous boundary (or the start), and returns the
    /// snapshot recorded at the popped boundary — an empty snapshot when
    /// no boundary was left. Afterwards the voxel and column-shift
    /// mappings are exactly what the log recorded at the target boundary.
    pub fn undo_last_action(&mut self, out: &mut Vec<RenderRequest>) -> (r: CommittedEditorState)
        requires
            old(self).wf(),
        ensures
            final(self).wf(),
            final(self).mats()
                == rewind_mats(old(self).mats(), old(self).log(), old(self).undo_floor()),
            final(self).shifts()
                == rewind_shifts(old(self).shifts(), old(self).log(), old(self).undo_floor()),
            final(self).log() == old(self).log().take(old(self).undo_floor()),
            final(self).marks() == (if old(self).marks().len() == 0 {
                old(self).marks()
            } else {
                old(self).marks().drop_last()
            }),
            final(self).sym() == old(self).sym(),
            final(self).snapshot_before() == old(self).snapshot_before(),
            old(self).marks().len() > 0 ==> r == old(self).marks().last().1,
            old(self).marks().len() == 0 ==> r.selection@.len() == 0,
            old(out)@.is_prefix_of(final(out)@),
    {
        let last_editor_state = match self.undo_commit_indexes.pop() {
            Some(pair) => pair.1,
            None => CommittedEditorState { selection: Vec::new() },
        };

        let n = self.undo_commit_indexes.len();
        let undo_until: usize = if n == 0 {
            0
        } else {
            self.undo_commit_indexes[n - 1].0
        };
        proof {
            assert(undo_until as int == old(self).undo_floor());
            if old(self).marks().len() >= 2 {
                assert(old(self).marks()[old(self).marks().len() - 2].0
                    <= old(self).log().len());
            }
            assert(self.undo_log@ =~= old(self).log().take(self.undo_log@.len() as int));
        }
        let ghost orig = *old(self);

        while self.undo_log.len() > undo_until
            invariant
                self.voxel_fill.wf(),
                self.column_shift.wf(),
                shifts_bounded(self.shifts()),
                undo_until as int <= self.undo_log@.len(),
                self.undo_log@.len() <= orig.log().len(),
                self.undo_log@ == orig.log().take(self.undo_log@.len() as int),
                forall|i: int| 0 <= i < self.undo_log@.len()
                    ==> entry_amount_ok(#[trigger] self.undo_log@[i]),
                forall|j: int| 0 <= j <= self.undo_log@.len()
                    ==> shifts_bounded(
                        #[trigger] rewind_shifts(self.shifts(), self.undo_log@, j),
                    ),
                rewind_mats(self.mats(), self.undo_log@, undo_until as int)
                    == rewind_mats(orig.mats(), orig.log(), undo_until as int),
                rewind_shifts(self.shifts(), self.undo_log@, undo_until as int)
                    == rewind_shifts(orig.shifts(), orig.log(), undo_until as int),
                self.undo_commit_indexes@
                    == (if orig.marks().len() == 0 { orig.marks() } else { orig.marks().drop_last() }),
                self.symmetry == orig.sym(),
                self.editor_state_before == orig.snapshot_before(),
                old(out)@.is_prefix_of(out@),
            decreases self.undo_log@.len(),
        {
            let ghost pre_log = self.undo_log@;
            let ghost pre_state = *self;
            let entry = match self.undo_log.pop() {
                Some(e) => e,
                None => {
                    proof {
                        assert(false);
                    }
                    UndoEntry::Delete { voxel: IVec3 { x: 0, y: 0, z: 0 } }
                }
            };
            proof {
                assert(entry == pre_log.last());
                assert(self.undo_log@ =~= pre_log.drop_last());
                assert(entry_amount_ok(entry));
                // The rewound state one step down is bounded, which is
                // exactly the state this command will produce.
                let inner = apply_entry_shifts(pre_state.shifts(), entry);
                assert(rewind_shifts(inner, pre_log.drop_last(), pre_log.len() - 1) == inner);
                assert(rewind_shifts(pre_state.shifts(), pre_log, pre_log.len() - 1) == inner);
                assert(shifts_bounded(rewind_shifts(
                    pre_state.shifts(), pre_log, pre_log.len() - 1,
                )));
                match entry {
                    UndoEntry::ShiftColumn { column, amount } => {
                        assert(shift_upd(pre_state.shifts(), column, amount as int)
                            == apply_entry_shifts(pre_state.shifts(), entry));
                    }
                    _ => {}
                }
            }
            self.apply_undo_entry(entry, out);
            proof {
                let cur_log = self.undo_log@;
                // Applying the popped command walks the rewind one step.
                assert(cur_log.len() == pre_log.len() - 1);
                assert(pre_log =~= cur_log.push(entry));
                assert forall|j: int| 0 <= j <= cur_log.len()
                    implies rewind_mats(self.mats(), cur_log, j)
                        == rewind_mats(pre_state.mats(), pre_log, j)
                        && rewind_shifts(self.shifts(), cur_log, j)
                            == rewind_shifts(pre_state.shifts(), pre_log, j) by {
                    lemma_rewind_push_mats(pre_state.mats(), cur_log, entry, j);
                    lemma_rewind_push_shifts(pre_state.shifts(), cur_log, entry, j);
                }
                assert forall|j: int| 0 <= j <= cur_log.len()
                    implies shifts_bounded(
                        #[trigger] rewind_shifts(self.shifts(), cur_log, j),
                    ) by {
                    assert(rewind_shifts(self.shifts(), cur_log, j)
                        == rewind_shifts(pre_state.shifts(), pre_log, j));
                    assert(shifts_bounded(rewind_shifts(pre_state.shifts(), pre_log, j)));
                }
                assert(pre_log.len() <= orig.log().len());
                assert forall|i: int| 0 <= i < cur_log.len()
                    implies cur_log[i] == orig.log().take(cur_log.len() as int)[i] by {
                    assert(pre_log == cur_log.push(entry));
                    assert(cur_log[i] == cur_log.push(entry)[i]);
                    assert(pre_log == orig.log().take(pre_log.len() as int));
                    assert(pre_log[i] == orig.log().take(pre_log.len() as int)[i]);
                    assert(pre_log[i] == orig.log()[i]);
                    assert(orig.log().take(cur_log.len() as int)[i] == orig.log()[i]);
                }
                assert(self.undo_log@ =~= orig.log().take(self.undo_log@.len() as int));
                assert forall|i: int| 0 <= i < cur_log.len()
                    implies entry_amount_ok(#[trigger] cur_log[i]) by {
                    assert(cur_log[i] == pre_log[i]);
                    assert(entry_amount_ok(pre_log[i]));
                }
            }
        }

        proof {
            assert(self.undo_log@.len() == undo_until);
            assert(rewind_mats(self.mats(), self.undo_log@, undo_until as int) == self.mats());
            assert(rewind_shifts(self.shifts(), self.undo_log@, undo_until as int)
                == self.shifts());
            // Remaining boundaries all sit at or below the new log length.
            let ms = final(self).marks();
            assert forall|i: int| 0 <= i < ms.len()
                implies (#[trigger] ms[i]).0 <= final(self).log().len() by {
                assert(ms[i] == orig.marks()[i]);
                if i < ms.len() - 1 {
                    assert(orig.marks()[i].0 <= orig.marks()[ms.len() - 1].0);
                } else {
                    assert(orig.marks()[ms.len() - 1].0 as int == undo_until as int);
                }
            }
            assert forall|i: int, j: int| #![trigger ms[i], ms[j]]
                0 <= i < j < ms.len() implies ms[i].0 <= ms[j].0 by {
                assert(orig.marks()[i].0 <= orig.marks()[j].0);
            }
        }
        last_editor_state
    }

    /// Iterates through all of the voxels in the grid: a snapshot of every
    /// present cell, each exactly once.
    pub fn iter_voxels(&self) -> (r: Vec<(IVec3, VoxelInfo)>)
        requires
            self.wf(),
        ensures
            forall|i: int| 0 <= i < r@.len()
                ==> self.cells().dom().contains((#[trigger] r@[i]).0) && self.cells()[r@[i].0] == r@[i].1,
            forall|p: IVec3| self.cells().dom().contains(p)
                ==> exists|i: int| 0 <= i < r@.len() && #[trigger] r@[i] == (p, self.cells()[p]),
            crate::store::distinct_keys(r@),
    {
        let r = self.voxel_fill.pairs();
        proof {
            assert forall|i: int| 0 <= i < r@.len()
                implies self.cells().dom().contains((#[trigger] r@[i]).0)
                    && self.cells()[r@[i].0] == r@[i].1 by {
                crate::store::lemma_assoc_value(self.voxel_fill.entries@, i);
            }
            assert forall|p: IVec3| self.cells().dom().contains(p)
                implies exists|i: int| 0 <= i < r@.len() && #[trigger] r@[i] == (p, self.cells()[p]) by {
                crate::store::lemma_assoc_contains(self.voxel_fill.entries@, p);
                let i = choose|i: int|
                    0 <= i < self.voxel_fill.entries@.len()
                        && (#[trigger] self.voxel_fill.entries@[i]).0 == p;
                crate::store::lemma_assoc_value(self.voxel_fill.entries@, i);
                assert(r@[i] == (p, self.cells()[p]));
            }
        }
        r
    }

    /// Despawns and requests a redraw of the voxel at the given location:
    /// the old visual is asked to despawn, its stored handle is cleared,
    /// and a redraw of the cell is requested. A no-op when no cell is
    /// present. Logical state is untouched.
    pub fn redraw_voxel(&mut self, voxel: IVec3, out: &mut Vec<RenderRequest>)
        requires
            old(self).wf(),
        ensures
            final(self).wf(),
            final(self).mats() == old(self).mats(),
            final(self).cells() == (if old(self).cells().dom().contains(voxel) {
                old(self).cells().insert(
                    voxel,
                    VoxelInfo { material: old(self).cells()[voxel].material, rendered: None },
                )
            } else {
                old(self).cells()
            }),
            final(self).shifts() == old(self).shifts(),
            final(self).log() == old(self).log(),
            final(self).marks() == old(self).marks(),
            final(self).sym() == old(self).sym(),
            final(self).snapshot_before() == old(self).snapshot_before(),
            final(out)@ == old(out)@ + redraw_requests(old(self).cells(), voxel),
    {
        let info = match self.voxel_fill.get(voxel) {
            Some(info) => info,
            None => {
                proof {
                    assert(final(out)@ =~= old(out)@ + redraw_requests(old(self).cells(), voxel));
                }
                return ;
            }
        };
        match info.rendered {
            Some(entity) => {
                // Remove the previous version of the voxel.
                out.push(RenderRequest::Despawn(entity));
            }
            None => {}
        }
        self.voxel_fill.set(voxel, VoxelInfo { material: info.material, rendered: None });
        out.push(RenderRequest::Redraw(voxel));
        proof {
            assert(final(self).mats() =~= old(self).mats());
            assert(final(out)@ =~= old(out)@ + redraw_requests(old(self).cells(), voxel));
            lemma_unchanged_wf(*old(self), *self);
        }
    }

    /// Displaces the cell at the position, whatever it is: removes it if
    /// present, pushing the one reversal command that reinserts it and
    /// requesting the despawn of its visual. The origin protection of
    /// user-level removal does not apply to displacement bookkeeping.
    fn displace_cell(&mut self, voxel: IVec3, out: &mut Vec<RenderRequest>)
        requires
            old(self).wf(),
        ensures
            final(self).wf(),
            final(self).cells() == old(self).cells().remove(voxel),
            final(self).mats() == old(self).mats().remove(voxel),
            final(self).shifts() == old(self).shifts(),
            final(self).sym() == old(self).sym(),
            final(self).marks() == old(self).marks(),
            final(self).snapshot_before() == old(self).snapshot_before(),
            final(self).log() == old(self).log() + displace_log(old(self).cells(), voxel),
            final(out)@ == old(out)@ + displace_requests(old(self).cells(), voxel),
            history_preserved(*old(self), *final(self), old(self).log().len() as int),
    {
        let removed = self.voxel_fill.remove(voxel);
        match removed {
            Some(info) => {
                let entry = UndoEntry::Reinsert { voxel, material: info.material };
                self.undo_log.push(entry);
                match info.rendered {
                    Some(entity) => {
                        out.push(RenderRequest::Despawn(entity));
                    }
                    None => {}
                }
                proof {
                    assert(final(self).mats() =~= old(self).mats().remove(voxel));
                    assert(old(self).mats().dom().contains(voxel));
                    assert(old(self).mats()[voxel] == info.material);
                    assert(apply_entry_mats(final(self).mats(), entry) =~= old(self).mats());
                    lemma_push_entry_history(*old(self), *self, entry);
                    lemma_push_entry_wf(*old(self), *self, entry);
                    assert(final(self).log()
                        =~= old(self).log() + displace_log(old(self).cells(), voxel));
                    assert(final(out)@
                        =~= old(out)@ + displace_requests(old(self).cells(), voxel));
                }
            }
            None => {
                proof {
                    assert(final(self).mats() =~= old(self).mats().remove(voxel));
                    assert(final(self).mats() =~= old(self).mats());
                    lemma_history_refl(*old(self), *self, old(self).log().len() as int);
                    lemma_unchanged_wf(*old(self), *self);
                    assert(final(self).log()
                        =~= old(self).log() + displace_log(old(self).cells(), voxel));
                    assert(final(out)@
                        =~= old(out)@ + displace_requests(old(self).cells(), voxel));
                }
            }
        }
    }

    /// Removes one cell, pushing the reversal command that reinserts it
    /// and requesting the despawn of its visual. A no-op at the protected
    /// origin and on absent cells, recording and requesting nothing.
    fn remove_voxel_internal(&mut self, voxel: IVec3, out: &mut Vec<RenderRequest>)
        requires
            old(self).wf(),
        ensures
            final(self).wf(),
            final(self).cells() == cells_remove_one(old(self).cells(), voxel),
            final(self).mats() == mat_remove_one(old(self).mats(), voxel),
            final(self).shifts() == old(self).shifts(),
            final(self).sym() == old(self).sym(),
            final(self).marks() == old(self).marks(),
            final(self).snapshot_before() == old(self).snapshot_before(),
            final(self).log() == old(self).log() + removal_log(old(self).cells(), voxel),
            final(out)@ == old(out)@ + removal_requests(old(self).cells(), voxel),
            history_preserved(*old(self), *final(self), old(self).log().len() as int),
    {
        if voxel.x == 0 && voxel.y == 0 && voxel.z == 0 {
            proof {
                assert(voxel == origin_cell());
                lemma_history_refl(*old(self), *self, old(self).log().len() as int);
                assert(final(self).log()
                    =~= old(self).log() + removal_log(old(self).cells(), voxel));
                assert(final(out)@ =~= old(out)@ + removal_requests(old(self).cells(), voxel));
            }
            return ;
        }
        self.displace_cell(voxel, out);
    }

    /// Removes the voxel at the position and, when the symmetry pairs it,
    /// at the mirrored position, requesting the despawn of each removed
    /// cell's visual. The origin cell is permanently protected: removing
    /// it is a no-op, and a remove that removes nothing changes nothing —
    /// in particular the undo log is untouched.
    pub fn remove_voxel(&mut self, voxel: IVec3, out: &mut Vec<RenderRequest>)
        requires
            old(self).wf(),
            voxel.x != i32::MIN,
            voxel.z != i32::MIN,
        ensures
            final(self).wf(),
            final(self).cells()
                == cells_remove_result(old(self).cells(), old(self).sym(), voxel),
            final(self).mats() == mat_remove_result(old(self).mats(), old(self).sym(), voxel),
            final(self).shifts() == old(self).shifts(),
            final(self).sym() == old(self).sym(),
            final(self).marks() == old(self).marks(),
            final(self).snapshot_before() == old(self).snapshot_before(),
            ({
                let c1 = cells_remove_one(old(self).cells(), voxel);
                let tail_log = match mirror_of(old(self).sym(), voxel) {
                    Some(mv) => removal_log(c1, mv),
                    None => Seq::<UndoEntry>::empty(),
                };
                let tail_req = match mirror_of(old(self).sym(), voxel) {
                    Some(mv) => removal_requests(c1, mv),
                    None => Seq::<RenderRequest>::empty(),
                };
                &&& final(self).log()
                    == old(self).log() + removal_log(old(self).cells(), voxel) + tail_log
                &&& final(out)@
                    == old(out)@ + removal_requests(old(self).cells(), voxel) + tail_req
            }),
            history_preserved(*old(self), *final(self), old(self).log().len() as int),
    {
        let ghost pre_out = out@;
        let mirror = self.apply_symmetry(voxel);
        self.remove_voxel_internal(voxel, out);
        let ghost mid = *self;
        match mirror {
            Some(mirrored) => {
                self.remove_voxel_internal(mirrored, out);
                proof {
                    lemma_history_trans(*old(self), mid, *self);
                    assert(final(self).log() =~= old(self).log()
                        + removal_log(old(self).cells(), voxel)
                        + removal_log(cells_remove_one(old(self).cells(), voxel), mirrored));
                    assert(final(out)@ =~= pre_out
                        + removal_requests(old(self).cells(), voxel)
                        + removal_requests(cells_remove_one(old(self).cells(), voxel), mirrored));
                }
            }
            None => {
                proof {
                    assert(final(self).log() =~= old(self).log()
                        + removal_log(old(self).cells(), voxel)
                        + Seq::<UndoEntry>::empty());
                    assert(final(out)@ =~= pre_out
                        + removal_requests(old(self).cells(), voxel)
                        + Seq::<RenderRequest>::empty());
                }
            }
        }
    }

    /// Inserts a cell at the position, first displacing whatever was
    /// there; pushes the reversal commands that restore the displaced cell
    /// and take the new cell out again, and requests a redraw. The
    /// displacement records its reversal even at the protected origin, so
    /// undoing an add always restores the exact previous state.
    pub fn add_voxel_internal(&mut self, voxel: IVec3, mat: MaterialId, out: &mut Vec<RenderRequest>)
        requires
            old(self).wf(),
        ensures
            final(self).wf(),
            final(self).mats() == old(self).mats().insert(voxel, mat),
            final(self).cells() == old(self).cells().insert(
                voxel,
                VoxelInfo { material: mat, rendered: None },
            ),
            final(self).shifts() == old(self).shifts(),
            final(self).sym() == old(self).sym(),
            final(self).marks() == old(self).marks(),
            final(self).snapshot_before() == old(self).snapshot_before(),
            final(self).log() == old(self).log() + displace_log(old(self).cells(), voxel)
                + seq![UndoEntry::Delete { voxel }],
            final(out)@ == old(out)@ + displace_requests(old(self).cells(), voxel)
                + seq![RenderRequest::Redraw(voxel)],
            history_preserved(*old(self), *final(self), old(self).log().len() as int),
    {
        // Displace the voxel already present at the location.
        self.displace_cell(voxel, out);
        let ghost mid1 = *self;
        self.voxel_fill.set(voxel, VoxelInfo { material: mat, rendered: None });
        proof {
            assert(self.mats() =~= mid1.mats().insert(voxel, mat));
            lemma_unchanged_wf(mid1, *self);
        }
        self.redraw_voxel(voxel, out);
        let entry = UndoEntry::Delete { voxel };
        self.undo_log.push(entry);
        proof {
            assert(final(self).mats() =~= mid1.mats().insert(voxel, mat));
            assert(final(self).mats() =~= old(self).mats().insert(voxel, mat));
            assert(final(self).cells() =~= old(self).cells().insert(
                voxel,
                VoxelInfo { material: mat, rendered: None },
            ));
            lemma_push_entry_wf(mid1, *self, entry);
            assert(apply_entry_mats(final(self).mats(), entry) =~= mid1.mats());
            lemma_push_entry_history(mid1, *self, entry);
            lemma_history_trans(*old(self), mid1, *self);
            assert(final(self).log() =~= old(self).log()
                + displace_log(old(self).cells(), voxel) + seq![UndoEntry::Delete { voxel }]);
            assert(final(out)@ =~= old(out)@
                + displace_requests(old(self).cells(), voxel)
                + seq![RenderRequest::Redraw(voxel)]);
        }
    }

    /// Adds a voxel with the given material and, when the symmetry pairs
    /// the cell, adds the color-complement material (red and blue swap) at
    /// the mirrored cell. Each insertion displaces what was there with
    /// full reversal bookkeeping, so undo restores the previous state
    /// everywhere, the origin included.
    pub fn add_voxel(
        &mut self,
        common: &Common,
        voxel: IVec3,
        mat: MaterialId,
        out: &mut Vec<RenderRequest>,
    )
        requires
            old(self).wf(),
            voxel.x != i32::MIN,
            voxel.z != i32::MIN,
        ensures
            final(self).wf(),
            final(self).mats()
                == mat_add_result(old(self).mats(), old(self).sym(), *common, voxel, mat),
            final(self).shifts() == old(self).shifts(),
            final(self).sym() == old(self).sym(),
            final(self).marks() == old(self).marks(),
            final(self).snapshot_before() == old(self).snapshot_before(),
            ({
                let c1 = old(self).cells().insert(
                    voxel,
                    VoxelInfo { material: mat, rendered: None },
                );
                let head_log = old(self).log() + displace_log(old(self).cells(), voxel)
                    + seq![UndoEntry::Delete { voxel }];
                let head_req = old(out)@ + displace_requests(old(self).cells(), voxel)
                    + seq![RenderRequest::Redraw(voxel)];
                match mirror_of(old(self).sym(), voxel) {
                    Some(mv) => {
                        &&& final(self).log() == head_log + displace_log(c1, mv)
                            + seq![UndoEntry::Delete { voxel: mv }]
                        &&& final(out)@ == head_req + displace_requests(c1, mv)
                            + seq![RenderRequest::Redraw(mv)]
                    }
                    None => {
                        &&& final(self).log() == head_log
                        &&& final(out)@ == head_req
                    }
                }
            }),
            history_preserved(*old(self), *final(self), old(self).log().len() as int),
    {
        let ghost pre_out = out@;
        let mirror = self.apply_symmetry(voxel);
        self.add_voxel_internal(voxel, mat, out);
        let ghost mid = *self;
        match mirror {
            Some(mirrored) => {
                let complement_material = if mat == common.red_material {
                    common.blue_material
                } else if mat == common.blue_material {
                    common.red_material
                } else {
                    mat
                };
                self.add_voxel_internal(mirrored, complement_material, out);
                proof {
                    lemma_history_trans(*old(self), mid, *self);
                    assert(final(self).log() =~= old(self).log()
                        + displace_log(old(self).cells(), voxel)
                        + seq![UndoEntry::Delete { voxel }]
                        + displace_log(mid.cells(), mirrored)
                        + seq![UndoEntry::Delete { voxel: mirrored }]);
                    assert(final(out)@ =~= pre_out
                        + displace_requests(old(self).cells(), voxel)
                        + seq![RenderRequest::Redraw(voxel)]
                        + displace_requests(mid.cells(), mirrored)
                        + seq![RenderRequest::Redraw(mirrored)]);
                }
            }
            None => {}
        }
    }

    /// A sequence element survives into any extension of the sequence.
    proof fn lemma_contains_prefix(a: Seq<RenderRequest>, b: Seq<RenderRequest>, x: RenderRequest)
        requires
            a.is_prefix_of(b),
            a.contains(x),
        ensures
            b.contains(x),
    {
        let i = choose|i: int| 0 <= i < a.len() && a[i] == x;
        assert(b.take(a.len() as int)[i] == b[i]);
        assert(b[i] == x);
    }

    /// Requests a redraw of every cell in the column.
    fn request_column_redraws(&self, column: IVec2, out: &mut Vec<RenderRequest>)
        requires
            self.voxel_fill.wf(),
        ensures
            old(out)@.is_prefix_of(final(out)@),
            forall|p: IVec3| self.cells().dom().contains(p) && p.spec_xz() == column
                ==> final(out)@.contains(RenderRequest::Redraw(p)),
    {
        let columns = self.voxel_fill.column_positions(column);
        let mut i: usize = 0;
        while i < columns.len()
            invariant
                old(out)@.is_prefix_of(out@),
                0 <= i <= columns@.len(),
                forall|j: int| 0 <= j < i
                    ==> out@.contains(RenderRequest::Redraw(#[trigger] columns@[j])),
            decreases columns@.len() - i,
        {
            let ghost pre = out@;
            out.push(RenderRequest::Redraw(columns[i]));
            proof {
                assert(out@[out@.len() - 1] == RenderRequest::Redraw(columns@[i as int]));
                assert forall|j: int| 0 <= j < i + 1
                    implies out@.contains(RenderRequest::Redraw(#[trigger] columns@[j])) by {
                    if j < i {
                        let idx = choose|idx: int|
                            0 <= idx < pre.len()
                                && pre[idx] == RenderRequest::Redraw(columns@[j]);
                        assert(out@[idx] == RenderRequest::Redraw(columns@[j]));
                    }
                }
            }
            i = i + 1;
        }
        proof {
            assert forall|p: IVec3|
                self.cells().dom().contains(p) && p.spec_xz() == column
                implies final(out)@.contains(RenderRequest::Redraw(p)) by {
                assert(columns@.contains(p));
                let j = choose|j: int| 0 <= j < columns@.len() && columns@[j] == p;
                assert(final(out)@.contains(RenderRequest::Redraw(columns@[j])));
            }
        }
    }

    /// Accumulates a vertical render offset on one column, within the
    /// documented bound; pushes the one reversal command that subtracts it
    /// again and requests a redraw of every cell in the column. An update
    /// that would leave the bound is silently rejected: nothing is
    /// recorded or requested.
    fn shift_column_internal(&mut self, column: IVec2, by: i32, out: &mut Vec<RenderRequest>)
        requires
            old(self).wf(),
        ensures
            final(self).wf(),
            final(self).mats() == old(self).mats(),
            final(self).cells() == old(self).cells(),
            final(self).shifts() == shift_apply(old(self).shifts(), column, by as int),
            final(self).sym() == old(self).sym(),
            final(self).marks() == old(self).marks(),
            final(self).snapshot_before() == old(self).snapshot_before(),
            (if -SHIFT_LIMIT <= shift_at(old(self).shifts(), column) + by <= SHIFT_LIMIT {
                &&& final(self).log() == old(self).log().push(
                    UndoEntry::ShiftColumn { column, amount: (-(by as int)) as i32 },
                )
                &&& old(out)@.is_prefix_of(final(out)@)
                &&& forall|p: IVec3|
                    old(self).cells().dom().contains(p) && p.spec_xz() == column
                        ==> final(out)@.contains(RenderRequest::Redraw(p))
            } else {
                &&& final(self).log() == old(self).log()
                &&& final(out)@ == old(out)@
            }),
            history_preserved(*old(self), *final(self), old(self).log().len() as int),
    {
        let cur: i32 = match self.column_shift.get(column) {
            Some(v) => v,
            None => 0,
        };
        proof {
            assert(cur as int == shift_at(old(self).shifts(), column));
            if old(self).shifts().dom().contains(column) {
                assert(-SHIFT_LIMIT <= old(self).shifts()[column] <= SHIFT_LIMIT);
            }
        }
        let nv: i64 = cur as i64 + by as i64;
        if nv < -(SHIFT_LIMIT as i64) || nv > SHIFT_LIMIT as i64 {
            // The accumulated offset would leave its bound: reject the edit.
            proof {
                lemma_history_refl(*old(self), *self, old(self).log().len() as int);
            }
            return ;
        }
        if nv == 0 {
            self.column_shift.remove(column);
        } else {
            self.column_shift.set(column, nv as i32);
        }
        proof {
            assert(self.shifts() =~= shift_upd(old(self).shifts(), column, by as int));
            assert forall|c: IVec2| #[trigger] self.shifts().dom().contains(c)
                implies self.shifts()[c] != 0
                    && -SHIFT_LIMIT <= self.shifts()[c] <= SHIFT_LIMIT by {
                if c != column {
                    assert(old(self).shifts().dom().contains(c));
                }
            }
        }
        let entry = UndoEntry::ShiftColumn { column, amount: -by };
        self.undo_log.push(entry);
        proof {
            lemma_shift_upd_inverse(old(self).shifts(), column, by as int);
            assert(apply_entry_shifts(final(self).shifts(), entry)
                == shift_upd(shift_upd(old(self).shifts(), column, by as int), column, -(by as int)));
            lemma_push_entry_wf(*old(self), *self, entry);
            lemma_push_entry_history(*old(self), *self, entry);
        }
        let ghost checkpoint = *self;
        self.request_column_redraws(column, out);
        proof {
            assert(*self == checkpoint);
        }
    }

    /// Shifts the target column up or down, and its mirrored column when
    /// the symmetry pairs it, requesting a redraw of every cell of each
    /// shifted column. The grid coordinates of the cells are untouched;
    /// only their rendered position changes.
    pub fn shift_column(&mut self, column: IVec2, by: i32, out: &mut Vec<RenderRequest>)
        requires
            old(self).wf(),
            column.x != i32::MIN,
            column.y != i32::MIN,
        ensures
            final(self).wf(),
            final(self).mats() == old(self).mats(),
            final(self).cells() == old(self).cells(),
            final(self).shifts() == ({
                let s1 = shift_apply(old(self).shifts(), column, by as int);
                match mirror_of(old(self).sym(), IVec3 { x: column.x, y: 0, z: column.y }) {
                    Some(mv) => shift_apply(s1, mv.spec_xz(), by as int),
                    None => s1,
                }
            }),
            final(self).sym() == old(self).sym(),
            final(self).marks() == old(self).marks(),
            final(self).snapshot_before() == old(self).snapshot_before(),
            ({
                let e1 = UndoEntry::ShiftColumn { column, amount: (-(by as int)) as i32 };
                let head = if -SHIFT_LIMIT <= shift_at(old(self).shifts(), column) + by
                    <= SHIFT_LIMIT {
                    seq![e1]
                } else {
                    Seq::<UndoEntry>::empty()
                };
                let s1 = shift_apply(old(self).shifts(), column, by as int);
                let tail = match mirror_of(old(self).sym(), IVec3 { x: column.x, y: 0, z: column.y }) {
                    Some(mv) => if -SHIFT_LIMIT <= shift_at(s1, mv.spec_xz()) + by <= SHIFT_LIMIT {
                        seq![
                            UndoEntry::ShiftColumn {
                                column: mv.spec_xz(),
                                amount: (-(by as int)) as i32,
                            },
                        ]
                    } else {
                        Seq::<UndoEntry>::empty()
                    },
                    None => Seq::<UndoEntry>::empty(),
                };
                final(self).log() == old(self).log() + head + tail
            }),
            old(out)@.is_prefix_of(final(out)@),
            (-SHIFT_LIMIT <= shift_at(old(self).shifts(), column) + by <= SHIFT_LIMIT)
                ==> forall|p: IVec3|
                    old(self).cells().dom().contains(p) && p.spec_xz() == column
                        ==> final(out)@.contains(RenderRequest::Redraw(p)),
            (match mirror_of(old(self).sym(), IVec3 { x: column.x, y: 0, z: column.y }) {
                Some(mv) => {
                    let s1 = shift_apply(old(self).shifts(), column, by as int);
                    (-SHIFT_LIMIT <= shift_at(s1, mv.spec_xz()) + by <= SHIFT_LIMIT)
                        ==> forall|p: IVec3|
                            old(self).cells().dom().contains(p) && p.spec_xz() == mv.spec_xz()
                                ==> final(out)@.contains(RenderRequest::Redraw(p))
                }
                None => true,
            }),
            history_preserved(*old(self), *final(self), old(self).log().len() as int),
    {
        let ghost pre_out = out@;
        let mirror = self.apply_symmetry(IVec3 { x: column.x, y: 0, z: column.y });
        self.shift_column_internal(column, by, out);
        let ghost mid = *self;
        let ghost mid_out = out@;
        match mirror {
            Some(symmetric_voxel) => {
                self.shift_column_internal(symmetric_voxel.xz(), by, out);
                proof {
                    lemma_history_trans(*old(self), mid, *self);
                    let s1 = shift_apply(old(self).shifts(), column, by as int);
                    let mv_col = symmetric_voxel.spec_xz();
                    if -SHIFT_LIMIT <= shift_at(old(self).shifts(), column) + by <= SHIFT_LIMIT {
                        assert(mid_out.is_prefix_of(final(out)@));
                        assert forall|p: IVec3|
                            old(self).cells().dom().contains(p) && p.spec_xz() == column
                            implies final(out)@.contains(RenderRequest::Redraw(p)) by {
                            assert(mid_out.contains(RenderRequest::Redraw(p)));
                            Self::lemma_contains_prefix(
                                mid_out,
                                final(out)@,
                                RenderRequest::Redraw(p),
                            );
                        }
                    }
                    assert(final(self).log() =~= old(self).log()
                        + (if -SHIFT_LIMIT <= shift_at(old(self).shifts(), column) + by
                            <= SHIFT_LIMIT {
                            seq![
                                UndoEntry::ShiftColumn {
                                    column,
                                    amount: (-(by as int)) as i32,
                                },
                            ]
                        } else {
                            Seq::<UndoEntry>::empty()
                        })
                        + (if -SHIFT_LIMIT <= shift_at(s1, mv_col) + by <= SHIFT_LIMIT {
                            seq![
                                UndoEntry::ShiftColumn {
                                    column: mv_col,
                                    amount: (-(by as int)) as i32,
                                },
                            ]
                        } else {
                            Seq::<UndoEntry>::empty()
                        }));
                }
            }
            None => {
                proof {
                    let head = if -SHIFT_LIMIT <= shift_at(old(self).shifts(), column) + by
                        <= SHIFT_LIMIT {
                        seq![
                            UndoEntry::ShiftColumn { column, amount: (-(by as int)) as i32 },
                        ]
                    } else {
                        Seq::<UndoEntry>::empty()
                    };
                    assert(final(self).log() =~= old(self).log() + head
                        + Seq::<UndoEntry>::empty());
                }
            }
        }
    }

    /// Applies one reversal command to the logical state, requesting the
    /// redraws and despawns it entails. The protected-origin rule does not
    /// apply here: a command always restores exactly what it recorded.
    fn apply_undo_entry(&mut self, entry: UndoEntry, out: &mut Vec<RenderRequest>)
        requires
            old(self).voxel_fill.wf(),
            old(self).column_shift.wf(),
            shifts_bounded(old(self).shifts()),
            entry_amount_ok(entry),
            (match entry {
                UndoEntry::ShiftColumn { column, amount } =>
                    shifts_bounded(shift_upd(old(self).shifts(), column, amount as int)),
                _ => true,
            }),
        ensures
            final(self).voxel_fill.wf(),
            final(self).column_shift.wf(),
            final(self).mats() == apply_entry_mats(old(self).mats(), entry),
            final(self).shifts() == apply_entry_shifts(old(self).shifts(), entry),
            shifts_bounded(final(self).shifts()),
            final(self).log() == old(self).log(),
            final(self).marks() == old(self).marks(),
            final(self).sym() == old(self).sym(),
            final(self).snapshot_before() == old(self).snapshot_before(),
            old(out)@.is_prefix_of(final(out)@),
            (match entry {
                UndoEntry::Reinsert { voxel, material: _ } =>
                    final(out)@ == old(out)@ + seq![RenderRequest::Redraw(voxel)],
                UndoEntry::Delete { voxel } =>
                    final(out)@ == old(out)@ + displace_requests(old(self).cells(), voxel),
                UndoEntry::ShiftColumn { column, amount: _ } => forall|p: IVec3|
                    old(self).cells().dom().contains(p) && p.spec_xz() == column
                        ==> final(out)@.contains(RenderRequest::Redraw(p)),
            }),
    {
        match entry {
            UndoEntry::Reinsert { voxel, material } => {
                // Re-insert and request a redraw of the removed voxel.
                self.voxel_fill.set(voxel, VoxelInfo { material, rendered: None });
                out.push(RenderRequest::Redraw(voxel));
                proof {
                    assert(final(self).mats() =~= apply_entry_mats(old(self).mats(), entry));
                    assert(final(out)@ =~= old(out)@ + seq![RenderRequest::Redraw(voxel)]);
                }
            }
            UndoEntry::Delete { voxel } => {
                match self.voxel_fill.remove(voxel) {
                    Some(info) => {
                        match info.rendered {
                            Some(entity) => {
                                out.push(RenderRequest::Despawn(entity));
                            }
                            None => {}
                        }
                    }
                    None => {}
                }
                proof {
                    assert(final(self).mats() =~= apply_entry_mats(old(self).mats(), entry));
                    assert(final(out)@
                        =~= old(out)@ + displace_requests(old(self).cells(), entry->Delete_voxel));
                }
            }
            UndoEntry::ShiftColumn { column, amount } => {
                let cur: i32 = match self.column_shift.get(column) {
                    Some(v) => v,
                    None => 0,
                };
                proof {
                    assert(cur as int == shift_at(old(self).shifts(), column));
                    if old(self).shifts().dom().contains(column) {
                        assert(-SHIFT_LIMIT <= old(self).shifts()[column] <= SHIFT_LIMIT);
                    }
                }
                let nv: i64 = cur as i64 + amount as i64;
                proof {
                    let su = shift_upd(old(self).shifts(), column, amount as int);
                    if nv != 0 {
                        assert(su.dom().contains(column));
                        assert(-SHIFT_LIMIT <= su[column] <= SHIFT_LIMIT);
                    }
                }
                if nv == 0 {
                    self.column_shift.remove(column);
                } else {
                    self.column_shift.set(column, nv as i32);
                }
                proof {
                    assert(final(self).shifts()
                        =~= shift_upd(old(self).shifts(), column, amount as int));
                    assert(final(self).mats() =~= old(self).mats());
                }
                let ghost checkpoint = *self;
                self.request_column_redraws(column, out);
                proof {
                    assert(*self == checkpoint);
                    assert(self.cells() == old(self).cells());
                }
            }
        }
    }

    /// Returns whether there are uncommitted low-level edits since the
    /// last commit boundary.
    pub fn has_changes_to_commit(&self) -> (r: bool)
        requires
            self.wf(),
        ensures
            r == (self.marks().len() == 0
                || self.marks().last().0 != self.log().len()),
    {
        let n = self.undo_commit_indexes.len();
        if n == 0 {
            true
        } else {
            self.undo_commit_indexes[n - 1].0 != self.undo_log.len()
        }
    }

    /// Records a commit boundary: all edits since the previous boundary
    /// form one user-visible action, restoring the given snapshot on undo.
    ///
    /// Call `has_changes_to_commit` before calling this function.
    pub fn commit_changes(&mut self, editor_state: CommittedEditorState)
        requires
            old(self).wf(),
        ensures
            final(self).wf(),
            final(self).mats() == old(self).mats(),
            final(self).cells() == old(self).cells(),
            final(self).shifts() == old(self).shifts(),
            final(self).log() == old(self).log(),
            final(self).sym() == old(self).sym(),
            final(self).snapshot_before() == old(self).snapshot_before(),
            final(self).marks()
                == old(self).marks().push((old(self).log().len() as usize, editor_state)),
    {
        let idx = self.undo_log.len();
        self.undo_commit_indexes.push((idx, editor_state));
        proof {
            let ms = final(self).marks();
            let oms = old(self).marks();
            assert forall|i: int, j: int| #![trigger ms[i], ms[j]]
                0 <= i < j < ms.len() implies ms[i].0 <= ms[j].0 by {
                if j == ms.len() - 1 {
                    assert(oms[i].0 <= old(self).log().len());
                } else {
                    assert(oms[i].0 <= oms[j].0);
                }
            }
            assert forall|i: int| 0 <= i < ms.len()
                implies (#[trigger] ms[i]).0 <= final(self).log().len() by {
                if i < ms.len() - 1 {
                    assert(oms[i].0 <= old(self).log().len());
                }
            }
            assert forall|j: int| 0 <= j <= final(self).log().len()
                implies shifts_bounded(
                    #[trigger] rewind_shifts(final(self).shifts(), final(self).log(), j),
                ) by {
                assert(shifts_bounded(rewind_shifts(old(self).shifts(), old(self).log(), j)));
            }
            assert forall|i: int| 0 <= i < final(self).log().len()
                implies entry_amount_ok(#[trigger] final(self).log()[i]) by {
                assert(entry_amount_ok(old(self).log()[i]));
            }
        }
    }
}

} // verus!
