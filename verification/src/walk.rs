use vstd::prelude::*;

use crate::cooked;
use crate::geometry::{
    composed, degrees_to_radians, radians_of, rotation_x_of, rotation_y_of, rotation_z_of,
    scale_point_xy, scaled_xy, transform_apply, transform_compose, transform_rotation_x,
    transform_rotation_y, transform_rotation_z, transform_translation, transformed, translation_of,
    Transform, Vec3Bits,
};
use crate::mesh::{mesh_wf, quad_indices, Mesh};
use crate::model::{model_wf, seg_wf, spec_disk_size, Model};
use crate::parse::{disks_view, Disk, DiskVertex};

verus! {

/// Which cross-section a placement without a disk of its own falls back to:
/// only the previously active one, or — for a childless placement — a
/// zero-filled ring of the model's default size.
#[derive(Clone, Copy, PartialEq, Eq, Structural, Debug)]
pub enum DefaultCrossSection {
    PreviousOnly,
    ZeroFilled,
}

/// A mathematical snapshot of the mesh buffers.
pub struct MeshSnap {
    pub verts: Seq<Vec3Bits>,
    pub indices: Seq<usize>,
}

pub open spec fn mesh_snap(m: Mesh) -> MeshSnap {
    MeshSnap { verts: m.verts@, indices: m.indices@ }
}

/// The transform after one segment's action: the placement actions translate
/// along local Z by the segment's value, the three rotation actions rotate
/// about local X, Y or Z by the value in degrees, and any other action code
/// leaves the transform unchanged.
pub open spec fn spec_apply_action(xform: Transform, action: i32, value: u32) -> Transform {
    if action == 0 || action == 1 {
        composed(xform, translation_of(0u32, 0u32, value))
    } else if action == 2 {
        composed(xform, rotation_x_of(radians_of(value)))
    } else if action == 3 {
        composed(xform, rotation_y_of(radians_of(value)))
    } else if action == 4 {
        composed(xform, rotation_z_of(radians_of(value)))
    } else {
        xform
    }
}

/// The zero-filled default ring: `n` vertices at the origin, tagged -1.
pub open spec fn spec_null_ring(n: int) -> Seq<DiskVertex> {
    Seq::new(n as nat, |i: int| (Vec3Bits { x: 0u32, y: 0u32, z: 0u32 }, -1i32))
}

/// A ring after scaling each vertex in X/Y and applying the accumulated
/// transform.
pub open spec fn spec_transformed_ring(
    ring: Seq<DiskVertex>,
    xf: Transform,
    sx: u32,
    sy: u32,
) -> Seq<Vec3Bits> {
    ring.map_values(|dv: DiskVertex| transformed(xf, scaled_xy(dv.0, sx, sy)))
}

/// What stitching the previous transformed ring to the new one does to the
/// mesh: both rings are appended and one lateral quad per new-ring vertex is
/// emitted. A pair whose sizes would put an index out of range (possible only
/// when rings of different sizes meet) is skipped, leaving the mesh unchanged.
pub open spec fn spec_loop_step(mesh: MeshSnap, old_ring: Seq<Vec3Bits>, xr: Seq<Vec3Bits>) -> MeshSnap {
    if xr.len() <= mesh.verts.len() + old_ring.len() && mesh.verts.len() + old_ring.len()
        + xr.len() <= usize::MAX {
        MeshSnap {
            verts: mesh.verts + old_ring + xr,
            indices: mesh.indices + (if mesh.verts.len() + old_ring.len() > 0 {
                quad_indices(
                    mesh.verts.len() + old_ring.len() - xr.len(),
                    xr.len() as int,
                )
            } else {
                Seq::<usize>::empty()
            }),
        }
    } else {
        mesh
    }
}

/// The child of a node as an optional value.
pub open spec fn child_of(c: Option<Box<cooked::BodySegment>>) -> Option<cooked::BodySegment> {
    match c {
        Option::Some(b) => Option::Some(*b),
        Option::None => Option::None,
    }
}

/// The raw ring a placement selects: the node's own disk when it has one,
/// else — under the zero-filled policy, for a childless node — the default
/// ring, else the previously active disk, else nothing.
pub open spec fn spec_select_ring(
    disks: Seq<Seq<DiskVertex>>,
    di: cooked::DiskInformation,
    seg: cooked::BodySegment,
    prev_disk: Option<int>,
    disk_size: int,
    policy: DefaultCrossSection,
) -> Option<Seq<DiskVertex>> {
    match di.disk {
        Option::Some(d) => Option::Some(disks[d as int]),
        Option::None => {
            if policy is ZeroFilled && seg.left is None && seg.right is None {
                Option::Some(spec_null_ring(disk_size))
            } else {
                match prev_disk {
                    Option::Some(p) => Option::Some(disks[p]),
                    Option::None => Option::None,
                }
            }
        },
    }
}

/// The mesh after walking one subtree. The walk carries the accumulated
/// transform, the most recently placed disk and its transformed ring; a
/// placement shifts by the record's 2D shift, selects its ring, stitches it
/// to the previous transformed ring, and both children then inherit the
/// updated state independently.
pub open spec fn walk_spec(
    disks: Seq<Seq<DiskVertex>>,
    dinfo: Seq<cooked::DiskInformation>,
    node: Option<cooked::BodySegment>,
    disk_size: int,
    xform: Transform,
    prev_disk: Option<int>,
    prev_ring: Option<Seq<Vec3Bits>>,
    mesh: MeshSnap,
    policy: DefaultCrossSection,
) -> MeshSnap
    decreases node,
{
    match node {
        Option::None => mesh,
        Option::Some(seg) => {
            let xf1 = spec_apply_action(xform, seg.action, seg.value);
            let state = (match seg.disk_info {
                Option::None => (xf1, prev_disk, prev_ring, mesh),
                Option::Some(ii) => {
                    let di = dinfo[ii as int];
                    let xf2 = composed(xf1, translation_of(di.shift_x, di.shift_y, 0u32));
                    match spec_select_ring(disks, di, seg, prev_disk, disk_size, policy) {
                        Option::None => (xf2, prev_disk, prev_ring, mesh),
                        Option::Some(ring) => {
                            let xr = spec_transformed_ring(ring, xf2, di.scale_x, di.scale_y);
                            let m1 = match prev_ring {
                                Option::Some(old_ring) => spec_loop_step(mesh, old_ring, xr),
                                Option::None => mesh,
                            };
                            let pd = match di.disk {
                                Option::Some(d) => Option::Some(d as int),
                                Option::None => Option::None,
                            };
                            (xf2, pd, Option::Some(xr), m1)
                        },
                    }
                },
            });
            let m2 = walk_spec(
                disks,
                dinfo,
                child_of(seg.left),
                disk_size,
                state.0,
                state.1,
                state.2,
                state.3,
                policy,
            );
            walk_spec(
                disks,
                dinfo,
                child_of(seg.right),
                disk_size,
                state.0,
                state.1,
                state.2,
                m2,
                policy,
            )
        },
    }
}

/// The view of an optional borrowed node.
pub open spec fn node_view(n: Option<&cooked::BodySegment>) -> Option<cooked::BodySegment> {
    match n {
        Option::Some(s) => Option::Some(*s),
        Option::None => Option::None,
    }
}

/// The view of an optional previous-disk index.
pub open spec fn prev_disk_view(p: Option<usize>) -> Option<int> {
    match p {
        Option::Some(i) => Option::Some(i as int),
        Option::None => Option::None,
    }
}

/// The view of an optional borrowed transformed ring.
pub open spec fn prev_ring_view(p: Option<&Vec<Vec3Bits>>) -> Option<Seq<Vec3Bits>> {
    match p {
        Option::Some(v) => Option::Some(v@),
        Option::None => Option::None,
    }
}

/// Every disk-information record resolves into the disk list.
pub open spec fn dinfo_wf(dinfo: Seq<cooked::DiskInformation>, disks_len: int) -> bool {
    forall|i: int|
        0 <= i < dinfo.len() ==> (match (#[trigger] dinfo[i]).disk {
            Option::Some(d) => d < disks_len,
            Option::None => true,
        })
}

fn copy_ring(src: &Disk) -> (r: Disk)
    ensures
        r@ == src@,
{
    let mut out: Disk = Vec::new();
    let mut i: usize = 0;
    while i < src.len()
        invariant
            0 <= i <= src@.len(),
            out@ =~= src@.subrange(0, i as int),
        decreases src@.len() - i,
    {
        out.push(src[i]);
        proof {
            assert(src@.subrange(0, i + 1 as int) =~= src@.subrange(0, i as int).push(
                src@[i as int],
            ));
        }
        i = i + 1;
    }
    proof {
        assert(src@.subrange(0, src@.len() as int) =~= src@);
    }
    out
}

fn null_ring(n: usize) -> (r: Disk)
    ensures
        r@ == spec_null_ring(n as int),
{
    let mut out: Disk = Vec::new();
    let mut i: usize = 0;
    while i < n
        invariant
            0 <= i <= n,
            out@ =~= spec_null_ring(n as int).subrange(0, i as int),
        decreases n - i,
    {
        out.push((Vec3Bits { x: 0, y: 0, z: 0 }, -1));
        proof {
            assert(spec_null_ring(n as int).subrange(0, i + 1 as int) =~= spec_null_ring(
                n as int,
            ).subrange(0, i as int).push(spec_null_ring(n as int)[i as int]));
        }
        i = i + 1;
    }
    proof {
        assert(spec_null_ring(n as int).subrange(0, n as int) =~= spec_null_ring(n as int));
    }
    out
}

fn transform_ring(ring: &Disk, xf: &Transform, sx: u32, sy: u32) -> (r: Vec<Vec3Bits>)
    ensures
        r@ == spec_transformed_ring(ring@, *xf, sx, sy),
{
    let ghost target = spec_transformed_ring(ring@, *xf, sx, sy);
    let mut out: Vec<Vec3Bits> = Vec::new();
    let mut i: usize = 0;
    while i < ring.len()
        invariant
            0 <= i <= ring@.len(),
            target == spec_transformed_ring(ring@, *xf, sx, sy),
            target.len() == ring@.len(),
            out@ =~= target.subrange(0, i as int),
        decreases ring@.len() - i,
    {
        let (pos, _tag) = ring[i];
        let v = transform_apply(xf, scale_point_xy(pos, sx, sy));
        out.push(v);
        proof {
            assert(target[i as int] == transformed(*xf, scaled_xy(ring@[i as int].0, sx, sy)));
            assert(target.subrange(0, i + 1 as int) =~= target.subrange(0, i as int).push(
                target[i as int],
            ));
        }
        i = i + 1;
    }
    proof {
        assert(target.subrange(0, target.len() as int) =~= target);
    }
    out
}

/// Walks one subtree of the body tree, accumulating the transform and
/// stitching each placed cross-section to the previous one. The result is
/// exactly what the walk's specification says.
#[verifier::rlimit(100)]
pub fn walk_body(
    disks: &Vec<Disk>,
    disk_info: &Vec<cooked::DiskInformation>,
    node: Option<&cooked::BodySegment>,
    disk_size: usize,
    xform: Transform,
    mesh: &mut Mesh,
    prev_disk: Option<usize>,
    prev_xformd_disk: Option<&Vec<Vec3Bits>>,
    policy: DefaultCrossSection,
)
    requires
        (match node {
            Option::Some(seg) => seg_wf(*seg, disk_info@.len() as int),
            Option::None => true,
        }),
        dinfo_wf(disk_info@, disks@.len() as int),
        (match prev_disk {
            Option::Some(p) => p < disks@.len(),
            Option::None => true,
        }),
        mesh_wf(*old(mesh)),
    ensures
        mesh_wf(*final(mesh)),
        mesh_snap(*final(mesh)) == walk_spec(
            disks_view(disks@),
            disk_info@,
            node_view(node),
            disk_size as int,
            xform,
            prev_disk_view(prev_disk),
            prev_ring_view(prev_xformd_disk),
            mesh_snap(*old(mesh)),
            policy,
        ),
    decreases node,
{
    let seg = match node {
        Some(seg) => seg,
        None => {
            return ;
        },
    };
    let xf1 = if seg.action == 0 || seg.action == 1 {
        transform_compose(&xform, &transform_translation(0, 0, seg.value))
    } else if seg.action == 2 {
        transform_compose(&xform, &transform_rotation_x(degrees_to_radians(seg.value)))
    } else if seg.action == 3 {
        transform_compose(&xform, &transform_rotation_y(degrees_to_radians(seg.value)))
    } else if seg.action == 4 {
        transform_compose(&xform, &transform_rotation_z(degrees_to_radians(seg.value)))
    } else {
        xform
    };
    proof {
        assert(xf1 == spec_apply_action(xform, seg.action, seg.value));
    }
    let mut cur_xform = xf1;
    let mut new_prev_disk = prev_disk;
    let mut placed_ring: Option<Vec<Vec3Bits>> = None;
    let ghost pre_snap = mesh_snap(*mesh);
    if let Some(ii) = seg.disk_info {
        let di = disk_info[ii];
        cur_xform = transform_compose(&cur_xform, &transform_translation(di.shift_x, di.shift_y, 0));
        let no_children = (match &seg.left {
            Some(_) => false,
            None => true,
        }) && (match &seg.right {
            Some(_) => false,
            None => true,
        });
        let ring_src: Option<Disk> = match di.disk {
            Some(d) => Some(copy_ring(&disks[d])),
            None => {
                let use_null = (match policy {
                    DefaultCrossSection::ZeroFilled => no_children,
                    DefaultCrossSection::PreviousOnly => false,
                });
                if use_null {
                    Some(null_ring(disk_size))
                } else {
                    match prev_disk {
                        Some(p) => Some(copy_ring(&disks[p])),
                        None => None,
                    }
                }
            },
        };
        proof {
            let sel = spec_select_ring(
                disks_view(disks@),
                di,
                *seg,
                prev_disk_view(prev_disk),
                disk_size as int,
                policy,
            );
            match &ring_src {
                Option::Some(src) => {
                    assert(sel == Option::Some(src@));
                },
                Option::None => {
                    assert(sel is None);
                },
            }
        }
        if let Some(src) = ring_src {
            let xr = transform_ring(&src, &cur_xform, di.scale_x, di.scale_y);
            if let Some(old_ring) = prev_xformd_disk {
                let vlen = mesh.verts.len();
                let olen = old_ring.len();
                let elen = xr.len();
                let fits1 = olen <= usize::MAX - vlen;
                if fits1 && elen <= vlen + olen && vlen + olen <= usize::MAX - elen {
                    mesh.add_loop(old_ring, &xr);
                }
                proof {
                    assert(mesh_snap(*mesh) == spec_loop_step(pre_snap, old_ring@, xr@));
                }
            }
            new_prev_disk = di.disk;
            placed_ring = Some(xr);
        }
    }
    let ring_for_children: Option<&Vec<Vec3Bits>> = match &placed_ring {
        Some(v) => Some(v),
        None => prev_xformd_disk,
    };
    let left_child: Option<&cooked::BodySegment> = match &seg.left {
        Some(b) => Some(&**b),
        None => None,
    };
    let right_child: Option<&cooked::BodySegment> = match &seg.right {
        Some(b) => Some(&**b),
        None => None,
    };
    walk_body(
        disks,
        disk_info,
        left_child,
        disk_size,
        cur_xform,
        mesh,
        new_prev_disk,
        ring_for_children,
        policy,
    );
    walk_body(
        disks,
        disk_info,
        right_child,
        disk_size,
        cur_xform,
        mesh,
        new_prev_disk,
        ring_for_children,
        policy,
    );
}

/// What walking a whole model from the identity transform produces, starting
/// from an empty mesh.
pub open spec fn spec_build_mesh(m: Model, policy: DefaultCrossSection) -> MeshSnap {
    walk_spec(
        disks_view(m.disks@),
        m.disk_info@,
        child_of(m.body),
        spec_disk_size(m),
        crate::geometry::spec_identity(),
        Option::None,
        Option::None,
        MeshSnap { verts: Seq::empty(), indices: Seq::empty() },
        policy,
    )
}

/// Walks a model's whole body tree into a fresh mesh.
pub fn build_mesh(model: &Model, policy: DefaultCrossSection) -> (r: Mesh)
    requires
        model_wf(*model),
    ensures
        mesh_wf(r),
        mesh_snap(r) == spec_build_mesh(*model, policy),
{
    let mut mesh = Mesh { verts: Vec::new(), indices: Vec::new() };
    let node: Option<&cooked::BodySegment> = match &model.body {
        Some(b) => Some(&**b),
        None => None,
    };
    walk_body(
        &model.disks,
        &model.disk_info,
        node,
        model.disk_size(),
        Transform::identity(),
        &mut mesh,
        None,
        None,
        policy,
    );
    mesh
}

/// A segment that places no cross-section and has no children adds nothing
/// to the mesh, whatever its action code: the walk leaves the mesh exactly
/// as it found it.
pub proof fn lemma_bare_segment_adds_nothing(
    disks: Seq<Seq<DiskVertex>>,
    dinfo: Seq<cooked::DiskInformation>,
    seg: cooked::BodySegment,
    disk_size: int,
    xform: Transform,
    prev_disk: Option<int>,
    prev_ring: Option<Seq<Vec3Bits>>,
    mesh: MeshSnap,
    policy: DefaultCrossSection,
)
    requires
        seg.disk_info is None,
        seg.left is None,
        seg.right is None,
    ensures
        walk_spec(
            disks,
            dinfo,
            Option::Some(seg),
            disk_size,
            xform,
            prev_disk,
            prev_ring,
            mesh,
            policy,
        ) == mesh,
{
    assert(child_of(seg.left) is None);
    assert(child_of(seg.right) is None);
    let xf1 = spec_apply_action(xform, seg.action, seg.value);
    assert(walk_spec(
        disks,
        dinfo,
        Option::None,
        disk_size,
        xf1,
        prev_disk,
        prev_ring,
        mesh,
        policy,
    ) == mesh);
}

/// A model whose body root has no disk information and no children produces
/// an empty mesh: zero vertices and zero faces. (So does a model with no
/// body at all.)
pub proof fn lemma_bare_root_empty_mesh(m: Model, policy: DefaultCrossSection)
    requires
        (match m.body {
            Option::Some(b) => (*b).disk_info is None && (*b).left is None && (*b).right is None,
            Option::None => true,
        }),
    ensures
        spec_build_mesh(m, policy) == (MeshSnap {
            verts: Seq::<Vec3Bits>::empty(),
            indices: Seq::<usize>::empty(),
        }),
{
    let empty = MeshSnap { verts: Seq::<Vec3Bits>::empty(), indices: Seq::<usize>::empty() };
    match m.body {
        Option::Some(b) => {
            lemma_bare_segment_adds_nothing(
                disks_view(m.disks@),
                m.disk_info@,
                *b,
                spec_disk_size(m),
                crate::geometry::spec_identity(),
                Option::None,
                Option::None,
                empty,
                policy,
            );
        },
        Option::None => {},
    }
}

} // verus!
