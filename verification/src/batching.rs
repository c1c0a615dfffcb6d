//! Instanced draw batches: one batch per mesh, with the instances of all batches
//! packed one after the other in a single instance buffer.
use vstd::prelude::*;

verus! {

/// Per-batch info for command generation.
#[derive(Copy, Clone, Debug)]
pub struct BatchInfo {
    pub mesh_index: u32,
    pub instance_offset: u32,
    pub instance_count: u32,
    pub index_count: u32,
}

/// Push constants for the draw command generation shader.
#[derive(Copy, Clone, Debug)]
pub struct GenDrawPushConstants {
    pub batch_count: u32,
    pub _pad: [u32; 3],
}

/// One mesh batch: all entities sharing the same mesh.
pub struct MeshBatch {
    pub mesh_name: String,
    pub instance_offset: u32,  // index into the instance buffer
    pub instance_count: u32,
    pub index_count: u32,
}

/// A group of visible entities that share a mesh: the mesh's name, how many
/// entities draw it, and the mesh's index count.
pub struct MeshGroup {
    pub mesh_name: String,
    pub entity_count: usize,
    pub index_count: u32,
}

/// The batches made from the first `n` groups, as (group position, offset, count),
/// together with the number of instances they take.
pub open spec fn plan(
    groups: Seq<MeshGroup>,
    max_instances: nat,
    max_batches: nat,
    n: nat,
) -> (Seq<(int, nat, nat)>, nat)
    decreases n,
{
    if n == 0 {
        (Seq::empty(), 0)
    } else {
        let (prev, used) = plan(groups, max_instances, max_batches, (n - 1) as nat);
        if prev.len() >= max_batches {
            (prev, used)
        } else {
            let room = max_instances - used;
            let want = groups[n - 1].entity_count as int;
            let count = if want < room {
                want
            } else {
                room
            };
            if count <= 0 {
                (prev, used)
            } else {
                (prev.push((n - 1, used, count as nat)), (used + count) as nat)
            }
        }
    }
}

pub proof fn lemma_plan_bounds(groups: Seq<MeshGroup>, max_instances: nat, max_batches: nat, n: nat)
    ensures
        plan(groups, max_instances, max_batches, n).1 <= max_instances,
        plan(groups, max_instances, max_batches, n).0.len() <= max_batches,
        plan(groups, max_instances, max_batches, n).0.len() <= n,
    decreases n,
{
    if n > 0 {
        lemma_plan_bounds(groups, max_instances, max_batches, (n - 1) as nat);
    }
}

/// Lay out the batches for the groups, in their order: each group gets the next
/// instances of the buffer, as many as it has entities and as still fit in
/// `max_instances`; a group that gets none is skipped, and no batches are made
/// once `max_batches` exist. Returns the batches and the number of instances.
pub fn plan_mesh_batches(groups: Vec<MeshGroup>, max_instances: usize, max_batches: usize) -> (r: (
    Vec<MeshBatch>,
    usize,
))
    ensures
        ({
            let (p, used) = plan(groups@, max_instances as nat, max_batches as nat, groups@.len());
            &&& r.1 == used
            &&& r.0@.len() == p.len()
            &&& forall|b: int|
                0 <= b < p.len() ==> {
                    let (g, off, cnt) = #[trigger] p[b];
                    &&& r.0@[b].mesh_name == groups@[g].mesh_name
                    &&& r.0@[b].instance_offset == off as u32
                    &&& r.0@[b].instance_count == cnt as u32
                    &&& r.0@[b].index_count == groups@[g].index_count
                }
        }),
{
    let ghost gs = groups@;
    let mut batches: Vec<MeshBatch> = Vec::new();
    let mut used: usize = 0;
    let ghost mut n: nat = 0;
    for group in it: groups.into_iter()
        invariant
            it.seq() == gs,
            n == it.index(),
            ({
                let (p, u) = plan(gs, max_instances as nat, max_batches as nat, n);
                &&& used == u
                &&& batches@.len() == p.len()
                &&& forall|b: int|
                    0 <= b < p.len() ==> {
                        let (g, off, cnt) = #[trigger] p[b];
                        &&& batches@[b].mesh_name == gs[g].mesh_name
                        &&& batches@[b].instance_offset == off as u32
                        &&& batches@[b].instance_count == cnt as u32
                        &&& batches@[b].index_count == gs[g].index_count
                    }
            }),
    {
        proof {
            lemma_plan_bounds(gs, max_instances as nat, max_batches as nat, n);
        }
        // Once the batches are full every later group is skipped.
        if batches.len() < max_batches {
            let offset = used as u32;
            let room = max_instances - used;
            let count = if group.entity_count < room {
                group.entity_count
            } else {
                room
            };
            if count > 0 {
                batches.push(
                    MeshBatch {
                        mesh_name: group.mesh_name,
                        instance_offset: offset,
                        instance_count: count as u32,
                        index_count: group.index_count,
                    },
                );
                used = used + count;
            }
        }
        proof {
            n = n + 1;
        }
    }
    proof {
        lemma_plan_bounds(gs, max_instances as nat, max_batches as nat, n);
    }
    (batches, used)
}

} // verus!
